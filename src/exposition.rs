//! The exposition text of the metric tree, stated over its model.
use vstd::prelude::*;
use crate::help::{braced, sample_line};
use crate::histogram::{buckets_text, histogram_text, le_text, HistModel, N_BUCKETS};
use crate::labels::join_labels;
use crate::model::{
    DstModel, HttpEndClass, HttpEndModel, HttpResponseClass, RequestModel, ResponseModel,
    RootModel, TransportEndClass, TransportEndModel, TransportModel,
};
use crate::text::{decimal, digit, escape, escape_char};

verus! {

/// The name of the HTTP/2 reason at an index; `UNKNOWN` past the list.
pub open spec fn reason_name(i: u32) -> Seq<char> {
    if i == 0 {
        "NO_ERROR"@
    } else if i == 1 {
        "PROTOCOL_ERROR"@
    } else if i == 2 {
        "INTERNAL_ERROR"@
    } else if i == 3 {
        "FLOW_CONTROL_ERROR"@
    } else if i == 4 {
        "SETTINGS_TIMEOUT"@
    } else if i == 5 {
        "STREAM_CLOSED"@
    } else if i == 6 {
        "FRAME_SIZE_ERROR"@
    } else if i == 7 {
        "REFUSED_STREAM"@
    } else if i == 8 {
        "CANCEL"@
    } else if i == 9 {
        "COMPRESSION_ERROR"@
    } else if i == 10 {
        "CONNECT_ERROR"@
    } else if i == 11 {
        "ENHANCE_YOUR_CALM"@
    } else if i == 12 {
        "INADEQUATE_SECURITY"@
    } else if i == 13 {
        "HTTP_1_1_REQUIRED"@
    } else {
        "UNKNOWN"@
    }
}

/// `classification="success"`.
pub open spec fn success_class() -> Seq<char> {
    "classification=\"success\""@
}

/// `classification="failure"`.
pub open spec fn failure_class() -> Seq<char> {
    "classification=\"failure\""@
}

/// The classification of a connection end.
pub open spec fn transport_end_label(c: TransportEndClass) -> Seq<char> {
    match c {
        TransportEndClass::Success => success_class(),
        TransportEndClass::Failure => failure_class(),
    }
}

/// The labels of responses of class `rc` that ended as `ec`: their
/// classification, then their status code, gRPC status or reset reason.
pub open spec fn response_labels(rc: HttpResponseClass, ec: HttpEndClass) -> Seq<char> {
    match rc {
        HttpResponseClass::Error { reason } => failure_class() + ",error=\""@ + reason_name(reason)
            + "\""@,
        HttpResponseClass::Response { status_code } => match ec {
            HttpEndClass::Eos => (if status_code < 500 {
                success_class()
            } else {
                failure_class()
            }) + ",status_code=\""@ + decimal(status_code as nat) + "\""@,
            HttpEndClass::Grpc { status_code: g } => (if g == 0 {
                success_class()
            } else {
                failure_class()
            }) + ",status_code=\""@ + decimal(status_code as nat) + "\",grpc_status_code=\""@
                + decimal(g as nat) + "\""@,
            HttpEndClass::Error { reason } => failure_class() + ",error=\""@ + reason_name(reason)
                + "\""@,
        },
    }
}

/// The label of an authority.
pub open spec fn authority_label(a: Seq<char>) -> Seq<char> {
    "authority=\""@ + escape(a) + "\""@
}

/// The lines of the connections that ended with one class, under `l`.
pub open spec fn transport_end_text(m: TransportEndModel, l: Seq<char>) -> Seq<char> {
    sample_line("tcp_close_total"@, l, m.close_total as nat) + histogram_text(
        "tcp_connection_duration_ms"@,
        l,
        m.lifetime,
    )
}

/// The lines of each class of connection end, under `l` and its classification.
pub open spec fn transport_ends_text(s: Seq<(TransportEndClass, TransportEndModel)>, l: Seq<char>) -> Seq<
    char,
>
    decreases s.len(),
{
    if s.len() == 0 {
        Seq::empty()
    } else {
        transport_ends_text(s.drop_last(), l) + transport_end_text(
            s.last().1,
            join_labels(l, transport_end_label(s.last().0)),
        )
    }
}

/// The lines of the connections of one peer role under labels `l`.
pub open spec fn transport_text(t: TransportModel, l: Seq<char>) -> Seq<char> {
    sample_line("tcp_open_total"@, l, t.open_total as nat) + sample_line(
        "tcp_open_connections"@,
        l,
        t.open_active as nat,
    ) + sample_line("tcp_read_bytes_total"@, l, t.rx_bytes_total as nat) + sample_line(
        "tcp_write_bytes_total"@,
        l,
        t.tx_bytes_total as nat,
    ) + transport_ends_text(t.ends, l)
}

/// The lines of the responses that ended with one class, under `l`.
pub open spec fn end_metrics_text(m: HttpEndModel, l: Seq<char>) -> Seq<char> {
    histogram_text("response_latency_ms"@, l, m.latency) + sample_line(
        "response_total"@,
        l,
        m.total as nat,
    )
}

/// The lines of each class of end of the responses of class `rc`, under `l` and
/// their response labels.
pub open spec fn response_ends_text(
    rc: HttpResponseClass,
    s: Seq<(HttpEndClass, HttpEndModel)>,
    l: Seq<char>,
) -> Seq<char>
    decreases s.len(),
{
    if s.len() == 0 {
        Seq::empty()
    } else {
        response_ends_text(rc, s.drop_last(), l) + end_metrics_text(
            s.last().1,
            join_labels(l, response_labels(rc, s.last().0)),
        )
    }
}

/// The lines of each response class, under `l`.
pub open spec fn responses_text(s: Seq<(HttpResponseClass, ResponseModel)>, l: Seq<char>) -> Seq<
    char,
>
    decreases s.len(),
{
    if s.len() == 0 {
        Seq::empty()
    } else {
        responses_text(s.drop_last(), l) + response_ends_text(s.last().0, s.last().1.ends, l)
    }
}

/// The lines of the requests of one authority under labels `l`.
pub open spec fn request_text(r: RequestModel, l: Seq<char>) -> Seq<char> {
    sample_line("request_total"@, l, r.total as nat) + responses_text(r.responses, l)
}

/// The lines of each authority, under `l` and its `authority` label.
pub open spec fn requests_text(s: Seq<(Seq<char>, RequestModel)>, l: Seq<char>) -> Seq<char>
    decreases s.len(),
{
    if s.len() == 0 {
        Seq::empty()
    } else {
        requests_text(s.drop_last(), l) + request_text(
            s.last().1,
            join_labels(l, authority_label(s.last().0)),
        )
    }
}

/// The lines of one destination under labels `l`.
pub open spec fn dst_text(d: DstModel, l: Seq<char>) -> Seq<char> {
    transport_text(d.src, join_labels(l, "peer=\"src\""@)) + transport_text(
        d.dst,
        join_labels(l, "peer=\"dst\""@),
    ) + requests_text(d.requests, l)
}

/// The lines of the destinations of one direction, each under `l` and its
/// own labels.
pub open spec fn dsts_text(s: Seq<(Seq<char>, DstModel)>, l: Seq<char>) -> Seq<char>
    decreases s.len(),
{
    if s.len() == 0 {
        Seq::empty()
    } else {
        dsts_text(s.drop_last(), l) + dst_text(s.last().1, join_labels(l, s.last().0))
    }
}

/// The sample lines of the whole tree: the start time of the process, then
/// the inbound and the outbound destinations.
pub open spec fn root_text(r: RootModel) -> Seq<char> {
    sample_line("process_start_time_seconds"@, Seq::empty(), r.start_time as nat) + dsts_text(
        r.inbound.dsts,
        "direction=\"inbound\""@,
    ) + dsts_text(r.outbound.dsts, "direction=\"outbound\""@)
}

/// `s` holds no newline.
pub open spec fn no_newline(s: Seq<char>) -> bool {
    forall|i: int| 0 <= i < s.len() ==> s[i] != '\n'
}

/// `s` is made of whole lines, none of which starts with `#`.
pub open spec fn sample_lines(s: Seq<char>) -> bool {
    &&& (s.len() == 0 || s[s.len() - 1] == '\n')
    &&& forall|i: int| 0 <= i < s.len() && (i == 0 || s[i - 1] == '\n') ==> #[trigger] s[i] != '#'
}

/// A name that can start a sample line.
pub open spec fn line_name(n: Seq<char>) -> bool {
    n.len() > 0 && n[0] != '#' && no_newline(n)
}

proof fn lemma_no_newline_add(a: Seq<char>, b: Seq<char>)
    requires
        no_newline(a),
        no_newline(b),
    ensures
        no_newline(a + b),
{
    assert forall|i: int| 0 <= i < (a + b).len() implies (a + b)[i] != '\n' by {
        if i < a.len() {
            assert((a + b)[i] == a[i]);
        } else {
            assert((a + b)[i] == b[i - a.len()]);
        }
    }
}

proof fn lemma_sample_lines_add(a: Seq<char>, b: Seq<char>)
    requires
        sample_lines(a),
        sample_lines(b),
    ensures
        sample_lines(a + b),
{
    let s = a + b;
    assert forall|i: int| 0 <= i < s.len() && (i == 0 || s[i - 1] == '\n') implies #[trigger] s[i] != '#' by {
        if i < a.len() {
            assert(s[i] == a[i]);
            if i > 0 {
                assert(s[i - 1] == a[i - 1]);
            }
        } else if i == a.len() {
            assert(s[i] == b[0]);
        } else {
            assert(s[i] == b[i - a.len()]);
            assert(s[i - 1] == b[i - 1 - a.len()]);
        }
    }
    if b.len() > 0 {
        assert(s[s.len() - 1] == b[b.len() - 1]);
    } else {
        assert(s =~= a);
    }
}

proof fn lemma_decimal_no_newline(n: nat)
    ensures
        no_newline(decimal(n)),
    decreases n,
{
    if n >= 10 {
        lemma_decimal_no_newline(n / 10);
        lemma_no_newline_add(decimal(n / 10), seq![digit(n % 10)]);
        assert(decimal(n) =~= decimal(n / 10) + seq![digit(n % 10)]);
    }
}

proof fn lemma_escape_no_newline(s: Seq<char>)
    ensures
        no_newline(escape(s)),
    decreases s.len(),
{
    if s.len() > 0 {
        lemma_escape_no_newline(s.drop_last());
        lemma_no_newline_add(escape(s.drop_last()), escape_char(s.last()));
    }
}

proof fn lemma_join_no_newline(a: Seq<char>, b: Seq<char>)
    requires
        no_newline(a),
        no_newline(b),
    ensures
        no_newline(join_labels(a, b)),
{
    if a.len() > 0 && b.len() > 0 {
        lemma_no_newline_add(a, seq![',']);
        lemma_no_newline_add(a + seq![','], b);
    }
}

proof fn lemma_sample_line(name: Seq<char>, l: Seq<char>, v: nat)
    requires
        line_name(name),
        no_newline(l),
    ensures
        sample_lines(sample_line(name, l, v)),
{
    let b = braced(l);
    assert(no_newline(b)) by {
        if l.len() > 0 {
            lemma_no_newline_add(seq!['{'], l);
            lemma_no_newline_add(seq!['{'] + l, seq!['}']);
        }
    }
    lemma_decimal_no_newline(v);
    lemma_no_newline_add(name, b);
    lemma_no_newline_add(name + b, seq![' ']);
    lemma_no_newline_add(name + b + seq![' '], decimal(v));
    let body = name + b + seq![' '] + decimal(v);
    let s = sample_line(name, l, v);
    assert(s =~= body + seq!['\n']);
    assert forall|i: int| 0 <= i < s.len() && (i == 0 || s[i - 1] == '\n') implies #[trigger] s[i] != '#' by {
        if i == 0 {
            assert(s[0] == name[0]);
        } else {
            assert(i - 1 < body.len() ==> s[i - 1] == body[i - 1]);
        }
    }
}

proof fn lemma_name_suffix(name: Seq<char>, suffix: Seq<char>)
    requires
        line_name(name),
        no_newline(suffix),
    ensures
        line_name(name + suffix),
{
    lemma_no_newline_add(name, suffix);
    assert((name + suffix)[0] == name[0]);
}

proof fn lemma_histogram_lines(name: Seq<char>, l: Seq<char>, h: HistModel)
    requires
        line_name(name),
        no_newline(l),
    ensures
        sample_lines(histogram_text(name, l, h)),
{
    reveal_strlit("_bucket");
    reveal_strlit("_sum");
    reveal_strlit("_count");
    lemma_name_suffix(name, "_bucket"@);
    lemma_name_suffix(name, "_sum"@);
    lemma_name_suffix(name, "_count"@);
    lemma_buckets_lines(name, l, h.counts, N_BUCKETS as nat);
    lemma_sample_line(name + "_sum"@, l, h.sum as nat);
    lemma_sample_line(name + "_count"@, l, h.count as nat);
    let a = buckets_text(name, l, h.counts, N_BUCKETS as nat);
    let b = sample_line(name + "_sum"@, l, h.sum as nat);
    let c = sample_line(name + "_count"@, l, h.count as nat);
    lemma_sample_lines_add(a, b);
    lemma_sample_lines_add(a + b, c);
}

proof fn lemma_buckets_lines(name: Seq<char>, l: Seq<char>, counts: Seq<u64>, n: nat)
    requires
        line_name(name + "_bucket"@),
        no_newline(l),
    ensures
        sample_lines(buckets_text(name, l, counts, n)),
    decreases n,
{
    if n > 0 {
        lemma_buckets_lines(name, l, counts, (n - 1) as nat);
        let j = n - 1;
        lemma_le_no_newline(j);
        lemma_join_no_newline(l, le_text(j));
        lemma_sample_line(name + "_bucket"@, join_labels(l, le_text(j)), counts[j] as nat);
        lemma_sample_lines_add(
            buckets_text(name, l, counts, (n - 1) as nat),
            sample_line(name + "_bucket"@, join_labels(l, le_text(j)), counts[j] as nat),
        );
    }
}

proof fn lemma_le_no_newline(j: int)
    ensures
        no_newline(le_text(j)),
{
    reveal_strlit("le=\"");
    reveal_strlit("\"");
    reveal_strlit("+Inf");
    let mid = if j < N_BUCKETS - 1 {
        decimal(crate::histogram::bound(j) as nat)
    } else {
        "+Inf"@
    };
    if j < N_BUCKETS - 1 {
        lemma_decimal_no_newline(crate::histogram::bound(j) as nat);
    }
    lemma_no_newline_add("le=\""@, mid);
    lemma_no_newline_add("le=\""@ + mid, "\""@);
    assert(le_text(j) == "le=\""@ + mid + "\""@);
}

proof fn lemma_literals()
    ensures
        line_name("process_start_time_seconds"@),
        line_name("request_total"@),
        line_name("response_total"@),
        line_name("response_latency_ms"@),
        line_name("tcp_open_total"@),
        line_name("tcp_close_total"@),
        line_name("tcp_open_connections"@),
        line_name("tcp_connection_duration_ms"@),
        line_name("tcp_read_bytes_total"@),
        line_name("tcp_write_bytes_total"@),
        no_newline(success_class()),
        no_newline(failure_class()),
        no_newline("peer=\"src\""@),
        no_newline("peer=\"dst\""@),
        no_newline("direction=\"inbound\""@),
        no_newline("direction=\"outbound\""@),
        no_newline(",error=\""@),
        no_newline("\""@),
        no_newline(",status_code=\""@),
        no_newline("\",grpc_status_code=\""@),
        no_newline("authority=\""@),
{
    reveal_strlit("process_start_time_seconds");
    reveal_strlit("request_total");
    reveal_strlit("response_total");
    reveal_strlit("response_latency_ms");
    reveal_strlit("tcp_open_total");
    reveal_strlit("tcp_close_total");
    reveal_strlit("tcp_open_connections");
    reveal_strlit("tcp_connection_duration_ms");
    reveal_strlit("tcp_read_bytes_total");
    reveal_strlit("tcp_write_bytes_total");
    reveal_strlit("classification=\"success\"");
    reveal_strlit("classification=\"failure\"");
    reveal_strlit("peer=\"src\"");
    reveal_strlit("peer=\"dst\"");
    reveal_strlit("direction=\"inbound\"");
    reveal_strlit("direction=\"outbound\"");
    reveal_strlit(",error=\"");
    reveal_strlit("\"");
    reveal_strlit(",status_code=\"");
    reveal_strlit("\",grpc_status_code=\"");
    reveal_strlit("authority=\"");
}

proof fn lemma_reason_no_newline(i: u32)
    ensures
        no_newline(reason_name(i)),
{
    reveal_strlit("NO_ERROR");
    reveal_strlit("PROTOCOL_ERROR");
    reveal_strlit("INTERNAL_ERROR");
    reveal_strlit("FLOW_CONTROL_ERROR");
    reveal_strlit("SETTINGS_TIMEOUT");
    reveal_strlit("STREAM_CLOSED");
    reveal_strlit("FRAME_SIZE_ERROR");
    reveal_strlit("REFUSED_STREAM");
    reveal_strlit("CANCEL");
    reveal_strlit("COMPRESSION_ERROR");
    reveal_strlit("CONNECT_ERROR");
    reveal_strlit("ENHANCE_YOUR_CALM");
    reveal_strlit("INADEQUATE_SECURITY");
    reveal_strlit("HTTP_1_1_REQUIRED");
    reveal_strlit("UNKNOWN");
}

proof fn lemma_add3(a: Seq<char>, b: Seq<char>, c: Seq<char>)
    requires
        no_newline(a),
        no_newline(b),
        no_newline(c),
    ensures
        no_newline(a + b + c),
{
    lemma_no_newline_add(a, b);
    lemma_no_newline_add(a + b, c);
}

proof fn lemma_response_labels_no_newline(rc: HttpResponseClass, ec: HttpEndClass)
    ensures
        no_newline(response_labels(rc, ec)),
{
    lemma_literals();
    match rc {
        HttpResponseClass::Error { reason } => {
            lemma_reason_no_newline(reason);
            lemma_add3(failure_class(), ",error=\""@, reason_name(reason));
            lemma_no_newline_add(failure_class() + ",error=\""@ + reason_name(reason), "\""@);
        },
        HttpResponseClass::Response { status_code } => match ec {
            HttpEndClass::Eos => {
                let c = if status_code < 500 {
                    success_class()
                } else {
                    failure_class()
                };
                lemma_decimal_no_newline(status_code as nat);
                lemma_add3(c, ",status_code=\""@, decimal(status_code as nat));
                lemma_no_newline_add(c + ",status_code=\""@ + decimal(status_code as nat), "\""@);
            },
            HttpEndClass::Grpc { status_code: g } => {
                let c = if g == 0 {
                    success_class()
                } else {
                    failure_class()
                };
                let d = decimal(status_code as nat);
                let e = decimal(g as nat);
                lemma_decimal_no_newline(status_code as nat);
                lemma_decimal_no_newline(g as nat);
                lemma_add3(c, ",status_code=\""@, d);
                lemma_add3(c + ",status_code=\""@ + d, "\",grpc_status_code=\""@, e);
                lemma_no_newline_add(c + ",status_code=\""@ + d + "\",grpc_status_code=\""@ + e, "\""@);
            },
            HttpEndClass::Error { reason } => {
                lemma_reason_no_newline(reason);
                lemma_add3(failure_class(), ",error=\""@, reason_name(reason));
                lemma_no_newline_add(failure_class() + ",error=\""@ + reason_name(reason), "\""@);
            },
        },
    }
}

proof fn lemma_transport_lines(t: TransportModel, l: Seq<char>)
    requires
        no_newline(l),
    ensures
        sample_lines(transport_text(t, l)),
{
    lemma_literals();
    lemma_sample_line("tcp_open_total"@, l, t.open_total as nat);
    lemma_sample_line("tcp_open_connections"@, l, t.open_active as nat);
    lemma_sample_line("tcp_read_bytes_total"@, l, t.rx_bytes_total as nat);
    lemma_sample_line("tcp_write_bytes_total"@, l, t.tx_bytes_total as nat);
    lemma_transport_ends_lines(t.ends, l);
    let a = sample_line("tcp_open_total"@, l, t.open_total as nat);
    let b = sample_line("tcp_open_connections"@, l, t.open_active as nat);
    let c = sample_line("tcp_read_bytes_total"@, l, t.rx_bytes_total as nat);
    let d = sample_line("tcp_write_bytes_total"@, l, t.tx_bytes_total as nat);
    lemma_sample_lines_add(a, b);
    lemma_sample_lines_add(a + b, c);
    lemma_sample_lines_add(a + b + c, d);
    lemma_sample_lines_add(a + b + c + d, transport_ends_text(t.ends, l));
}

proof fn lemma_transport_ends_lines(s: Seq<(TransportEndClass, TransportEndModel)>, l: Seq<char>)
    requires
        no_newline(l),
    ensures
        sample_lines(transport_ends_text(s, l)),
    decreases s.len(),
{
    if s.len() > 0 {
        lemma_literals();
        lemma_transport_ends_lines(s.drop_last(), l);
        let l2 = join_labels(l, transport_end_label(s.last().0));
        lemma_join_no_newline(l, transport_end_label(s.last().0));
        let m = s.last().1;
        lemma_sample_line("tcp_close_total"@, l2, m.close_total as nat);
        lemma_histogram_lines("tcp_connection_duration_ms"@, l2, m.lifetime);
        lemma_sample_lines_add(
            sample_line("tcp_close_total"@, l2, m.close_total as nat),
            histogram_text("tcp_connection_duration_ms"@, l2, m.lifetime),
        );
        lemma_sample_lines_add(transport_ends_text(s.drop_last(), l), transport_end_text(m, l2));
    }
}

proof fn lemma_response_ends_lines(
    rc: HttpResponseClass,
    s: Seq<(HttpEndClass, HttpEndModel)>,
    l: Seq<char>,
)
    requires
        no_newline(l),
    ensures
        sample_lines(response_ends_text(rc, s, l)),
    decreases s.len(),
{
    if s.len() > 0 {
        lemma_literals();
        lemma_response_ends_lines(rc, s.drop_last(), l);
        let l2 = join_labels(l, response_labels(rc, s.last().0));
        lemma_response_labels_no_newline(rc, s.last().0);
        lemma_join_no_newline(l, response_labels(rc, s.last().0));
        let m = s.last().1;
        lemma_histogram_lines("response_latency_ms"@, l2, m.latency);
        lemma_sample_line("response_total"@, l2, m.total as nat);
        lemma_sample_lines_add(
            histogram_text("response_latency_ms"@, l2, m.latency),
            sample_line("response_total"@, l2, m.total as nat),
        );
        lemma_sample_lines_add(response_ends_text(rc, s.drop_last(), l), end_metrics_text(m, l2));
    }
}

proof fn lemma_responses_lines(s: Seq<(HttpResponseClass, ResponseModel)>, l: Seq<char>)
    requires
        no_newline(l),
    ensures
        sample_lines(responses_text(s, l)),
    decreases s.len(),
{
    if s.len() > 0 {
        lemma_responses_lines(s.drop_last(), l);
        lemma_response_ends_lines(s.last().0, s.last().1.ends, l);
        lemma_sample_lines_add(
            responses_text(s.drop_last(), l),
            response_ends_text(s.last().0, s.last().1.ends, l),
        );
    }
}

proof fn lemma_requests_lines(s: Seq<(Seq<char>, RequestModel)>, l: Seq<char>)
    requires
        no_newline(l),
    ensures
        sample_lines(requests_text(s, l)),
    decreases s.len(),
{
    if s.len() > 0 {
        lemma_literals();
        lemma_requests_lines(s.drop_last(), l);
        let a = authority_label(s.last().0);
        lemma_escape_no_newline(s.last().0);
        lemma_add3("authority=\""@, escape(s.last().0), "\""@);
        lemma_join_no_newline(l, a);
        let l2 = join_labels(l, a);
        let r = s.last().1;
        lemma_sample_line("request_total"@, l2, r.total as nat);
        lemma_responses_lines(r.responses, l2);
        lemma_sample_lines_add(
            sample_line("request_total"@, l2, r.total as nat),
            responses_text(r.responses, l2),
        );
        lemma_sample_lines_add(requests_text(s.drop_last(), l), request_text(r, l2));
    }
}

proof fn lemma_dsts_lines(s: Seq<(Seq<char>, DstModel)>, l: Seq<char>)
    requires
        no_newline(l),
        forall|i: int| 0 <= i < s.len() ==> no_newline(#[trigger] s[i].0),
    ensures
        sample_lines(dsts_text(s, l)),
    decreases s.len(),
{
    if s.len() > 0 {
        lemma_literals();
        let init = s.drop_last();
        assert forall|i: int| 0 <= i < init.len() implies no_newline(#[trigger] init[i].0) by {
            assert(init[i] == s[i]);
        }
        lemma_dsts_lines(init, l);
        assert(no_newline(s[s.len() - 1].0));
        let l2 = join_labels(l, s.last().0);
        lemma_join_no_newline(l, s.last().0);
        let d = s.last().1;
        lemma_join_no_newline(l2, "peer=\"src\""@);
        lemma_join_no_newline(l2, "peer=\"dst\""@);
        lemma_transport_lines(d.src, join_labels(l2, "peer=\"src\""@));
        lemma_transport_lines(d.dst, join_labels(l2, "peer=\"dst\""@));
        lemma_requests_lines(d.requests, l2);
        let a = transport_text(d.src, join_labels(l2, "peer=\"src\""@));
        let b = transport_text(d.dst, join_labels(l2, "peer=\"dst\""@));
        lemma_sample_lines_add(a, b);
        lemma_sample_lines_add(a + b, requests_text(d.requests, l2));
        lemma_sample_lines_add(dsts_text(init, l), dst_text(d, l2));
    }
}

/// No line of the samples starts with `#`, where no destination key holds a
/// newline: the samples add no `# HELP` or `# TYPE` line to a scrape.
pub proof fn lemma_root_lines(m: RootModel)
    requires
        forall|i: int| 0 <= i < m.inbound.dsts.len() ==> no_newline(#[trigger] m.inbound.dsts[i].0),
        forall|i: int| 0 <= i < m.outbound.dsts.len() ==> no_newline(#[trigger] m.outbound.dsts[i].0),
    ensures
        sample_lines(root_text(m)),
{
    lemma_literals();
    assert(no_newline(Seq::<char>::empty()));
    lemma_sample_line("process_start_time_seconds"@, Seq::empty(), m.start_time as nat);
    lemma_dsts_lines(m.inbound.dsts, "direction=\"inbound\""@);
    lemma_dsts_lines(m.outbound.dsts, "direction=\"outbound\""@);
    let a = sample_line("process_start_time_seconds"@, Seq::empty(), m.start_time as nat);
    let b = dsts_text(m.inbound.dsts, "direction=\"inbound\""@);
    let c = dsts_text(m.outbound.dsts, "direction=\"outbound\""@);
    lemma_sample_lines_add(a, b);
    lemma_sample_lines_add(a + b, c);
}

} // verus!
