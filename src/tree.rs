//! The metric tree: per direction, destination, authority and response
//! class, the counters, gauges and histograms that events update.
use vstd::prelude::*;
use indexmap::IndexSet;
use crate::counter::Counter;
use crate::gauge::Gauge;
use crate::histogram::Histogram;
use crate::event::{Direction, Event, Peer, RequestCtx, TransportCtx};
use crate::keys::{codes_of, insert_code, insert_name, names_of, new_codes, new_names};
use crate::exposition::{
    authority_label, dst_text, dsts_text, end_metrics_text, reason_name, request_text,
    requests_text, response_ends_text, response_labels, responses_text, root_text,
    transport_end_label, transport_end_text, transport_ends_text, transport_text,
};
use crate::help::write_value;
use crate::labels::{AppendLabels, DstLabels, FmtLabels, FmtLabelsFn, NoLabels};
use crate::text::{write_decimal, write_escaped};
use crate::model::{
    dst_key, end_code, has_key, reason_index, DstModel, ProxyModel, RootModel, lemma_upsert_at, response_code, transport_end_code, HttpEndClass,
    HttpEndModel, HttpResponseClass, RequestModel, RequestUpdate, ResponseModel, TransportClose,
    TransportEndClass, TransportEndModel, TransportModel,
};

verus! {

fn transport_end_key(c: TransportEndClass) -> (r: (u8, u32))
    ensures
        r == transport_end_code(c),
{
    match c {
        TransportEndClass::Success => (0, 0),
        TransportEndClass::Failure => (1, 0),
    }
}

/// The metrics of the connections that ended with one class.
#[derive(Clone, Debug)]
pub struct TransportEndMetrics {
    close_total: Counter,
    lifetime: Histogram,
}

impl View for TransportEndMetrics {
    type V = TransportEndModel;

    closed spec fn view(&self) -> TransportEndModel {
        TransportEndModel { close_total: self.close_total.0, lifetime: self.lifetime@ }
    }
}

impl TransportEndMetrics {
    fn new() -> (r: TransportEndMetrics)
        ensures
            r@ == TransportEndModel::empty(),
    {
        TransportEndMetrics { close_total: Counter::new(), lifetime: Histogram::new() }
    }

    fn close(&mut self, ms: u64)
        requires
            old(self)@.wf(),
        ensures
            final(self)@ == old(self)@.closed(ms),
            final(self)@.wf(),
    {
        self.lifetime.observe(ms);
        self.close_total.incr();
    }
}

/// The connections of one peer role.
#[derive(Debug)]
pub struct TransportTree {
    open_total: Counter,
    open_active: Gauge,
    rx_bytes_total: Counter,
    tx_bytes_total: Counter,
    end_index: IndexSet<(u8, u32)>,
    by_end: Vec<(TransportEndClass, TransportEndMetrics)>,
}

/// The entries of a connection tree, as values.
pub open spec fn transport_end_entries(v: Seq<(TransportEndClass, TransportEndMetrics)>) -> Seq<
    (TransportEndClass, TransportEndModel),
> {
    v.map_values(|p: (TransportEndClass, TransportEndMetrics)| (p.0, p.1@))
}

impl View for TransportTree {
    type V = TransportModel;

    closed spec fn view(&self) -> TransportModel {
        TransportModel {
            open_total: self.open_total.0,
            open_active: self.open_active.0,
            rx_bytes_total: self.rx_bytes_total.0,
            tx_bytes_total: self.tx_bytes_total.0,
            ends: transport_end_entries(self.by_end@),
        }
    }
}

impl TransportTree {
    /// The model holds, and the index holds the key of each entry.
    pub closed spec fn wf(&self) -> bool {
        &&& self@.wf()
        &&& codes_of(self.end_index) == self.by_end@.map_values(
            |p: (TransportEndClass, TransportEndMetrics)| transport_end_code(p.0),
        )
    }

    /// An empty tree.
    pub fn new() -> (r: TransportTree)
        ensures
            r.wf(),
            r@ == TransportModel::empty(),
    {
        let r = TransportTree {
            open_total: Counter::new(),
            open_active: Gauge::new(),
            rx_bytes_total: Counter::new(),
            tx_bytes_total: Counter::new(),
            end_index: new_codes(),
            by_end: Vec::new(),
        };
        assert(r@.ends =~= Seq::<(TransportEndClass, TransportEndModel)>::empty());
        assert(codes_of(r.end_index) =~= r.by_end@.map_values(
            |p: (TransportEndClass, TransportEndMetrics)| transport_end_code(p.0),
        ));
        r
    }

    fn end_slot(&mut self, class: TransportEndClass) -> (i: usize)
        requires
            old(self).wf(),
        ensures
            final(self).wf(),
            has_key(old(self)@.ends, class) ==> final(self)@ == old(self)@ && i < old(self)@.ends.len()
                && old(self)@.ends[i as int].0 == class,
            !has_key(old(self)@.ends, class) ==> final(self)@ == (TransportModel {
                ends: old(self)@.ends.push((class, TransportEndModel::empty())),
                ..old(self)@
            }) && i == old(self)@.ends.len(),
    {
        let ghost old_codes = codes_of(self.end_index);
        proof {
            if has_key(self@.ends, class) {
                let j = choose|j: int| 0 <= j < self@.ends.len() && self@.ends[j].0 == class;
                assert(old_codes[j] == transport_end_code(class));
            }
            if old_codes.contains(transport_end_code(class)) {
                let j = choose|j: int| 0 <= j < old_codes.len() && old_codes[j] == transport_end_code(class);
                assert(self@.ends[j].0 == class);
            }
        }
        let (i, added) = insert_code(&mut self.end_index, transport_end_key(class));
        if added {
            self.by_end.push((class, TransportEndMetrics::new()));
            proof {
                assert(self@.ends =~= old(self)@.ends.push((class, TransportEndModel::empty())));
                assert(codes_of(self.end_index) =~= self.by_end@.map_values(
                    |p: (TransportEndClass, TransportEndMetrics)| transport_end_code(p.0),
                ));
                assert forall|a: int, b: int|
                    0 <= a < self@.ends.len() && 0 <= b < self@.ends.len() && a != b
                    implies self@.ends[a].0 != self@.ends[b].0 by {
                    if a == old(self)@.ends.len() {
                        assert(old_codes[b] == transport_end_code(self@.ends[b].0));
                    } else if b == old(self)@.ends.len() {
                        assert(old_codes[a] == transport_end_code(self@.ends[a].0));
                    }
                }
                assert forall|a: int| 0 <= a < self@.ends.len() implies (#[trigger] self@.ends[a]).1.wf() by {
                    if a < old(self)@.ends.len() {
                        assert(self@.ends[a] == old(self)@.ends[a]);
                    }
                }
            }
        } else {
            proof {
                assert(old_codes[i as int] == transport_end_code(self@.ends[i as int].0));
            }
        }
        i
    }

    /// Counts a connection that opened.
    pub fn open(&mut self)
        requires
            old(self).wf(),
        ensures
            final(self).wf(),
            final(self)@ == old(self)@.opened(),
    {
        self.open_total.incr();
        self.open_active.incr();
    }

    /// Counts a connection that closed.
    pub fn close(&mut self, c: TransportClose)
        requires
            old(self).wf(),
        ensures
            final(self).wf(),
            final(self)@ == old(self)@.closed(c),
    {
        self.open_active.decr();
        self.rx_bytes_total.add(c.rx_bytes);
        self.tx_bytes_total.add(c.tx_bytes);
        let class = if c.clean {
            TransportEndClass::Success
        } else {
            TransportEndClass::Failure
        };
        let ghost mid = self@;
        let i = self.end_slot(class);
        let ghost mid2 = self@;
        let ghost v2 = self.by_end@;
        self.by_end[i].1.close(c.duration_ms);
        proof {
            let f = |m: TransportEndModel| m.closed(c.duration_ms);
            lemma_upsert_at(mid.ends, mid2.ends, class, i as int, TransportEndModel::empty(), f);
            assert(self@.ends =~= mid2.ends.update(i as int, (class, f(mid2.ends[i as int].1))));
            assert(self.by_end@.map_values(
                |p: (TransportEndClass, TransportEndMetrics)| transport_end_code(p.0),
            ) =~= v2.map_values(|p: (TransportEndClass, TransportEndMetrics)| transport_end_code(p.0)));
            assert forall|a: int| 0 <= a < self@.ends.len() implies (#[trigger] self@.ends[a]).1.wf() by {
                if a != i {
                    assert(self@.ends[a] == mid2.ends[a]);
                }
            }
        }
    }
}

fn end_key(c: HttpEndClass) -> (r: (u8, u32))
    ensures
        r == end_code(c),
{
    match c {
        HttpEndClass::Eos => (0, 0),
        HttpEndClass::Grpc { status_code } => (1, status_code),
        HttpEndClass::Error { reason } => (2, reason),
    }
}

fn response_key(c: HttpResponseClass) -> (r: (u8, u32))
    ensures
        r == response_code(c),
{
    match c {
        HttpResponseClass::Response { status_code } => (0, status_code as u32),
        HttpResponseClass::Error { reason } => (1, reason),
    }
}

/// The responses that ended with one class: how many, and their latency.
#[derive(Clone, Debug)]
pub struct HttpEndMetrics {
    total: Counter,
    latency: Histogram,
}

impl View for HttpEndMetrics {
    type V = HttpEndModel;

    closed spec fn view(&self) -> HttpEndModel {
        HttpEndModel { total: self.total.0, latency: self.latency@ }
    }
}

impl HttpEndMetrics {
    /// No responses yet.
    pub fn new() -> (r: HttpEndMetrics)
        ensures
            r@ == HttpEndModel::empty(),
    {
        HttpEndMetrics { total: Counter::new(), latency: Histogram::new() }
    }

    /// Counts one more response, `ms` after its request opened.
    pub fn add(&mut self, ms: u64)
        requires
            old(self)@.wf(),
        ensures
            final(self)@ == old(self)@.added(ms),
            final(self)@.wf(),
    {
        self.total.incr();
        self.latency.observe(ms);
    }
}

/// The ends of the responses of one class.
#[derive(Debug)]
pub struct HttpResponseTree {
    end_index: IndexSet<(u8, u32)>,
    by_end: Vec<(HttpEndClass, HttpEndMetrics)>,
}

/// The entries of a response tree, as values.
pub open spec fn end_entries(v: Seq<(HttpEndClass, HttpEndMetrics)>) -> Seq<
    (HttpEndClass, HttpEndModel),
> {
    v.map_values(|p: (HttpEndClass, HttpEndMetrics)| (p.0, p.1@))
}

impl View for HttpResponseTree {
    type V = ResponseModel;

    closed spec fn view(&self) -> ResponseModel {
        ResponseModel { ends: end_entries(self.by_end@) }
    }
}

impl HttpResponseTree {
    /// The model holds, and the index holds the key of each entry.
    pub closed spec fn wf(&self) -> bool {
        &&& self@.wf()
        &&& codes_of(self.end_index) == self.by_end@.map_values(
            |p: (HttpEndClass, HttpEndMetrics)| end_code(p.0),
        )
    }

    /// An empty tree.
    pub fn new() -> (r: HttpResponseTree)
        ensures
            r.wf(),
            r@ == ResponseModel::empty(),
    {
        let r = HttpResponseTree { end_index: new_codes(), by_end: Vec::new() };
        assert(r@.ends =~= Seq::<(HttpEndClass, HttpEndModel)>::empty());
        assert(codes_of(r.end_index) =~= r.by_end@.map_values(
            |p: (HttpEndClass, HttpEndMetrics)| end_code(p.0),
        ));
        r
    }

    fn end_slot(&mut self, class: HttpEndClass) -> (i: usize)
        requires
            old(self).wf(),
        ensures
            final(self).wf(),
            has_key(old(self)@.ends, class) ==> final(self)@ == old(self)@ && i < old(self)@.ends.len()
                && old(self)@.ends[i as int].0 == class,
            !has_key(old(self)@.ends, class) ==> final(self)@ == (ResponseModel {
                ends: old(self)@.ends.push((class, HttpEndModel::empty())),
            }) && i == old(self)@.ends.len(),
    {
        let ghost old_codes = codes_of(self.end_index);
        proof {
            if has_key(self@.ends, class) {
                let j = choose|j: int| 0 <= j < self@.ends.len() && self@.ends[j].0 == class;
                assert(old_codes[j] == end_code(class));
            }
            if old_codes.contains(end_code(class)) {
                let j = choose|j: int| 0 <= j < old_codes.len() && old_codes[j] == end_code(class);
                assert(self@.ends[j].0 == class);
            }
        }
        let (i, added) = insert_code(&mut self.end_index, end_key(class));
        if added {
            self.by_end.push((class, HttpEndMetrics::new()));
            proof {
                assert(self@.ends =~= old(self)@.ends.push((class, HttpEndModel::empty())));
                assert(codes_of(self.end_index) =~= self.by_end@.map_values(
                    |p: (HttpEndClass, HttpEndMetrics)| end_code(p.0),
                ));
                assert forall|a: int, b: int|
                    0 <= a < self@.ends.len() && 0 <= b < self@.ends.len() && a != b
                    implies self@.ends[a].0 != self@.ends[b].0 by {
                    if a == old(self)@.ends.len() {
                        assert(old_codes[b] == end_code(self@.ends[b].0));
                    } else if b == old(self)@.ends.len() {
                        assert(old_codes[a] == end_code(self@.ends[a].0));
                    }
                }
                assert forall|a: int| 0 <= a < self@.ends.len() implies (#[trigger] self@.ends[a]).1.wf() by {
                    if a < old(self)@.ends.len() {
                        assert(self@.ends[a] == old(self)@.ends[a]);
                    }
                }
            }
        } else {
            proof {
                assert(old_codes[i as int] == end_code(self@.ends[i as int].0));
            }
        }
        i
    }

    /// Counts a stream that ended as `class`, `ms` after its request opened.
    pub fn end(&mut self, class: HttpEndClass, ms: u64)
        requires
            old(self).wf(),
        ensures
            final(self).wf(),
            final(self)@ == old(self)@.ended(class, ms),
    {
        let ghost mid = self@;
        let i = self.end_slot(class);
        let ghost mid2 = self@;
        let ghost v2 = self.by_end@;
        self.by_end[i].1.add(ms);
        proof {
            let f = |m: HttpEndModel| m.added(ms);
            lemma_upsert_at(mid.ends, mid2.ends, class, i as int, HttpEndModel::empty(), f);
            assert(self@.ends =~= mid2.ends.update(i as int, (class, f(mid2.ends[i as int].1))));
            assert(self.by_end@.map_values(|p: (HttpEndClass, HttpEndMetrics)| end_code(p.0))
                =~= v2.map_values(|p: (HttpEndClass, HttpEndMetrics)| end_code(p.0)));
            assert forall|a: int| 0 <= a < self@.ends.len() implies (#[trigger] self@.ends[a]).1.wf() by {
                if a != i {
                    assert(self@.ends[a] == mid2.ends[a]);
                }
            }
        }
    }
}

/// The requests of one authority: how many, and their responses by class.
#[derive(Clone, Debug)]
pub struct HttpRequestMetrics {
    total: Counter,
}

impl View for HttpRequestMetrics {
    type V = u64;

    closed spec fn view(&self) -> u64 {
        self.total.0
    }
}

impl HttpRequestMetrics {
    /// The number of requests.
    pub fn total(&self) -> (r: u64)
        ensures
            r == self@,
    {
        self.total.0
    }
}

/// The requests of one authority and their responses, by response class.
#[derive(Debug)]
pub struct HttpRequestTree {
    metrics: HttpRequestMetrics,
    rsp_index: IndexSet<(u8, u32)>,
    by_response: Vec<(HttpResponseClass, HttpResponseTree)>,
}

/// The entries of a request tree, as values.
pub open spec fn response_entries(v: Seq<(HttpResponseClass, HttpResponseTree)>) -> Seq<
    (HttpResponseClass, ResponseModel),
> {
    v.map_values(|p: (HttpResponseClass, HttpResponseTree)| (p.0, p.1@))
}

impl View for HttpRequestTree {
    type V = RequestModel;

    closed spec fn view(&self) -> RequestModel {
        RequestModel { total: self.metrics@, responses: response_entries(self.by_response@) }
    }
}

impl HttpRequestTree {
    /// The model holds, each response tree is well formed, and the index
    /// holds the key of each entry.
    pub closed spec fn wf(&self) -> bool {
        &&& self@.wf()
        &&& forall|i: int| 0 <= i < self.by_response@.len() ==> (#[trigger] self.by_response@[i]).1.wf()
        &&& codes_of(self.rsp_index) == self.by_response@.map_values(
            |p: (HttpResponseClass, HttpResponseTree)| response_code(p.0),
        )
    }

    /// An empty tree.
    pub fn new() -> (r: HttpRequestTree)
        ensures
            r.wf(),
            r@ == RequestModel::empty(),
    {
        let r = HttpRequestTree {
            metrics: HttpRequestMetrics { total: Counter::new() },
            rsp_index: new_codes(),
            by_response: Vec::new(),
        };
        assert(r@.responses =~= Seq::<(HttpResponseClass, ResponseModel)>::empty());
        assert(codes_of(r.rsp_index) =~= r.by_response@.map_values(
            |p: (HttpResponseClass, HttpResponseTree)| response_code(p.0),
        ));
        r
    }

    fn response_slot(&mut self, class: HttpResponseClass) -> (i: usize)
        requires
            old(self).wf(),
        ensures
            final(self).wf(),
            i < final(self).by_response@.len(),
            final(self).by_response@[i as int].0 == class,
            has_key(old(self)@.responses, class) ==> final(self)@ == old(self)@ && i < old(
                self,
            )@.responses.len() && old(self)@.responses[i as int].0 == class,
            !has_key(old(self)@.responses, class) ==> final(self)@ == (RequestModel {
                responses: old(self)@.responses.push((class, ResponseModel::empty())),
                ..old(self)@
            }) && i == old(self)@.responses.len(),
    {
        let ghost old_codes = codes_of(self.rsp_index);
        proof {
            if has_key(self@.responses, class) {
                let j = choose|j: int| 0 <= j < self@.responses.len() && self@.responses[j].0 == class;
                assert(old_codes[j] == response_code(class));
            }
            if old_codes.contains(response_code(class)) {
                let j = choose|j: int| 0 <= j < old_codes.len() && old_codes[j] == response_code(class);
                assert(self@.responses[j].0 == class);
            }
        }
        let (i, added) = insert_code(&mut self.rsp_index, response_key(class));
        if added {
            self.by_response.push((class, HttpResponseTree::new()));
            proof {
                let n = old(self)@.responses.len();
                assert(self@.responses =~= old(self)@.responses.push((class, ResponseModel::empty())));
                assert(codes_of(self.rsp_index) =~= self.by_response@.map_values(
                    |p: (HttpResponseClass, HttpResponseTree)| response_code(p.0),
                ));
                assert forall|a: int, b: int|
                    0 <= a < self@.responses.len() && 0 <= b < self@.responses.len() && a != b
                    implies self@.responses[a].0 != self@.responses[b].0 by {
                    if a == n {
                        assert(old_codes[b] == response_code(self@.responses[b].0));
                    } else if b == n {
                        assert(old_codes[a] == response_code(self@.responses[a].0));
                    }
                }
                assert forall|a: int| 0 <= a < self@.responses.len() implies (
                #[trigger] self@.responses[a]).1.wf() by {
                    if a < n {
                        assert(self@.responses[a] == old(self)@.responses[a]);
                    }
                }
                assert forall|a: int| 0 <= a < self.by_response@.len() implies (
                #[trigger] self.by_response@[a]).1.wf() by {
                    if a < n {
                        assert(self.by_response@[a] == old(self).by_response@[a]);
                    }
                }
            }
        } else {
            proof {
                assert(old_codes[i as int] == response_code(self@.responses[i as int].0));
            }
        }
        i
    }

    /// Applies `u` to the requests of this authority.
    pub fn update(&mut self, u: RequestUpdate)
        requires
            old(self).wf(),
        ensures
            final(self).wf(),
            final(self)@ == old(self)@.updated(u),
    {
        match u {
            RequestUpdate::Open => {
                self.metrics.total.incr();
            },
            RequestUpdate::End => {},
            RequestUpdate::Fail { reason, ms } => {
                self.end_response(
                    HttpResponseClass::Error { reason },
                    Some(HttpEndClass::Error { reason }),
                    ms,
                );
            },
            RequestUpdate::ResponseOpen { status_code } => {
                self.end_response(HttpResponseClass::Response { status_code }, None, 0);
            },
            RequestUpdate::ResponseEnd { status_code, end, ms } => {
                self.end_response(HttpResponseClass::Response { status_code }, Some(end), ms);
            },
        }
    }

    /// Finds or adds the response class `class`, and there counts a stream
    /// that ended as `end`, where there is one.
    fn end_response(&mut self, class: HttpResponseClass, end: Option<HttpEndClass>, ms: u64)
        requires
            old(self).wf(),
        ensures
            final(self).wf(),
            final(self)@ == (RequestModel {
                responses: crate::model::upsert(
                    old(self)@.responses,
                    class,
                    ResponseModel::empty(),
                    |r: ResponseModel|
                        match end {
                            Some(e) => r.ended(e, ms),
                            None => r,
                        },
                ),
                ..old(self)@
            }),
    {
        let ghost mid = self@;
        let i = self.response_slot(class);
        let ghost mid2 = self@;
        let ghost v2 = self.by_response@;
        match end {
            Some(e) => {
                self.by_response[i].1.end(e, ms);
            },
            None => {},
        }
        proof {
            let f = |r: ResponseModel|
                match end {
                    Some(e) => r.ended(e, ms),
                    None => r,
                };
            lemma_upsert_at(mid.responses, mid2.responses, class, i as int, ResponseModel::empty(), f);
            assert(self@.responses =~= mid2.responses.update(
                i as int,
                (class, f(mid2.responses[i as int].1)),
            ));
            assert(self.by_response@.map_values(
                |p: (HttpResponseClass, HttpResponseTree)| response_code(p.0),
            ) =~= v2.map_values(|p: (HttpResponseClass, HttpResponseTree)| response_code(p.0)));
            assert forall|a: int| 0 <= a < self@.responses.len() implies (
            #[trigger] self@.responses[a]).1.wf() by {
                if a != i {
                    assert(self@.responses[a] == mid2.responses[a]);
                }
            }
            assert forall|a: int| 0 <= a < self.by_response@.len() implies (
            #[trigger] self.by_response@[a]).1.wf() by {
                if a != i {
                    assert(self.by_response@[a] == v2[a]);
                }
            }
        }
    }
}

/// The metrics of one destination: its connections by peer role, and its
/// HTTP requests by authority.
#[derive(Debug)]
pub struct DstTree {
    src_tcp_metrics: TransportTree,
    dst_tcp_metrics: TransportTree,
    req_index: IndexSet<String>,
    by_http_request: Vec<(String, HttpRequestTree)>,
}

/// The entries of a destination tree, as values.
pub open spec fn request_entries(v: Seq<(String, HttpRequestTree)>) -> Seq<(Seq<char>, RequestModel)> {
    v.map_values(|p: (String, HttpRequestTree)| (p.0@, p.1@))
}

impl View for DstTree {
    type V = DstModel;

    closed spec fn view(&self) -> DstModel {
        DstModel {
            src: self.src_tcp_metrics@,
            dst: self.dst_tcp_metrics@,
            requests: request_entries(self.by_http_request@),
        }
    }
}

impl DstTree {
    /// The model holds, each subtree is well formed, and the index holds the
    /// key of each entry.
    pub closed spec fn wf(&self) -> bool {
        &&& self@.wf()
        &&& self.src_tcp_metrics.wf()
        &&& self.dst_tcp_metrics.wf()
        &&& forall|i: int|
            0 <= i < self.by_http_request@.len() ==> (#[trigger] self.by_http_request@[i]).1.wf()
        &&& names_of(self.req_index) == self.by_http_request@.map_values(
            |p: (String, HttpRequestTree)| p.0@,
        )
    }

    /// An empty tree.
    pub fn new() -> (r: DstTree)
        ensures
            r.wf(),
            r@ == DstModel::empty(),
    {
        let r = DstTree {
            src_tcp_metrics: TransportTree::new(),
            dst_tcp_metrics: TransportTree::new(),
            req_index: new_names(),
            by_http_request: Vec::new(),
        };
        assert(r@.requests =~= Seq::<(Seq<char>, RequestModel)>::empty());
        assert(names_of(r.req_index) =~= r.by_http_request@.map_values(
            |p: (String, HttpRequestTree)| p.0@,
        ));
        r
    }

    /// Counts a connection of role `peer` that opened, or that closed with
    /// `close`.
    pub fn transport_update(&mut self, peer: Peer, close: Option<TransportClose>)
        requires
            old(self).wf(),
        ensures
            final(self).wf(),
            final(self)@ == old(self)@.transport_updated(peer, close),
    {
        match peer {
            Peer::Src => match close {
                Some(c) => self.src_tcp_metrics.close(c),
                None => self.src_tcp_metrics.open(),
            },
            Peer::Dst => match close {
                Some(c) => self.dst_tcp_metrics.close(c),
                None => self.dst_tcp_metrics.open(),
            },
        }
    }

    fn request_slot(&mut self, authority: String) -> (i: usize)
        requires
            old(self).wf(),
        ensures
            final(self).wf(),
            i < final(self).by_http_request@.len(),
            final(self).by_http_request@[i as int].0@ == authority@,
            has_key(old(self)@.requests, authority@) ==> final(self)@ == old(self)@ && i < old(
                self,
            )@.requests.len() && old(self)@.requests[i as int].0 == authority@,
            !has_key(old(self)@.requests, authority@) ==> final(self)@ == (DstModel {
                requests: old(self)@.requests.push((authority@, RequestModel::empty())),
                ..old(self)@
            }) && i == old(self)@.requests.len(),
    {
        let ghost old_names = names_of(self.req_index);
        let ghost k = authority@;
        proof {
            if has_key(self@.requests, k) {
                let j = choose|j: int| 0 <= j < self@.requests.len() && self@.requests[j].0 == k;
                assert(old_names[j] == k);
            }
            if old_names.contains(k) {
                let j = choose|j: int| 0 <= j < old_names.len() && old_names[j] == k;
                assert(self@.requests[j].0 == k);
            }
        }
        let key = authority.clone();
        let (i, added) = insert_name(&mut self.req_index, key);
        if added {
            self.by_http_request.push((authority, HttpRequestTree::new()));
            proof {
                let n = old(self)@.requests.len();
                assert(self@.requests =~= old(self)@.requests.push((k, RequestModel::empty())));
                assert(names_of(self.req_index) =~= self.by_http_request@.map_values(
                    |p: (String, HttpRequestTree)| p.0@,
                ));
                assert forall|a: int, b: int|
                    0 <= a < self@.requests.len() && 0 <= b < self@.requests.len() && a != b
                    implies self@.requests[a].0 != self@.requests[b].0 by {
                    if a == n {
                        assert(old_names[b] == self@.requests[b].0);
                    } else if b == n {
                        assert(old_names[a] == self@.requests[a].0);
                    }
                }
                assert forall|a: int| 0 <= a < self@.requests.len() implies (
                #[trigger] self@.requests[a]).1.wf() by {
                    if a < n {
                        assert(self@.requests[a] == old(self)@.requests[a]);
                    }
                }
                assert forall|a: int| 0 <= a < self.by_http_request@.len() implies (
                #[trigger] self.by_http_request@[a]).1.wf() by {
                    if a < n {
                        assert(self.by_http_request@[a] == old(self).by_http_request@[a]);
                    }
                }
            }
        } else {
            proof {
                assert(old_names[i as int] == self@.requests[i as int].0);
            }
        }
        i
    }

    /// Applies `u` to the requests of `authority`, added first where it is
    /// new.
    pub fn request_update(&mut self, authority: String, u: RequestUpdate)
        requires
            old(self).wf(),
        ensures
            final(self).wf(),
            final(self)@ == old(self)@.request_updated(authority@, u),
    {
        let ghost k = authority@;
        let ghost mid = self@;
        let i = self.request_slot(authority);
        let ghost mid2 = self@;
        let ghost v2 = self.by_http_request@;
        self.by_http_request[i].1.update(u);
        proof {
            let f = |r: RequestModel| r.updated(u);
            lemma_upsert_at(mid.requests, mid2.requests, k, i as int, RequestModel::empty(), f);
            assert(self@.requests =~= mid2.requests.update(i as int, (k, f(mid2.requests[i as int].1))));
            assert(self.by_http_request@.map_values(|p: (String, HttpRequestTree)| p.0@)
                =~= v2.map_values(|p: (String, HttpRequestTree)| p.0@));
            assert forall|a: int| 0 <= a < self@.requests.len() implies (
            #[trigger] self@.requests[a]).1.wf() by {
                if a != i {
                    assert(self@.requests[a] == mid2.requests[a]);
                }
            }
            assert forall|a: int| 0 <= a < self.by_http_request@.len() implies (
            #[trigger] self.by_http_request@[a]).1.wf() by {
                if a != i {
                    assert(self.by_http_request@[a] == v2[a]);
                }
            }
        }
    }
}

/// The metrics of one direction, by destination.
#[derive(Debug)]
pub struct ProxyTree {
    dst_index: IndexSet<String>,
    by_dst: Vec<(String, DstTree)>,
}

/// The entries of a direction tree, as values.
pub open spec fn dst_entries(v: Seq<(String, DstTree)>) -> Seq<(Seq<char>, DstModel)> {
    v.map_values(|p: (String, DstTree)| (p.0@, p.1@))
}

impl View for ProxyTree {
    type V = ProxyModel;

    closed spec fn view(&self) -> ProxyModel {
        ProxyModel { dsts: dst_entries(self.by_dst@) }
    }
}

impl ProxyTree {
    /// The model holds, each subtree is well formed, and the index holds the
    /// key of each entry.
    pub closed spec fn wf(&self) -> bool {
        &&& self@.wf()
        &&& forall|i: int| 0 <= i < self.by_dst@.len() ==> (#[trigger] self.by_dst@[i]).1.wf()
        &&& names_of(self.dst_index) == self.by_dst@.map_values(|p: (String, DstTree)| p.0@)
    }

    /// An empty tree.
    pub fn new() -> (r: ProxyTree)
        ensures
            r.wf(),
            r@ == ProxyModel::empty(),
    {
        let r = ProxyTree { dst_index: new_names(), by_dst: Vec::new() };
        assert(r@.dsts =~= Seq::<(Seq<char>, DstModel)>::empty());
        assert(names_of(r.dst_index) =~= r.by_dst@.map_values(|p: (String, DstTree)| p.0@));
        r
    }

    fn dst_slot(&mut self, key: String) -> (i: usize)
        requires
            old(self).wf(),
        ensures
            final(self).wf(),
            i < final(self).by_dst@.len(),
            final(self).by_dst@[i as int].0@ == key@,
            has_key(old(self)@.dsts, key@) ==> final(self)@ == old(self)@ && i < old(
                self,
            )@.dsts.len() && old(self)@.dsts[i as int].0 == key@,
            !has_key(old(self)@.dsts, key@) ==> final(self)@ == (ProxyModel {
                dsts: old(self)@.dsts.push((key@, DstModel::empty())),
            }) && i == old(self)@.dsts.len(),
    {
        let ghost old_names = names_of(self.dst_index);
        let ghost k = key@;
        proof {
            if has_key(self@.dsts, k) {
                let j = choose|j: int| 0 <= j < self@.dsts.len() && self@.dsts[j].0 == k;
                assert(old_names[j] == k);
            }
            if old_names.contains(k) {
                let j = choose|j: int| 0 <= j < old_names.len() && old_names[j] == k;
                assert(self@.dsts[j].0 == k);
            }
        }
        let k2 = key.clone();
        let (i, added) = insert_name(&mut self.dst_index, k2);
        if added {
            self.by_dst.push((key, DstTree::new()));
            proof {
                let n = old(self)@.dsts.len();
                assert(self@.dsts =~= old(self)@.dsts.push((k, DstModel::empty())));
                assert(names_of(self.dst_index) =~= self.by_dst@.map_values(
                    |p: (String, DstTree)| p.0@,
                ));
                assert forall|a: int, b: int|
                    0 <= a < self@.dsts.len() && 0 <= b < self@.dsts.len() && a != b
                    implies self@.dsts[a].0 != self@.dsts[b].0 by {
                    if a == n {
                        assert(old_names[b] == self@.dsts[b].0);
                    } else if b == n {
                        assert(old_names[a] == self@.dsts[a].0);
                    }
                }
                assert forall|a: int| 0 <= a < self@.dsts.len() implies (
                #[trigger] self@.dsts[a]).1.wf() by {
                    if a < n {
                        assert(self@.dsts[a] == old(self)@.dsts[a]);
                    }
                }
                assert forall|a: int| 0 <= a < self.by_dst@.len() implies (
                #[trigger] self.by_dst@[a]).1.wf() by {
                    if a < n {
                        assert(self.by_dst@[a] == old(self).by_dst@[a]);
                    }
                }
            }
        } else {
            proof {
                assert(old_names[i as int] == self@.dsts[i as int].0);
            }
        }
        i
    }

    /// Counts a connection event of role `peer` to the destination `key`.
    pub fn transport_update(&mut self, key: String, peer: Peer, close: Option<TransportClose>)
        requires
            old(self).wf(),
        ensures
            final(self).wf(),
            final(self)@ == old(self)@.transport_updated(key@, peer, close),
    {
        let ghost k = key@;
        let ghost mid = self@;
        let i = self.dst_slot(key);
        let ghost mid2 = self@;
        let ghost v2 = self.by_dst@;
        self.by_dst[i].1.transport_update(peer, close);
        proof {
            let f = |d: DstModel| d.transport_updated(peer, close);
            lemma_upsert_at(mid.dsts, mid2.dsts, k, i as int, DstModel::empty(), f);
            self.lemma_after_child_update(mid2, v2, i as int, k, f);
        }
    }

    /// Applies `u` to the requests of `authority` to the destination `key`.
    pub fn request_update(&mut self, key: String, authority: String, u: RequestUpdate)
        requires
            old(self).wf(),
        ensures
            final(self).wf(),
            final(self)@ == old(self)@.request_updated(key@, authority@, u),
    {
        let ghost k = key@;
        let ghost a = authority@;
        let ghost mid = self@;
        let i = self.dst_slot(key);
        let ghost mid2 = self@;
        let ghost v2 = self.by_dst@;
        self.by_dst[i].1.request_update(authority, u);
        proof {
            let f = |d: DstModel| d.request_updated(a, u);
            lemma_upsert_at(mid.dsts, mid2.dsts, k, i as int, DstModel::empty(), f);
            self.lemma_after_child_update(mid2, v2, i as int, k, f);
        }
    }

    proof fn lemma_after_child_update(
        &self,
        mid2: ProxyModel,
        v2: Seq<(String, DstTree)>,
        i: int,
        k: Seq<char>,
        f: spec_fn(DstModel) -> DstModel,
    )
        requires
            mid2 == (ProxyModel { dsts: dst_entries(v2) }),
            0 <= i < v2.len(),
            v2[i].0@ == k,
            self.by_dst@.len() == v2.len(),
            self.by_dst@[i].0 == v2[i].0,
            self.by_dst@[i].1@ == f(v2[i].1@),
            self.by_dst@[i].1.wf(),
            forall|j: int| 0 <= j < v2.len() && j != i ==> self.by_dst@[j] == v2[j],
            forall|j: int| 0 <= j < v2.len() ==> (#[trigger] v2[j]).1.wf(),
            names_of(self.dst_index) == v2.map_values(|p: (String, DstTree)| p.0@),
            unique_keys_after(mid2.dsts, i, k, f),
        ensures
            self@.dsts == mid2.dsts.update(i, (k, f(mid2.dsts[i].1))),
            self.wf(),
    {
        assert(self@.dsts =~= mid2.dsts.update(i, (k, f(mid2.dsts[i].1))));
        assert(self.by_dst@.map_values(|p: (String, DstTree)| p.0@) =~= v2.map_values(
            |p: (String, DstTree)| p.0@,
        ));
        assert forall|a: int| 0 <= a < self.by_dst@.len() implies (#[trigger] self.by_dst@[a]).1.wf() by {
            if a != i {
                assert(self.by_dst@[a] == v2[a]);
            }
        }
        assert forall|a: int| 0 <= a < self@.dsts.len() implies (#[trigger] self@.dsts[a]).1.wf() by {
            assert(self.by_dst@[a].1.wf());
            assert(self@.dsts[a].1 == self.by_dst@[a].1@);
        }
    }
}

/// After the entry at `i` is changed by `f`, keys stay unique.
pub open spec fn unique_keys_after(
    s: Seq<(Seq<char>, DstModel)>,
    i: int,
    k: Seq<char>,
    f: spec_fn(DstModel) -> DstModel,
) -> bool {
    crate::model::unique_keys(s.update(i, (k, f(s[i].1))))
}

fn dst_key_string(l: &Option<DstLabels>) -> (r: String)
    ensures
        r@ == dst_key(*l),
{
    match l {
        Some(d) => d.as_str().to_owned(),
        None => String::new(),
    }
}

/// The index of the HTTP/2 reason of an error code.
pub fn reason_of(code: u32) -> (r: u32)
    ensures
        r == reason_index(code),
{
    if code < 15 {
        code
    } else {
        14
    }
}

/// All metrics of the proxy: per direction, and the start time of the
/// process.
#[derive(Debug)]
pub struct Root {
    inbound: ProxyTree,
    outbound: ProxyTree,
    start_time: Gauge,
}

impl View for Root {
    type V = RootModel;

    closed spec fn view(&self) -> RootModel {
        RootModel { inbound: self.inbound@, outbound: self.outbound@, start_time: self.start_time.0 }
    }
}

impl Root {
    /// Both directions are well formed.
    pub closed spec fn wf(&self) -> bool {
        self.inbound.wf() && self.outbound.wf()
    }

    /// An empty tree for a process that started `start_time_secs` seconds
    /// after the Unix epoch.
    pub fn new(start_time_secs: u64) -> (r: Root)
        ensures
            r.wf(),
            r@ == (RootModel {
                inbound: ProxyModel::empty(),
                outbound: ProxyModel::empty(),
                start_time: start_time_secs,
            }),
    {
        Root {
            inbound: ProxyTree::new(),
            outbound: ProxyTree::new(),
            start_time: Gauge::from_value(start_time_secs),
        }
    }

    fn record_transport(&mut self, ctx: &TransportCtx, close: Option<TransportClose>)
        requires
            old(self).wf(),
        ensures
            final(self).wf(),
            final(self)@ == old(self)@.transport_recorded(*ctx, close),
    {
        let key = match ctx.peer {
            Peer::Dst => dst_key_string(&ctx.dst_labels),
            Peer::Src => String::new(),
        };
        match ctx.direction {
            Direction::Inbound => self.inbound.transport_update(key, ctx.peer, close),
            Direction::Outbound => self.outbound.transport_update(key, ctx.peer, close),
        }
    }

    fn record_request(&mut self, req: &RequestCtx, u: RequestUpdate)
        requires
            old(self).wf(),
        ensures
            final(self).wf(),
            final(self)@ == old(self)@.request_recorded(*req, u),
    {
        let key = dst_key_string(&req.dst_labels);
        let authority = req.authority.clone();
        match req.direction {
            Direction::Inbound => self.inbound.request_update(key, authority, u),
            Direction::Outbound => self.outbound.request_update(key, authority, u),
        }
    }

    /// Updates the metrics that `e` concerns, adding the entries on its path
    /// that are new.
    pub fn record(&mut self, e: &Event)
        requires
            old(self).wf(),
        ensures
            final(self).wf(),
            final(self)@ == old(self)@.recorded(*e),
    {
        match e {
            Event::TransportOpen(ctx) => self.record_transport(ctx, None),
            Event::TransportClose(ctx, c) => self.record_transport(ctx, Some(*c)),
            Event::StreamRequestOpen(req) => self.record_request(req, RequestUpdate::Open),
            Event::StreamRequestFail(req, fail) => self.record_request(
                req,
                RequestUpdate::Fail {
                    reason: reason_of(fail.error_code),
                    ms: fail.since_request_open_ms,
                },
            ),
            Event::StreamRequestEnd(req) => self.record_request(req, RequestUpdate::End),
            Event::StreamResponseOpen(rsp) => self.record_request(
                &rsp.request,
                RequestUpdate::ResponseOpen { status_code: rsp.status_code },
            ),
            Event::StreamResponseEnd(rsp, end) => {
                let class = match end.grpc_status {
                    Some(g) => HttpEndClass::Grpc { status_code: g },
                    None => HttpEndClass::Eos,
                };
                self.record_request(
                    &rsp.request,
                    RequestUpdate::ResponseEnd {
                        status_code: rsp.status_code,
                        end: class,
                        ms: end.since_request_open_ms,
                    },
                )
            },
            Event::StreamResponseFail(rsp, fail) => self.record_request(
                &rsp.request,
                RequestUpdate::ResponseEnd {
                    status_code: rsp.status_code,
                    end: HttpEndClass::Error { reason: reason_of(fail.error_code) },
                    ms: fail.since_request_open_ms,
                },
            ),
        }
    }
}

/// The name of the HTTP/2 reason at index `i`.
pub fn h2_reason(i: u32) -> (r: &'static str)
    ensures
        r@ == reason_name(i),
{
    if i == 0 {
        "NO_ERROR"
    } else if i == 1 {
        "PROTOCOL_ERROR"
    } else if i == 2 {
        "INTERNAL_ERROR"
    } else if i == 3 {
        "FLOW_CONTROL_ERROR"
    } else if i == 4 {
        "SETTINGS_TIMEOUT"
    } else if i == 5 {
        "STREAM_CLOSED"
    } else if i == 6 {
        "FRAME_SIZE_ERROR"
    } else if i == 7 {
        "REFUSED_STREAM"
    } else if i == 8 {
        "CANCEL"
    } else if i == 9 {
        "COMPRESSION_ERROR"
    } else if i == 10 {
        "CONNECT_ERROR"
    } else if i == 11 {
        "ENHANCE_YOUR_CALM"
    } else if i == 12 {
        "INADEQUATE_SECURITY"
    } else if i == 13 {
        "HTTP_1_1_REQUIRED"
    } else {
        "UNKNOWN"
    }
}

fn transport_end_str(c: TransportEndClass) -> (r: &'static str)
    ensures
        r@ == transport_end_label(c),
{
    match c {
        TransportEndClass::Success => "classification=\"success\"",
        TransportEndClass::Failure => "classification=\"failure\"",
    }
}

/// The labels of responses of class `rc` that ended as `ec`.
pub fn response_labels_of(rc: HttpResponseClass, ec: HttpEndClass) -> (r: FmtLabelsFn)
    ensures
        r.text() == response_labels(rc, ec),
{
    let mut s = String::new();
    match rc {
        HttpResponseClass::Error { reason } => {
            s.append("classification=\"failure\"");
            s.append(",error=\"");
            s.append(h2_reason(reason));
            s.append("\"");
        },
        HttpResponseClass::Response { status_code } => match ec {
            HttpEndClass::Eos => {
                if status_code < 500 {
                    s.append("classification=\"success\"");
                } else {
                    s.append("classification=\"failure\"");
                }
                s.append(",status_code=\"");
                write_decimal(&mut s, status_code as u64);
                s.append("\"");
            },
            HttpEndClass::Grpc { status_code: g } => {
                if g == 0 {
                    s.append("classification=\"success\"");
                } else {
                    s.append("classification=\"failure\"");
                }
                s.append(",status_code=\"");
                write_decimal(&mut s, status_code as u64);
                s.append("\",grpc_status_code=\"");
                write_decimal(&mut s, g as u64);
                s.append("\"");
            },
            HttpEndClass::Error { reason } => {
                s.append("classification=\"failure\"");
                s.append(",error=\"");
                s.append(h2_reason(reason));
                s.append("\"");
            },
        },
    }
    assert(s@ =~= response_labels(rc, ec));
    FmtLabelsFn::from_string(s)
}

fn authority_labels(a: &String) -> (r: FmtLabelsFn)
    ensures
        r.text() == authority_label(a@),
{
    let mut s = String::new();
    s.append("authority=\"");
    write_escaped(&mut s, a.as_str());
    s.append("\"");
    assert(s@ =~= authority_label(a@));
    FmtLabelsFn::from_string(s)
}

impl TransportEndMetrics {
    /// Appends the close count and the lifetimes under `labels`.
    pub fn fmt_metrics<L: FmtLabels>(&self, out: &mut String, labels: &L)
        requires
            self@.wf(),
        ensures
            final(out)@ == old(out)@ + transport_end_text(self@, labels.text()),
    {
        write_value(out, "tcp_close_total", labels, self.close_total.0);
        self.lifetime.fmt_histogram(out, "tcp_connection_duration_ms", labels);
        assert(out@ =~= old(out)@ + transport_end_text(self@, labels.text()));
    }
}

impl TransportTree {
    /// Appends the lines of these connections under `labels`.
    pub fn fmt_metrics<L: FmtLabels>(&self, out: &mut String, labels: &L)
        requires
            self.wf(),
        ensures
            final(out)@ == old(out)@ + transport_text(self@, labels.text()),
    {
        write_value(out, "tcp_open_total", labels, self.open_total.0);
        write_value(out, "tcp_open_connections", labels, self.open_active.0);
        write_value(out, "tcp_read_bytes_total", labels, self.rx_bytes_total.0);
        write_value(out, "tcp_write_bytes_total", labels, self.tx_bytes_total.0);
        let ghost start = out@;
        let ghost ends = self@.ends;
        let mut i: usize = 0;
        while i < self.by_end.len()
            invariant
                self.wf(),
                ends == self@.ends,
                i <= ends.len(),
                out@ == start + transport_ends_text(ends.subrange(0, i as int), labels.text()),
            decreases ends.len() - i,
        {
            let class = self.by_end[i].0;
            let frag = transport_end_str(class);
            let l = AppendLabels::new(labels, &frag);
            proof {
                assert(ends[i as int] == (class, self.by_end@[i as int].1@));
                assert(ends[i as int].1.wf());
            }
            self.by_end[i].1.fmt_metrics(out, &l);
            proof {
                let s = ends.subrange(0, i + 1);
                assert(s.drop_last() =~= ends.subrange(0, i as int));
                assert(s.last() == ends[i as int]);
            }
            i = i + 1;
        }
        assert(ends.subrange(0, ends.len() as int) =~= ends);
        assert(out@ =~= old(out)@ + transport_text(self@, labels.text()));
    }
}

impl HttpEndMetrics {
    /// Appends the latencies and the response count under `labels`.
    pub fn fmt_metrics<L: FmtLabels>(&self, out: &mut String, labels: &L)
        requires
            self@.wf(),
        ensures
            final(out)@ == old(out)@ + end_metrics_text(self@, labels.text()),
    {
        self.latency.fmt_histogram(out, "response_latency_ms", labels);
        write_value(out, "response_total", labels, self.total.0);
        assert(out@ =~= old(out)@ + end_metrics_text(self@, labels.text()));
    }
}

impl HttpResponseTree {
    /// Appends the lines of these responses of class `rc` under `labels`.
    pub fn fmt_metrics<L: FmtLabels>(&self, out: &mut String, rc: HttpResponseClass, labels: &L)
        requires
            self.wf(),
        ensures
            final(out)@ == old(out)@ + response_ends_text(rc, self@.ends, labels.text()),
    {
        let ghost ends = self@.ends;
        let mut i: usize = 0;
        while i < self.by_end.len()
            invariant
                self.wf(),
                ends == self@.ends,
                i <= ends.len(),
                out@ == old(out)@ + response_ends_text(rc, ends.subrange(0, i as int), labels.text()),
            decreases ends.len() - i,
        {
            let class = self.by_end[i].0;
            let frag = response_labels_of(rc, class);
            let l = AppendLabels::new(labels, &frag);
            proof {
                assert(ends[i as int] == (class, self.by_end@[i as int].1@));
                assert(ends[i as int].1.wf());
            }
            self.by_end[i].1.fmt_metrics(out, &l);
            proof {
                let s = ends.subrange(0, i + 1);
                assert(s.drop_last() =~= ends.subrange(0, i as int));
                assert(s.last() == ends[i as int]);
            }
            i = i + 1;
        }
        assert(ends.subrange(0, ends.len() as int) =~= ends);
    }
}

impl HttpRequestTree {
    /// Appends the lines of these requests under `labels`.
    pub fn fmt_metrics<L: FmtLabels>(&self, out: &mut String, labels: &L)
        requires
            self.wf(),
        ensures
            final(out)@ == old(out)@ + request_text(self@, labels.text()),
    {
        write_value(out, "request_total", labels, self.metrics.total.0);
        let ghost start = out@;
        let ghost rs = self@.responses;
        let mut i: usize = 0;
        while i < self.by_response.len()
            invariant
                self.wf(),
                rs == self@.responses,
                i <= rs.len(),
                out@ == start + responses_text(rs.subrange(0, i as int), labels.text()),
            decreases rs.len() - i,
        {
            let class = self.by_response[i].0;
            proof {
                assert(rs[i as int] == (class, self.by_response@[i as int].1@));
            }
            self.by_response[i].1.fmt_metrics(out, class, labels);
            proof {
                let s = rs.subrange(0, i + 1);
                assert(s.drop_last() =~= rs.subrange(0, i as int));
                assert(s.last() == rs[i as int]);
            }
            i = i + 1;
        }
        assert(rs.subrange(0, rs.len() as int) =~= rs);
        assert(out@ =~= old(out)@ + request_text(self@, labels.text()));
    }
}

impl DstTree {
    /// Appends the lines of this destination under `labels`.
    pub fn fmt_metrics<L: FmtLabels>(&self, out: &mut String, labels: &L)
        requires
            self.wf(),
        ensures
            final(out)@ == old(out)@ + dst_text(self@, labels.text()),
    {
        let src = "peer=\"src\"";
        let dst = "peer=\"dst\"";
        self.src_tcp_metrics.fmt_metrics(out, &AppendLabels::new(labels, &src));
        self.dst_tcp_metrics.fmt_metrics(out, &AppendLabels::new(labels, &dst));
        let ghost start = out@;
        let ghost rs = self@.requests;
        let mut i: usize = 0;
        while i < self.by_http_request.len()
            invariant
                self.wf(),
                rs == self@.requests,
                i <= rs.len(),
                out@ == start + requests_text(rs.subrange(0, i as int), labels.text()),
            decreases rs.len() - i,
        {
            let frag = authority_labels(&self.by_http_request[i].0);
            let l = AppendLabels::new(labels, &frag);
            proof {
                assert(rs[i as int] == (self.by_http_request@[i as int].0@, self.by_http_request@[i as int].1@));
            }
            self.by_http_request[i].1.fmt_metrics(out, &l);
            proof {
                let s = rs.subrange(0, i + 1);
                assert(s.drop_last() =~= rs.subrange(0, i as int));
                assert(s.last() == rs[i as int]);
            }
            i = i + 1;
        }
        assert(rs.subrange(0, rs.len() as int) =~= rs);
        assert(out@ =~= old(out)@ + dst_text(self@, labels.text()));
    }
}

impl ProxyTree {
    /// Appends the lines of each destination, under `labels` and its own.
    #[verifier::rlimit(40)]
    pub fn fmt_metrics<L: FmtLabels>(&self, out: &mut String, labels: &L)
        requires
            self.wf(),
        ensures
            final(out)@ == old(out)@ + dsts_text(self@.dsts, labels.text()),
    {
        let ghost ds = self@.dsts;
        let mut i: usize = 0;
        while i < self.by_dst.len()
            invariant
                self.wf(),
                ds == self@.dsts,
                i <= ds.len(),
                out@ == old(out)@ + dsts_text(ds.subrange(0, i as int), labels.text()),
            decreases ds.len() - i,
        {
            let key: &str = self.by_dst[i].0.as_str();
            let l = AppendLabels::new(labels, &key);
            proof {
                assert(ds[i as int] == (self.by_dst@[i as int].0@, self.by_dst@[i as int].1@));
            }
            self.by_dst[i].1.fmt_metrics(out, &l);
            proof {
                let s = ds.subrange(0, i + 1);
                assert(s.drop_last() =~= ds.subrange(0, i as int));
                assert(s.last() == ds[i as int]);
            }
            i = i + 1;
        }
        assert(ds.subrange(0, ds.len() as int) =~= ds);
    }
}

impl Root {
    /// Appends the sample lines of the whole tree.
    #[verifier::rlimit(40)]
    pub fn fmt_metrics(&self, out: &mut String)
        requires
            self.wf(),
        ensures
            final(out)@ == old(out)@ + root_text(self@),
    {
        write_value(out, "process_start_time_seconds", &NoLabels, self.start_time.0);
        let inbound = "direction=\"inbound\"";
        let outbound = "direction=\"outbound\"";
        self.inbound.fmt_metrics(out, &inbound);
        self.outbound.fmt_metrics(out, &outbound);
        assert(out@ =~= old(out)@ + root_text(self@));
    }
}

} // verus!
