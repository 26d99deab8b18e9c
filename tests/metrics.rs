use proxy_metrics::counter::Counter;
use proxy_metrics::event::{
    Direction, Event, Peer, RequestCtx, ResponseCtx, StreamFail, StreamResponseEnd, TransportCtx,
};
use proxy_metrics::gauge::Gauge;
use proxy_metrics::histogram::Histogram;
use proxy_metrics::labels::{AppendLabels, DstLabels, FmtLabels, FmtLabelsFn, NoLabels};
use proxy_metrics::model::TransportClose;
use proxy_metrics::scrape::{accepts_gzip, is_metrics_path, scrape_kind, AcceptedCoding, ScrapeKind};
use proxy_metrics::text::decimal_string;
use proxy_metrics::tree::{h2_reason, reason_of, Root};
use proxy_metrics::{metrics_section, new, Record, Serve};

fn labels_text<L: FmtLabels>(l: &L) -> String {
    let mut s = String::new();
    l.fmt_labels(&mut s);
    s
}

fn scrape(record: &Record, serve: &Serve) -> String {
    let mut buf = String::new();
    serve.write_metrics(record.metrics(), &mut buf);
    buf
}

fn app_foo() -> Option<DstLabels> {
    DstLabels::new(&vec![("app".to_string(), "foo".to_string())])
}

fn outbound_client() -> TransportCtx {
    TransportCtx { direction: Direction::Outbound, peer: Peer::Dst, dst_labels: app_foo() }
}

fn request_x() -> RequestCtx {
    RequestCtx { direction: Direction::Outbound, dst_labels: app_foo(), authority: "x".to_string() }
}

fn help_lines() -> String {
    let mut s = String::new();
    Serve::write_help(&mut s);
    s
}

#[test]
fn empty_scrape_has_only_help_and_start_time() {
    let (record, serve) = new(1_500_000_000);
    let body = scrape(&record, &serve);
    let help = help_lines();
    assert!(body.starts_with(&help));
    assert_eq!(&body[help.len()..], "process_start_time_seconds 1500000000\n");
    for line in body.lines() {
        assert!(line.starts_with('#') || line.starts_with("process_start_time_seconds "));
    }
}

#[test]
fn outbound_connection_success() {
    let (mut record, serve) = new(1);
    record.record(&Event::TransportOpen(outbound_client()));
    record.record(&Event::TransportClose(
        outbound_client(),
        TransportClose { duration_ms: 5, rx_bytes: 100, tx_bytes: 200, clean: true },
    ));
    let body = scrape(&record, &serve);
    let l = "direction=\"outbound\",dst_app=\"foo\",peer=\"dst\"";
    assert!(body.contains(&format!("tcp_open_total{{{}}} 1\n", l)));
    assert!(body.contains(&format!("tcp_close_total{{{},classification=\"success\"}} 1\n", l)));
    assert!(body.contains(&format!("tcp_open_connections{{{}}} 0\n", l)));
    assert!(body.contains(&format!("tcp_read_bytes_total{{{}}} 100\n", l)));
    assert!(body.contains(&format!("tcp_write_bytes_total{{{}}} 200\n", l)));
    assert!(body.contains(&format!(
        "tcp_connection_duration_ms_bucket{{{},classification=\"success\",le=\"5\"}} 1\n",
        l
    )));
    assert!(body.contains(&format!(
        "tcp_connection_duration_ms_bucket{{{},classification=\"success\",le=\"4\"}} 0\n",
        l
    )));
    assert!(body.contains(&format!(
        "tcp_connection_duration_ms_bucket{{{},classification=\"success\",le=\"+Inf\"}} 1\n",
        l
    )));
    assert!(body.contains(&format!(
        "tcp_connection_duration_ms_sum{{{},classification=\"success\"}} 5\n",
        l
    )));
    assert!(body.contains(&format!(
        "tcp_connection_duration_ms_count{{{},classification=\"success\"}} 1\n",
        l
    )));
}

#[test]
fn accepted_connection_has_src_peer_and_no_dst_labels() {
    let (mut record, serve) = new(1);
    let ctx = TransportCtx { direction: Direction::Inbound, peer: Peer::Src, dst_labels: app_foo() };
    record.record(&Event::TransportOpen(ctx.clone()));
    record.record(&Event::TransportClose(
        ctx,
        TransportClose { duration_ms: 70_000, rx_bytes: 1, tx_bytes: 2, clean: false },
    ));
    let body = scrape(&record, &serve);
    let l = "direction=\"inbound\",peer=\"src\"";
    assert!(body.contains(&format!("tcp_open_total{{{}}} 1\n", l)));
    assert!(body.contains(&format!("tcp_close_total{{{},classification=\"failure\"}} 1\n", l)));
    assert!(body.contains(&format!(
        "tcp_connection_duration_ms_bucket{{{},classification=\"failure\",le=\"60000\"}} 0\n",
        l
    )));
    assert!(body.contains(&format!(
        "tcp_connection_duration_ms_bucket{{{},classification=\"failure\",le=\"300000\"}} 1\n",
        l
    )));
    assert!(!body.contains("dst_app"));
}

#[test]
fn http_success() {
    let (mut record, serve) = new(1);
    record.record(&Event::StreamRequestOpen(request_x()));
    let rsp = ResponseCtx { request: request_x(), status_code: 200 };
    record.record(&Event::StreamResponseOpen(rsp.clone()));
    record.record(&Event::StreamResponseEnd(
        rsp,
        StreamResponseEnd { grpc_status: None, since_request_open_ms: 42 },
    ));
    let body = scrape(&record, &serve);
    let l = "direction=\"outbound\",dst_app=\"foo\",authority=\"x\"";
    assert!(body.contains(&format!("request_total{{{}}} 1\n", l)));
    assert!(body.contains(&format!(
        "response_total{{{},classification=\"success\",status_code=\"200\"}} 1\n",
        l
    )));
    assert!(body.contains(&format!(
        "response_latency_ms_sum{{{},classification=\"success\",status_code=\"200\"}} 42\n",
        l
    )));
    assert!(body.contains(&format!(
        "response_latency_ms_bucket{{{},classification=\"success\",status_code=\"200\",le=\"50\"}} 1\n",
        l
    )));
}

#[test]
fn http_server_error_is_failure() {
    let (mut record, serve) = new(1);
    let rsp = ResponseCtx { request: request_x(), status_code: 503 };
    record.record(&Event::StreamResponseEnd(
        rsp,
        StreamResponseEnd { grpc_status: None, since_request_open_ms: 1 },
    ));
    let body = scrape(&record, &serve);
    assert!(body.contains(
        "response_total{direction=\"outbound\",dst_app=\"foo\",authority=\"x\",classification=\"failure\",status_code=\"503\"} 1\n"
    ));
}

#[test]
fn grpc_failure() {
    let (mut record, serve) = new(1);
    let rsp = ResponseCtx { request: request_x(), status_code: 200 };
    record.record(&Event::StreamResponseEnd(
        rsp,
        StreamResponseEnd { grpc_status: Some(2), since_request_open_ms: 3 },
    ));
    let body = scrape(&record, &serve);
    assert!(body.contains(
        "response_total{direction=\"outbound\",dst_app=\"foo\",authority=\"x\",classification=\"failure\",status_code=\"200\",grpc_status_code=\"2\"} 1\n"
    ));
}

#[test]
fn http2_reset() {
    let (mut record, serve) = new(1);
    record.record(&Event::StreamRequestFail(
        request_x(),
        StreamFail { error_code: 3, since_request_open_ms: 9 },
    ));
    let body = scrape(&record, &serve);
    assert!(body.contains(
        "response_total{direction=\"outbound\",dst_app=\"foo\",authority=\"x\",classification=\"failure\",error=\"FLOW_CONTROL_ERROR\"} 1\n"
    ));
    assert!(body.contains("request_total{direction=\"outbound\",dst_app=\"foo\",authority=\"x\"} 0\n"));
}

#[test]
fn response_reset_and_unknown_code() {
    let (mut record, serve) = new(1);
    let rsp = ResponseCtx { request: request_x(), status_code: 200 };
    record.record(&Event::StreamResponseFail(
        rsp,
        StreamFail { error_code: 99, since_request_open_ms: 9 },
    ));
    let body = scrape(&record, &serve);
    assert!(body.contains(
        "response_total{direction=\"outbound\",dst_app=\"foo\",authority=\"x\",classification=\"failure\",error=\"UNKNOWN\"} 1\n"
    ));
    assert_eq!(reason_of(99), 14);
    assert_eq!(reason_of(3), 3);
    assert_eq!(h2_reason(reason_of(99)), "UNKNOWN");
    assert_eq!(h2_reason(13), "HTTP_1_1_REQUIRED");
}

#[test]
fn request_end_and_response_open_create_entries_only() {
    let (mut record, serve) = new(1);
    record.record(&Event::StreamRequestEnd(request_x()));
    let body = scrape(&record, &serve);
    assert!(body.contains("request_total{direction=\"outbound\",dst_app=\"foo\",authority=\"x\"} 0\n"));
    let samples = &body[help_lines().len()..];
    assert!(!samples.contains("response_total"));
}

#[test]
fn counters_grow_across_events() {
    let (mut record, serve) = new(1);
    let mut last: u64 = 0;
    for n in 1..=5u64 {
        record.record(&Event::StreamRequestOpen(request_x()));
        let body = scrape(&record, &serve);
        let line = body
            .lines()
            .find(|l| l.starts_with("request_total{"))
            .expect("request line");
        let v: u64 = line.rsplit(' ').next().unwrap().parse().unwrap();
        assert!(v >= last);
        assert_eq!(v, n);
        last = v;
    }
}

#[test]
fn open_connections_balance() {
    let (mut record, serve) = new(1);
    for _ in 0..3 {
        record.record(&Event::TransportOpen(outbound_client()));
    }
    record.record(&Event::TransportClose(
        outbound_client(),
        TransportClose { duration_ms: 1, rx_bytes: 0, tx_bytes: 0, clean: true },
    ));
    record.record(&Event::TransportClose(
        outbound_client(),
        TransportClose { duration_ms: 1, rx_bytes: 0, tx_bytes: 0, clean: false },
    ));
    let body = scrape(&record, &serve);
    let l = "direction=\"outbound\",dst_app=\"foo\",peer=\"dst\"";
    assert!(body.contains(&format!("tcp_open_total{{{}}} 3\n", l)));
    assert!(body.contains(&format!("tcp_open_connections{{{}}} 1\n", l)));
    assert!(body.contains(&format!("tcp_close_total{{{},classification=\"success\"}} 1\n", l)));
    assert!(body.contains(&format!("tcp_close_total{{{},classification=\"failure\"}} 1\n", l)));
}

#[test]
fn series_keep_insertion_order() {
    let (mut record, serve) = new(1);
    let mut b = request_x();
    b.authority = "b".to_string();
    let mut a = request_x();
    a.authority = "a".to_string();
    record.record(&Event::StreamRequestOpen(b.clone()));
    record.record(&Event::StreamRequestOpen(a));
    record.record(&Event::StreamRequestOpen(b));
    let body = scrape(&record, &serve);
    let pb = body.find("authority=\"b\"} 2").unwrap();
    let pa = body.find("authority=\"a\"} 1").unwrap();
    assert!(pb < pa);
}

#[test]
fn append_labels_commas() {
    let a = "a=\"1\"";
    let b = "b=\"2\"";
    let e = "";
    assert_eq!(labels_text(&AppendLabels::new(&a, &b)), "a=\"1\",b=\"2\"");
    assert_eq!(labels_text(&AppendLabels::new(&a, &e)), "a=\"1\"");
    assert_eq!(labels_text(&AppendLabels::new(&e, &b)), "b=\"2\"");
    assert_eq!(labels_text(&AppendLabels::new(&e, &e)), "");
    assert!(AppendLabels::new(&e, &NoLabels).is_empty());
    assert!(!AppendLabels::new(&NoLabels, &a).is_empty());
    let ab = AppendLabels::new(&a, &b);
    let c = "c=\"3\"";
    let left = labels_text(&AppendLabels::new(&ab, &c));
    let bc = AppendLabels::new(&b, &c);
    let right = labels_text(&AppendLabels::new(&a, &bc));
    assert_eq!(left, right);
    assert_eq!(left, "a=\"1\",b=\"2\",c=\"3\"");
    let f = FmtLabelsFn::from_string("k=\"v\"".to_string());
    assert_eq!(labels_text(&AppendLabels::new(&NoLabels, &f)), "k=\"v\"");
}

#[test]
fn dst_labels_format_and_escape() {
    assert!(DstLabels::new(&vec![]).is_none());
    let d = DstLabels::new(&vec![
        ("app".to_string(), "foo".to_string()),
        ("ns".to_string(), "a\"b\\c\nd".to_string()),
    ])
    .unwrap();
    assert_eq!(d.as_str(), "dst_app=\"foo\",dst_ns=\"a\\\"b\\\\c\\nd\"");
    assert_eq!(d.as_map().get("app").map(|s| s.as_str()), Some("foo"));
    assert_eq!(d.as_map().len(), 2);
    assert!(!d.is_empty());
    let same = DstLabels::new(&vec![
        ("app".to_string(), "foo".to_string()),
        ("ns".to_string(), "a\"b\\c\nd".to_string()),
    ])
    .unwrap();
    assert!(d == same);
}

#[test]
fn dst_labels_round_trip() {
    let pairs = vec![
        ("app".to_string(), "foo".to_string()),
        ("zone".to_string(), "us, \"east\"".to_string()),
    ];
    let d = DstLabels::new(&pairs).unwrap();
    let parsed = parse_label_body(d.as_str());
    assert_eq!(
        parsed,
        vec![
            ("dst_app".to_string(), "foo".to_string()),
            ("dst_zone".to_string(), "us, \"east\"".to_string()),
        ]
    );
}

fn parse_label_body(s: &str) -> Vec<(String, String)> {
    let mut out = Vec::new();
    let mut chars = s.chars().peekable();
    while chars.peek().is_some() {
        let mut key = String::new();
        while let Some(c) = chars.next() {
            if c == '=' {
                break;
            }
            key.push(c);
        }
        assert_eq!(chars.next(), Some('"'));
        let mut value = String::new();
        while let Some(c) = chars.next() {
            match c {
                '\\' => match chars.next() {
                    Some('n') => value.push('\n'),
                    Some(o) => value.push(o),
                    None => panic!("dangling escape"),
                },
                '"' => break,
                o => value.push(o),
            }
        }
        out.push((key, value));
        if chars.peek() == Some(&',') {
            chars.next();
        }
    }
    out
}

#[test]
fn help_lines_once_per_family() {
    let help = help_lines();
    let section = metrics_section();
    assert_eq!(section.0.len(), 10);
    for h in section.0.iter() {
        let helps = help.lines().filter(|l| l.starts_with(&format!("# HELP {} ", h.name))).count();
        let types = help.lines().filter(|l| l.starts_with(&format!("# TYPE {} ", h.name))).count();
        assert_eq!(helps, 1);
        assert_eq!(types, 1);
    }
    assert!(help.starts_with(
        "# HELP process_start_time_seconds The time the process started, in seconds since the Unix epoch.\n# TYPE process_start_time_seconds gauge\n"
    ));
    assert!(help.contains("# TYPE response_latency_ms histogram\n"));
    assert!(help.contains("# TYPE request_total counter\n"));
    let (mut record, serve) = new(7);
    record.record(&Event::TransportOpen(outbound_client()));
    record.record(&Event::StreamRequestOpen(request_x()));
    let body = scrape(&record, &serve);
    assert_eq!(body.matches("# HELP tcp_open_total ").count(), 1);
    assert_eq!(body.matches("# TYPE request_total ").count(), 1);
}

#[test]
fn histogram_buckets_cumulative() {
    let mut h = Histogram::new();
    for ms in [0u64, 1, 3, 7, 250, 400_000] {
        h.observe(ms);
    }
    let mut prev = 0;
    for j in 0..19 {
        let c = h.bucket(j);
        assert!(c >= prev);
        prev = c;
    }
    assert_eq!(h.bucket(18), h.count());
    assert_eq!(h.count(), 6);
    assert_eq!(h.sum(), 400_261);
    assert_eq!(h.bucket(0), 2);
    assert_eq!(h.bucket(2), 3);
    assert_eq!(h.bucket(5), 4);
    assert_eq!(h.bucket(9), 5);
    assert_eq!(h.bucket(17), 5);
}

#[test]
fn histogram_render() {
    let mut h = Histogram::new();
    h.observe(2);
    let mut s = String::new();
    h.fmt_histogram(&mut s, "lat", &NoLabels);
    assert!(s.starts_with("lat_bucket{le=\"1\"} 0\nlat_bucket{le=\"2\"} 1\n"));
    assert!(s.ends_with("lat_bucket{le=\"+Inf\"} 1\nlat_sum 2\nlat_count 1\n"));
    assert_eq!(s.lines().count(), 21);
}

#[test]
fn histogram_sum_saturates() {
    let mut h = Histogram::new();
    h.observe(u64::MAX);
    h.observe(5);
    assert_eq!(h.sum(), u64::MAX);
    assert_eq!(h.count(), 2);
}

#[test]
fn counter_saturates() {
    let mut c = Counter::new();
    c.incr();
    c.add(41);
    assert_eq!(c.value(), 42);
    c.add(u64::MAX);
    assert_eq!(c.value(), u64::MAX);
    c.incr();
    assert_eq!(c.value(), u64::MAX);
}

#[test]
fn gauge_saturates() {
    let mut g = Gauge::new();
    g.decr();
    assert_eq!(g.value(), 0);
    g.incr();
    g.incr();
    g.decr();
    assert_eq!(g.value(), 1);
    g.set(u64::MAX);
    g.incr();
    assert_eq!(g.value(), u64::MAX);
    assert_eq!(Gauge::from_value(9).value(), 9);
}

#[test]
fn decimal_rendering() {
    assert_eq!(decimal_string(0), "0");
    assert_eq!(decimal_string(7), "7");
    assert_eq!(decimal_string(1200), "1200");
    assert_eq!(decimal_string(u64::MAX), "18446744073709551615");
}

#[test]
fn root_without_events() {
    let root = Root::new(3);
    let mut s = String::new();
    root.fmt_metrics(&mut s);
    assert_eq!(s, "process_start_time_seconds 3\n");
}

#[test]
fn authority_values_are_escaped() {
    let (mut record, serve) = new(1);
    let mut req = request_x();
    req.authority = "we\"ird".to_string();
    record.record(&Event::StreamRequestOpen(req));
    let body = scrape(&record, &serve);
    assert!(body.contains("authority=\"we\\\"ird\"} 1\n"));
}

#[test]
fn requests_without_labels_skip_destination() {
    let (mut record, serve) = new(1);
    let req = RequestCtx { direction: Direction::Inbound, dst_labels: None, authority: String::new() };
    record.record(&Event::StreamRequestOpen(req));
    let body = scrape(&record, &serve);
    assert!(body.contains("request_total{direction=\"inbound\",authority=\"\"} 1\n"));
    assert!(body.contains("tcp_open_total{direction=\"inbound\",peer=\"src\"} 0\n"));
    assert!(body.contains("tcp_open_total{direction=\"inbound\",peer=\"dst\"} 0\n"));
}

#[test]
fn gauge_from_value() {
    let g: Gauge = Gauge::from(12u64);
    assert_eq!(g.value(), 12);
}

#[test]
fn scrape_negotiation() {
    let gzip = AcceptedCoding { gzip: true, acceptable: true };
    let gzip_refused = AcceptedCoding { gzip: true, acceptable: false };
    let identity = AcceptedCoding { gzip: false, acceptable: true };
    assert!(accepts_gzip(&vec![identity, gzip]));
    assert!(!accepts_gzip(&vec![identity, gzip_refused]));
    assert!(!accepts_gzip(&vec![]));
    assert!(is_metrics_path("/metrics"));
    assert!(!is_metrics_path("/metric"));
    assert!(!is_metrics_path("/metrics/"));
    assert!(!is_metrics_path("/"));
    assert_eq!(scrape_kind("/metrics", &vec![gzip, identity]), ScrapeKind::Gzip);
    assert_eq!(scrape_kind("/metrics", &vec![identity]), ScrapeKind::Plain);
    assert_eq!(scrape_kind("/other", &vec![gzip]), ScrapeKind::NotFound);
}
