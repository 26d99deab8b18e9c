//! What the metric tree holds, as mathematical values, and how each event
//! changes it.
use vstd::prelude::*;
use crate::counter::saturating_sum;
use crate::histogram::HistModel;

verus! {

/// How a connection ended.
#[derive(Copy, Clone, Debug, PartialEq, Eq, Structural)]
pub enum TransportEndClass {
    Success,
    Failure,
}

/// The response under which HTTP outcomes are counted: a status code, or a
/// stream reset (an index into the HTTP/2 reasons) before any response.
#[derive(Copy, Clone, Debug, PartialEq, Eq, Structural)]
pub enum HttpResponseClass {
    Response { status_code: u16 },
    Error { reason: u32 },
}

/// How a response stream ended: at the end of the stream, with a gRPC
/// status, or with a reset (an index into the HTTP/2 reasons).
#[derive(Copy, Clone, Debug, PartialEq, Eq, Structural)]
pub enum HttpEndClass {
    Eos,
    Grpc { status_code: u32 },
    Error { reason: u32 },
}

/// The key under which a class is indexed.
pub open spec fn transport_end_code(c: TransportEndClass) -> (u8, u32) {
    match c {
        TransportEndClass::Success => (0u8, 0u32),
        TransportEndClass::Failure => (1u8, 0u32),
    }
}

/// The key under which a class is indexed.
pub open spec fn response_code(c: HttpResponseClass) -> (u8, u32) {
    match c {
        HttpResponseClass::Response { status_code } => (0u8, status_code as u32),
        HttpResponseClass::Error { reason } => (1u8, reason),
    }
}

/// The key under which a class is indexed.
pub open spec fn end_code(c: HttpEndClass) -> (u8, u32) {
    match c {
        HttpEndClass::Eos => (0u8, 0u32),
        HttpEndClass::Grpc { status_code } => (1u8, status_code),
        HttpEndClass::Error { reason } => (2u8, reason),
    }
}

/// No key occurs twice.
pub open spec fn unique_keys<K, V>(s: Seq<(K, V)>) -> bool {
    forall|i: int, j: int| 0 <= i < s.len() && 0 <= j < s.len() && i != j ==> s[i].0 != s[j].0
}

/// Whether `k` is a key of `s`.
pub open spec fn has_key<K, V>(s: Seq<(K, V)>, k: K) -> bool {
    exists|i: int| 0 <= i < s.len() && s[i].0 == k
}

/// The entry of `k` changed by `f`; where `k` has none, `f` applied to
/// `fresh` is added at the end under `k`.
pub open spec fn upsert<K, V>(s: Seq<(K, V)>, k: K, fresh: V, f: spec_fn(V) -> V) -> Seq<(K, V)> {
    if has_key(s, k) {
        let i = choose|i: int| 0 <= i < s.len() && s[i].0 == k;
        s.update(i, (k, f(s[i].1)))
    } else {
        s.push((k, f(fresh)))
    }
}

/// An entry found at `i` or added there, then changed by `f`, is the
/// `upsert` of `k`, and keys stay unique.
pub proof fn lemma_upsert_at<K, V>(
    s: Seq<(K, V)>,
    mid: Seq<(K, V)>,
    k: K,
    i: int,
    fresh: V,
    f: spec_fn(V) -> V,
)
    requires
        unique_keys(s),
        has_key(s, k) ==> mid == s && 0 <= i < s.len() && s[i].0 == k,
        !has_key(s, k) ==> mid == s.push((k, fresh)) && i == s.len(),
    ensures
        mid.update(i, (k, f(mid[i].1))) == upsert(s, k, fresh, f),
        unique_keys(upsert(s, k, fresh, f)),
        upsert(s, k, fresh, f).len() == mid.len(),
        upsert(s, k, fresh, f)[i] == (k, f(mid[i].1)),
        forall|j: int| 0 <= j < s.len() && j != i ==> upsert(s, k, fresh, f)[j] == s[j],
{
    if has_key(s, k) {
        let c = choose|c: int| 0 <= c < s.len() && s[c].0 == k;
        assert(c == i);
    } else {
        let r = s.push((k, f(fresh)));
        assert(mid.update(i, (k, f(mid[i].1))) =~= r);
        assert forall|a: int, b: int|
            0 <= a < r.len() && 0 <= b < r.len() && a != b implies r[a].0 != r[b].0 by {
            if a == s.len() {
                assert(s[b].0 == r[b].0);
            } else if b == s.len() {
                assert(s[a].0 == r[a].0);
            }
        }
    }
}

/// `a + 1` unless `a` is already `u64::MAX`.
pub open spec fn gauge_up(a: u64) -> u64 {
    saturating_sum(a, 1)
}

/// `a - 1` unless `a` is already zero.
pub open spec fn gauge_down(a: u64) -> u64 {
    if a > 0 {
        (a - 1) as u64
    } else {
        0
    }
}

/// What ends with one class of connection end.
pub struct TransportEndModel {
    pub close_total: u64,
    pub lifetime: HistModel,
}

/// The connections of one peer role.
pub struct TransportModel {
    pub open_total: u64,
    pub open_active: u64,
    pub rx_bytes_total: u64,
    pub tx_bytes_total: u64,
    pub ends: Seq<(TransportEndClass, TransportEndModel)>,
}

/// What closed a connection.
#[derive(Copy, Clone, Debug)]
pub struct TransportClose {
    pub duration_ms: u64,
    pub rx_bytes: u64,
    pub tx_bytes: u64,
    pub clean: bool,
}

impl TransportEndModel {
    /// The value before any event.
    pub open spec fn empty() -> TransportEndModel {
        TransportEndModel { close_total: 0, lifetime: HistModel::empty() }
    }

    /// After one more connection that lived `ms` milliseconds.
    pub open spec fn closed(self, ms: u64) -> TransportEndModel {
        TransportEndModel {
            close_total: saturating_sum(self.close_total, 1),
            lifetime: self.lifetime.observed(ms),
        }
    }

    /// Keys are unique and every histogram is well formed.
    pub open spec fn wf(self) -> bool {
        self.lifetime.wf()
    }
}

impl TransportModel {
    /// The value before any event.
    pub open spec fn empty() -> TransportModel {
        TransportModel {
            open_total: 0,
            open_active: 0,
            rx_bytes_total: 0,
            tx_bytes_total: 0,
            ends: Seq::empty(),
        }
    }

    /// Keys are unique and every histogram is well formed.
    pub open spec fn wf(self) -> bool {
        &&& unique_keys(self.ends)
        &&& forall|i: int| 0 <= i < self.ends.len() ==> (#[trigger] self.ends[i]).1.wf()
    }

    /// After a connection opened.
    pub open spec fn opened(self) -> TransportModel {
        TransportModel {
            open_total: saturating_sum(self.open_total, 1),
            open_active: gauge_up(self.open_active),
            ..self
        }
    }

    /// After a connection closed.
    pub open spec fn closed(self, c: TransportClose) -> TransportModel {
        TransportModel {
            open_active: gauge_down(self.open_active),
            rx_bytes_total: saturating_sum(self.rx_bytes_total, c.rx_bytes),
            tx_bytes_total: saturating_sum(self.tx_bytes_total, c.tx_bytes),
            ends: upsert(
                self.ends,
                if c.clean {
                    TransportEndClass::Success
                } else {
                    TransportEndClass::Failure
                },
                TransportEndModel::empty(),
                |m: TransportEndModel| m.closed(c.duration_ms),
            ),
            ..self
        }
    }
}

/// What ends with one class of response end.
pub struct HttpEndModel {
    pub total: u64,
    pub latency: HistModel,
}

impl HttpEndModel {
    /// The value before any event.
    pub open spec fn empty() -> HttpEndModel {
        HttpEndModel { total: 0, latency: HistModel::empty() }
    }

    /// After one more response, `ms` after its request opened.
    pub open spec fn added(self, ms: u64) -> HttpEndModel {
        HttpEndModel { total: saturating_sum(self.total, 1), latency: self.latency.observed(ms) }
    }

    /// Keys are unique and every histogram is well formed.
    pub open spec fn wf(self) -> bool {
        self.latency.wf()
    }
}

/// The ends under one response class.
pub struct ResponseModel {
    pub ends: Seq<(HttpEndClass, HttpEndModel)>,
}

impl ResponseModel {
    /// The value before any event.
    pub open spec fn empty() -> ResponseModel {
        ResponseModel { ends: Seq::empty() }
    }

    /// Keys are unique and every histogram is well formed.
    pub open spec fn wf(self) -> bool {
        &&& unique_keys(self.ends)
        &&& forall|i: int| 0 <= i < self.ends.len() ==> (#[trigger] self.ends[i]).1.wf()
    }

    /// After a stream ended as `end`, `ms` after its request opened.
    pub open spec fn ended(self, end: HttpEndClass, ms: u64) -> ResponseModel {
        ResponseModel {
            ends: upsert(self.ends, end, HttpEndModel::empty(), |m: HttpEndModel| m.added(ms)),
        }
    }
}

/// What happened to the requests of one authority.
#[derive(Copy, Clone, Debug)]
pub enum RequestUpdate {
    /// A request opened.
    Open,
    /// A request ended; responses carry its outcome.
    End,
    /// A request was reset before its response, with the HTTP/2 reason at
    /// this index.
    Fail { reason: u32, ms: u64 },
    /// A response opened.
    ResponseOpen { status_code: u16 },
    /// A response stream ended.
    ResponseEnd { status_code: u16, end: HttpEndClass, ms: u64 },
}

/// The requests of one authority.
pub struct RequestModel {
    pub total: u64,
    pub responses: Seq<(HttpResponseClass, ResponseModel)>,
}

impl RequestModel {
    /// The value before any event.
    pub open spec fn empty() -> RequestModel {
        RequestModel { total: 0, responses: Seq::empty() }
    }

    /// Keys are unique and every histogram is well formed.
    pub open spec fn wf(self) -> bool {
        &&& unique_keys(self.responses)
        &&& forall|i: int| 0 <= i < self.responses.len() ==> (#[trigger] self.responses[i]).1.wf()
    }

    /// After `u`.
    pub open spec fn updated(self, u: RequestUpdate) -> RequestModel {
        match u {
            RequestUpdate::Open => RequestModel { total: saturating_sum(self.total, 1), ..self },
            RequestUpdate::End => self,
            RequestUpdate::Fail { reason, ms } => RequestModel {
                responses: upsert(
                    self.responses,
                    HttpResponseClass::Error { reason },
                    ResponseModel::empty(),
                    |r: ResponseModel| r.ended(HttpEndClass::Error { reason }, ms),
                ),
                ..self
            },
            RequestUpdate::ResponseOpen { status_code } => RequestModel {
                responses: upsert(
                    self.responses,
                    HttpResponseClass::Response { status_code },
                    ResponseModel::empty(),
                    |r: ResponseModel| r,
                ),
                ..self
            },
            RequestUpdate::ResponseEnd { status_code, end, ms } => RequestModel {
                responses: upsert(
                    self.responses,
                    HttpResponseClass::Response { status_code },
                    ResponseModel::empty(),
                    |r: ResponseModel| r.ended(end, ms),
                ),
                ..self
            },
        }
    }
}


/// The key of a destination: its formatted labels, empty where there are
/// none.
pub open spec fn dst_key(l: Option<crate::labels::DstLabels>) -> Seq<char> {
    match l {
        Some(d) => crate::labels::FmtLabels::text(&d),
        None => Seq::empty(),
    }
}

/// The index of the HTTP/2 reason of an error code: the code itself, or the
/// last reason, `UNKNOWN`, for a code past the list.
pub open spec fn reason_index(code: u32) -> u32 {
    if code < 15 {
        code
    } else {
        14
    }
}

/// The metrics of one destination.
pub struct DstModel {
    pub src: TransportModel,
    pub dst: TransportModel,
    pub requests: Seq<(Seq<char>, RequestModel)>,
}

impl DstModel {
    /// The value before any event.
    pub open spec fn empty() -> DstModel {
        DstModel { src: TransportModel::empty(), dst: TransportModel::empty(), requests: Seq::empty() }
    }

    /// Keys are unique and every histogram is well formed.
    pub open spec fn wf(self) -> bool {
        &&& self.src.wf()
        &&& self.dst.wf()
        &&& unique_keys(self.requests)
        &&& forall|i: int| 0 <= i < self.requests.len() ==> (#[trigger] self.requests[i]).1.wf()
    }

    /// After a connection of role `peer` opened, or closed with `close`.
    pub open spec fn transport_updated(
        self,
        peer: crate::event::Peer,
        close: Option<TransportClose>,
    ) -> DstModel {
        let f = |t: TransportModel|
            match close {
                Some(c) => t.closed(c),
                None => t.opened(),
            };
        match peer {
            crate::event::Peer::Src => DstModel { src: f(self.src), ..self },
            crate::event::Peer::Dst => DstModel { dst: f(self.dst), ..self },
        }
    }

    /// After `u` on the requests of `authority`.
    pub open spec fn request_updated(self, authority: Seq<char>, u: RequestUpdate) -> DstModel {
        DstModel {
            requests: upsert(
                self.requests,
                authority,
                RequestModel::empty(),
                |r: RequestModel| r.updated(u),
            ),
            ..self
        }
    }
}

/// The metrics of one direction, by destination.
pub struct ProxyModel {
    pub dsts: Seq<(Seq<char>, DstModel)>,
}

impl ProxyModel {
    /// The value before any event.
    pub open spec fn empty() -> ProxyModel {
        ProxyModel { dsts: Seq::empty() }
    }

    /// Keys are unique and every histogram is well formed.
    pub open spec fn wf(self) -> bool {
        &&& unique_keys(self.dsts)
        &&& forall|i: int| 0 <= i < self.dsts.len() ==> (#[trigger] self.dsts[i]).1.wf()
    }

    /// After a connection event of role `peer` to the destination `key`.
    pub open spec fn transport_updated(
        self,
        key: Seq<char>,
        peer: crate::event::Peer,
        close: Option<TransportClose>,
    ) -> ProxyModel {
        ProxyModel {
            dsts: upsert(
                self.dsts,
                key,
                DstModel::empty(),
                |d: DstModel| d.transport_updated(peer, close),
            ),
        }
    }

    /// After `u` on the requests of `authority` to the destination `key`.
    pub open spec fn request_updated(
        self,
        key: Seq<char>,
        authority: Seq<char>,
        u: RequestUpdate,
    ) -> ProxyModel {
        ProxyModel {
            dsts: upsert(
                self.dsts,
                key,
                DstModel::empty(),
                |d: DstModel| d.request_updated(authority, u),
            ),
        }
    }
}

/// All metrics: per direction, and the start time of the process.
pub struct RootModel {
    pub inbound: ProxyModel,
    pub outbound: ProxyModel,
    pub start_time: u64,
}

impl RootModel {
    /// Keys are unique and every histogram is well formed.
    pub open spec fn wf(self) -> bool {
        self.inbound.wf() && self.outbound.wf()
    }

    /// After a connection event.
    pub open spec fn transport_recorded(
        self,
        ctx: crate::event::TransportCtx,
        close: Option<TransportClose>,
    ) -> RootModel {
        let key = match ctx.peer {
            crate::event::Peer::Dst => dst_key(ctx.dst_labels),
            crate::event::Peer::Src => Seq::empty(),
        };
        match ctx.direction {
            crate::event::Direction::Inbound => RootModel {
                inbound: self.inbound.transport_updated(key, ctx.peer, close),
                ..self
            },
            crate::event::Direction::Outbound => RootModel {
                outbound: self.outbound.transport_updated(key, ctx.peer, close),
                ..self
            },
        }
    }

    /// After an HTTP event.
    pub open spec fn request_recorded(self, req: crate::event::RequestCtx, u: RequestUpdate) -> RootModel {
        let key = dst_key(req.dst_labels);
        match req.direction {
            crate::event::Direction::Inbound => RootModel {
                inbound: self.inbound.request_updated(key, req.authority@, u),
                ..self
            },
            crate::event::Direction::Outbound => RootModel {
                outbound: self.outbound.request_updated(key, req.authority@, u),
                ..self
            },
        }
    }

    /// After `e`.
    pub open spec fn recorded(self, e: crate::event::Event) -> RootModel {
        match e {
            crate::event::Event::TransportOpen(ctx) => self.transport_recorded(ctx, None),
            crate::event::Event::TransportClose(ctx, c) => self.transport_recorded(ctx, Some(c)),
            crate::event::Event::StreamRequestOpen(req) => self.request_recorded(req, RequestUpdate::Open),
            crate::event::Event::StreamRequestFail(req, fail) => self.request_recorded(
                req,
                RequestUpdate::Fail {
                    reason: reason_index(fail.error_code),
                    ms: fail.since_request_open_ms,
                },
            ),
            crate::event::Event::StreamRequestEnd(req) => self.request_recorded(req, RequestUpdate::End),
            crate::event::Event::StreamResponseOpen(rsp) => self.request_recorded(
                rsp.request,
                RequestUpdate::ResponseOpen { status_code: rsp.status_code },
            ),
            crate::event::Event::StreamResponseEnd(rsp, end) => self.request_recorded(
                rsp.request,
                RequestUpdate::ResponseEnd {
                    status_code: rsp.status_code,
                    end: match end.grpc_status {
                        Some(g) => HttpEndClass::Grpc { status_code: g },
                        None => HttpEndClass::Eos,
                    },
                    ms: end.since_request_open_ms,
                },
            ),
            crate::event::Event::StreamResponseFail(rsp, fail) => self.request_recorded(
                rsp.request,
                RequestUpdate::ResponseEnd {
                    status_code: rsp.status_code,
                    end: HttpEndClass::Error { reason: reason_index(fail.error_code) },
                    ms: fail.since_request_open_ms,
                },
            ),
        }
    }
}

} // verus!
