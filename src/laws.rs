//! Laws of the metric tree: counters only grow, and the open-connection
//! gauge balances the opens and the closes.
use vstd::prelude::*;
use crate::event::Event;
use crate::histogram::HistModel;
use crate::model::{
    has_key, upsert, DstModel, HttpEndModel, ProxyModel, RequestModel, ResponseModel, RootModel,
    TransportClose, TransportEndClass, TransportEndModel, TransportModel,
};

verus! {

/// `b` holds every key of `a` at the same place, each value grown as `le`
/// says, and possibly more entries after them.
pub open spec fn entries_le<K, V>(a: Seq<(K, V)>, b: Seq<(K, V)>, le: spec_fn(V, V) -> bool) -> bool {
    &&& a.len() <= b.len()
    &&& forall|i: int| 0 <= i < a.len() ==> (#[trigger] b[i]).0 == a[i].0 && le(a[i].1, b[i].1)
}

/// Every count of `a`, its sum and its number of values, at most those of `b`.
pub open spec fn hist_le(a: HistModel, b: HistModel) -> bool {
    a.le(b)
}

/// The close count and the lifetimes only grow.
pub open spec fn transport_end_le(a: TransportEndModel, b: TransportEndModel) -> bool {
    a.close_total <= b.close_total && hist_le(a.lifetime, b.lifetime)
}

/// Every counter of `a` is at most its counterpart in `b`.
pub open spec fn transport_le(a: TransportModel, b: TransportModel) -> bool {
    &&& a.open_total <= b.open_total
    &&& a.rx_bytes_total <= b.rx_bytes_total
    &&& a.tx_bytes_total <= b.tx_bytes_total
    &&& entries_le(a.ends, b.ends, |x: TransportEndModel, y: TransportEndModel| transport_end_le(x, y))
}

/// The response count and the latencies only grow.
pub open spec fn end_le(a: HttpEndModel, b: HttpEndModel) -> bool {
    a.total <= b.total && hist_le(a.latency, b.latency)
}

/// Each end class is kept, and its counters only grow.
pub open spec fn response_le(a: ResponseModel, b: ResponseModel) -> bool {
    entries_le(a.ends, b.ends, |x: HttpEndModel, y: HttpEndModel| end_le(x, y))
}

/// The request count only grows; each response class is kept and grows.
pub open spec fn request_le(a: RequestModel, b: RequestModel) -> bool {
    &&& a.total <= b.total
    &&& entries_le(a.responses, b.responses, |x: ResponseModel, y: ResponseModel| response_le(x, y))
}

/// Both connection trees and each authority are kept and grow.
pub open spec fn dst_le(a: DstModel, b: DstModel) -> bool {
    &&& transport_le(a.src, b.src)
    &&& transport_le(a.dst, b.dst)
    &&& entries_le(a.requests, b.requests, |x: RequestModel, y: RequestModel| request_le(x, y))
}

/// Each destination is kept and grows.
pub open spec fn proxy_le(a: ProxyModel, b: ProxyModel) -> bool {
    entries_le(a.dsts, b.dsts, |x: DstModel, y: DstModel| dst_le(x, y))
}

/// Every counter, histogram bucket, sum and count of `a` is at most its
/// counterpart in `b`, and every series of `a` is still in `b`.
pub open spec fn root_le(a: RootModel, b: RootModel) -> bool {
    &&& proxy_le(a.inbound, b.inbound)
    &&& proxy_le(a.outbound, b.outbound)
    &&& a.start_time == b.start_time
}

/// The metrics after each event of `es`, in order.
pub open spec fn recorded_all(m: RootModel, es: Seq<Event>) -> RootModel
    decreases es.len(),
{
    if es.len() == 0 {
        m
    } else {
        recorded_all(m, es.drop_last()).recorded(es.last())
    }
}

proof fn lemma_upsert_le<K, V>(
    s: Seq<(K, V)>,
    k: K,
    fresh: V,
    f: spec_fn(V) -> V,
    le: spec_fn(V, V) -> bool,
)
    requires
        forall|v: V| #[trigger] le(v, f(v)),
        forall|v: V| #[trigger] le(v, v),
    ensures
        entries_le(s, upsert(s, k, fresh, f), le),
{
    let r = upsert(s, k, fresh, f);
    if has_key(s, k) {
        let i = choose|i: int| 0 <= i < s.len() && s[i].0 == k;
        assert forall|j: int| 0 <= j < s.len() implies (#[trigger] r[j]).0 == s[j].0 && le(s[j].1, r[j].1) by {
            if j == i {
                assert(le(s[j].1, f(s[j].1)));
            } else {
                assert(le(s[j].1, s[j].1));
            }
        }
    } else {
        assert forall|j: int| 0 <= j < s.len() implies (#[trigger] r[j]).0 == s[j].0 && le(s[j].1, r[j].1) by {
            assert(r[j] == s[j]);
            assert(le(s[j].1, s[j].1));
        }
    }
}

proof fn lemma_entries_le_trans<K, V>(
    a: Seq<(K, V)>,
    b: Seq<(K, V)>,
    c: Seq<(K, V)>,
    le: spec_fn(V, V) -> bool,
)
    requires
        entries_le(a, b, le),
        entries_le(b, c, le),
        forall|x: V, y: V, z: V| #[trigger] le(x, y) && #[trigger] le(y, z) ==> le(x, z),
    ensures
        entries_le(a, c, le),
{
    assert forall|i: int| 0 <= i < a.len() implies (#[trigger] c[i]).0 == a[i].0 && le(a[i].1, c[i].1) by {
        let bi = b[i];
        let ci = c[i];
        assert(bi.0 == a[i].0 && le(a[i].1, bi.1));
        assert(ci.0 == bi.0 && le(bi.1, ci.1));
    }
}

proof fn lemma_entries_le_refl<K, V>(a: Seq<(K, V)>, le: spec_fn(V, V) -> bool)
    requires
        forall|v: V| #[trigger] le(v, v),
    ensures
        entries_le(a, a, le),
{
    assert forall|i: int| 0 <= i < a.len() implies (#[trigger] a[i]).0 == a[i].0 && le(a[i].1, a[i].1) by {
        assert(le(a[i].1, a[i].1));
    }
}

proof fn lemma_hist_observed(h: HistModel, ms: u64)
    ensures
        hist_le(h, h.observed(ms)),
{
}

proof fn lemma_transport_refl(t: TransportModel)
    ensures
        transport_le(t, t),
{
    lemma_entries_le_refl(t.ends, |x: TransportEndModel, y: TransportEndModel| transport_end_le(x, y));
}

proof fn lemma_transport_updated(t: TransportModel, close: Option<TransportClose>)
    ensures
        transport_le(
            t,
            match close {
                Some(c) => t.closed(c),
                None => t.opened(),
            },
        ),
{
    let le = |x: TransportEndModel, y: TransportEndModel| transport_end_le(x, y);
    match close {
        Some(c) => {
            let f = |m: TransportEndModel| m.closed(c.duration_ms);
            assert forall|v: TransportEndModel| #[trigger] le(v, f(v)) by {
                lemma_hist_observed(v.lifetime, c.duration_ms);
            }
            let class = if c.clean {
                crate::model::TransportEndClass::Success
            } else {
                crate::model::TransportEndClass::Failure
            };
            lemma_upsert_le(t.ends, class, TransportEndModel::empty(), f, le);
        },
        None => {
            lemma_transport_refl(t);
        },
    }
}

proof fn lemma_response_refl(r: ResponseModel)
    ensures
        response_le(r, r),
{
    lemma_entries_le_refl(r.ends, |x: HttpEndModel, y: HttpEndModel| end_le(x, y));
}

proof fn lemma_response_ended(r: ResponseModel, e: crate::model::HttpEndClass, ms: u64)
    ensures
        response_le(r, r.ended(e, ms)),
{
    let le = |x: HttpEndModel, y: HttpEndModel| end_le(x, y);
    let f = |m: HttpEndModel| m.added(ms);
    assert forall|v: HttpEndModel| #[trigger] le(v, f(v)) by {
        lemma_hist_observed(v.latency, ms);
    }
    lemma_upsert_le(r.ends, e, HttpEndModel::empty(), f, le);
}

proof fn lemma_request_refl(r: RequestModel)
    ensures
        request_le(r, r),
{
    let le = |x: ResponseModel, y: ResponseModel| response_le(x, y);
    assert forall|v: ResponseModel| #[trigger] le(v, v) by {
        lemma_response_refl(v);
    }
    lemma_entries_le_refl(r.responses, le);
}

proof fn lemma_request_updated(r: RequestModel, u: crate::model::RequestUpdate)
    ensures
        request_le(r, r.updated(u)),
{
    let le = |x: ResponseModel, y: ResponseModel| response_le(x, y);
    assert forall|v: ResponseModel| #[trigger] le(v, v) by {
        lemma_response_refl(v);
    }
    match u {
        crate::model::RequestUpdate::Open => {
            lemma_entries_le_refl(r.responses, le);
        },
        crate::model::RequestUpdate::End => {
            lemma_request_refl(r);
        },
        crate::model::RequestUpdate::Fail { reason, ms } => {
            let f = |x: ResponseModel| x.ended(crate::model::HttpEndClass::Error { reason }, ms);
            assert forall|v: ResponseModel| #[trigger] le(v, f(v)) by {
                lemma_response_ended(v, crate::model::HttpEndClass::Error { reason }, ms);
            }
            lemma_upsert_le(
                r.responses,
                crate::model::HttpResponseClass::Error { reason },
                ResponseModel::empty(),
                f,
                le,
            );
        },
        crate::model::RequestUpdate::ResponseOpen { status_code } => {
            let f = |x: ResponseModel| x;
            assert forall|v: ResponseModel| #[trigger] le(v, f(v)) by {
                lemma_response_refl(v);
            }
            lemma_upsert_le(
                r.responses,
                crate::model::HttpResponseClass::Response { status_code },
                ResponseModel::empty(),
                f,
                le,
            );
        },
        crate::model::RequestUpdate::ResponseEnd { status_code, end, ms } => {
            let f = |x: ResponseModel| x.ended(end, ms);
            assert forall|v: ResponseModel| #[trigger] le(v, f(v)) by {
                lemma_response_ended(v, end, ms);
            }
            lemma_upsert_le(
                r.responses,
                crate::model::HttpResponseClass::Response { status_code },
                ResponseModel::empty(),
                f,
                le,
            );
        },
    }
}

proof fn lemma_dst_refl(d: DstModel)
    ensures
        dst_le(d, d),
{
    lemma_transport_refl(d.src);
    lemma_transport_refl(d.dst);
    let le = |x: RequestModel, y: RequestModel| request_le(x, y);
    assert forall|v: RequestModel| #[trigger] le(v, v) by {
        lemma_request_refl(v);
    }
    lemma_entries_le_refl(d.requests, le);
}

proof fn lemma_dst_transport_updated(
    d: DstModel,
    peer: crate::event::Peer,
    close: Option<TransportClose>,
)
    ensures
        dst_le(d, d.transport_updated(peer, close)),
{
    lemma_dst_refl(d);
    lemma_transport_updated(d.src, close);
    lemma_transport_updated(d.dst, close);
}

proof fn lemma_dst_request_updated(d: DstModel, a: Seq<char>, u: crate::model::RequestUpdate)
    ensures
        dst_le(d, d.request_updated(a, u)),
{
    lemma_dst_refl(d);
    let le = |x: RequestModel, y: RequestModel| request_le(x, y);
    let f = |r: RequestModel| r.updated(u);
    assert forall|v: RequestModel| #[trigger] le(v, v) by {
        lemma_request_refl(v);
    }
    assert forall|v: RequestModel| #[trigger] le(v, f(v)) by {
        lemma_request_updated(v, u);
    }
    lemma_upsert_le(d.requests, a, RequestModel::empty(), f, le);
}

proof fn lemma_proxy_refl(p: ProxyModel)
    ensures
        proxy_le(p, p),
{
    let le = |x: DstModel, y: DstModel| dst_le(x, y);
    assert forall|v: DstModel| #[trigger] le(v, v) by {
        lemma_dst_refl(v);
    }
    lemma_entries_le_refl(p.dsts, le);
}

/// Recording one event only grows the counters.
pub proof fn lemma_root_recorded(m: RootModel, e: Event)
    ensures
        root_le(m, m.recorded(e)),
{
    lemma_proxy_refl(m.inbound);
    lemma_proxy_refl(m.outbound);
    let le = |x: DstModel, y: DstModel| dst_le(x, y);
    assert forall|v: DstModel| #[trigger] le(v, v) by {
        lemma_dst_refl(v);
    }
    match e {
        Event::TransportOpen(ctx) => {
            lemma_proxy_transport(m.inbound, ctx, None);
            lemma_proxy_transport(m.outbound, ctx, None);
        },
        Event::TransportClose(ctx, c) => {
            lemma_proxy_transport(m.inbound, ctx, Some(c));
            lemma_proxy_transport(m.outbound, ctx, Some(c));
        },
        Event::StreamRequestOpen(req) => {
            lemma_proxy_request(m.inbound, req, crate::model::RequestUpdate::Open);
            lemma_proxy_request(m.outbound, req, crate::model::RequestUpdate::Open);
        },
        Event::StreamRequestFail(req, fail) => {
            let u = crate::model::RequestUpdate::Fail {
                reason: crate::model::reason_index(fail.error_code),
                ms: fail.since_request_open_ms,
            };
            lemma_proxy_request(m.inbound, req, u);
            lemma_proxy_request(m.outbound, req, u);
        },
        Event::StreamRequestEnd(req) => {
            lemma_proxy_request(m.inbound, req, crate::model::RequestUpdate::End);
            lemma_proxy_request(m.outbound, req, crate::model::RequestUpdate::End);
        },
        Event::StreamResponseOpen(rsp) => {
            let u = crate::model::RequestUpdate::ResponseOpen { status_code: rsp.status_code };
            lemma_proxy_request(m.inbound, rsp.request, u);
            lemma_proxy_request(m.outbound, rsp.request, u);
        },
        Event::StreamResponseEnd(rsp, end) => {
            let u = crate::model::RequestUpdate::ResponseEnd {
                status_code: rsp.status_code,
                end: match end.grpc_status {
                    Some(g) => crate::model::HttpEndClass::Grpc { status_code: g },
                    None => crate::model::HttpEndClass::Eos,
                },
                ms: end.since_request_open_ms,
            };
            lemma_proxy_request(m.inbound, rsp.request, u);
            lemma_proxy_request(m.outbound, rsp.request, u);
        },
        Event::StreamResponseFail(rsp, fail) => {
            let u = crate::model::RequestUpdate::ResponseEnd {
                status_code: rsp.status_code,
                end: crate::model::HttpEndClass::Error {
                    reason: crate::model::reason_index(fail.error_code),
                },
                ms: fail.since_request_open_ms,
            };
            lemma_proxy_request(m.inbound, rsp.request, u);
            lemma_proxy_request(m.outbound, rsp.request, u);
        },
    }
}

proof fn lemma_proxy_transport(
    p: ProxyModel,
    ctx: crate::event::TransportCtx,
    close: Option<TransportClose>,
)
    ensures
        proxy_le(
            p,
            p.transport_updated(
                match ctx.peer {
                    crate::event::Peer::Dst => crate::model::dst_key(ctx.dst_labels),
                    crate::event::Peer::Src => Seq::empty(),
                },
                ctx.peer,
                close,
            ),
        ),
{
    let key = match ctx.peer {
        crate::event::Peer::Dst => crate::model::dst_key(ctx.dst_labels),
        crate::event::Peer::Src => Seq::empty(),
    };
    let le = |x: DstModel, y: DstModel| dst_le(x, y);
    let f = |d: DstModel| d.transport_updated(ctx.peer, close);
    assert forall|v: DstModel| #[trigger] le(v, v) by {
        lemma_dst_refl(v);
    }
    assert forall|v: DstModel| #[trigger] le(v, f(v)) by {
        lemma_dst_transport_updated(v, ctx.peer, close);
    }
    lemma_upsert_le(p.dsts, key, DstModel::empty(), f, le);
}

proof fn lemma_proxy_request(
    p: ProxyModel,
    req: crate::event::RequestCtx,
    u: crate::model::RequestUpdate,
)
    ensures
        proxy_le(
            p,
            p.request_updated(crate::model::dst_key(req.dst_labels), req.authority@, u),
        ),
{
    let le = |x: DstModel, y: DstModel| dst_le(x, y);
    let f = |d: DstModel| d.request_updated(req.authority@, u);
    assert forall|v: DstModel| #[trigger] le(v, v) by {
        lemma_dst_refl(v);
    }
    assert forall|v: DstModel| #[trigger] le(v, f(v)) by {
        lemma_dst_request_updated(v, req.authority@, u);
    }
    lemma_upsert_le(p.dsts, crate::model::dst_key(req.dst_labels), DstModel::empty(), f, le);
}

proof fn lemma_hist_trans(a: HistModel, b: HistModel, c: HistModel)
    requires
        hist_le(a, b),
        hist_le(b, c),
    ensures
        hist_le(a, c),
{
    assert forall|j: int| 0 <= j < a.counts.len() implies #[trigger] a.counts[j] <= c.counts[j] by {
        assert(a.counts[j] <= b.counts[j]);
        assert(b.counts[j] <= c.counts[j]);
    }
}

proof fn lemma_transport_trans(a: TransportModel, b: TransportModel, c: TransportModel)
    requires
        transport_le(a, b),
        transport_le(b, c),
    ensures
        transport_le(a, c),
{
    let le = |x: TransportEndModel, y: TransportEndModel| transport_end_le(x, y);
    assert forall|x: TransportEndModel, y: TransportEndModel, z: TransportEndModel|
        #[trigger] le(x, y) && #[trigger] le(y, z) implies le(x, z) by {
        lemma_hist_trans(x.lifetime, y.lifetime, z.lifetime);
    }
    lemma_entries_le_trans(a.ends, b.ends, c.ends, le);
}

proof fn lemma_response_trans(a: ResponseModel, b: ResponseModel, c: ResponseModel)
    requires
        response_le(a, b),
        response_le(b, c),
    ensures
        response_le(a, c),
{
    let le = |x: HttpEndModel, y: HttpEndModel| end_le(x, y);
    assert forall|x: HttpEndModel, y: HttpEndModel, z: HttpEndModel|
        #[trigger] le(x, y) && #[trigger] le(y, z) implies le(x, z) by {
        lemma_hist_trans(x.latency, y.latency, z.latency);
    }
    lemma_entries_le_trans(a.ends, b.ends, c.ends, le);
}

proof fn lemma_request_trans(a: RequestModel, b: RequestModel, c: RequestModel)
    requires
        request_le(a, b),
        request_le(b, c),
    ensures
        request_le(a, c),
{
    let le = |x: ResponseModel, y: ResponseModel| response_le(x, y);
    assert forall|x: ResponseModel, y: ResponseModel, z: ResponseModel|
        #[trigger] le(x, y) && #[trigger] le(y, z) implies le(x, z) by {
        lemma_response_trans(x, y, z);
    }
    lemma_entries_le_trans(a.responses, b.responses, c.responses, le);
}

proof fn lemma_dst_trans(a: DstModel, b: DstModel, c: DstModel)
    requires
        dst_le(a, b),
        dst_le(b, c),
    ensures
        dst_le(a, c),
{
    lemma_transport_trans(a.src, b.src, c.src);
    lemma_transport_trans(a.dst, b.dst, c.dst);
    let le = |x: RequestModel, y: RequestModel| request_le(x, y);
    assert forall|x: RequestModel, y: RequestModel, z: RequestModel|
        #[trigger] le(x, y) && #[trigger] le(y, z) implies le(x, z) by {
        lemma_request_trans(x, y, z);
    }
    lemma_entries_le_trans(a.requests, b.requests, c.requests, le);
}

proof fn lemma_proxy_trans(a: ProxyModel, b: ProxyModel, c: ProxyModel)
    requires
        proxy_le(a, b),
        proxy_le(b, c),
    ensures
        proxy_le(a, c),
{
    let le = |x: DstModel, y: DstModel| dst_le(x, y);
    assert forall|x: DstModel, y: DstModel, z: DstModel|
        #[trigger] le(x, y) && #[trigger] le(y, z) implies le(x, z) by {
        lemma_dst_trans(x, y, z);
    }
    lemma_entries_le_trans(a.dsts, b.dsts, c.dsts, le);
}

/// Counters only grow: after any sequence of events, every counter,
/// histogram bucket, sum and count is at least what it was before, and every
/// series is still there.
pub proof fn lemma_counters_monotonic(m: RootModel, es: Seq<Event>)
    ensures
        root_le(m, recorded_all(m, es)),
    decreases es.len(),
{
    if es.len() == 0 {
        lemma_proxy_refl(m.inbound);
        lemma_proxy_refl(m.outbound);
    } else {
        lemma_counters_monotonic(m, es.drop_last());
        let p = recorded_all(m, es.drop_last());
        lemma_root_recorded(p, es.last());
        lemma_proxy_trans(m.inbound, p.inbound, p.recorded(es.last()).inbound);
        lemma_proxy_trans(m.outbound, p.outbound, p.recorded(es.last()).outbound);
    }
}

/// The number of closed connections, over every class of end.
pub open spec fn closes(s: Seq<(TransportEndClass, TransportEndModel)>) -> nat
    decreases s.len(),
{
    if s.len() == 0 {
        0
    } else {
        closes(s.drop_last()) + s.last().1.close_total as nat
    }
}

/// The open connections are those opened and not closed.
pub open spec fn balanced(t: TransportModel) -> bool {
    t.open_active + closes(t.ends) == t.open_total
}

/// Both peer roles of a destination are balanced.
pub open spec fn dst_balanced(d: DstModel) -> bool {
    balanced(d.src) && balanced(d.dst)
}

proof fn lemma_closes_push(s: Seq<(TransportEndClass, TransportEndModel)>, x: (TransportEndClass, TransportEndModel))
    ensures
        closes(s.push(x)) == closes(s) + x.1.close_total,
{
    assert(s.push(x).drop_last() =~= s);
}

proof fn lemma_closes_update(
    s: Seq<(TransportEndClass, TransportEndModel)>,
    i: int,
    x: (TransportEndClass, TransportEndModel),
)
    requires
        0 <= i < s.len(),
    ensures
        closes(s.update(i, x)) + s[i].1.close_total == closes(s) + x.1.close_total,
        s[i].1.close_total <= closes(s),
    decreases s.len(),
{
    if i == s.len() - 1 {
        assert(s.update(i, x).drop_last() =~= s.drop_last());
    } else {
        lemma_closes_update(s.drop_last(), i, x);
        assert(s.update(i, x).drop_last() =~= s.drop_last().update(i, x));
    }
}

/// A connection tree with no events is balanced; an open keeps it balanced
/// where the open count has not reached `u64::MAX`, and a close keeps it
/// balanced where a connection is open.
pub proof fn lemma_open_close_balance(t: TransportModel, close: Option<TransportClose>)
    requires
        t.wf(),
        balanced(t),
        close is None ==> t.open_total < u64::MAX,
        close is Some ==> t.open_active > 0,
    ensures
        balanced(TransportModel::empty()),
        balanced(
            match close {
                Some(c) => t.closed(c),
                None => t.opened(),
            },
        ),
{
    assert(closes(TransportModel::empty().ends) == 0);
    match close {
        None => {
            assert(t.open_active < u64::MAX);
            assert(t.opened().open_active == t.open_active + 1);
            assert(t.opened().open_total == t.open_total + 1);
            assert(t.opened().ends == t.ends);
            assert(balanced(t.opened()));
        },
        Some(c) => {
            let class = if c.clean {
                TransportEndClass::Success
            } else {
                TransportEndClass::Failure
            };
            let f = |m: TransportEndModel| m.closed(c.duration_ms);
            if has_key(t.ends, class) {
                let i = choose|i: int| 0 <= i < t.ends.len() && t.ends[i].0 == class;
                crate::model::lemma_upsert_at(
                    t.ends,
                    t.ends,
                    class,
                    i,
                    TransportEndModel::empty(),
                    f,
                );
                lemma_closes_update(t.ends, i, (class, f(t.ends[i].1)));
                assert(t.ends[i].1.close_total < u64::MAX);
                assert(f(t.ends[i].1).close_total == t.ends[i].1.close_total + 1);
                assert(upsert(t.ends, class, TransportEndModel::empty(), f) == t.ends.update(
                    i,
                    (class, f(t.ends[i].1)),
                ));
                assert(closes(t.closed(c).ends) == closes(t.ends) + 1);
            } else {
                lemma_closes_push(t.ends, (class, f(TransportEndModel::empty())));
                assert(f(TransportEndModel::empty()).close_total == 1);
                assert(closes(t.closed(c).ends) == closes(t.ends) + 1);
            }
            assert(t.closed(c).ends == upsert(t.ends, class, TransportEndModel::empty(), f));
            assert(balanced(t.closed(c)));
        },
    }
}

/// For a destination, the open-connection gauge of each peer role equals the
/// opens less the successful and failed closes: this holds with no events,
/// and each event keeps it, where no open count has reached `u64::MAX` and no
/// close comes without an open connection.
pub proof fn lemma_dst_balance(d: DstModel, peer: crate::event::Peer, close: Option<TransportClose>)
    requires
        d.wf(),
        dst_balanced(d),
        close is None ==> d.src.open_total < u64::MAX && d.dst.open_total < u64::MAX,
        close is Some ==> (match peer {
            crate::event::Peer::Src => d.src.open_active > 0,
            crate::event::Peer::Dst => d.dst.open_active > 0,
        }),
    ensures
        dst_balanced(DstModel::empty()),
        dst_balanced(d.transport_updated(peer, close)),
        forall|a: Seq<char>, u: crate::model::RequestUpdate| dst_balanced(
            #[trigger] d.request_updated(a, u),
        ),
{
    lemma_open_close_balance(TransportModel::empty(), None);
    match peer {
        crate::event::Peer::Src => lemma_open_close_balance(d.src, close),
        crate::event::Peer::Dst => lemma_open_close_balance(d.dst, close),
    }
}

} // verus!
