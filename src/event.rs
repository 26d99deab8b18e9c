//! The events that the metric tree records, as the proxy reports them.
use vstd::prelude::*;
use crate::labels::DstLabels;
use crate::model::TransportClose;

verus! {

/// Which side of the proxy saw the traffic.
#[derive(Copy, Clone, Debug, PartialEq, Eq, Structural)]
pub enum Direction {
    Inbound,
    Outbound,
}

/// The role of the proxy's peer on a connection: `Src` for a connection the
/// proxy accepted, `Dst` for one it dialed.
#[derive(Copy, Clone, Debug, PartialEq, Eq, Structural)]
pub enum Peer {
    Src,
    Dst,
}

/// A connection: its direction, its peer role and, for a dialed connection,
/// the labels of its destination, where discovery has resolved them.
#[derive(Clone, Debug)]
pub struct TransportCtx {
    pub direction: Direction,
    pub peer: Peer,
    pub dst_labels: Option<DstLabels>,
}

/// An HTTP request: its direction, the labels of the destination its client
/// dialed, and the authority of its URI (empty where it has none).
#[derive(Clone, Debug)]
pub struct RequestCtx {
    pub direction: Direction,
    pub dst_labels: Option<DstLabels>,
    pub authority: String,
}

/// An HTTP response: its request and its status code.
#[derive(Clone, Debug)]
pub struct ResponseCtx {
    pub request: RequestCtx,
    pub status_code: u16,
}

/// A stream reset: its HTTP/2 error code and the time since its request
/// opened.
#[derive(Copy, Clone, Debug)]
pub struct StreamFail {
    pub error_code: u32,
    pub since_request_open_ms: u64,
}

/// The end of a response stream: its gRPC status, if any, and the time since
/// its request opened.
#[derive(Copy, Clone, Debug)]
pub struct StreamResponseEnd {
    pub grpc_status: Option<u32>,
    pub since_request_open_ms: u64,
}

/// An event of the proxy.
#[derive(Clone, Debug)]
pub enum Event {
    TransportOpen(TransportCtx),
    TransportClose(TransportCtx, TransportClose),
    StreamRequestOpen(RequestCtx),
    StreamRequestFail(RequestCtx, StreamFail),
    StreamRequestEnd(RequestCtx),
    StreamResponseOpen(ResponseCtx),
    StreamResponseEnd(ResponseCtx, StreamResponseEnd),
    StreamResponseFail(ResponseCtx, StreamFail),
}

} // verus!
