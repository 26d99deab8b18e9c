//! Prometheus metrics for a proxy: counters, gauges and histograms kept in a
//! tree dimensioned by direction, destination, authority and response class,
//! and the text exposition of that tree.
//!
//! Label sets are written by fragments that never write a leading or a
//! trailing comma; `labels::AppendLabels` writes the comma between two
//! non-empty fragments, so that a fragment renders the same wherever it
//! stands.
use vstd::prelude::*;

pub mod text;
pub mod counter;
pub mod gauge;
pub mod labels;
pub mod help;
pub mod histogram;
mod keys;
pub mod model;
pub mod event;
pub mod tree;
pub mod exposition;
pub mod laws;
pub mod label_parse;
pub mod scrape;

use crate::event::Event;
use crate::exposition::{no_newline, root_text, sample_lines};
use crate::help::{section_names, section_text, Help, Kind, Section};
use crate::model::RootModel;
use crate::tree::Root;

verus! {

/// The metric families that a scrape describes, in order.
pub open spec fn all_metrics() -> Seq<Help> {
    seq![
        Help {
            name: "process_start_time_seconds",
            help: "The time the process started, in seconds since the Unix epoch.",
            kind: Kind::Gauge,
        },
        Help {
            name: "request_total",
            help: "Total number of HTTP requests the proxy has routed.",
            kind: Kind::Counter,
        },
        Help {
            name: "response_total",
            help: "Total number of HTTP resonses the proxy has served.",
            kind: Kind::Counter,
        },
        Help {
            name: "response_latency_ms",
            help: "HTTP request latencies, in milliseconds.",
            kind: Kind::Histogram,
        },
        Help {
            name: "tcp_open_total",
            help: "Total number of opened connections.",
            kind: Kind::Counter,
        },
        Help {
            name: "tcp_close_total",
            help: "Total number of closed connections.",
            kind: Kind::Counter,
        },
        Help {
            name: "tcp_open_connections",
            help: "Currently open connections.",
            kind: Kind::Gauge,
        },
        Help {
            name: "tcp_connection_duration_ms",
            help: "Connection lifetimes, in milliseconds",
            kind: Kind::Histogram,
        },
        Help {
            name: "tcp_read_bytes_total",
            help: "Total number of bytes read from peers.",
            kind: Kind::Counter,
        },
        Help {
            name: "tcp_write_bytes_total",
            help: "Total number of bytes written to peers.",
            kind: Kind::Counter,
        },
    ]
}

/// The metric families that a scrape describes.
pub fn metrics_section() -> (r: Section)
    ensures
        r.0@ == all_metrics(),
{
    let v = vec![
        Help {
            name: "process_start_time_seconds",
            help: "The time the process started, in seconds since the Unix epoch.",
            kind: Kind::Gauge,
        },
        Help {
            name: "request_total",
            help: "Total number of HTTP requests the proxy has routed.",
            kind: Kind::Counter,
        },
        Help {
            name: "response_total",
            help: "Total number of HTTP resonses the proxy has served.",
            kind: Kind::Counter,
        },
        Help {
            name: "response_latency_ms",
            help: "HTTP request latencies, in milliseconds.",
            kind: Kind::Histogram,
        },
        Help {
            name: "tcp_open_total",
            help: "Total number of opened connections.",
            kind: Kind::Counter,
        },
        Help {
            name: "tcp_close_total",
            help: "Total number of closed connections.",
            kind: Kind::Counter,
        },
        Help {
            name: "tcp_open_connections",
            help: "Currently open connections.",
            kind: Kind::Gauge,
        },
        Help {
            name: "tcp_connection_duration_ms",
            help: "Connection lifetimes, in milliseconds",
            kind: Kind::Histogram,
        },
        Help {
            name: "tcp_read_bytes_total",
            help: "Total number of bytes read from peers.",
            kind: Kind::Counter,
        },
        Help {
            name: "tcp_write_bytes_total",
            help: "Total number of bytes written to peers.",
            kind: Kind::Counter,
        },
    ];
    assert(v@ =~= all_metrics());
    Section(v)
}

/// Each metric family of a scrape is described once: the description
/// names ten families, no two alike, each with one `# HELP` and one `# TYPE`
/// line, and no line of the samples after it starts with `#` (where no
/// destination key holds a newline).
pub proof fn lemma_each_family_described_once(m: RootModel)
    requires
        forall|i: int| 0 <= i < m.inbound.dsts.len() ==> no_newline(#[trigger] m.inbound.dsts[i].0),
        forall|i: int| 0 <= i < m.outbound.dsts.len() ==> no_newline(#[trigger] m.outbound.dsts[i].0),
    ensures
        section_names(all_metrics()).len() == 10,
        section_names(all_metrics()).no_duplicates(),
        sample_lines(root_text(m)),
{
    crate::exposition::lemma_root_lines(m);
    lemma_family_names_distinct();
}

proof fn lemma_family_names_distinct()
    ensures
        section_names(all_metrics()).len() == 10,
        section_names(all_metrics()).no_duplicates(),
{
    reveal_strlit("process_start_time_seconds");
    reveal_strlit("request_total");
    reveal_strlit("response_total");
    reveal_strlit("response_latency_ms");
    reveal_strlit("tcp_open_total");
    reveal_strlit("tcp_close_total");
    reveal_strlit("tcp_open_connections");
    reveal_strlit("tcp_connection_duration_ms");
    reveal_strlit("tcp_read_bytes_total");
    reveal_strlit("tcp_write_bytes_total");
    let names = section_names(all_metrics());
    assert forall|i: int, j: int| 0 <= i < names.len() && 0 <= j < names.len() && i != j implies names[i]
        != names[j] by {
        if names[i] == names[j] {
            assert(names[i].len() == names[j].len());
            assert(names[i][1] == names[j][1]);
            assert(names[i][4] == names[j][4]);
            assert(names[i][6] == names[j][6]);
        }
    }
}

/// Records events into the metrics.
#[derive(Debug)]
pub struct Record {
    metrics: Root,
}

impl View for Record {
    type V = RootModel;

    closed spec fn view(&self) -> RootModel {
        self.metrics@
    }
}

impl Record {
    /// The tree is well formed.
    pub closed spec fn wf(&self) -> bool {
        self.metrics.wf()
    }

    /// Updates the metrics that `e` concerns.
    pub fn record(&mut self, e: &Event)
        requires
            old(self).wf(),
        ensures
            final(self).wf(),
            final(self)@ == old(self)@.recorded(*e),
    {
        self.metrics.record(e);
    }

    /// The metrics recorded so far.
    pub fn metrics(&self) -> (r: &Root)
        ensures
            r@ == self@,
            self.wf() ==> r.wf(),
    {
        &self.metrics
    }
}

/// Writes the exposition of the metrics.
#[derive(Copy, Clone, Debug)]
pub struct Serve;

impl Serve {
    /// Appends the `# HELP` and `# TYPE` lines of every metric family.
    pub fn write_help(buf: &mut String)
        ensures
            final(buf)@ == old(buf)@ + section_text(all_metrics()),
    {
        metrics_section().fmt_section(buf);
    }

    /// Appends a whole scrape of `metrics`: the description of every metric
    /// family, then every sample.
    pub fn write_metrics(&self, metrics: &Root, buf: &mut String)
        requires
            metrics.wf(),
        ensures
            final(buf)@ == old(buf)@ + section_text(all_metrics()) + root_text(metrics@),
    {
        Self::write_help(buf);
        metrics.fmt_metrics(buf);
    }
}

/// Empty metrics of a process that started `start_time_secs` seconds after
/// the Unix epoch: the side that records, and the side that writes.
pub fn new(start_time_secs: u64) -> (r: (Record, Serve))
    ensures
        r.0.wf(),
        r.0@ == (RootModel {
            inbound: crate::model::ProxyModel::empty(),
            outbound: crate::model::ProxyModel::empty(),
            start_time: start_time_secs,
        }),
{
    (Record { metrics: Root::new(start_time_secs) }, Serve)
}

} // verus!
