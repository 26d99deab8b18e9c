//! Metric families: their HELP and TYPE lines, and the sample lines of a
//! single value.
use vstd::prelude::*;
use crate::labels::FmtLabels;
use crate::text::{decimal, write_decimal};

verus! {

/// The type of a metric family.
#[derive(Copy, Clone, Debug, PartialEq, Eq, Structural)]
pub enum Kind {
    Counter,
    Gauge,
    Histogram,
}

/// The word of the `# TYPE` line for a kind.
pub open spec fn kind_word(k: Kind) -> Seq<char> {
    match k {
        Kind::Counter => "counter"@,
        Kind::Gauge => "gauge"@,
        Kind::Histogram => "histogram"@,
    }
}

/// Describes a metric family.
#[derive(Copy, Clone, Debug)]
pub struct Help {
    pub name: &'static str,
    pub help: &'static str,
    pub kind: Kind,
}

/// The two lines that introduce a family:
/// `# HELP <name> <help>` and `# TYPE <name> <kind>`.
pub open spec fn help_text(h: Help) -> Seq<char> {
    "# HELP "@ + h.name@ + " "@ + h.help@ + "\n"@ + "# TYPE "@ + h.name@ + " "@ + kind_word(
        h.kind,
    ) + "\n"@
}

/// The HELP and TYPE lines of each family of `hs`, in order.
pub open spec fn section_text(hs: Seq<Help>) -> Seq<char>
    decreases hs.len(),
{
    if hs.len() == 0 {
        Seq::empty()
    } else {
        section_text(hs.drop_last()) + help_text(hs.last())
    }
}

/// The names of the families of `hs`, in order.
pub open spec fn section_names(hs: Seq<Help>) -> Seq<Seq<char>> {
    hs.map_values(|h: Help| h.name@)
}

fn kind_str(k: Kind) -> (r: &'static str)
    ensures
        r@ == kind_word(k),
{
    match k {
        Kind::Counter => "counter",
        Kind::Gauge => "gauge",
        Kind::Histogram => "histogram",
    }
}

impl Help {
    /// Appends the HELP and TYPE lines of this family.
    pub fn fmt_help(&self, out: &mut String)
        ensures
            final(out)@ == old(out)@ + help_text(*self),
    {
        out.append("# HELP ");
        out.append(self.name);
        out.append(" ");
        out.append(self.help);
        out.append("\n");
        out.append("# TYPE ");
        out.append(self.name);
        out.append(" ");
        out.append(kind_str(self.kind));
        out.append("\n");
        assert(out@ =~= old(out)@ + help_text(*self));
    }
}

/// A list of metric families.
#[derive(Clone, Debug)]
pub struct Section(pub Vec<Help>);

impl Section {
    /// Appends the HELP and TYPE lines of each family, in order.
    pub fn fmt_section(&self, out: &mut String)
        ensures
            final(out)@ == old(out)@ + section_text(self.0@),
    {
        let mut i: usize = 0;
        while i < self.0.len()
            invariant
                i <= self.0@.len(),
                out@ == old(out)@ + section_text(self.0@.subrange(0, i as int)),
            decreases self.0@.len() - i,
        {
            let ghost before = out@;
            self.0[i].fmt_help(out);
            proof {
                let s = self.0@.subrange(0, i + 1);
                assert(s.drop_last() =~= self.0@.subrange(0, i as int));
                assert(out@ =~= old(out)@ + section_text(s));
            }
            i = i + 1;
        }
        assert(self.0@.subrange(0, self.0@.len() as int) =~= self.0@);
    }
}

/// The label list of a sample: nothing where the label body is empty,
/// `{<labels>}` otherwise.
pub open spec fn braced(labels: Seq<char>) -> Seq<char> {
    if labels.len() == 0 {
        Seq::empty()
    } else {
        seq!['{'] + labels + seq!['}']
    }
}

/// One sample line: `<name>{<labels>} <value>`, ending in a newline.
pub open spec fn sample_line(name: Seq<char>, labels: Seq<char>, v: nat) -> Seq<char> {
    name + braced(labels) + seq![' '] + decimal(v) + seq!['\n']
}

/// Appends the sample line of `v` for the family `name` + `suffix`.
pub fn write_sample<L: FmtLabels>(out: &mut String, name: &str, suffix: &str, labels: &L, v: u64)
    ensures
        final(out)@ == old(out)@ + sample_line(name@ + suffix@, labels.text(), v as nat),
{
    proof {
        reveal_strlit("{");
        reveal_strlit("}");
        reveal_strlit(" ");
        reveal_strlit("\n");
    }
    out.append(name);
    out.append(suffix);
    let ghost mid = out@;
    if !labels.is_empty() {
        out.append("{");
        labels.fmt_labels(out);
        out.append("}");
    }
    assert(out@ =~= mid + braced(labels.text()));
    out.append(" ");
    write_decimal(out, v);
    out.append("\n");
    assert(out@ =~= old(out)@ + sample_line(name@ + suffix@, labels.text(), v as nat));
}

/// Appends the sample line of `v` for the family `name`.
pub fn write_value<L: FmtLabels>(out: &mut String, name: &str, labels: &L, v: u64)
    ensures
        final(out)@ == old(out)@ + sample_line(name@, labels.text(), v as nat),
{
    proof {
        reveal_strlit("");
        assert(name@ + ""@ =~= name@);
    }
    write_sample(out, name, "", labels, v);
}

} // verus!
