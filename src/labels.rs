//! Label sets and their composition.
//!
//! A label set renders as the body of a Prometheus label list: `key="value"`
//! items separated by commas, without braces. No fragment writes a leading or
//! a trailing comma; `AppendLabels` writes the one comma between two non-empty
//! neighbours. The encoder adds the braces where the body is not empty.
use vstd::prelude::*;
use std::collections::HashMap;
use crate::text::{escape, write_escaped};

verus! {

/// The label body of `a` followed by that of `b`, with a comma between them
/// where both are non-empty.
pub open spec fn join_labels(a: Seq<char>, b: Seq<char>) -> Seq<char> {
    if a.len() == 0 {
        b
    } else if b.len() == 0 {
        a
    } else {
        a + seq![','] + b
    }
}

/// A label body that neither starts nor ends with a comma.
pub open spec fn comma_free_edges(s: Seq<char>) -> bool {
    s.len() > 0 ==> s[0] != ',' && s[s.len() - 1] != ','
}

/// Composing two label bodies: the result is `a` where `b` is empty, `b`
/// where `a` is empty, `a`, a comma and `b` otherwise; and where neither has
/// a comma at an edge, neither has the result.
pub proof fn lemma_join_labels(a: Seq<char>, b: Seq<char>)
    ensures
        b.len() == 0 ==> join_labels(a, b) == a,
        a.len() == 0 ==> join_labels(a, b) == b,
        a.len() > 0 && b.len() > 0 ==> join_labels(a, b) == a + seq![','] + b,
        comma_free_edges(a) && comma_free_edges(b) ==> comma_free_edges(join_labels(a, b)),
        join_labels(a, b).len() == 0 <==> (a.len() == 0 && b.len() == 0),
{
    if a.len() > 0 && b.len() > 0 {
        let j = a + seq![','] + b;
        assert(j[0] == a[0]);
        assert(j[j.len() - 1] == b[b.len() - 1]);
    }
}

/// Composition is associative: how appends are grouped does not change the
/// text.
pub proof fn lemma_join_labels_assoc(a: Seq<char>, b: Seq<char>, c: Seq<char>)
    ensures
        join_labels(join_labels(a, b), c) == join_labels(a, join_labels(b, c)),
{
    if a.len() > 0 && b.len() > 0 && c.len() > 0 {
        assert(a + seq![','] + b + seq![','] + c =~= a + seq![','] + (b + seq![','] + c));
    }
}

/// Something that renders as a label body.
pub trait FmtLabels {
    /// The label body that this value renders as.
    spec fn text(&self) -> Seq<char>;

    /// Whether the label body is empty.
    fn is_empty(&self) -> (r: bool)
        ensures
            r == (self.text().len() == 0),
    ;

    /// Appends the label body.
    fn fmt_labels(&self, out: &mut String)
        ensures
            final(out)@ == old(out)@ + self.text(),
    ;
}

/// The empty label set.
#[derive(Copy, Clone, Debug)]
pub struct NoLabels;

impl FmtLabels for NoLabels {
    open spec fn text(&self) -> Seq<char> {
        Seq::empty()
    }

    fn is_empty(&self) -> (r: bool) {
        true
    }

    fn fmt_labels(&self, out: &mut String) {
        assert(out@ =~= out@ + Seq::<char>::empty());
    }
}

/// A fragment given as text, such as `peer="src"`.
impl<'a> FmtLabels for &'a str {
    open spec fn text(&self) -> Seq<char> {
        (*self)@
    }

    fn is_empty(&self) -> (r: bool) {
        str::is_empty(*self)
    }

    fn fmt_labels(&self, out: &mut String) {
        out.append(*self);
    }
}

/// A fragment whose text was formatted when it was built, such as an
/// `authority="..."` label.
#[derive(Clone, Debug)]
pub struct FmtLabelsFn(String);

impl FmtLabelsFn {
    /// A fragment holding `s`.
    pub fn from_string(s: String) -> (r: FmtLabelsFn)
        ensures
            r.text() == s@,
    {
        FmtLabelsFn(s)
    }
}

impl FmtLabels for FmtLabelsFn {
    closed spec fn text(&self) -> Seq<char> {
        self.0@
    }

    fn is_empty(&self) -> (r: bool) {
        self.0.as_str().is_empty()
    }

    fn fmt_labels(&self, out: &mut String) {
        out.append(self.0.as_str());
    }
}

/// Two label sets, one after the other.
#[derive(Debug)]
pub struct AppendLabels<'a, A: FmtLabels, B: FmtLabels>(pub &'a A, pub &'a B);

impl<'a, A: FmtLabels, B: FmtLabels> AppendLabels<'a, A, B> {
    /// `a` followed by `b`.
    pub fn new(a: &'a A, b: &'a B) -> (r: AppendLabels<'a, A, B>)
        ensures
            r.text() == join_labels(a.text(), b.text()),
    {
        AppendLabels(a, b)
    }
}

impl<'a, A: FmtLabels, B: FmtLabels> FmtLabels for AppendLabels<'a, A, B> {
    open spec fn text(&self) -> Seq<char> {
        join_labels(self.0.text(), self.1.text())
    }

    fn is_empty(&self) -> (r: bool) {
        self.0.is_empty() && self.1.is_empty()
    }

    fn fmt_labels(&self, out: &mut String) {
        let a_empty = self.0.is_empty();
        let b_empty = self.1.is_empty();
        if a_empty && b_empty {
            assert(out@ =~= out@ + self.text());
        } else if !a_empty && b_empty {
            self.0.fmt_labels(out);
        } else if a_empty && !b_empty {
            self.1.fmt_labels(out);
        } else {
            self.0.fmt_labels(out);
            proof { reveal_strlit(","); }
            out.append(",");
            self.1.fmt_labels(out);
            assert(out@ =~= old(out)@ + self.text());
        }
    }
}

/// One destination label: `dst_<k>="<v escaped>"`.
pub open spec fn dst_label(k: Seq<char>, v: Seq<char>) -> Seq<char> {
    seq!['d', 's', 't', '_'] + k + seq!['=', '"'] + escape(v) + seq!['"']
}

/// The destination labels of `pairs`, in their order, separated by commas.
pub open spec fn dst_labels_text(pairs: Seq<(String, String)>) -> Seq<char>
    decreases pairs.len(),
{
    if pairs.len() == 0 {
        Seq::empty()
    } else if pairs.len() == 1 {
        dst_label(pairs[0].0@, pairs[0].1@)
    } else {
        dst_labels_text(pairs.drop_last()) + seq![','] + dst_label(
            pairs.last().0@,
            pairs.last().1@,
        )
    }
}

/// Labels of a destination, formatted once when they are built.
///
/// Two values are equal when their formatted text is; the map of the
/// pairs they were built from is kept for inspection only.
#[derive(Clone, Debug)]
pub struct DstLabels {
    formatted: String,
    by_key: HashMap<String, String>,
}

impl PartialEq for DstLabels {
    fn eq(&self, other: &DstLabels) -> (r: bool) {
        self.formatted == other.formatted
    }
}

impl vstd::std_specs::cmp::PartialEqSpecImpl for DstLabels {
    open spec fn obeys_eq_spec() -> bool {
        true
    }

    open spec fn eq_spec(&self, other: &DstLabels) -> bool {
        self.text() == other.text()
    }
}

impl Eq for DstLabels {
}

impl DstLabels {
    /// The labels of `pairs`, each key prefixed with `dst_` and each value
    /// quoted and escaped; `None` where `pairs` is empty.
    pub fn new(pairs: &Vec<(String, String)>) -> (r: Option<DstLabels>)
        ensures
            pairs@.len() == 0 <==> r.is_none(),
            r matches Some(d) ==> d.text() == dst_labels_text(pairs@),
    {
        if pairs.len() == 0 {
            return None;
        }
        let mut formatted = String::new();
        let mut by_key: HashMap<String, String> = HashMap::new();
        let mut i: usize = 0;
        while i < pairs.len()
            invariant
                i <= pairs@.len(),
                pairs@.len() > 0,
                formatted@ == dst_labels_text(pairs@.subrange(0, i as int)),
            decreases pairs@.len() - i,
        {
            let ghost before = formatted@;
            let (k, v) = (&pairs[i].0, &pairs[i].1);
            if i > 0 {
                proof { reveal_strlit(","); }
                formatted.append(",");
            }
            proof { reveal_strlit("dst_"); }
            formatted.append("dst_");
            formatted.append(k.as_str());
            proof { reveal_strlit("=\""); }
            formatted.append("=\"");
            write_escaped(&mut formatted, v.as_str());
            proof { reveal_strlit("\""); }
            formatted.append("\"");
            by_key.insert(k.clone(), v.clone());
            proof {
                let s = pairs@.subrange(0, i + 1);
                assert(s.drop_last() =~= pairs@.subrange(0, i as int));
                assert(s.last() == pairs@[i as int]);
                if i == 0 {
                    assert(formatted@ =~= dst_labels_text(s));
                } else {
                    assert(formatted@ =~= dst_labels_text(s));
                }
            }
            i = i + 1;
        }
        proof {
            assert(pairs@.subrange(0, pairs@.len() as int) =~= pairs@);
        }
        Some(DstLabels { formatted, by_key })
    }

    /// The pairs the labels were built from, by key.
    pub closed spec fn pairs_by_key(&self) -> Map<String, String> {
        self.by_key@
    }

    /// The pairs the labels were built from, by key.
    pub fn as_map(&self) -> (r: &HashMap<String, String>)
        ensures
            r@ == self.pairs_by_key(),
    {
        &self.by_key
    }

    /// The formatted label body.
    pub fn as_str(&self) -> (r: &str)
        ensures
            r@ == self.text(),
    {
        self.formatted.as_str()
    }
}

impl FmtLabels for DstLabels {
    closed spec fn text(&self) -> Seq<char> {
        self.formatted@
    }

    fn is_empty(&self) -> (r: bool) {
        self.formatted.as_str().is_empty()
    }

    fn fmt_labels(&self, out: &mut String) {
        out.append(self.formatted.as_str());
    }
}

} // verus!
