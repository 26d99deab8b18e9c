//! What a scrape request asks for: the metrics or nothing, and whether the
//! body is gzipped.
use vstd::prelude::*;

verus! {

/// One item of an `Accept-Encoding` header: whether it names gzip, and
/// whether its quality is above zero.
#[derive(Copy, Clone, Debug)]
pub struct AcceptedCoding {
    pub gzip: bool,
    pub acceptable: bool,
}

/// The response a scrape gets.
#[derive(Copy, Clone, Debug, PartialEq, Eq, Structural)]
pub enum ScrapeKind {
    /// The path is not `/metrics`: 404 with an empty body.
    NotFound,
    /// The metrics as plain text.
    Plain,
    /// The metrics, gzipped.
    Gzip,
}

/// Whether the client takes gzip: some item names it with a quality above
/// zero.
pub fn accepts_gzip(codings: &Vec<AcceptedCoding>) -> (r: bool)
    ensures
        r == exists|i: int| 0 <= i < codings@.len() && #[trigger] codings@[i].gzip && codings@[i].acceptable,
{
    let mut i: usize = 0;
    while i < codings.len()
        invariant
            i <= codings@.len(),
            forall|j: int| 0 <= j < i ==> !(#[trigger] codings@[j].gzip && codings@[j].acceptable),
        decreases codings@.len() - i,
    {
        if codings[i].gzip && codings[i].acceptable {
            return true;
        }
        i = i + 1;
    }
    false
}

/// Whether `path` is the scrape path, `/metrics`.
pub fn is_metrics_path(path: &str) -> (r: bool)
    ensures
        r == (path@ == "/metrics"@),
{
    let expected = "/metrics";
    proof { reveal_strlit("/metrics"); }
    let n = path.unicode_len();
    if n != 8 {
        return false;
    }
    let mut i: usize = 0;
    while i < 8
        invariant
            n == path@.len(),
            n == 8,
            expected@ == "/metrics"@,
            expected@.len() == 8,
            i <= 8,
            forall|j: int| 0 <= j < i ==> path@[j] == expected@[j],
        decreases 8 - i,
    {
        if path.get_char(i) != expected.get_char(i) {
            return false;
        }
        i = i + 1;
    }
    assert(path@ =~= expected@);
    true
}

/// The response to a request for `path` whose `Accept-Encoding` items are
/// `codings`.
pub fn scrape_kind(path: &str, codings: &Vec<AcceptedCoding>) -> (r: ScrapeKind)
    ensures
        path@ != "/metrics"@ ==> r == ScrapeKind::NotFound,
        path@ == "/metrics"@ ==> (r == ScrapeKind::Gzip <==> exists|i: int|
            0 <= i < codings@.len() && #[trigger] codings@[i].gzip && codings@[i].acceptable),
        path@ == "/metrics"@ ==> r != ScrapeKind::NotFound,
{
    if !is_metrics_path(path) {
        ScrapeKind::NotFound
    } else if accepts_gzip(codings) {
        ScrapeKind::Gzip
    } else {
        ScrapeKind::Plain
    }
}

} // verus!
