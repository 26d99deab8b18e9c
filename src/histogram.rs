//! A fixed-bucket latency distribution, in milliseconds.
use vstd::prelude::*;
use crate::counter::saturating_sum;
use crate::help::{sample_line, write_sample};
use crate::labels::{join_labels, AppendLabels, FmtLabels, FmtLabelsFn};
use crate::text::{decimal, write_decimal};

verus! {

/// The number of buckets, the last of which is `+Inf`.
pub const N_BUCKETS: usize = 19;

/// The upper bound of bucket `j`, for the finite buckets `0..18`.
pub open spec fn bound(j: int) -> int {
    if j == 0 {
        1
    } else if j == 1 {
        2
    } else if j == 2 {
        3
    } else if j == 3 {
        4
    } else if j == 4 {
        5
    } else if j == 5 {
        10
    } else if j == 6 {
        25
    } else if j == 7 {
        50
    } else if j == 8 {
        100
    } else if j == 9 {
        250
    } else if j == 10 {
        500
    } else if j == 11 {
        1000
    } else if j == 12 {
        2500
    } else if j == 13 {
        5000
    } else if j == 14 {
        10000
    } else if j == 15 {
        30000
    } else if j == 16 {
        60000
    } else {
        300000
    }
}

/// Whether a value of `ms` counts in bucket `j`: it is at most the bucket's
/// bound; every value counts in the last bucket.
pub open spec fn in_bucket(j: int, ms: u64) -> bool {
    j >= N_BUCKETS - 1 || ms <= bound(j)
}

proof fn lemma_bound_step(j: int)
    requires
        0 <= j < N_BUCKETS - 2,
    ensures
        bound(j) < bound(j + 1),
{
}

proof fn lemma_in_bucket_mono(i: int, j: int, ms: u64)
    requires
        0 <= i <= j,
        in_bucket(i, ms),
    ensures
        in_bucket(j, ms),
    decreases j - i,
{
    if i < j && i < N_BUCKETS - 2 {
        lemma_bound_step(i);
        lemma_in_bucket_mono(i + 1, j, ms);
    }
}

fn bucket_bound(j: usize) -> (r: u64)
    requires
        j < N_BUCKETS - 1,
    ensures
        r == bound(j as int),
{
    if j == 0 {
        1
    } else if j == 1 {
        2
    } else if j == 2 {
        3
    } else if j == 3 {
        4
    } else if j == 4 {
        5
    } else if j == 5 {
        10
    } else if j == 6 {
        25
    } else if j == 7 {
        50
    } else if j == 8 {
        100
    } else if j == 9 {
        250
    } else if j == 10 {
        500
    } else if j == 11 {
        1000
    } else if j == 12 {
        2500
    } else if j == 13 {
        5000
    } else if j == 14 {
        10000
    } else if j == 15 {
        30000
    } else if j == 16 {
        60000
    } else {
        300000
    }
}

/// What a histogram holds: the cumulative count of each bucket, and the sum
/// and the number of the observed values, each saturating at `u64::MAX`.
pub struct HistModel {
    pub counts: Seq<u64>,
    pub sum: u64,
    pub count: u64,
}

impl HistModel {
    /// One count per bucket, non-decreasing in bucket order, the last equal
    /// to the number of values.
    pub open spec fn wf(self) -> bool {
        &&& self.counts.len() == N_BUCKETS
        &&& forall|i: int, j: int|
            0 <= i <= j < N_BUCKETS ==> #[trigger] self.counts[i] <= #[trigger] self.counts[j]
        &&& self.counts[N_BUCKETS - 1] == self.count
    }

    /// A histogram with no values.
    pub open spec fn empty() -> HistModel {
        HistModel { counts: Seq::new(N_BUCKETS as nat, |j: int| 0u64), sum: 0, count: 0 }
    }

    /// The histogram after one more value of `ms`.
    pub open spec fn observed(self, ms: u64) -> HistModel {
        HistModel {
            counts: Seq::new(
                self.counts.len(),
                |j: int|
                    if in_bucket(j, ms) {
                        saturating_sum(self.counts[j], 1)
                    } else {
                        self.counts[j]
                    },
            ),
            sum: saturating_sum(self.sum, ms),
            count: saturating_sum(self.count, 1),
        }
    }

    /// Each value only grows.
    pub open spec fn le(self, other: HistModel) -> bool {
        &&& self.counts.len() == other.counts.len()
        &&& forall|j: int| 0 <= j < self.counts.len() ==> #[trigger] self.counts[j] <= other.counts[j]
        &&& self.sum <= other.sum
        &&& self.count <= other.count
    }
}

/// Bucket counts are non-decreasing in bucket order, and the last bucket,
/// `+Inf`, holds the number of values.
pub proof fn lemma_buckets_cumulative(h: HistModel, i: int, j: int)
    requires
        h.wf(),
        0 <= i <= j < N_BUCKETS,
    ensures
        h.counts[i] <= h.counts[j],
        h.counts[N_BUCKETS - 1] == h.count,
{
}

/// A latency distribution over fixed buckets.
#[derive(Clone, Debug)]
pub struct Histogram {
    buckets: Vec<u64>,
    sum: u64,
    count: u64,
}

impl View for Histogram {
    type V = HistModel;

    closed spec fn view(&self) -> HistModel {
        HistModel { counts: self.buckets@, sum: self.sum, count: self.count }
    }
}

impl Histogram {
    /// An empty histogram.
    pub fn new() -> (r: Histogram)
        ensures
            r@ == HistModel::empty(),
    {
        let mut buckets: Vec<u64> = Vec::new();
        let mut j: usize = 0;
        while j < N_BUCKETS
            invariant
                j <= N_BUCKETS,
                buckets@.len() == j,
                forall|i: int| 0 <= i < j ==> buckets@[i] == 0,
            decreases N_BUCKETS - j,
        {
            buckets.push(0);
            j = j + 1;
        }
        let r = Histogram { buckets, sum: 0, count: 0 };
        assert(r@.counts =~= HistModel::empty().counts);
        r
    }

    /// The cumulative count of bucket `j`.
    pub fn bucket(&self, j: usize) -> (r: u64)
        requires
            self@.wf(),
            j < N_BUCKETS,
        ensures
            r == self@.counts[j as int],
    {
        self.buckets[j]
    }

    /// The sum of the observed values.
    pub fn sum(&self) -> (r: u64)
        ensures
            r == self@.sum,
    {
        self.sum
    }

    /// The number of observed values.
    pub fn count(&self) -> (r: u64)
        ensures
            r == self@.count,
    {
        self.count
    }

    /// Records a value of `ms` milliseconds: each bucket whose bound is at
    /// least `ms`, and `+Inf`, counts one more; the sum grows by `ms`.
    pub fn observe(&mut self, ms: u64)
        requires
            old(self)@.wf(),
        ensures
            final(self)@ == old(self)@.observed(ms),
            final(self)@.wf(),
    {
        let ghost old_counts = self.buckets@;
        let mut j: usize = 0;
        while j < N_BUCKETS
            invariant
                j <= N_BUCKETS,
                self.buckets@.len() == N_BUCKETS,
                old_counts.len() == N_BUCKETS,
                self.sum == old(self).sum,
                self.count == old(self).count,
                forall|i: int|
                    0 <= i < N_BUCKETS ==> #[trigger] self.buckets@[i] == if i < j && in_bucket(
                        i,
                        ms,
                    ) {
                        saturating_sum(old_counts[i], 1)
                    } else {
                        old_counts[i]
                    },
            decreases N_BUCKETS - j,
        {
            let inside = if j == N_BUCKETS - 1 {
                true
            } else {
                ms <= bucket_bound(j)
            };
            if inside {
                let c = self.buckets[j];
                self.buckets.set(j, c.saturating_add(1));
            }
            j = j + 1;
        }
        self.sum = self.sum.saturating_add(ms);
        self.count = self.count.saturating_add(1);
        proof {
            assert(self@.counts =~= old(self)@.observed(ms).counts);
            assert forall|i: int, k: int|
                0 <= i <= k < N_BUCKETS implies #[trigger] self@.counts[i]
                <= #[trigger] self@.counts[k] by {
                assert(old(self)@.counts[i] <= old(self)@.counts[k]);
                if in_bucket(i, ms) {
                    lemma_in_bucket_mono(i, k, ms);
                }
            }
        }
    }
}

/// The `le` label of bucket `j`: its bound, or `+Inf` for the last.
pub open spec fn le_text(j: int) -> Seq<char> {
    "le=\""@ + (if j < N_BUCKETS - 1 {
        decimal(bound(j) as nat)
    } else {
        "+Inf"@
    }) + "\""@
}

/// The `_bucket` lines of the first `n` buckets.
pub open spec fn buckets_text(name: Seq<char>, labels: Seq<char>, counts: Seq<u64>, n: nat) -> Seq<
    char,
>
    decreases n,
{
    if n == 0 {
        Seq::empty()
    } else {
        buckets_text(name, labels, counts, (n - 1) as nat) + sample_line(
            name + "_bucket"@,
            join_labels(labels, le_text(n - 1)),
            counts[n - 1] as nat,
        )
    }
}

/// The lines of a histogram: one `_bucket` line per bucket, then `_sum` and
/// `_count`.
pub open spec fn histogram_text(name: Seq<char>, labels: Seq<char>, h: HistModel) -> Seq<char> {
    buckets_text(name, labels, h.counts, N_BUCKETS as nat) + sample_line(
        name + "_sum"@,
        labels,
        h.sum as nat,
    ) + sample_line(name + "_count"@, labels, h.count as nat)
}

fn le_label(j: usize) -> (r: FmtLabelsFn)
    requires
        j < N_BUCKETS,
    ensures
        r.text() == le_text(j as int),
{
    let mut s = String::new();
    s.append("le=\"");
    if j < N_BUCKETS - 1 {
        write_decimal(&mut s, bucket_bound(j));
    } else {
        s.append("+Inf");
    }
    s.append("\"");
    assert(s@ =~= le_text(j as int));
    FmtLabelsFn::from_string(s)
}

impl Histogram {
    /// Appends the lines of this histogram for the family `name`.
    pub fn fmt_histogram<L: FmtLabels>(&self, out: &mut String, name: &str, labels: &L)
        requires
            self@.wf(),
        ensures
            final(out)@ == old(out)@ + histogram_text(name@, labels.text(), self@),
    {
        let mut j: usize = 0;
        while j < N_BUCKETS
            invariant
                j <= N_BUCKETS,
                self@.wf(),
                out@ == old(out)@ + buckets_text(name@, labels.text(), self@.counts, j as nat),
            decreases N_BUCKETS - j,
        {
            let le = le_label(j);
            let l = AppendLabels::new(labels, &le);
            let ghost before = out@;
            write_sample(out, name, "_bucket", &l, self.buckets[j]);
            assert(out@ =~= old(out)@ + buckets_text(
                name@,
                labels.text(),
                self@.counts,
                (j + 1) as nat,
            ));
            j = j + 1;
        }
        write_sample(out, name, "_sum", labels, self.sum);
        write_sample(out, name, "_count", labels, self.count);
        assert(out@ =~= old(out)@ + histogram_text(name@, labels.text(), self@));
    }
}

} // verus!
