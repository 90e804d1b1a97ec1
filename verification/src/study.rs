//! Series of the study histograms: all charts, and the charts split by
//! their listing status (listed, unlisted, unknown); and how many rows
//! each bin of each series counts.

use vstd::prelude::*;

verus! {

/// A histogram series, by listing status.
#[derive(Clone, Copy, Debug, PartialEq, Eq, Structural)]
pub enum HistogramBucket {
    All,
    Listed,
    Unlisted,
    Unknown,
}

/// Whether a chart with listing status `chart_listed` counts in `bucket`.
pub open spec fn spec_includes(bucket: HistogramBucket, chart_listed: Option<bool>) -> bool {
    match bucket {
        HistogramBucket::All => true,
        HistogramBucket::Listed => chart_listed == Some(true),
        HistogramBucket::Unlisted => chart_listed == Some(false),
        HistogramBucket::Unknown => chart_listed is None,
    }
}

/// The name of a series.
pub open spec fn spec_bucket_name(bucket: HistogramBucket) -> Seq<char> {
    match bucket {
        HistogramBucket::All => "all"@,
        HistogramBucket::Listed => "listed"@,
        HistogramBucket::Unlisted => "unlisted"@,
        HistogramBucket::Unknown => "unknown"@,
    }
}

impl HistogramBucket {
    /// Every series, in display order.
    pub open spec fn all_spec() -> Seq<HistogramBucket> {
        seq![HistogramBucket::All, HistogramBucket::Listed, HistogramBucket::Unlisted, HistogramBucket::Unknown]
    }

    /// Every series, in display order.
    pub fn all() -> (b: [HistogramBucket; 4])
        ensures
            b@ == Self::all_spec(),
    {
        let b = [
            HistogramBucket::All,
            HistogramBucket::Listed,
            HistogramBucket::Unlisted,
            HistogramBucket::Unknown,
        ];
        assert(b@ =~= seq![
            HistogramBucket::All,
            HistogramBucket::Listed,
            HistogramBucket::Unlisted,
            HistogramBucket::Unknown,
        ]);
        b
    }

    /// The key of a series.
    pub fn key(self) -> (s: &'static str)
        ensures
            s@ == spec_bucket_name(self),
    {
        match self {
            HistogramBucket::All => "all",
            HistogramBucket::Listed => "listed",
            HistogramBucket::Unlisted => "unlisted",
            HistogramBucket::Unknown => "unknown",
        }
    }

    /// The label of a series.
    pub fn label(self) -> (s: &'static str)
        ensures
            s@ == spec_bucket_name(self),
    {
        match self {
            HistogramBucket::All => "all",
            HistogramBucket::Listed => "listed",
            HistogramBucket::Unlisted => "unlisted",
            HistogramBucket::Unknown => "unknown",
        }
    }

    /// Whether a chart with listing status `chart_listed` counts in this
    /// series.
    pub fn includes(self, chart_listed: Option<bool>) -> (b: bool)
        ensures
            b == spec_includes(self, chart_listed),
    {
        match self {
            HistogramBucket::All => true,
            HistogramBucket::Listed => match chart_listed {
                Some(v) => v,
                None => false,
            },
            HistogramBucket::Unlisted => match chart_listed {
                Some(v) => !v,
                None => false,
            },
            HistogramBucket::Unknown => chart_listed.is_none(),
        }
    }
}

/// Every chart counts in the "all" series and in exactly one of the
/// listed, unlisted and unknown series.
pub proof fn lemma_buckets_partition(chart_listed: Option<bool>)
    ensures
        spec_includes(HistogramBucket::All, chart_listed),
        spec_includes(HistogramBucket::Listed, chart_listed) || spec_includes(
            HistogramBucket::Unlisted,
            chart_listed,
        ) || spec_includes(HistogramBucket::Unknown, chart_listed),
        !(spec_includes(HistogramBucket::Listed, chart_listed) && spec_includes(
            HistogramBucket::Unlisted,
            chart_listed,
        )),
        !(spec_includes(HistogramBucket::Listed, chart_listed) && spec_includes(
            HistogramBucket::Unknown,
            chart_listed,
        )),
        !(spec_includes(HistogramBucket::Unlisted, chart_listed) && spec_includes(
            HistogramBucket::Unknown,
            chart_listed,
        )),
{
    match chart_listed {
        Some(true) => {},
        Some(false) => {},
        None => {},
    }
}

/// How many of `rows` (each a bin, if the row has one, and a listing
/// status) fall in bin `i` of series `bucket`.
pub open spec fn rows_in_bin(rows: Seq<(Option<usize>, Option<bool>)>, bucket: HistogramBucket, i: int) -> nat
    decreases rows.len(),
{
    if rows.len() == 0 {
        0
    } else {
        rows_in_bin(rows.drop_last(), bucket, i) + if rows.last().0 == Some(i as usize) && 0 <= i
            && spec_includes(bucket, rows.last().1) {
            1nat
        } else {
            0nat
        }
    }
}

proof fn lemma_rows_in_bin_bound(rows: Seq<(Option<usize>, Option<bool>)>, bucket: HistogramBucket, i: int)
    ensures
        rows_in_bin(rows, bucket, i) <= rows.len(),
    decreases rows.len(),
{
    if rows.len() > 0 {
        lemma_rows_in_bin_bound(rows.drop_last(), bucket, i);
    }
}

/// The counts of one series: for each of `bins` bins, how many rows fall
/// in it and count in the series.
fn bucket_counts(bucket: HistogramBucket, bins: usize, rows: &Vec<(Option<usize>, Option<bool>)>) -> (v: Vec<usize>)
    requires
        forall|k: int| 0 <= k < rows@.len() ==> ((#[trigger] rows@[k]).0 matches Some(x) ==> x < bins),
    ensures
        v@.len() == bins,
        forall|i: int| 0 <= i < bins ==> v@[i] == rows_in_bin(rows@, bucket, i),
{
    let mut v: Vec<usize> = Vec::new();
    let mut j: usize = 0;
    while j < bins
        invariant
            j <= bins,
            v@.len() == j,
            forall|i: int| 0 <= i < j ==> v@[i] == 0,
        decreases bins - j,
    {
        v.push(0);
        j = j + 1;
    }
    let mut k: usize = 0;
    assert(rows@.take(0) =~= Seq::<(Option<usize>, Option<bool>)>::empty());
    while k < rows.len()
        invariant
            k <= rows@.len(),
            v@.len() == bins,
            forall|m: int| 0 <= m < rows@.len() ==> ((#[trigger] rows@[m]).0 matches Some(x) ==> x < bins),
            forall|i: int| 0 <= i < bins ==> v@[i] == rows_in_bin(rows@.take(k as int), bucket, i),
        decreases rows@.len() - k,
    {
        let ghost pre = rows@.take(k as int);
        let ghost next = rows@.take(k as int + 1);
        assert(next.drop_last() =~= pre);
        assert(next.last() == rows@[k as int]);
        let (index, listed) = rows[k];
        match index {
            Some(x) => {
                if bucket.includes(listed) {
                    proof {
                        lemma_rows_in_bin_bound(pre, bucket, x as int);
                    }
                    let c = v[x] + 1;
                    v.set(x, c);
                }
            },
            None => {},
        }
        k = k + 1;
    }
    assert(rows@.take(k as int) =~= rows@);
    v
}

/// The counts of each series, in display order: for each of `bins` bins,
/// how many rows fall in it and count in the series. Each row is its bin,
/// if it has one, and its chart's listing status.
pub fn grouped_counts(bins: usize, rows: &Vec<(Option<usize>, Option<bool>)>) -> (r: Vec<Vec<usize>>)
    requires
        forall|k: int| 0 <= k < rows@.len() ==> ((#[trigger] rows@[k]).0 matches Some(x) ==> x < bins),
    ensures
        r@.len() == 4,
        forall|b: int| 0 <= b < 4 ==> (#[trigger] r@[b])@.len() == bins,
        forall|b: int, i: int|
            0 <= b < 4 && 0 <= i < bins ==> #[trigger] r@[b]@[i] == rows_in_bin(
                rows@,
                HistogramBucket::all_spec()[b],
                i,
            ),
{
    let buckets = HistogramBucket::all();
    let mut r: Vec<Vec<usize>> = Vec::new();
    let mut b: usize = 0;
    while b < 4
        invariant
            b <= 4,
            r@.len() == b,
            buckets@ == HistogramBucket::all_spec(),
            forall|k: int| 0 <= k < rows@.len() ==> ((#[trigger] rows@[k]).0 matches Some(x) ==> x < bins),
            forall|c: int| 0 <= c < b ==> (#[trigger] r@[c])@.len() == bins,
            forall|c: int, i: int|
                0 <= c < b && 0 <= i < bins ==> #[trigger] r@[c]@[i] == rows_in_bin(
                    rows@,
                    HistogramBucket::all_spec()[c],
                    i,
                ),
        decreases 4 - b,
    {
        let bucket = buckets[b];
        assert(bucket == HistogramBucket::all_spec()[b as int]);
        let counts = bucket_counts(bucket, bins, rows);
        let ghost before = r@;
        let ghost cv = counts@;
        r.push(counts);
        assert forall|c: int| 0 <= c < b + 1 implies (#[trigger] r@[c])@.len() == bins by {
            if c < b {
                assert(r@[c] == before[c]);
            }
        }
        assert forall|c: int, i: int| 0 <= c < b + 1 && 0 <= i < bins implies #[trigger] r@[c]@[i]
            == rows_in_bin(rows@, HistogramBucket::all_spec()[c], i) by {
            if c < b {
                assert(r@[c] == before[c]);
                assert(before[c]@[i] == rows_in_bin(rows@, HistogramBucket::all_spec()[c], i));
            } else {
                assert(r@[c]@ == cv);
                assert(cv[i] == rows_in_bin(rows@, HistogramBucket::all_spec()[c], i));
            }
        }
        b = b + 1;
    }
    r
}

} // verus!
