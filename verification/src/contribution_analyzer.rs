//! The range calculator: intensity thresholds from the spread of the data.
//!
//! Five thresholds split the daily counts into five buckets, from "no
//! activity" to "most active". The thresholds follow the distribution of
//! the non-zero counts, after values far above the third quartile have
//! been set aside, so that one extreme day does not flatten the rest of
//! the graph.

use crate::date::Date;
use vstd::prelude::*;
use vstd::relations::{sorted_by, total_ordering};
use vstd::seq_lib::*;

verus! {

/// A user's activity over a period, with the summary figures.
pub struct ContributionData {
    pub total: u32,
    pub longest_streak: u32,
    pub current_streak: u32,
    pub max_contributions: u32,
    pub daily_contributions: Vec<(Date, u32)>,
}

/// The counts of a series, in order.
pub open spec fn counts_of(series: Seq<(Date, u32)>) -> Seq<u32> {
    series.map_values(|entry: (Date, u32)| entry.1)
}

/// The counts that stand for a day with activity.
pub open spec fn is_active() -> spec_fn(u32) -> bool {
    |count: u32| count > 0
}

/// The order by which counts are sorted.
pub open spec fn ascending() -> spec_fn(u32, u32) -> bool {
    |a: u32, b: u32| a <= b
}

/// Whether a sequence of counts is in ascending order.
pub open spec fn is_ascending(counts: Seq<u32>) -> bool {
    forall|i: int, j: int| 0 <= i <= j < counts.len() ==> counts[i] <= counts[j]
}

/// The counts that do not exceed a limit.
pub open spec fn at_most(limit: int) -> spec_fn(u32) -> bool {
    |count: u32| count <= limit
}

/// The non-zero counts of a series, in ascending order.
pub open spec fn active_counts(series: Seq<(Date, u32)>) -> Seq<u32> {
    counts_of(series).filter(is_active()).sort_by(ascending())
}

/// The first quartile of ascending counts: the value at a quarter of the
/// length, rounded down.
pub open spec fn first_quartile(sorted: Seq<u32>) -> int {
    sorted[sorted.len() as int / 4] as int
}

/// The third quartile of ascending counts: the value at three quarters of
/// the length, rounded down.
pub open spec fn third_quartile(sorted: Seq<u32>) -> int {
    sorted[3 * sorted.len() as int / 4] as int
}

/// The largest count that is not an outlier: the third quartile plus one
/// and a half times the interquartile range, a half rounded up.
pub open spec fn outlier_threshold(sorted: Seq<u32>) -> int {
    (5 * third_quartile(sorted) - 3 * first_quartile(sorted) + 1) / 2
}

/// The ascending counts without the outliers.
pub open spec fn retained_counts(sorted: Seq<u32>) -> Seq<u32> {
    sorted.filter(at_most(outlier_threshold(sorted)))
}

/// The position in `len` ascending values at which percentile `p` is read.
pub open spec fn percentile_index(p: int, len: int) -> int {
    if p * len / 100 < len - 1 {
        p * len / 100
    } else {
        len - 1
    }
}

/// The value of percentile `p` among the retained counts.
pub open spec fn percentile_value(kept: Seq<u32>, p: usize) -> u32 {
    kept[percentile_index(p as int, kept.len() as int)]
}

/// A threshold joins the list only when it exceeds the last one.
pub open spec fn push_if_greater(acc: Seq<u32>, value: u32) -> Seq<u32> {
    if value > acc.last() {
        acc.push(value)
    } else {
        acc
    }
}

/// The thresholds after the first `k` percentiles that follow the implicit
/// zero have been read.
pub open spec fn percentile_thresholds(kept: Seq<u32>, percentiles: Seq<usize>, k: nat) -> Seq<u32>
    decreases k,
{
    if k == 0 {
        seq![0u32]
    } else {
        push_if_greater(
            percentile_thresholds(kept, percentiles, (k - 1) as nat),
            percentile_value(kept, percentiles[k as int]),
        )
    }
}

/// Fills the list up to five thresholds: each new one is the last plus
/// one, or the last again once the maximum has been reached.
pub open spec fn padded(acc: Seq<u32>, max: u32) -> Seq<u32>
    decreases 5 - acc.len(),
{
    if acc.len() >= 5 || acc.len() == 0 {
        acc
    } else if acc.last() < max {
        padded(acc.push((acc.last() + 1) as u32), max)
    } else {
        padded(acc.push(acc.last()), max)
    }
}

/// The thresholds that stand for a series without usable data.
pub open spec fn fallback_ranges() -> Seq<u32> {
    seq![0u32, 1u32, 2u32, 3u32, 4u32]
}

/// The thresholds read off a non-empty list of retained counts.
pub open spec fn ranges_of_retained(kept: Seq<u32>, percentiles: Seq<usize>) -> Seq<u32> {
    padded(push_if_greater(percentile_thresholds(kept, percentiles, 3), kept.last()), kept.last())
}

/// The five thresholds of a series.
pub open spec fn contribution_ranges(series: Seq<(Date, u32)>, percentiles: Seq<usize>) -> Seq<
    u32,
> {
    let sorted = active_counts(series);
    let kept = retained_counts(sorted);
    if sorted.len() == 0 || kept.len() == 0 {
        fallback_ranges()
    } else {
        ranges_of_retained(kept, percentiles)
    }
}

/// Five thresholds in non-decreasing order, the first of them zero.
pub open spec fn is_bucket_thresholds(ranges: Seq<u32>) -> bool {
    &&& ranges.len() == 5
    &&& ranges[0] == 0
    &&& forall|i: int, j: int| 0 <= i <= j < 5 ==> ranges[i] <= ranges[j]
}

/// The bucket of a count: 0 for no activity, else the first of the
/// thresholds 1 to 3 that the count does not exceed, else 4.
pub open spec fn bucket_of(count: u32, thresholds: Seq<u32>) -> int {
    if count == 0 {
        0
    } else if count <= thresholds[1] {
        1
    } else if count <= thresholds[2] {
        2
    } else if count <= thresholds[3] {
        3
    } else {
        4
    }
}

/// Computes the five thresholds that split the counts of a series into
/// intensity buckets.
///
/// The non-zero counts are sorted; counts above the outlier threshold are
/// set aside; the second to fourth percentile are read off what is left,
/// each kept only where it exceeds the one before; the largest retained
/// count closes the list, which is then filled up to five values. A series
/// without a non-zero count gets the thresholds 0, 1, 2, 3, 4.
pub fn calculate_contribution_ranges(
    daily_contributions: &[(Date, u32)],
    percentiles: &[usize; 4],
) -> (ranges: Vec<u32>)
    ensures
        ranges@ == contribution_ranges(daily_contributions@, percentiles@),
        is_bucket_thresholds(ranges@),
        (forall|i: int|
            0 <= i < daily_contributions@.len() ==> (#[trigger] daily_contributions@[i]).1 == 0)
            ==> ranges@ == fallback_ranges(),
        (exists|i: int|
            0 <= i < daily_contributions@.len() && (#[trigger] daily_contributions@[i]).1 > 0)
            ==> ranges@[4] == retained_counts(active_counts(daily_contributions@)).last(),
{
    let ghost series = daily_contributions@;
    proof {
        lemma_contribution_ranges_shape(series, percentiles@);
        if forall|i: int| 0 <= i < series.len() ==> (#[trigger] series[i]).1 == 0 {
            lemma_idle_series_ranges(series, percentiles@);
        }
        if exists|i: int| 0 <= i < series.len() && (#[trigger] series[i]).1 > 0 {
            lemma_top_threshold_is_largest_retained(series, percentiles@);
        }
    }
    let mut contributions: Vec<u32> = Vec::new();
    let mut i: usize = 0;
    while i < daily_contributions.len()
        invariant
            i <= daily_contributions.len(),
            series == daily_contributions@,
            contributions@ == counts_of(series.take(i as int)).filter(is_active()),
        decreases daily_contributions.len() - i,
    {
        let count = daily_contributions[i].1;
        proof {
            let before = counts_of(series.take(i as int));
            assert(counts_of(series.take(i + 1)) =~= before.push(count));
            before.lemma_filter_push(count, is_active());
        }
        if count > 0 {
            contributions.push(count);
        }
        i += 1;
    }
    assert(series.take(i as int) =~= series);
    if contributions.len() == 0 {
        proof {
            counts_of(series).filter(is_active()).lemma_sort_by_ensures(ascending());
            broadcast use vstd::seq_lib::group_to_multiset_ensures;
            assert(active_counts(series).to_multiset().len() == 0);
        }
        return fallback();
    }
    let ghost unsorted = contributions@;
    sort_counts(&mut contributions);
    proof {
        lemma_ascending_is_sorted_form(contributions@, unsorted);
        broadcast use vstd::seq_lib::group_to_multiset_ensures;
        assert(contributions@.to_multiset().len() == unsorted.to_multiset().len());
    }
    let ghost sorted = contributions@;
    assert(sorted == active_counts(series));

    let len = contributions.len();
    let q1_index = len / 4;
    let q3_index = len / 4 * 3 + (len % 4) * 3 / 4;
    assert(q3_index == 3 * len / 4);
    let q1 = contributions[q1_index] as u64;
    let q3 = contributions[q3_index] as u64;
    let threshold: u64 = (5 * q3 - 3 * q1 + 1) / 2;
    assert(threshold == outlier_threshold(sorted));

    let mut filtered: Vec<u32> = Vec::new();
    let mut j: usize = 0;
    while j < len
        invariant
            j <= len,
            len == contributions.len(),
            sorted == contributions@,
            filtered@ == sorted.take(j as int).filter(at_most(threshold as int)),
        decreases len - j,
    {
        let count = contributions[j];
        proof {
            let before = sorted.take(j as int);
            assert(sorted.take(j + 1) =~= before.push(count));
            before.lemma_filter_push(count, at_most(threshold as int));
        }
        if count as u64 <= threshold {
            filtered.push(count);
        }
        j += 1;
    }
    assert(sorted.take(j as int) =~= sorted);
    let ghost kept = filtered@;
    assert(kept == retained_counts(sorted));
    if filtered.len() == 0 {
        return fallback();
    }
    let kept_len = filtered.len();
    let max_contribution = filtered[kept_len - 1];

    let mut ranges: Vec<u32> = Vec::new();
    ranges.push(0);
    let mut k: usize = 1;
    while k < 4
        invariant
            1 <= k <= 4,
            kept == filtered@,
            kept_len == filtered.len(),
            kept_len >= 1,
            ranges@ == percentile_thresholds(kept, percentiles@, (k - 1) as nat),
        decreases 4 - k,
    {
        let p = percentiles[k];
        let index = percentile_position(p, kept_len);
        let value = filtered[index];
        proof {
            lemma_percentile_thresholds_rise(kept, percentiles@, (k - 1) as nat);
        }
        if value > ranges[ranges.len() - 1] {
            ranges.push(value);
        }
        k += 1;
    }
    proof {
        lemma_percentile_thresholds_rise(kept, percentiles@, 3);
    }
    if max_contribution > ranges[ranges.len() - 1] {
        ranges.push(max_contribution);
    }
    let ghost closed = ranges@;
    assert(closed == push_if_greater(percentile_thresholds(kept, percentiles@, 3), kept.last()));
    while ranges.len() < 5
        invariant
            1 <= ranges.len() <= 5,
            padded(ranges@, max_contribution) == padded(closed, max_contribution),
        decreases 5 - ranges.len(),
    {
        let last = ranges[ranges.len() - 1];
        let new_value = if last < max_contribution {
            last + 1
        } else {
            last
        };
        ranges.push(new_value);
    }
    ranges
}

/// Assigns a count to its intensity bucket.
///
/// A count of zero is in bucket 0. A positive count is in the lowest of
/// the buckets 1 to 4 whose threshold it does not exceed, and in bucket 4
/// when it exceeds them all: a count equal to a threshold belongs to the
/// lower bucket.
pub fn bucket_index(count: u32, thresholds: &[u32]) -> (bucket: usize)
    requires
        thresholds@.len() == 5,
    ensures
        bucket == bucket_of(count, thresholds@),
        count == 0 ==> bucket == 0,
        count > 0 ==> 1 <= bucket <= 4,
        forall|i: int| 1 <= i < bucket ==> count > thresholds@[i],
        count > 0 ==> count <= thresholds@[bucket as int] || (bucket == 4 && count
            > thresholds@[4]),
{
    if count == 0 {
        0
    } else if count <= thresholds[1] {
        1
    } else if count <= thresholds[2] {
        2
    } else if count <= thresholds[3] {
        3
    } else {
        4
    }
}

/// The thresholds 0, 1, 2, 3, 4.
fn fallback() -> (ranges: Vec<u32>)
    ensures
        ranges@ == fallback_ranges(),
{
    let mut ranges: Vec<u32> = Vec::new();
    ranges.push(0);
    ranges.push(1);
    ranges.push(2);
    ranges.push(3);
    ranges.push(4);
    assert(ranges@ =~= fallback_ranges());
    ranges
}

/// The position at which percentile `p` is read among `len` values:
/// `p * len / 100`, rounded down and held below `len`.
fn percentile_position(p: usize, len: usize) -> (index: usize)
    requires
        len >= 1,
    ensures
        index == percentile_index(p as int, len as int),
        index < len,
{
    assert(p * len <= 0xffff_ffff_ffff_ffff * 0xffff_ffff_ffff_ffff) by (nonlinear_arith)
        requires
            0 <= p <= 0xffff_ffff_ffff_ffff,
            0 <= len <= 0xffff_ffff_ffff_ffff,
    ;
    let scaled: u128 = (p as u128) * (len as u128) / 100;
    if scaled < (len - 1) as u128 {
        scaled as usize
    } else {
        len - 1
    }
}

/// Trusted: `slice::sort_unstable` of std, on `u32` values.
///
/// The contract states what std documents: afterwards the values stand in
/// ascending order, and they are the values that were there before.
#[verifier::external_body]
fn sort_counts(counts: &mut Vec<u32>)
    ensures
        is_ascending(final(counts)@),
        final(counts)@.to_multiset() == old(counts)@.to_multiset(),
{
    counts.sort_unstable();
}

/// Whatever the series and the percentiles, the thresholds are five values
/// in non-decreasing order, and the first of them is zero.
pub proof fn lemma_contribution_ranges_shape(series: Seq<(Date, u32)>, percentiles: Seq<usize>)
    ensures
        is_bucket_thresholds(contribution_ranges(series, percentiles)),
{
    let sorted = active_counts(series);
    let kept = retained_counts(sorted);
    if sorted.len() == 0 || kept.len() == 0 {
    } else {
        lemma_percentile_thresholds_rise(kept, percentiles, 3);
        let acc = push_if_greater(percentile_thresholds(kept, percentiles, 3), kept.last());
        lemma_padded_shape(acc, kept.last());
    }
}

/// A series without a non-zero count has the fallback thresholds.
pub proof fn lemma_idle_series_ranges(series: Seq<(Date, u32)>, percentiles: Seq<usize>)
    requires
        forall|i: int| 0 <= i < series.len() ==> (#[trigger] series[i]).1 == 0,
    ensures
        contribution_ranges(series, percentiles) == fallback_ranges(),
{
    let counts = counts_of(series);
    assert forall|i: int| 0 <= i < counts.len() implies !(is_active())(#[trigger] counts[i]) by {
        assert(counts[i] == series[i].1);
    }
    counts.lemma_all_neg_filter_empty(is_active());
    assert(counts.filter(is_active()).len() == 0);
    counts.filter(is_active()).lemma_sort_by_ensures(ascending());
    let sorted = active_counts(series);
    assert(sorted.len() == 0) by {
        broadcast use vstd::seq_lib::group_to_multiset_ensures;
        assert(sorted.to_multiset().len() == 0);
    }
}

/// The active counts are the non-zero counts of the series, each as often
/// as it occurs, in ascending order.
pub proof fn lemma_active_counts_sorted(series: Seq<(Date, u32)>)
    ensures
        is_ascending(active_counts(series)),
        active_counts(series).to_multiset() == counts_of(series).filter(is_active()).to_multiset(),
        active_counts(series).len() == counts_of(series).filter(is_active()).len(),
{
    broadcast use vstd::seq_lib::group_to_multiset_ensures;

    let active = counts_of(series).filter(is_active());
    active.lemma_sort_by_ensures(ascending());
    let sorted = active_counts(series);
    assert(sorted.to_multiset().len() == active.to_multiset().len());
    assert(sorted_by(sorted, ascending()));
    assert forall|i: int, j: int| 0 <= i <= j < sorted.len() implies sorted[i] <= sorted[j] by {
        if i < j {
            assert((ascending())(sorted[i], sorted[j]));
        }
    }
}

/// The outlier threshold is the third quartile plus one and a half times
/// the interquartile range, rounded to the nearest whole number, a half
/// upwards.
pub proof fn lemma_outlier_threshold_rounds(sorted: Seq<u32>)
    ensures
        2 * outlier_threshold(sorted) - 1 <= 2 * third_quartile(sorted) + 3 * (third_quartile(
            sorted,
        ) - first_quartile(sorted)) <= 2 * outlier_threshold(sorted),
{
}

/// A series with activity always retains some count: the smallest of the
/// counts is never an outlier. The top threshold is the largest count
/// that is retained.
pub proof fn lemma_top_threshold_is_largest_retained(
    series: Seq<(Date, u32)>,
    percentiles: Seq<usize>,
)
    requires
        exists|i: int| 0 <= i < series.len() && (#[trigger] series[i]).1 > 0,
    ensures
        retained_counts(active_counts(series)).len() > 0,
        forall|i: int|
            0 <= i < retained_counts(active_counts(series)).len() ==> #[trigger] retained_counts(
                active_counts(series),
            )[i] <= retained_counts(active_counts(series)).last(),
        contribution_ranges(series, percentiles)[4] == retained_counts(
            active_counts(series),
        ).last(),
{
    let counts = counts_of(series);
    let witness = choose|i: int| 0 <= i < series.len() && (#[trigger] series[i]).1 > 0;
    assert(counts[witness] == series[witness].1);
    counts.lemma_filter_contains(is_active(), witness);
    lemma_active_counts_sorted(series);
    let sorted = active_counts(series);
    let limit = outlier_threshold(sorted);
    assert(sorted[0] <= sorted[sorted.len() as int / 4]);
    assert(sorted[sorted.len() as int / 4] <= sorted[3 * sorted.len() as int / 4]);
    assert((at_most(limit))(sorted[0]));
    sorted.lemma_filter_contains(at_most(limit), 0);
    lemma_filter_ascending(sorted, at_most(limit));
    let kept = retained_counts(sorted);
    assert(kept.len() > 0);
    lemma_percentile_thresholds_rise(kept, percentiles, 3);
    lemma_percentile_thresholds_bounded(kept, percentiles, 3);
    let read = percentile_thresholds(kept, percentiles, 3);
    assert(read[read.len() - 1] <= kept.last());
    let closed = push_if_greater(read, kept.last());
    lemma_padded_shape(closed, kept.last());
}

/// Ascending values with the same elements as `unsorted` are its sorted
/// form.
proof fn lemma_ascending_is_sorted_form(sorted: Seq<u32>, unsorted: Seq<u32>)
    requires
        is_ascending(sorted),
        sorted.to_multiset() == unsorted.to_multiset(),
    ensures
        sorted == unsorted.sort_by(ascending()),
{
    let leq = ascending();
    assert(total_ordering(leq));
    unsorted.lemma_sort_by_ensures(leq);
    assert(sorted_by(sorted, leq));
    lemma_sorted_unique(sorted, unsorted.sort_by(leq), leq);
}

/// Thresholds that start at zero and rise strictly.
pub open spec fn rises_from_zero(acc: Seq<u32>) -> bool {
    &&& acc.len() >= 1
    &&& acc[0] == 0
    &&& forall|i: int, j: int| 0 <= i < j < acc.len() ==> acc[i] < acc[j]
}

proof fn lemma_percentile_thresholds_rise(kept: Seq<u32>, percentiles: Seq<usize>, k: nat)
    ensures
        rises_from_zero(percentile_thresholds(kept, percentiles, k)),
        percentile_thresholds(kept, percentiles, k).len() <= k + 1,
    decreases k,
{
    if k > 0 {
        lemma_percentile_thresholds_rise(kept, percentiles, (k - 1) as nat);
    }
}

/// No threshold read at a percentile exceeds the largest retained count.
proof fn lemma_percentile_thresholds_bounded(kept: Seq<u32>, percentiles: Seq<usize>, k: nat)
    requires
        kept.len() > 0,
        is_ascending(kept),
    ensures
        forall|i: int|
            0 <= i < percentile_thresholds(kept, percentiles, k).len()
                ==> #[trigger] percentile_thresholds(kept, percentiles, k)[i] <= kept.last(),
    decreases k,
{
    if k > 0 {
        lemma_percentile_thresholds_bounded(kept, percentiles, (k - 1) as nat);
        lemma_percentile_thresholds_rise(kept, percentiles, (k - 1) as nat);
        let index = percentile_index(percentiles[k as int] as int, kept.len() as int);
        assert(0 <= index < kept.len()) by (nonlinear_arith)
            requires
                index == percentile_index(percentiles[k as int] as int, kept.len() as int),
                kept.len() > 0,
                percentiles[k as int] >= 0,
        ;
        assert(kept[index] <= kept[kept.len() - 1]);
    }
}

proof fn lemma_padded_shape(acc: Seq<u32>, max: u32)
    requires
        1 <= acc.len() <= 5,
        acc[0] == 0,
        forall|i: int, j: int| 0 <= i <= j < acc.len() ==> acc[i] <= acc[j],
    ensures
        is_bucket_thresholds(padded(acc, max)),
        acc.last() == max ==> padded(acc, max)[4] == max,
        forall|i: int| 0 <= i < acc.len() ==> padded(acc, max)[i] == acc[i],
    decreases 5 - acc.len(),
{
    if acc.len() < 5 {
        let next = if acc.last() < max {
            acc.push((acc.last() + 1) as u32)
        } else {
            acc.push(acc.last())
        };
        lemma_padded_shape(next, max);
        assert forall|i: int| 0 <= i < acc.len() implies padded(acc, max)[i] == acc[i] by {
            assert(padded(next, max)[i] == next[i]);
            assert(next[i] == acc[i]);
        }
    }
}

/// What passes a filter of ascending counts is ascending, and was among
/// the counts.
proof fn lemma_filter_ascending(counts: Seq<u32>, pred: spec_fn(u32) -> bool)
    requires
        is_ascending(counts),
    ensures
        is_ascending(counts.filter(pred)),
        forall|i: int|
            0 <= i < counts.filter(pred).len() ==> counts.contains(
                #[trigger] counts.filter(pred)[i],
            ),
    decreases counts.len(),
{
    reveal(Seq::filter);
    if counts.len() > 0 {
        let before = counts.drop_last();
        lemma_filter_ascending(before, pred);
        let kept = before.filter(pred);
        assert forall|i: int| 0 <= i < kept.len() implies counts.contains(#[trigger] kept[i])
            && kept[i] <= counts.last() by {
            assert(before.contains(kept[i]));
            let j = choose|j: int| 0 <= j < before.len() && before[j] == kept[i];
            assert(counts[j] == kept[i]);
        }
        if pred(counts.last()) {
            assert(counts[counts.len() - 1] == counts.last());
        }
    }
}

} // verus!
