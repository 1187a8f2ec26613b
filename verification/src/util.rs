//! The weighted median and the sums of weights it is defined by.

use crate::error::StatError;
use crate::sort::sort_by_value;
use crate::text::{
    decimal, push_decimal, push_signed_decimal, push_two_digits, signed_decimal, two_digits,
};
use vstd::prelude::*;

verus! {

/// The weight carried by the pairs of `xs` whose value lies in `lo..=hi`.
/// A pair is a value and its weight; a weight may be negative.
pub open spec fn weight_within(xs: Seq<(i128, i64)>, lo: int, hi: int) -> int
    decreases xs.len(),
{
    if xs.len() == 0 {
        0
    } else {
        weight_within(xs.drop_last(), lo, hi) + if lo <= xs.last().0 <= hi {
            xs.last().1 as int
        } else {
            0int
        }
    }
}

/// The weight of all pairs together.
pub open spec fn total_weight(xs: Seq<(i128, i64)>) -> int {
    weight_within(xs, i128::MIN as int, i128::MAX as int)
}

/// The weight carried by the pairs whose value is at most `v`.
pub open spec fn weight_at_most(xs: Seq<(i128, i64)>, v: int) -> int {
    weight_within(xs, i128::MIN as int, v)
}

/// The weight carried by the pairs whose value is at least `v`.
pub open spec fn weight_at_least(xs: Seq<(i128, i64)>, v: int) -> int {
    weight_within(xs, v, i128::MAX as int)
}

/// Whether some pair of `xs` has the value `v`.
pub open spec fn has_value(xs: Seq<(i128, i64)>, v: int) -> bool {
    exists|i: int| 0 <= i < xs.len() && #[trigger] xs[i].0 == v
}

/// `m` is the lower weighted median of `xs`: the least value of `xs` such
/// that the pairs up to it carry at least half of the total weight.
pub open spec fn is_lower_median(xs: Seq<(i128, i64)>, m: int) -> bool {
    &&& has_value(xs, m)
    &&& 2 * weight_at_most(xs, m) >= total_weight(xs)
    &&& forall|i: int|
        0 <= i < xs.len() && #[trigger] xs[i].0 < m ==> 2 * weight_at_most(xs, xs[i].0 as int)
            < total_weight(xs)
}

/// `m` is the upper weighted median of `xs`: the greatest value of `xs` such
/// that the pairs from it on carry at least half of the total weight.
pub open spec fn is_upper_median(xs: Seq<(i128, i64)>, m: int) -> bool {
    &&& has_value(xs, m)
    &&& 2 * weight_at_least(xs, m) >= total_weight(xs)
    &&& forall|i: int|
        0 <= i < xs.len() && #[trigger] xs[i].0 > m ==> 2 * weight_at_least(xs, xs[i].0 as int)
            < total_weight(xs)
}

/// Whether `xs` has a lower weighted median. One without negative weights
/// always has; with negative weights no value may carry half of the total.
pub open spec fn has_lower_median(xs: Seq<(i128, i64)>) -> bool {
    exists|m: int| is_lower_median(xs, m)
}

/// Whether `xs` has an upper weighted median.
pub open spec fn has_upper_median(xs: Seq<(i128, i64)>) -> bool {
    exists|m: int| is_upper_median(xs, m)
}

/// The lower weighted median of `xs`, where it has one.
pub open spec fn lower_median(xs: Seq<(i128, i64)>) -> int {
    choose|m: int| is_lower_median(xs, m)
}

/// The upper weighted median of `xs`, where it has one.
pub open spec fn upper_median(xs: Seq<(i128, i64)>) -> int {
    choose|m: int| is_upper_median(xs, m)
}

/// The weighted median of `xs`, where it has the medians this takes: the
/// lower median where the number of pairs is odd, else the mean of the lower
/// and the upper median, rounded down.
pub open spec fn median_of(xs: Seq<(i128, i64)>) -> int {
    if xs.len() % 2 == 1 {
        lower_median(xs)
    } else {
        (lower_median(xs) + upper_median(xs)) / 2
    }
}

/// What asking for the weighted median of `xs` comes to. Nothing has no
/// median. Pairs among which no value carries half of the total weight
/// have none either; that takes a negative weight. The lower median is
/// always needed, the upper one for an even number of pairs.
pub open spec fn weighted_median_of(xs: Seq<(i128, i64)>) -> Result<i128, StatError> {
    if xs.len() == 0 {
        Err(StatError::EmptyInput)
    } else if !has_lower_median(xs) || (xs.len() % 2 == 0 && !has_upper_median(xs)) {
        Err(StatError::NoMedian)
    } else {
        Ok(median_of(xs) as i128)
    }
}

/// Whether the values of `xs` ascend.
pub open spec fn ascending(xs: Seq<(i128, i64)>) -> bool {
    forall|i: int, j: int| 0 <= i <= j < xs.len() ==> xs[i].0 <= xs[j].0
}

/// Whether place `k` is the last of a run of equal values in `xs`.
pub open spec fn ends_run(xs: Seq<(i128, i64)>, k: int) -> bool {
    k + 1 == xs.len() || xs[k].0 != xs[k + 1].0
}

/// Whether place `k` is the first of a run of equal values in `xs`.
pub open spec fn starts_run(xs: Seq<(i128, i64)>, k: int) -> bool {
    k == 0 || xs[k - 1].0 != xs[k].0
}

/// The weight within a range is the weight of the part before `k` plus that
/// of the part from `k` on.
pub proof fn lemma_weight_split(xs: Seq<(i128, i64)>, k: int, lo: int, hi: int)
    requires
        0 <= k <= xs.len(),
    ensures
        weight_within(xs, lo, hi) == weight_within(xs.take(k), lo, hi) + weight_within(
            xs.skip(k),
            lo,
            hi,
        ),
    decreases xs.len() - k,
{
    if k == xs.len() {
        assert(xs.take(k) =~= xs);
        assert(xs.skip(k).len() == 0);
    } else {
        lemma_weight_split(xs.drop_last(), k, lo, hi);
        assert(xs.drop_last().take(k) =~= xs.take(k));
        assert(xs.drop_last().skip(k) =~= xs.skip(k).drop_last());
        assert(xs.skip(k).last() == xs.last());
    }
}

/// Where every value lies in the range, the range carries the total weight.
pub proof fn lemma_weight_all(xs: Seq<(i128, i64)>, lo: int, hi: int)
    requires
        forall|i: int| 0 <= i < xs.len() ==> lo <= (#[trigger] xs[i]).0 <= hi,
    ensures
        weight_within(xs, lo, hi) == total_weight(xs),
    decreases xs.len(),
{
    if xs.len() > 0 {
        let rest = xs.drop_last();
        assert forall|i: int| 0 <= i < rest.len() implies lo <= (#[trigger] rest[i]).0 <= hi by {
            assert(rest[i] == xs[i]);
        }
        lemma_weight_all(rest, lo, hi);
        assert(lo <= xs[xs.len() - 1].0 <= hi);
    }
}

/// Where no value lies in the range, the range carries no weight.
pub proof fn lemma_weight_none(xs: Seq<(i128, i64)>, lo: int, hi: int)
    requires
        forall|i: int| 0 <= i < xs.len() ==> !(lo <= (#[trigger] xs[i]).0 <= hi),
    ensures
        weight_within(xs, lo, hi) == 0,
    decreases xs.len(),
{
    if xs.len() > 0 {
        let rest = xs.drop_last();
        assert forall|i: int| 0 <= i < rest.len() implies !(lo <= (#[trigger] rest[i]).0 <= hi) by {
            assert(rest[i] == xs[i]);
        }
        lemma_weight_none(rest, lo, hi);
        assert(!(lo <= xs[xs.len() - 1].0 <= hi));
    }
}

/// No sum of weights is further from zero than the largest weight times
/// the number of pairs, so the weight of as many pairs as a slice can hold
/// fits in 128 bits.
pub proof fn lemma_weight_bound(xs: Seq<(i128, i64)>, lo: int, hi: int)
    ensures
        -(xs.len() * 0x8000_0000_0000_0000) <= weight_within(xs, lo, hi) <= xs.len()
            * 0x8000_0000_0000_0000,
        xs.len() <= usize::MAX ==> i128::MIN < weight_within(xs, lo, hi) < i128::MAX,
    decreases xs.len(),
{
    if xs.len() > 0 {
        lemma_weight_bound(xs.drop_last(), lo, hi);
        assert((xs.len() - 1) * 0x8000_0000_0000_0000 + 0x8000_0000_0000_0000 == xs.len()
            * 0x8000_0000_0000_0000) by (nonlinear_arith);
    }
    if xs.len() <= usize::MAX {
        assert(xs.len() * 0x8000_0000_0000_0000 < i128::MAX) by (nonlinear_arith)
            requires
                xs.len() <= 0xFFFF_FFFF_FFFF_FFFF,
        ;
    }
}

/// The first `i + 1` pairs weigh what the first `i` weigh and the next one,
/// and that fits in 128 bits.
pub proof fn lemma_prefix_step(xs: Seq<(i128, i64)>, i: int)
    requires
        0 <= i < xs.len() <= usize::MAX,
    ensures
        total_weight(xs.take(i + 1)) == total_weight(xs.take(i)) + xs[i].1,
        i128::MIN < total_weight(xs.take(i + 1)) < i128::MAX,
{
    let next = xs.take(i + 1);
    assert(next.drop_last() =~= xs.take(i));
    assert(next.last() == xs[i]);
    lemma_weight_bound(next, i128::MIN as int, i128::MAX as int);
}

/// The pairs from `i` on weigh what pair `i` and the pairs after it weigh,
/// and that fits in 128 bits.
pub proof fn lemma_suffix_step(xs: Seq<(i128, i64)>, i: int)
    requires
        0 <= i < xs.len() <= usize::MAX,
    ensures
        total_weight(xs.skip(i)) == total_weight(xs.skip(i + 1)) + xs[i].1,
        i128::MIN < total_weight(xs.skip(i)) < i128::MAX,
{
    let rest = xs.skip(i);
    lemma_weight_remove(rest, 0, i128::MIN as int, i128::MAX as int);
    assert(rest.remove(0) =~= xs.skip(i + 1));
    lemma_weight_bound(rest, i128::MIN as int, i128::MAX as int);
}

/// Taking one pair out lowers the weight within a range by what that pair
/// carried there.
pub proof fn lemma_weight_remove(xs: Seq<(i128, i64)>, k: int, lo: int, hi: int)
    requires
        0 <= k < xs.len(),
    ensures
        weight_within(xs, lo, hi) == weight_within(xs.remove(k), lo, hi) + if lo <= xs[k].0 <= hi {
            xs[k].1 as int
        } else {
            0int
        },
{
    let one = xs.subrange(k, k + 1);
    lemma_weight_split(xs, k, lo, hi);
    lemma_weight_split(xs.skip(k), 1, lo, hi);
    lemma_weight_split(xs.remove(k), k, lo, hi);
    assert(xs.skip(k).take(1) =~= one);
    assert(one.drop_last().len() == 0);
    assert(one.last() == xs[k]);
    assert(weight_within(one.drop_last(), lo, hi) == 0);
    assert(weight_within(one, lo, hi) == if lo <= xs[k].0 <= hi {
        xs[k].1 as int
    } else {
        0int
    });
    assert(xs.remove(k).take(k) =~= xs.take(k));
    assert(xs.remove(k).skip(k) =~= xs.skip(k).skip(1));
}

/// The weight within a range does not depend on the order of the pairs.
pub proof fn lemma_weight_permutation(
    xs: Seq<(i128, i64)>,
    ys: Seq<(i128, i64)>,
    lo: int,
    hi: int,
)
    requires
        xs.to_multiset() == ys.to_multiset(),
    ensures
        weight_within(xs, lo, hi) == weight_within(ys, lo, hi),
    decreases xs.len(),
{
    xs.to_multiset_ensures();
    ys.to_multiset_ensures();
    if xs.len() == 0 {
        assert(ys.len() == 0);
    } else {
        let a = xs.last();
        assert(xs[xs.len() - 1] == a);
        assert(xs.contains(a));
        assert(ys.to_multiset().count(a) > 0);
        assert(ys.contains(a));
        let k = ys.index_of(a);
        ys.remove(k).to_multiset_ensures();
        assert(xs.drop_last() =~= xs.remove(xs.len() - 1));
        assert(xs.drop_last().to_multiset() =~= ys.remove(k).to_multiset());
        lemma_weight_permutation(xs.drop_last(), ys.remove(k), lo, hi);
        lemma_weight_remove(ys, k, lo, hi);
    }
}

/// Two sequences with the same pairs have the same values.
pub proof fn lemma_value_permutation(xs: Seq<(i128, i64)>, ys: Seq<(i128, i64)>, v: int)
    requires
        xs.to_multiset() == ys.to_multiset(),
        has_value(xs, v),
    ensures
        has_value(ys, v),
{
    xs.to_multiset_ensures();
    ys.to_multiset_ensures();
    let i = choose|i: int| 0 <= i < xs.len() && #[trigger] xs[i].0 == v;
    assert(xs.contains(xs[i]));
    assert(ys.to_multiset().count(xs[i]) > 0);
    assert(ys.contains(xs[i]));
    let j = ys.index_of(xs[i]);
    assert(ys[j].0 == v);
}

/// A sequence has at most one lower weighted median.
pub proof fn lemma_lower_median_unique(xs: Seq<(i128, i64)>, m1: int, m2: int)
    requires
        is_lower_median(xs, m1),
        is_lower_median(xs, m2),
    ensures
        m1 == m2,
{
    if m1 < m2 {
        let i = choose|i: int| 0 <= i < xs.len() && #[trigger] xs[i].0 == m1;
        assert(xs[i].0 < m2);
    } else if m2 < m1 {
        let i = choose|i: int| 0 <= i < xs.len() && #[trigger] xs[i].0 == m2;
        assert(xs[i].0 < m1);
    }
}

/// A sequence has at most one upper weighted median.
pub proof fn lemma_upper_median_unique(xs: Seq<(i128, i64)>, m1: int, m2: int)
    requires
        is_upper_median(xs, m1),
        is_upper_median(xs, m2),
    ensures
        m1 == m2,
{
    if m1 < m2 {
        let i = choose|i: int| 0 <= i < xs.len() && #[trigger] xs[i].0 == m2;
        assert(xs[i].0 > m1);
    } else if m2 < m1 {
        let i = choose|i: int| 0 <= i < xs.len() && #[trigger] xs[i].0 == m1;
        assert(xs[i].0 > m2);
    }
}

/// Being the lower weighted median does not depend on the order of the pairs.
pub proof fn lemma_lower_median_permutation(xs: Seq<(i128, i64)>, ys: Seq<(i128, i64)>, m: int)
    requires
        xs.to_multiset() == ys.to_multiset(),
        is_lower_median(xs, m),
    ensures
        is_lower_median(ys, m),
{
    let bottom = i128::MIN as int;
    lemma_value_permutation(xs, ys, m);
    lemma_weight_permutation(xs, ys, bottom, m);
    lemma_weight_permutation(xs, ys, bottom, i128::MAX as int);
    assert forall|j: int| 0 <= j < ys.len() && #[trigger] ys[j].0 < m implies 2 * weight_at_most(
        ys,
        ys[j].0 as int,
    ) < total_weight(ys) by {
        let v = ys[j].0 as int;
        assert(has_value(ys, v));
        lemma_value_permutation(ys, xs, v);
        let i = choose|i: int| 0 <= i < xs.len() && #[trigger] xs[i].0 == v;
        assert(xs[i].0 < m);
        lemma_weight_permutation(xs, ys, bottom, v);
    }
}

/// Being the upper weighted median does not depend on the order of the pairs.
pub proof fn lemma_upper_median_permutation(xs: Seq<(i128, i64)>, ys: Seq<(i128, i64)>, m: int)
    requires
        xs.to_multiset() == ys.to_multiset(),
        is_upper_median(xs, m),
    ensures
        is_upper_median(ys, m),
{
    let top = i128::MAX as int;
    lemma_value_permutation(xs, ys, m);
    lemma_weight_permutation(xs, ys, m, top);
    lemma_weight_permutation(xs, ys, i128::MIN as int, top);
    assert forall|j: int| 0 <= j < ys.len() && #[trigger] ys[j].0 > m implies 2 * weight_at_least(
        ys,
        ys[j].0 as int,
    ) < total_weight(ys) by {
        let v = ys[j].0 as int;
        assert(has_value(ys, v));
        lemma_value_permutation(ys, xs, v);
        let i = choose|i: int| 0 <= i < xs.len() && #[trigger] xs[i].0 == v;
        assert(xs[i].0 > m);
        lemma_weight_permutation(xs, ys, v, top);
    }
}

/// Whether a sequence has a lower and an upper weighted median, and which,
/// does not depend on the order of its pairs.
pub proof fn lemma_median_permutation(xs: Seq<(i128, i64)>, ys: Seq<(i128, i64)>)
    requires
        xs.to_multiset() == ys.to_multiset(),
    ensures
        weighted_median_of(xs) == weighted_median_of(ys),
        has_lower_median(xs) == has_lower_median(ys),
        has_upper_median(xs) == has_upper_median(ys),
        has_lower_median(xs) ==> lower_median(xs) == lower_median(ys),
        has_upper_median(xs) ==> upper_median(xs) == upper_median(ys),
{
    xs.to_multiset_ensures();
    ys.to_multiset_ensures();
    if has_lower_median(xs) {
        lemma_lower_median_permutation(xs, ys, lower_median(xs));
        lemma_lower_median_unique(ys, lower_median(xs), lower_median(ys));
    }
    if has_lower_median(ys) {
        lemma_lower_median_permutation(ys, xs, lower_median(ys));
    }
    if has_upper_median(xs) {
        lemma_upper_median_permutation(xs, ys, upper_median(xs));
        lemma_upper_median_unique(ys, upper_median(xs), upper_median(ys));
    }
    if has_upper_median(ys) {
        lemma_upper_median_permutation(ys, xs, upper_median(ys));
    }
}

/// The run of equal values that place `i` stands in has a last place.
pub proof fn lemma_run_end(xs: Seq<(i128, i64)>, i: int) -> (j: int)
    requires
        0 <= i < xs.len(),
    ensures
        i <= j < xs.len(),
        xs[j].0 == xs[i].0,
        ends_run(xs, j),
    decreases xs.len() - i,
{
    if ends_run(xs, i) {
        i
    } else {
        lemma_run_end(xs, i + 1)
    }
}

/// The run of equal values that place `i` stands in has a first place.
pub proof fn lemma_run_start(xs: Seq<(i128, i64)>, i: int) -> (j: int)
    requires
        0 <= i < xs.len(),
    ensures
        0 <= j <= i,
        xs[j].0 == xs[i].0,
        starts_run(xs, j),
    decreases i,
{
    if starts_run(xs, i) {
        i
    } else {
        lemma_run_start(xs, i - 1)
    }
}

/// In an ascending sequence, the pairs up to the end of a run are the pairs
/// with at most its value.
pub proof fn lemma_weight_to_run_end(xs: Seq<(i128, i64)>, k: int)
    requires
        ascending(xs),
        0 <= k < xs.len(),
        ends_run(xs, k),
    ensures
        weight_at_most(xs, xs[k].0 as int) == total_weight(xs.take(k + 1)),
{
    let v = xs[k].0 as int;
    let bottom = i128::MIN as int;
    let front = xs.take(k + 1);
    let back = xs.skip(k + 1);
    lemma_weight_split(xs, k + 1, bottom, v);
    assert forall|i: int| 0 <= i < front.len() implies bottom <= (#[trigger] front[i]).0 <= v by {
        assert(front[i] == xs[i]);
    }
    lemma_weight_all(front, bottom, v);
    assert forall|i: int| 0 <= i < back.len() implies !(bottom <= (#[trigger] back[i]).0 <= v) by {
        assert(back[i] == xs[k + 1 + i]);
        assert(xs[k].0 <= xs[k + 1].0 <= xs[k + 1 + i].0);
    }
    lemma_weight_none(back, bottom, v);
}

/// In an ascending sequence, the pairs from the start of a run on are the
/// pairs with at least its value.
pub proof fn lemma_weight_from_run_start(xs: Seq<(i128, i64)>, k: int)
    requires
        ascending(xs),
        0 <= k < xs.len(),
        starts_run(xs, k),
    ensures
        weight_at_least(xs, xs[k].0 as int) == total_weight(xs.skip(k)),
{
    let v = xs[k].0 as int;
    let top = i128::MAX as int;
    let front = xs.take(k);
    let back = xs.skip(k);
    lemma_weight_split(xs, k, v, top);
    assert forall|i: int| 0 <= i < back.len() implies v <= (#[trigger] back[i]).0 <= top by {
        assert(back[i] == xs[k + i]);
    }
    lemma_weight_all(back, v, top);
    assert forall|i: int| 0 <= i < front.len() implies !(v <= (#[trigger] front[i]).0 <= top) by {
        assert(front[i] == xs[i]);
        assert(xs[i].0 <= xs[k - 1].0 <= xs[k].0);
    }
    lemma_weight_none(front, v, top);
}

/// Whether the weight of the first `k + 1` pairs of `xs` is at least half
/// of `total`, and `k` ends a run of equal values.
pub open spec fn heavy_prefix(xs: Seq<(i128, i64)>, total: int, k: int) -> bool {
    ends_run(xs, k) && 2 * total_weight(xs.take(k + 1)) >= total
}

/// Whether the weight of the pairs of `xs` from `k` on is at least half of
/// `total`, and `k` starts a run of equal values.
pub open spec fn heavy_suffix(xs: Seq<(i128, i64)>, total: int, k: int) -> bool {
    starts_run(xs, k) && 2 * total_weight(xs.skip(k)) >= total
}

/// In an ascending sequence, the first run at whose end the weight counted
/// from the front reaches half of the total holds the lower weighted median.
pub proof fn lemma_first_heavy_prefix(xs: Seq<(i128, i64)>, k: int)
    requires
        ascending(xs),
        0 <= k < xs.len(),
        heavy_prefix(xs, total_weight(xs), k),
        forall|j: int| 0 <= j < k ==> !#[trigger] heavy_prefix(xs, total_weight(xs), j),
    ensures
        is_lower_median(xs, xs[k].0 as int),
{
    let m = xs[k].0 as int;
    assert(has_value(xs, m));
    lemma_weight_to_run_end(xs, k);
    assert forall|i: int| 0 <= i < xs.len() && #[trigger] xs[i].0 < m implies 2 * weight_at_most(
        xs,
        xs[i].0 as int,
    ) < total_weight(xs) by {
        let j = lemma_run_end(xs, i);
        assert(j < k);
        lemma_weight_to_run_end(xs, j);
        assert(!heavy_prefix(xs, total_weight(xs), j));
    }
}

/// In an ascending sequence in which the weight counted from the front
/// reaches half of the total at the end of no run, there is no lower
/// weighted median.
pub proof fn lemma_no_heavy_prefix(xs: Seq<(i128, i64)>)
    requires
        ascending(xs),
        forall|j: int| 0 <= j < xs.len() ==> !#[trigger] heavy_prefix(xs, total_weight(xs), j),
    ensures
        !has_lower_median(xs),
{
    assert forall|m: int| !is_lower_median(xs, m) by {
        if has_value(xs, m) {
            let i = choose|i: int| 0 <= i < xs.len() && #[trigger] xs[i].0 == m;
            let j = lemma_run_end(xs, i);
            lemma_weight_to_run_end(xs, j);
            assert(!heavy_prefix(xs, total_weight(xs), j));
        }
    }
}

/// In an ascending sequence, the last run from whose start the weight
/// counted to the back reaches half of the total holds the upper weighted
/// median.
pub proof fn lemma_last_heavy_suffix(xs: Seq<(i128, i64)>, k: int)
    requires
        ascending(xs),
        0 <= k < xs.len(),
        heavy_suffix(xs, total_weight(xs), k),
        forall|j: int| k < j < xs.len() ==> !#[trigger] heavy_suffix(xs, total_weight(xs), j),
    ensures
        is_upper_median(xs, xs[k].0 as int),
{
    let m = xs[k].0 as int;
    assert(has_value(xs, m));
    lemma_weight_from_run_start(xs, k);
    assert forall|i: int| 0 <= i < xs.len() && #[trigger] xs[i].0 > m implies 2 * weight_at_least(
        xs,
        xs[i].0 as int,
    ) < total_weight(xs) by {
        let j = lemma_run_start(xs, i);
        assert(j > k);
        lemma_weight_from_run_start(xs, j);
        assert(!heavy_suffix(xs, total_weight(xs), j));
    }
}

/// In an ascending sequence in which the weight counted to the back reaches
/// half of the total from the start of no run, there is no upper weighted
/// median.
pub proof fn lemma_no_heavy_suffix(xs: Seq<(i128, i64)>)
    requires
        ascending(xs),
        forall|j: int| 0 <= j < xs.len() ==> !#[trigger] heavy_suffix(xs, total_weight(xs), j),
    ensures
        !has_upper_median(xs),
{
    assert forall|m: int| !is_upper_median(xs, m) by {
        if has_value(xs, m) {
            let i = choose|i: int| 0 <= i < xs.len() && #[trigger] xs[i].0 == m;
            let j = lemma_run_start(xs, i);
            lemma_weight_from_run_start(xs, j);
            assert(!heavy_suffix(xs, total_weight(xs), j));
        }
    }
}

/// The total weight of `xs`.
pub fn sum_weights(xs: &[(i128, i64)]) -> (total: i128)
    ensures
        total == total_weight(xs@),
{
    let n = xs.len();
    let mut total: i128 = 0;
    let mut i: usize = 0;
    while i < n
        invariant
            i <= n == xs@.len(),
            total == total_weight(xs@.take(i as int)),
        decreases n - i,
    {
        proof {
            lemma_prefix_step(xs@, i as int);
        }
        total = total + xs[i].1 as i128;
        i += 1;
    }
    assert(xs@.take(i as int) =~= xs@);
    total
}

/// Whether twice `sum` is at least `total`.
fn reaches_half(sum: i128, total: i128) -> (r: bool)
    ensures
        r == (2 * sum >= total),
{
    let half = if total >= 0 {
        total / 2 + total % 2
    } else {
        total / 2
    };
    sum >= half
}

/// The first place of `xs` that ends a run of equal values and at which
/// the weight counted from the front reaches half of `total`, if there is
/// one.
pub fn l_wt_median_unchecked(xs: &[(i128, i64)], total: i128) -> (r: Option<usize>)
    ensures
        match r {
            Some(k) => k < xs@.len() && heavy_prefix(xs@, total as int, k as int) && forall|j: int|
                0 <= j < k ==> !#[trigger] heavy_prefix(xs@, total as int, j),
            None => forall|j: int|
                0 <= j < xs@.len() ==> !#[trigger] heavy_prefix(xs@, total as int, j),
        },
{
    let n = xs.len();
    let mut sum: i128 = 0;
    let mut i: usize = 0;
    while i < n
        invariant
            i <= n == xs@.len(),
            sum == total_weight(xs@.take(i as int)),
            forall|j: int| 0 <= j < i ==> !#[trigger] heavy_prefix(xs@, total as int, j),
        decreases n - i,
    {
        proof {
            lemma_prefix_step(xs@, i as int);
        }
        sum = sum + xs[i].1 as i128;
        let last_of_run = i + 1 == n || xs[i].0 != xs[i + 1].0;
        if last_of_run && reaches_half(sum, total) {
            return Some(i);
        }
        i += 1;
    }
    None
}

/// The last place of `xs` that starts a run of equal values and from which
/// the weight counted to the back reaches half of `total`, if there is one.
pub fn r_wt_median_unchecked(xs: &[(i128, i64)], total: i128) -> (r: Option<usize>)
    ensures
        match r {
            Some(k) => k < xs@.len() && heavy_suffix(xs@, total as int, k as int) && forall|j: int|
                k < j < xs@.len() ==> !#[trigger] heavy_suffix(xs@, total as int, j),
            None => forall|j: int|
                0 <= j < xs@.len() ==> !#[trigger] heavy_suffix(xs@, total as int, j),
        },
{
    let n = xs.len();
    let mut sum: i128 = 0;
    let mut i: usize = n;
    assert(xs@.skip(i as int).len() == 0);
    while i > 0
        invariant
            i <= n == xs@.len(),
            sum == total_weight(xs@.skip(i as int)),
            forall|j: int| i <= j < n ==> !#[trigger] heavy_suffix(xs@, total as int, j),
        decreases i,
    {
        i -= 1;
        proof {
            lemma_suffix_step(xs@, i as int);
        }
        sum = sum + xs[i].1 as i128;
        let first_of_run = i == 0 || xs[i - 1].0 != xs[i].0;
        if first_of_run && reaches_half(sum, total) {
            return Some(i);
        }
    }
    None
}

/// The mean of `a` and `b`, rounded down.
fn midpoint(a: i128, b: i128) -> (m: i128)
    ensures
        m == (a + b) / 2,
{
    let half_a = if a < 0 && a % 2 != 0 {
        a / 2 - 1
    } else {
        a / 2
    };
    let half_b = if b < 0 && b % 2 != 0 {
        b / 2 - 1
    } else {
        b / 2
    };
    let odd_a = a % 2 != 0;
    let odd_b = b % 2 != 0;
    assert(half_a == a as int / 2);
    assert(half_b == b as int / 2);
    assert(odd_a == (a as int % 2 == 1));
    assert(odd_b == (b as int % 2 == 1));
    if odd_a && odd_b {
        half_a + half_b + 1
    } else {
        half_a + half_b
    }
}

/// The weighted median of `xs`, whose pairs are a value and its weight.
///
/// Nothing has no median. Otherwise the pairs are taken in ascending order
/// of value, and pairs of one value count together. The lower median is the
/// first value at which the weight counted upward reaches half of the
/// total, the upper median the last value at which the weight counted
/// downward does. An odd number of pairs gives the lower median, an even
/// number the mean of the two, rounded down. Where all weights are zero
/// these are the least and the greatest value. Where no value reaches half,
/// which takes a negative weight, there is no median.
pub fn weighted_median(xs: &[(i128, i64)]) -> (r: Result<i128, StatError>)
    ensures
        r == weighted_median_of(xs@),
        xs@.len() == 1 && xs@[0].1 >= 0 ==> r == Ok::<i128, StatError>(xs@[0].0),
{
    if xs.len() == 0 {
        return Err(StatError::EmptyInput);
    }
    let total = sum_weights(xs);
    let sorted = sort_by_value(xs);
    proof {
        sorted@.to_multiset_ensures();
        xs@.to_multiset_ensures();
        lemma_weight_permutation(xs@, sorted@, i128::MIN as int, i128::MAX as int);
        lemma_median_permutation(sorted@, xs@);
        if xs@.len() == 1 && xs@[0].1 >= 0 {
            lemma_median_of_single(xs@);
        }
    }
    let lower = match l_wt_median_unchecked(sorted.as_slice(), total) {
        Some(l) => {
            proof {
                lemma_first_heavy_prefix(sorted@, l as int);
                lemma_lower_median_unique(sorted@, sorted@[l as int].0 as int, lower_median(sorted@));
            }
            sorted[l].0
        },
        None => {
            proof {
                lemma_no_heavy_prefix(sorted@);
            }
            return Err(StatError::NoMedian);
        },
    };
    if xs.len() % 2 == 0 {
        match r_wt_median_unchecked(sorted.as_slice(), total) {
            Some(u) => {
                proof {
                    lemma_last_heavy_suffix(sorted@, u as int);
                    lemma_upper_median_unique(
                        sorted@,
                        sorted@[u as int].0 as int,
                        upper_median(sorted@),
                    );
                }
                Ok(midpoint(lower, sorted[u].0))
            },
            None => {
                proof {
                    lemma_no_heavy_suffix(sorted@);
                }
                Err(StatError::NoMedian)
            },
        }
    } else {
        Ok(lower)
    }
}

/// Some pair of a non-empty sequence holds its greatest value.
pub proof fn lemma_greatest_value(xs: Seq<(i128, i64)>) -> (k: int)
    requires
        xs.len() > 0,
    ensures
        0 <= k < xs.len(),
        forall|i: int| 0 <= i < xs.len() ==> (#[trigger] xs[i]).0 <= xs[k].0,
    decreases xs.len(),
{
    if xs.len() == 1 {
        0
    } else {
        let rest = xs.drop_last();
        let k = lemma_greatest_value(rest);
        assert(rest[k] == xs[k]);
        let best = if xs.last().0 >= xs[k].0 {
            xs.len() - 1
        } else {
            k
        };
        assert forall|i: int| 0 <= i < xs.len() implies (#[trigger] xs[i]).0 <= xs[best].0 by {
            if i < rest.len() {
                assert(rest[i] == xs[i]);
            }
        }
        best
    }
}

/// Some pair of a non-empty sequence holds its least value.
pub proof fn lemma_least_value(xs: Seq<(i128, i64)>) -> (k: int)
    requires
        xs.len() > 0,
    ensures
        0 <= k < xs.len(),
        forall|i: int| 0 <= i < xs.len() ==> (#[trigger] xs[i]).0 >= xs[k].0,
    decreases xs.len(),
{
    if xs.len() == 1 {
        0
    } else {
        let rest = xs.drop_last();
        let k = lemma_least_value(rest);
        assert(rest[k] == xs[k]);
        let best = if xs.last().0 <= xs[k].0 {
            xs.len() - 1
        } else {
            k
        };
        assert forall|i: int| 0 <= i < xs.len() implies (#[trigger] xs[i]).0 >= xs[best].0 by {
            if i < rest.len() {
                assert(rest[i] == xs[i]);
            }
        }
        best
    }
}

/// At or below a value that carries half of the weight counted upward there
/// is a lower weighted median.
proof fn lemma_lower_median_below(xs: Seq<(i128, i64)>, c: int)
    requires
        has_value(xs, c),
        2 * weight_at_most(xs, c) >= total_weight(xs),
    ensures
        has_lower_median(xs),
    decreases c - i128::MIN,
{
    if exists|i: int|
        0 <= i < xs.len() && #[trigger] xs[i].0 < c && 2 * weight_at_most(xs, xs[i].0 as int)
            >= total_weight(xs) {
        let i = choose|i: int|
            0 <= i < xs.len() && #[trigger] xs[i].0 < c && 2 * weight_at_most(xs, xs[i].0 as int)
                >= total_weight(xs);
        assert(has_value(xs, xs[i].0 as int));
        lemma_lower_median_below(xs, xs[i].0 as int);
    } else {
        assert(is_lower_median(xs, c));
    }
}

/// At or above a value that carries half of the weight counted downward
/// there is an upper weighted median.
proof fn lemma_upper_median_above(xs: Seq<(i128, i64)>, c: int)
    requires
        has_value(xs, c),
        2 * weight_at_least(xs, c) >= total_weight(xs),
    ensures
        has_upper_median(xs),
    decreases i128::MAX - c,
{
    if exists|i: int|
        0 <= i < xs.len() && #[trigger] xs[i].0 > c && 2 * weight_at_least(xs, xs[i].0 as int)
            >= total_weight(xs) {
        let i = choose|i: int|
            0 <= i < xs.len() && #[trigger] xs[i].0 > c && 2 * weight_at_least(xs, xs[i].0 as int)
                >= total_weight(xs);
        assert(has_value(xs, xs[i].0 as int));
        lemma_upper_median_above(xs, xs[i].0 as int);
    } else {
        assert(is_upper_median(xs, c));
    }
}

/// Pairs whose weights are not negative together have a lower and an upper
/// weighted median, so asking for their median cannot fail but on nothing.
pub proof fn lemma_medians_exist(xs: Seq<(i128, i64)>)
    requires
        xs.len() > 0,
        total_weight(xs) >= 0,
    ensures
        has_lower_median(xs),
        has_upper_median(xs),
        is_lower_median(xs, lower_median(xs)),
        is_upper_median(xs, upper_median(xs)),
        weighted_median_of(xs) == Ok::<i128, StatError>(median_of(xs) as i128),
        i128::MIN <= median_of(xs) <= i128::MAX,
{
    let top = lemma_greatest_value(xs);
    assert(has_value(xs, xs[top].0 as int));
    lemma_weight_all(xs, i128::MIN as int, xs[top].0 as int);
    lemma_lower_median_below(xs, xs[top].0 as int);
    let bottom = lemma_least_value(xs);
    assert(has_value(xs, xs[bottom].0 as int));
    lemma_weight_all(xs, xs[bottom].0 as int, i128::MAX as int);
    lemma_upper_median_above(xs, xs[bottom].0 as int);
}

/// The weighted median of a single pair whose weight is not negative is its
/// value.
pub proof fn lemma_median_of_single(xs: Seq<(i128, i64)>)
    requires
        xs.len() == 1,
        xs[0].1 >= 0,
    ensures
        weighted_median_of(xs) == Ok::<i128, StatError>(xs[0].0),
{
    assert(xs.drop_last().len() == 0);
    assert(weight_within(xs.drop_last(), i128::MIN as int, i128::MAX as int) == 0);
    lemma_medians_exist(xs);
    let l = lower_median(xs);
    let i = choose|i: int| 0 <= i < xs.len() && #[trigger] xs[i].0 == l;
    assert(i == 0);
}

/// Where all weights are zero, the lower weighted median is the least value
/// and the upper weighted median the greatest.
pub proof fn lemma_medians_of_zero_weights(xs: Seq<(i128, i64)>, least: int, greatest: int)
    requires
        forall|i: int| 0 <= i < xs.len() ==> (#[trigger] xs[i]).1 == 0,
        has_value(xs, least),
        has_value(xs, greatest),
        forall|i: int| 0 <= i < xs.len() ==> least <= (#[trigger] xs[i]).0 <= greatest,
    ensures
        lower_median(xs) == least,
        upper_median(xs) == greatest,
{
    assert forall|lo: int, hi: int| #[trigger] weight_within(xs, lo, hi) == 0 by {
        lemma_weight_of_equal_weights(xs, 0, lo, hi);
    }
    assert(is_lower_median(xs, least));
    assert(is_upper_median(xs, greatest));
    lemma_lower_median_unique(xs, least, lower_median(xs));
    lemma_upper_median_unique(xs, greatest, upper_median(xs));
}

/// Pairs that all weigh `w` weigh, within a range, `w` times the number of
/// pairs whose value lies in it; all together, `w` times their number.
pub proof fn lemma_weight_of_equal_weights(xs: Seq<(i128, i64)>, w: i64, lo: int, hi: int)
    requires
        forall|i: int| 0 <= i < xs.len() ==> (#[trigger] xs[i]).1 == w,
    ensures
        w == 0 ==> weight_within(xs, lo, hi) == 0,
        total_weight(xs) == xs.len() * w,
    decreases xs.len(),
{
    if xs.len() > 0 {
        let rest = xs.drop_last();
        assert forall|i: int| 0 <= i < rest.len() implies (#[trigger] rest[i]).1 == w by {
            assert(rest[i] == xs[i]);
        }
        lemma_weight_of_equal_weights(rest, w, lo, hi);
        assert(xs[xs.len() - 1].1 == w);
        assert((xs.len() - 1) * w + w == xs.len() * w) by (nonlinear_arith);
    }
}

/// With equal weights above zero the weighted medians are the middle
/// values: of `n` pairs in ascending order, the lower median is the value
/// at place `(n - 1) / 2` and the upper median the value at place `n / 2`,
/// so the weighted median is the ordinary one.
pub proof fn lemma_medians_of_equal_weights(xs: Seq<(i128, i64)>, w: i64)
    requires
        xs.len() > 0,
        ascending(xs),
        w > 0,
        forall|i: int| 0 <= i < xs.len() ==> (#[trigger] xs[i]).1 == w,
    ensures
        lower_median(xs) == xs[(xs.len() - 1) / 2].0,
        upper_median(xs) == xs[xs.len() as int / 2].0,
{
    let n = xs.len() as int;
    let bottom = i128::MIN as int;
    let top = i128::MAX as int;
    lemma_weight_of_equal_weights(xs, w, bottom, top);
    assert forall|k: int| 0 <= k <= n implies total_weight(#[trigger] xs.take(k)) == k * w by {
        let front = xs.take(k);
        assert forall|i: int| 0 <= i < front.len() implies (#[trigger] front[i]).1 == w by {
            assert(front[i] == xs[i]);
        }
        lemma_weight_of_equal_weights(front, w, bottom, top);
    }
    assert forall|k: int| 0 <= k <= n implies total_weight(#[trigger] xs.skip(k)) == (n - k)
        * w by {
        let back = xs.skip(k);
        assert forall|i: int| 0 <= i < back.len() implies (#[trigger] back[i]).1 == w by {
            assert(back[i] == xs[k + i]);
        }
        lemma_weight_of_equal_weights(back, w, bottom, top);
    }
    let l = lemma_run_end(xs, (n - 1) / 2);
    let u = lemma_run_start(xs, n / 2);
    assert forall|j: int| 0 <= j <= n implies (2 * (#[trigger] total_weight(xs.take(j))) >= n * w
        <==> 2 * j >= n) by {
        assert(total_weight(xs.take(j)) == j * w);
        assert((2 * (j * w) >= n * w) <==> (2 * j >= n)) by (nonlinear_arith)
            requires
                w > 0,
        ;
    }
    assert forall|j: int| 0 <= j <= n implies (2 * (#[trigger] total_weight(xs.skip(j))) >= n * w
        <==> 2 * (n - j) >= n) by {
        assert(total_weight(xs.skip(j)) == (n - j) * w);
        assert((2 * ((n - j) * w) >= n * w) <==> (2 * (n - j) >= n)) by (nonlinear_arith)
            requires
                w > 0,
        ;
    }
    assert(heavy_prefix(xs, total_weight(xs), l));
    assert forall|j: int| 0 <= j < l implies !#[trigger] heavy_prefix(xs, total_weight(xs), j) by {
        if ends_run(xs, j) && j >= (n - 1) / 2 {
            assert(xs[j].0 <= xs[j + 1].0 <= xs[l].0);
            assert(xs[(n - 1) / 2].0 <= xs[j].0);
        }
    }
    assert(heavy_suffix(xs, total_weight(xs), u));
    assert forall|j: int| u < j < n implies !#[trigger] heavy_suffix(xs, total_weight(xs), j) by {
        if starts_run(xs, j) && j <= n / 2 {
            assert(xs[u].0 <= xs[j - 1].0 <= xs[j].0);
            assert(xs[j].0 <= xs[n / 2].0);
        }
    }
    lemma_first_heavy_prefix(xs, l);
    lemma_last_heavy_suffix(xs, u);
    lemma_lower_median_unique(xs, xs[l].0 as int, lower_median(xs));
    lemma_upper_median_unique(xs, xs[u].0 as int, upper_median(xs));
}

/// The whole seconds in a duration of `ms` milliseconds, rounded towards
/// zero.
pub open spec fn whole_seconds(ms: i128) -> int {
    if ms >= 0 {
        ms as int / 1000
    } else {
        -((-(ms as int)) / 1000)
    }
}

/// A duration of `secs` seconds as text. From an hour on the hours come
/// first, and from a minute on what is left of the minutes, each followed by
/// a colon; the seconds left over come last, in two digits. A duration
/// under a minute is its seconds followed by ` s`.
pub open spec fn duration_text(secs: int) -> Seq<char> {
    let hours = if secs >= 3600 {
        decimal((secs / 3600) as nat) + seq![':']
    } else {
        Seq::empty()
    };
    let below_hour = if secs >= 3600 {
        secs % 3600
    } else {
        secs
    };
    let minutes = if below_hour >= 60 {
        decimal((below_hour / 60) as nat) + seq![':']
    } else {
        Seq::empty()
    };
    let below_minute = if below_hour >= 60 {
        below_hour % 60
    } else {
        below_hour
    };
    if secs >= 60 {
        hours + minutes + two_digits(below_minute as nat)
    } else {
        signed_decimal(below_minute) + seq![' ', 's']
    }
}

/// A duration of `duration` milliseconds as text, to the whole second.
pub fn pretty_duration(duration: i128) -> (s: String)
    ensures
        s@ == duration_text(whole_seconds(duration)),
{
    let mut s = String::new();
    let mut secs = duration / 1000;
    let mut plain = true;
    if secs >= 3600 {
        proof {
            reveal_strlit(":");
        }
        push_decimal(&mut s, (secs / 3600) as u128);
        s.append(":");
        secs = secs % 3600;
        plain = false;
    }
    if secs >= 60 {
        proof {
            reveal_strlit(":");
        }
        push_decimal(&mut s, (secs / 60) as u128);
        s.append(":");
        secs = secs % 60;
        plain = false;
    }
    if plain {
        proof {
            reveal_strlit(" s");
        }
        push_signed_decimal(&mut s, secs);
        s.append(" s");
    } else {
        push_two_digits(&mut s, secs as u128);
    }
    assert(s@ =~= duration_text(whole_seconds(duration)));
    s
}

} // verus!
