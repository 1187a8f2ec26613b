//! Merge sort of weighted pairs by their values.

use crate::util::ascending;
use vstd::prelude::*;
use vstd::seq_lib::lemma_multiset_commutative;

verus! {

/// Merges two ascending runs into one.
fn merge(a: &Vec<(i128, i64)>, b: &Vec<(i128, i64)>) -> (out: Vec<(i128, i64)>)
    requires
        ascending(a@),
        ascending(b@),
    ensures
        ascending(out@),
        out@.to_multiset() == a@.to_multiset().add(b@.to_multiset()),
{
    let mut out: Vec<(i128, i64)> = Vec::new();
    let mut i: usize = 0;
    let mut j: usize = 0;
    proof {
        assert(a@.take(0) =~= out@);
        assert(b@.take(0) =~= out@);
        lemma_multiset_commutative(out@, out@);
        assert(out@ + out@ =~= out@);
    }
    while i < a.len() || j < b.len()
        invariant
            i <= a.len(),
            j <= b.len(),
            ascending(a@),
            ascending(b@),
            ascending(out@),
            out@.to_multiset() == a@.take(i as int).to_multiset().add(
                b@.take(j as int).to_multiset(),
            ),
            forall|k: int| 0 <= k < out@.len() && i < a@.len() ==> out@[k].0 <= a@[i as int].0,
            forall|k: int| 0 <= k < out@.len() && j < b@.len() ==> out@[k].0 <= b@[j as int].0,
        decreases a.len() - i + b.len() - j,
    {
        let from_a = if i >= a.len() {
            false
        } else if j >= b.len() {
            true
        } else {
            a[i].0 <= b[j].0
        };
        let ghost before = out@;
        if from_a {
            proof {
                a@.take(i as int).to_multiset_ensures();
                before.to_multiset_ensures();
                assert(a@.take(i + 1) =~= a@.take(i as int).push(a@[i as int]));
            }
            out.push(a[i]);
            i += 1;
        } else {
            proof {
                b@.take(j as int).to_multiset_ensures();
                before.to_multiset_ensures();
                assert(b@.take(j + 1) =~= b@.take(j as int).push(b@[j as int]));
            }
            out.push(b[j]);
            j += 1;
        }
        assert(out@.to_multiset() =~= a@.take(i as int).to_multiset().add(
            b@.take(j as int).to_multiset(),
        ));
    }
    proof {
        assert(a@.take(i as int) =~= a@);
        assert(b@.take(j as int) =~= b@);
    }
    out
}

/// Sorts the pairs `xs[lo..hi]` by value.
fn sort_range(xs: &[(i128, i64)], lo: usize, hi: usize) -> (out: Vec<(i128, i64)>)
    requires
        lo <= hi <= xs@.len(),
    ensures
        ascending(out@),
        out@.to_multiset() == xs@.subrange(lo as int, hi as int).to_multiset(),
    decreases hi - lo,
{
    let mut out: Vec<(i128, i64)> = Vec::new();
    if hi - lo == 0 {
        assert(out@ =~= xs@.subrange(lo as int, hi as int));
        out
    } else if hi - lo == 1 {
        out.push(xs[lo]);
        assert(out@ =~= xs@.subrange(lo as int, hi as int));
        out
    } else {
        let mid = lo + (hi - lo) / 2;
        let a = sort_range(xs, lo, mid);
        let b = sort_range(xs, mid, hi);
        proof {
            let left = xs@.subrange(lo as int, mid as int);
            let right = xs@.subrange(mid as int, hi as int);
            assert(left + right =~= xs@.subrange(lo as int, hi as int));
            lemma_multiset_commutative(left, right);
        }
        merge(&a, &b)
    }
}

/// The pairs of `xs` in ascending order of value.
pub fn sort_by_value(xs: &[(i128, i64)]) -> (out: Vec<(i128, i64)>)
    ensures
        ascending(out@),
        out@.to_multiset() == xs@.to_multiset(),
{
    assert(xs@.subrange(0, xs@.len() as int) =~= xs@);
    sort_range(xs, 0, xs.len())
}

} // verus!
