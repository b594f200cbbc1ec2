//! Sorting of element values.

use vstd::prelude::*;
use vstd::relations::{sorted_by, total_ordering};
use vstd::seq_lib::lemma_sorted_unique;

verus! {

/// The values do not decrease from left to right.
pub open spec fn ascending(s: Seq<i64>) -> bool {
    forall|i: int, j: int| 0 <= i < j < s.len() ==> s[i] <= s[j]
}

/// The values increase from left to right.
pub open spec fn strictly_ascending(s: Seq<i64>) -> bool {
    forall|i: int, j: int| 0 <= i < j < s.len() ==> s[i] < s[j]
}

/// The values of `s` in ascending order.
pub open spec fn sorted(s: Seq<i64>) -> Seq<i64> {
    s.sort_by(|a: i64, b: i64| a <= b)
}

/// `<[i64]>::sort`: afterwards the vector holds the same values, each as
/// often as before, in ascending order.
#[verifier::external_body]
pub(crate) fn sort(v: &mut Vec<i64>)
    ensures
        final(v)@.to_multiset() == old(v)@.to_multiset(),
        ascending(final(v)@),
{
    v.sort();
}

/// Sorting keeps the values and puts them in ascending order.
pub proof fn lemma_sorted(s: Seq<i64>)
    ensures
        ascending(sorted(s)),
        sorted(s).len() == s.len(),
        sorted(s).to_multiset() == s.to_multiset(),
        forall|v: i64| #[trigger] sorted(s).contains(v) <==> s.contains(v),
{
    let leq = |a: i64, b: i64| a <= b;
    assert(total_ordering(leq));
    s.lemma_sort_by_ensures(leq);
    s.to_multiset_ensures();
    sorted(s).to_multiset_ensures();
    assert forall|v: i64| #[trigger] sorted(s).contains(v) <==> s.contains(v) by {
        assert(sorted(s).to_multiset().count(v) == s.to_multiset().count(v));
    }
    assert(ascending(sorted(s))) by {
        assert forall|i: int, j: int| 0 <= i < j < sorted(s).len() implies sorted(s)[i] <= sorted(
            s,
        )[j] by {
            assert(leq(sorted(s)[i], sorted(s)[j]));
        }
    }
}

/// The values of `values` in ascending order.
pub fn sorted_copy(values: Vec<i64>) -> (r: Vec<i64>)
    ensures
        r@ == sorted(values@),
{
    let mut out = values;
    sort(&mut out);
    proof {
        let leq = |a: i64, b: i64| a <= b;
        assert(total_ordering(leq));
        values@.lemma_sort_by_ensures(leq);
        assert(sorted_by(out@, leq)) by {
            assert forall|i: int, j: int| 0 <= i < j < out@.len() implies #[trigger] leq(
                out@[i],
                out@[j],
            ) by {}
        }
        lemma_sorted_unique(out@, sorted(values@), leq);
    }
    out
}

} // verus!
