//! Filtering a sequence keeps the order of what stays.

use vstd::prelude::*;

verus! {

/// The position in `s` of the element that stands at position `k` of
/// `s.filter(pred)`.
pub open spec fn origin<A>(s: Seq<A>, pred: spec_fn(A) -> bool, k: int) -> int
    decreases s.len(),
{
    if s.len() == 0 {
        0
    } else if pred(s.last()) && k == s.drop_last().filter(pred).len() {
        s.len() - 1
    } else {
        origin(s.drop_last(), pred, k)
    }
}

/// Every element of a filtered sequence stands for one element of the
/// sequence that meets the predicate; the elements keep their order; and
/// every element that meets the predicate is there.
pub proof fn lemma_filter_origin<A>(s: Seq<A>, pred: spec_fn(A) -> bool)
    ensures
        forall|k: int|
            0 <= k < s.filter(pred).len() ==> 0 <= #[trigger] origin(s, pred, k) < s.len()
                && s[origin(s, pred, k)] == s.filter(pred)[k] && pred(s.filter(pred)[k]),
        forall|k1: int, k2: int|
            0 <= k1 < k2 < s.filter(pred).len() ==> #[trigger] origin(s, pred, k1)
                < #[trigger] origin(s, pred, k2),
        forall|i: int|
            0 <= i < s.len() && pred(#[trigger] s[i]) ==> exists|k: int|
                0 <= k < s.filter(pred).len() && origin(s, pred, k) == i,
    decreases s.len(),
{
    reveal(Seq::filter);
    if s.len() > 0 {
        let rest = s.drop_last();
        let kept = rest.filter(pred);
        lemma_filter_origin(rest, pred);
        let out = s.filter(pred);
        assert forall|k: int| 0 <= k < out.len() implies 0 <= #[trigger] origin(s, pred, k)
            < s.len() && s[origin(s, pred, k)] == out[k] && pred(out[k]) by {
            if k < kept.len() {
                assert(origin(s, pred, k) == origin(rest, pred, k));
                assert(rest[origin(rest, pred, k)] == kept[k]);
            }
        }
        assert forall|k1: int, k2: int| 0 <= k1 < k2 < out.len() implies #[trigger] origin(
            s,
            pred,
            k1,
        ) < #[trigger] origin(s, pred, k2) by {
            assert(origin(s, pred, k1) == origin(rest, pred, k1));
            if k2 < kept.len() {
                assert(origin(s, pred, k2) == origin(rest, pred, k2));
            }
        }
        assert forall|i: int| 0 <= i < s.len() && pred(#[trigger] s[i]) implies exists|k: int|
            0 <= k < out.len() && origin(s, pred, k) == i by {
            if i == s.len() - 1 {
                assert(origin(s, pred, kept.len() as int) == i);
            } else {
                assert(pred(rest[i]));
                let k = choose|k: int| 0 <= k < kept.len() && origin(rest, pred, k) == i;
                assert(origin(s, pred, k) == i);
            }
        }
    }
}

/// Filtering one element more: the element joins the result where it
/// meets the predicate.
pub proof fn lemma_filter_take_step<A>(s: Seq<A>, pred: spec_fn(A) -> bool, i: int)
    requires
        0 <= i < s.len(),
    ensures
        s.take(i + 1).filter(pred) == (if pred(s[i]) {
            s.take(i).filter(pred).push(s[i])
        } else {
            s.take(i).filter(pred)
        }),
{
    reveal(Seq::filter);
    assert(s.take(i + 1).drop_last() =~= s.take(i));
}

} // verus!
