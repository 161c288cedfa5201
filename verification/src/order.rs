//! Lists made of other lists: some of the elements, in order, each as it is or as something
//! made of it.

use vstd::prelude::*;

verus! {

/// `out` is what `f` makes of the elements of `from` at the places `at`, in order: exactly
/// the elements that are `picked`.
pub open spec fn are_picked_at<A, B>(
    out: Seq<B>,
    from: Seq<A>,
    at: Seq<int>,
    picked: spec_fn(A) -> bool,
    f: spec_fn(A) -> B,
) -> bool {
    &&& at.len() == out.len()
    &&& forall|a: int, b: int| 0 <= a < b < at.len() ==> #[trigger] at[a] < #[trigger] at[b]
    &&& forall|a: int|
        0 <= a < at.len() ==> 0 <= #[trigger] at[a] < from.len() && picked(from[at[a]]) && out[a] == f(
            from[at[a]],
        )
    &&& forall|i: int| 0 <= i < from.len() && picked(#[trigger] from[i]) ==> at.contains(i)
}

/// `out` is what `f` makes of exactly the elements of `from` that are `picked`, in order.
pub open spec fn are_picked<A, B>(
    out: Seq<B>,
    from: Seq<A>,
    picked: spec_fn(A) -> bool,
    f: spec_fn(A) -> B,
) -> bool {
    exists|at: Seq<int>| #[trigger] are_picked_at(out, from, at, picked, f)
}

/// Of nothing, nothing is picked.
pub proof fn lemma_pick_nothing<A, B>(picked: spec_fn(A) -> bool, f: spec_fn(A) -> B)
    ensures
        are_picked(Seq::<B>::empty(), Seq::<A>::empty(), picked, f),
{
    assert(are_picked_at(Seq::<B>::empty(), Seq::<A>::empty(), Seq::<int>::empty(), picked, f));
}

/// One more element is picked, or is not.
pub proof fn lemma_pick_more<A, B>(
    out: Seq<B>,
    from: Seq<A>,
    last: A,
    picked: spec_fn(A) -> bool,
    f: spec_fn(A) -> B,
)
    requires
        are_picked(out, from, picked, f),
    ensures
        picked(last) ==> are_picked(out.push(f(last)), from.push(last), picked, f),
        !picked(last) ==> are_picked(out, from.push(last), picked, f),
{
    let at = choose|at: Seq<int>| #[trigger] are_picked_at(out, from, at, picked, f);
    let n = from.len() as int;
    let all = from.push(last);
    if picked(last) {
        let more = at.push(n);
        let made = out.push(f(last));
        assert forall|a: int, b: int| 0 <= a < b < more.len() implies #[trigger] more[a] < #[trigger] more[b] by {
            assert(more[a] == at[a]);
            if b < at.len() {
                assert(more[b] == at[b]);
            }
        }
        assert forall|a: int| 0 <= a < more.len() implies 0 <= #[trigger] more[a] < all.len() && picked(
            all[more[a]],
        ) && made[a] == f(all[more[a]]) by {
            if a < at.len() {
                assert(more[a] == at[a]);
                assert(all[at[a]] == from[at[a]]);
            }
        }
        assert forall|i: int| 0 <= i < all.len() && picked(#[trigger] all[i]) implies more.contains(i) by {
            if i < n {
                assert(picked(from[i]));
                let a = choose|a: int| 0 <= a < at.len() && at[a] == i;
                assert(more[a] == i);
            } else {
                assert(more[at.len() as int] == n);
            }
        }
        assert(are_picked_at(made, all, more, picked, f));
    } else {
        assert forall|a: int| 0 <= a < at.len() implies 0 <= #[trigger] at[a] < all.len() && picked(
            all[at[a]],
        ) && out[a] == f(all[at[a]]) by {
            assert(all[at[a]] == from[at[a]]);
        }
        assert forall|i: int| 0 <= i < all.len() && picked(#[trigger] all[i]) implies at.contains(i) by {
            assert(i < n);
            assert(picked(from[i]));
        }
        assert(are_picked_at(out, all, at, picked, f));
    }
}

} // verus!
