//! What sorting and paging do.

use super::Ranked;
use crate::rank;
use vstd::prelude::*;

verus! {

/// What is sorted is what was there, no more and no less, each element that may
/// stand before a later one before it.
pub proof fn law_sorting_keeps_and_orders<T: Ranked>(s: Seq<T::V>)
    requires
        forall|a: T::V, b: T::V| #[trigger] T::may_precede(a, b) || T::may_precede(b, a),
        forall|a: T::V, b: T::V, c: T::V| #[trigger]
            T::may_precede(a, b) && #[trigger] T::may_precede(b, c) ==> T::may_precede(a, c),
    ensures
        rank::ranked::<T>(s).len() == s.len(),
        rank::ranked::<T>(s).to_multiset() == s.to_multiset(),
        forall|x: T::V| #[trigger] rank::ranked::<T>(s).contains(x) <==> s.contains(x),
        forall|i: int, j: int|
            0 <= i < j < s.len() ==> T::may_precede(
                #[trigger] rank::ranked::<T>(s)[i],
                #[trigger] rank::ranked::<T>(s)[j],
            ),
{
    broadcast use vstd::seq_lib::group_to_multiset_ensures;

    rank::law_ranked::<T>(s);
    let sorted = rank::ranked::<T>(s);
    assert forall|x: T::V| #[trigger] sorted.contains(x) <==> s.contains(x) by {
        assert(sorted.contains(x) <==> sorted.to_multiset().count(x) > 0);
        assert(s.contains(x) <==> s.to_multiset().count(x) > 0);
    }
}

/// Where an element of what is sorted was before.
pub proof fn lemma_comes_from<T: Ranked>(s: Seq<T::V>, i: int) -> (k: int)
    requires
        0 <= i < rank::ranked::<T>(s).len(),
    ensures
        0 <= k < s.len(),
        s[k] == rank::ranked::<T>(s)[i],
{
    broadcast use vstd::seq_lib::group_to_multiset_ensures;

    let sorted = rank::ranked::<T>(s);
    rank::law_ranked::<T>(s);
    assert(sorted.contains(sorted[i]));
    assert(s.to_multiset().count(sorted[i]) > 0);
    assert(s.contains(sorted[i]));
    choose|k: int| 0 <= k < s.len() && s[k] == sorted[i]
}

/// Where an element stands after sorting.
pub proof fn lemma_goes_to<T: Ranked>(s: Seq<T::V>, k: int) -> (i: int)
    requires
        0 <= k < s.len(),
    ensures
        0 <= i < rank::ranked::<T>(s).len(),
        rank::ranked::<T>(s)[i] == s[k],
{
    broadcast use vstd::seq_lib::group_to_multiset_ensures;

    let sorted = rank::ranked::<T>(s);
    rank::law_ranked::<T>(s);
    assert(s.contains(s[k]));
    assert(sorted.to_multiset().count(s[k]) > 0);
    assert(sorted.contains(s[k]));
    choose|i: int| 0 <= i < sorted.len() && sorted[i] == s[k]
}

/// Whether two elements may stand in either order.
pub open spec fn level<T: Ranked>(a: T::V, b: T::V) -> bool {
    T::may_precede(a, b) && T::may_precede(b, a)
}

proof fn lemma_placed_is_stable<T: Ranked>(x: T::V, s: Seq<T::V>, e: T::V)
    requires
        rank::ordering::<T>(),
        rank::in_order::<T>(s),
    ensures
        rank::placed::<T>(x, s).filter(|y: T::V| level::<T>(e, y)) == (seq![x] + s).filter(
            |y: T::V| level::<T>(e, y),
        ),
    decreases s.len(),
{
    let keep = |y: T::V| level::<T>(e, y);
    let r = rank::placed::<T>(x, s);
    if s.len() == 0 {
        assert(r =~= seq![x] + s);
    } else if T::may_precede(x, s[0]) {
    } else {
        let rest = s.skip(1);
        assert(rank::in_order::<T>(rest)) by {
            assert forall|i: int, j: int| 0 <= i < j < rest.len() implies T::may_precede(
                #[trigger] rest[i],
                #[trigger] rest[j],
            ) by {
                assert(rest[i] == s[i + 1]);
                assert(rest[j] == s[j + 1]);
            }
        }
        lemma_placed_is_stable::<T>(x, rest, e);
        Seq::filter_distributes_over_add(seq![s[0]], rank::placed::<T>(x, rest), keep);
        Seq::filter_distributes_over_add(seq![x], rest, keep);
        Seq::filter_distributes_over_add(seq![s[0]], rest, keep);
        Seq::filter_distributes_over_add(seq![x], s, keep);
        assert(seq![s[0]] + rest =~= s);
        reveal(Seq::filter);
        assert(seq![x].drop_last() =~= Seq::empty());
        assert(seq![s[0]].drop_last() =~= Seq::empty());
        assert(Seq::<T::V>::empty().filter(keep) =~= Seq::empty());
        assert(!(keep(x) && keep(s[0])));
        if keep(x) {
            assert(seq![s[0]].filter(keep) =~= Seq::empty());
            assert(r.filter(keep) =~= (seq![x] + s).filter(keep));
        } else {
            assert(seq![x].filter(keep) =~= Seq::empty());
            assert(r.filter(keep) =~= (seq![x] + s).filter(keep));
        }
    }
}

/// Elements that may stand in either order stay in the order that they were in.
pub proof fn law_sorting_is_stable<T: Ranked>(s: Seq<T::V>, e: T::V)
    requires
        rank::ordering::<T>(),
    ensures
        rank::ranked::<T>(s).filter(|y: T::V| level::<T>(e, y)) == s.filter(
            |y: T::V| level::<T>(e, y),
        ),
    decreases s.len(),
{
    if s.len() > 0 {
        let keep = |y: T::V| level::<T>(e, y);
        let rest = s.skip(1);
        law_sorting_is_stable::<T>(rest, e);
        rank::law_ranked::<T>(rest);
        lemma_placed_is_stable::<T>(s[0], rank::ranked::<T>(rest), e);
        Seq::filter_distributes_over_add(seq![s[0]], rank::ranked::<T>(rest), keep);
        Seq::filter_distributes_over_add(seq![s[0]], rest, keep);
        assert(seq![s[0]] + rest =~= s);
    }
}

/// What a filter keeps are the elements that pass it.
pub proof fn lemma_filter_members<A>(s: Seq<A>, keep: spec_fn(A) -> bool)
    ensures
        forall|x: A| #[trigger] s.filter(keep).contains(x) <==> s.contains(x) && keep(x),
    decreases s.len(),
{
    reveal(Seq::filter);
    let kept = s.filter(keep);
    if s.len() > 0 {
        let rest = s.drop_last();
        let before = rest.filter(keep);
        lemma_filter_members(rest, keep);
        assert forall|x: A| #[trigger] kept.contains(x) <==> s.contains(x) && keep(x) by {
            if s.contains(x) && keep(x) {
                let i = choose|i: int| 0 <= i < s.len() && s[i] == x;
                if i < rest.len() {
                    assert(rest[i] == x);
                    assert(rest.contains(x));
                    assert(before.contains(x));
                    let k = choose|k: int| 0 <= k < before.len() && before[k] == x;
                    assert(kept[k] == x);
                } else {
                    assert(kept[kept.len() - 1] == x);
                }
            }
            if kept.contains(x) {
                let k = choose|k: int| 0 <= k < kept.len() && kept[k] == x;
                if k < before.len() {
                    assert(before[k] == x);
                    assert(before.contains(x));
                    assert(rest.contains(x));
                    let i = choose|i: int| 0 <= i < rest.len() && rest[i] == x;
                    assert(s[i] == x);
                } else {
                    assert(s[s.len() - 1] == x);
                }
            }
        }
    }
}

/// What a filter keeps of elements of which none comes twice.
pub proof fn lemma_filtered<A>(s: Seq<A>, keep: spec_fn(A) -> bool)
    requires
        s.no_duplicates(),
    ensures
        s.filter(keep).no_duplicates(),
        forall|x: A| #[trigger] s.filter(keep).contains(x) <==> s.contains(x) && keep(x),
{
    crate::vector_store::lemma_filter_no_duplicates(s, keep);
    lemma_filter_members(s, keep);
}

/// A page holds what stands from its offset on, as far as its limit, in order.
pub proof fn law_page<A>(s: Seq<A>, offset: nat, limit: nat, i: int)
    ensures
        rank::page(s, offset, limit).len() <= limit,
        0 <= i < limit && offset + i < s.len() ==> i < rank::page(s, offset, limit).len()
            && rank::page(s, offset, limit)[i] == s[offset + i],
        offset + i >= s.len() && i >= 0 ==> rank::page(s, offset, limit).len() <= i,
{
}

} // verus!
