//! Sorting and paging.

pub mod laws;

use vstd::prelude::*;

verus! {

/// Values with an order between their views.
pub trait Ranked: View + Sized {
    /// Whether one view may stand before another.
    spec fn may_precede(a: Self::V, b: Self::V) -> bool;

    /// Whether the value may stand before another.
    fn is_not_after(&self, other: &Self) -> (b: bool)
        ensures
            b == Self::may_precede(self@, other@),
    ;
}

/// The views of some values.
pub open spec fn views<T: View>(s: Seq<T>) -> Seq<T::V> {
    s.map_values(|x: T| x@)
}

/// A sorted sequence with one more element, which stands before those that it
/// may precede.
pub open spec fn placed<T: Ranked>(x: T::V, s: Seq<T::V>) -> Seq<T::V>
    decreases s.len(),
{
    if s.len() == 0 {
        seq![x]
    } else if T::may_precede(x, s[0]) {
        seq![x] + s
    } else {
        seq![s[0]] + placed::<T>(x, s.skip(1))
    }
}

/// The stable sort of a sequence.
pub open spec fn ranked<T: Ranked>(s: Seq<T::V>) -> Seq<T::V>
    decreases s.len(),
{
    if s.len() == 0 {
        s
    } else {
        placed::<T>(s[0], ranked::<T>(s.skip(1)))
    }
}

/// Whether each element may precede those after it.
pub open spec fn in_order<T: Ranked>(s: Seq<T::V>) -> bool {
    forall|i: int, j: int| 0 <= i < j < s.len() ==> T::may_precede(#[trigger] s[i], #[trigger] s[j])
}

/// Whether `may_precede` is a total preorder.
pub open spec fn ordering<T: Ranked>() -> bool {
    &&& forall|a: T::V, b: T::V| #[trigger] T::may_precede(a, b) || T::may_precede(b, a)
    &&& forall|a: T::V, b: T::V, c: T::V| #[trigger]
        T::may_precede(a, b) && #[trigger] T::may_precede(b, c) ==> T::may_precede(a, c)
}

proof fn lemma_placed<T: Ranked>(x: T::V, s: Seq<T::V>)
    ensures
        placed::<T>(x, s).to_multiset() == s.to_multiset().insert(x),
        placed::<T>(x, s).len() == s.len() + 1,
        ordering::<T>() && in_order::<T>(s) ==> in_order::<T>(placed::<T>(x, s)),
    decreases s.len(),
{
    broadcast use vstd::seq_lib::group_to_multiset_ensures;

    let r = placed::<T>(x, s);
    if s.len() == 0 {
        assert(seq![x] =~= Seq::<T::V>::empty().push(x));
        assert(s =~= Seq::<T::V>::empty());
        assert(r =~= s.push(x));
    } else if T::may_precede(x, s[0]) {
        vstd::seq_lib::lemma_multiset_commutative(seq![x], s);
        assert(seq![x] =~= Seq::<T::V>::empty().push(x));
        assert(r.to_multiset() =~= s.to_multiset().insert(x));
        if ordering::<T>() && in_order::<T>(s) {
            assert forall|i: int, j: int| 0 <= i < j < r.len() implies T::may_precede(
                #[trigger] r[i],
                #[trigger] r[j],
            ) by {
                assert(r[j] == s[j - 1]);
                if i > 0 {
                    assert(r[i] == s[i - 1]);
                } else if j > 1 {
                    assert(T::may_precede(s[0], s[j - 1]));
                }
            }
        }
    } else {
        let rest = s.skip(1);
        let placed_rest = placed::<T>(x, rest);
        lemma_placed::<T>(x, rest);
        vstd::seq_lib::lemma_multiset_commutative(seq![s[0]], placed_rest);
        vstd::seq_lib::lemma_multiset_commutative(seq![s[0]], rest);
        assert(seq![s[0]] + rest =~= s);
        assert(seq![s[0]] =~= Seq::<T::V>::empty().push(s[0]));
        assert(r.to_multiset() =~= s.to_multiset().insert(x));
        if ordering::<T>() && in_order::<T>(s) {
            assert(in_order::<T>(rest)) by {
                assert forall|i: int, j: int| 0 <= i < j < rest.len() implies T::may_precede(
                    #[trigger] rest[i],
                    #[trigger] rest[j],
                ) by {
                    assert(rest[i] == s[i + 1]);
                    assert(rest[j] == s[j + 1]);
                }
            }
            assert forall|i: int, j: int| 0 <= i < j < r.len() implies T::may_precede(
                #[trigger] r[i],
                #[trigger] r[j],
            ) by {
                assert(r[j] == placed_rest[j - 1]);
                if i > 0 {
                    assert(r[i] == placed_rest[i - 1]);
                } else {
                    let y = placed_rest[j - 1];
                    assert(placed_rest.to_multiset().contains(y)) by {
                        assert(placed_rest.contains(y));
                    }
                    assert(T::may_precede(x, s[0]) || T::may_precede(s[0], x));
                    if y != x {
                        assert(rest.to_multiset().contains(y));
                        assert(rest.contains(y));
                        let k = choose|k: int| 0 <= k < rest.len() && rest[k] == y;
                        assert(s[k + 1] == y);
                    }
                }
            }
        }
    }
}

/// A stable sort keeps the elements, and puts them in order.
pub proof fn law_ranked<T: Ranked>(s: Seq<T::V>)
    ensures
        ranked::<T>(s).to_multiset() == s.to_multiset(),
        ranked::<T>(s).len() == s.len(),
        ordering::<T>() ==> in_order::<T>(ranked::<T>(s)),
    decreases s.len(),
{
    broadcast use vstd::seq_lib::group_to_multiset_ensures;

    if s.len() > 0 {
        let rest = s.skip(1);
        law_ranked::<T>(rest);
        lemma_placed::<T>(s[0], ranked::<T>(rest));
        vstd::seq_lib::lemma_multiset_commutative(seq![s[0]], rest);
        assert(seq![s[0]] + rest =~= s);
        assert(seq![s[0]] =~= Seq::<T::V>::empty().push(s[0]));
        assert(ranked::<T>(s).to_multiset() =~= s.to_multiset());
    }
}

/// What is in order already stays as it is.
pub proof fn law_ranked_fixed<T: Ranked>(s: Seq<T::V>)
    requires
        in_order::<T>(s),
    ensures
        ranked::<T>(s) == s,
    decreases s.len(),
{
    if s.len() > 0 {
        let rest = s.skip(1);
        assert(in_order::<T>(rest)) by {
            assert forall|i: int, j: int| 0 <= i < j < rest.len() implies T::may_precede(
                #[trigger] rest[i],
                #[trigger] rest[j],
            ) by {
                assert(rest[i] == s[i + 1]);
                assert(rest[j] == s[j + 1]);
            }
        }
        law_ranked_fixed::<T>(rest);
        if rest.len() > 0 {
            assert(rest[0] == s[1]);
            assert(T::may_precede(s[0], s[1]));
        }
        assert(seq![s[0]] + rest =~= s);
    }
}

fn place<T: Ranked>(x: T, v: &mut Vec<T>)
    ensures
        views(final(v)@) == placed::<T>(x@, views(old(v)@)),
{
    let ghost before = views(v@);
    let mut i: usize = 0;
    proof {
        assert(before.take(0) + placed::<T>(x@, before.skip(0)) =~= placed::<T>(x@, before)) by {
            assert(before.skip(0) =~= before);
        }
    }
    while i < v.len() && !x.is_not_after(&v[i])
        invariant
            i <= v.len(),
            before == views(v@),
            before.take(i as int) + placed::<T>(x@, before.skip(i as int)) == placed::<T>(
                x@,
                before,
            ),
        decreases v.len() - i,
    {
        proof {
            let rest = before.skip(i as int);
            assert(rest[0] == v@[i as int]@);
            assert(rest.skip(1) =~= before.skip(i + 1));
            assert(before.take(i as int) + (seq![rest[0]] + placed::<T>(x@, rest.skip(1)))
                =~= before.take(i + 1) + placed::<T>(x@, before.skip(i + 1)));
        }
        i = i + 1;
    }
    proof {
        let rest = before.skip(i as int);
        if i < v.len() {
            assert(rest[0] == v@[i as int]@);
        }
        assert(placed::<T>(x@, rest) =~= seq![x@] + rest);
    }
    v.insert(i, x);
    proof {
        assert(views(v@) =~= before.take(i as int) + (seq![x@] + before.skip(i as int)));
    }
}

/// Sorts some values; those that may precede each other stay in their order.
pub fn sort<T: Ranked>(values: Vec<T>) -> (r: Vec<T>)
    ensures
        views(r@) == ranked::<T>(views(values@)),
{
    let mut values = values;
    let ghost all = views(values@);
    let mut r: Vec<T> = Vec::new();
    proof {
        assert(views(r@) =~= ranked::<T>(all.skip(values.len() as int)));
    }
    while values.len() > 0
        invariant
            values.len() <= all.len(),
            views(values@) == all.take(values.len() as int),
            views(r@) == ranked::<T>(all.skip(values.len() as int)),
        decreases values.len(),
    {
        let ghost n = values.len() as int;
        let ghost held = values@;
        proof {
            assert(views(values@)[n - 1] == all[n - 1]);
        }
        let x = values.pop().unwrap();
        proof {
            assert(x == held[n - 1]);
            assert(all.skip(n - 1)[0] == all[n - 1]);
            assert(all.skip(n - 1).skip(1) =~= all.skip(n));
            assert(views(values@) =~= all.take(n - 1));
        }
        place(x, &mut r);
    }
    proof {
        assert(all.skip(0) =~= all);
    }
    r
}

/// What is left of a sequence after `offset` elements, `limit` at most.
pub open spec fn page<A>(s: Seq<A>, offset: nat, limit: nat) -> Seq<A> {
    let from = if offset < s.len() { offset as int } else { s.len() as int };
    let to = if from + limit < s.len() { from + limit } else { s.len() as int };
    s.subrange(from, to)
}

/// A page and the page after it hold what the two limits together give.
pub proof fn law_pages_follow<A>(s: Seq<A>, offset: nat, limit: nat, more: nat)
    ensures
        page(s, offset, limit) + page(s, offset + limit, more) == page(s, offset, limit + more),
{
    assert(page(s, offset, limit) + page(s, offset + limit, more) =~= page(
        s,
        offset,
        limit + more,
    ));
}

/// A page is as long as its limit, or holds all that the offset leaves.
pub proof fn law_page_length<A>(s: Seq<A>, offset: nat, limit: nat)
    ensures
        page(s, offset, limit).len() == if offset >= s.len() {
            0
        } else if s.len() - offset < limit {
            s.len() - offset
        } else {
            limit as int
        },
{
}

/// The page of a vector of texts.
pub fn text_page(v: &Vec<String>, offset: usize, limit: usize) -> (r: Vec<String>)
    ensures
        r@ == page(v@, offset as nat, limit as nat),
{
    let from: usize = if offset < v.len() { offset } else { v.len() };
    let to: usize = if limit < v.len() - from { from + limit } else { v.len() };
    let mut r: Vec<String> = Vec::new();
    let mut i: usize = from;
    while i < to
        invariant
            from <= i <= to <= v.len(),
            r@ == v@.subrange(from as int, i as int),
        decreases to - i,
    {
        r.push(v[i].clone());
        proof {
            assert(v@.subrange(from as int, i + 1) =~= v@.subrange(from as int, i as int).push(
                v@[i as int],
            ));
        }
        i = i + 1;
    }
    r
}

} // verus!
