//! Stable sorting: lists that come out in order, with ties as they came in.

use vstd::prelude::*;

verus! {

/// A kind of item that lists are put in order by.
pub trait Ranked: View + Sized {
    /// Whether `a` may stand before `b`.
    spec fn ranked_le(a: <Self as View>::V, b: <Self as View>::V) -> bool;

    proof fn rank_is_an_order(
        a: <Self as View>::V,
        b: <Self as View>::V,
        c: <Self as View>::V,
    )
        ensures
            Self::ranked_le(a, b) || Self::ranked_le(b, a),
            Self::ranked_le(a, b) && Self::ranked_le(b, c) ==> Self::ranked_le(a, c),
    ;

    fn not_after(&self, other: &Self) -> (res: bool)
        ensures
            res == Self::ranked_le(self@, other@),
    ;
}

/// What a list of items holds.
pub open spec fn views<T: View>(list: Seq<T>) -> Seq<T::V> {
    list.map_values(|item: T| item@)
}

/// The items of a list that are as good as `x` in the order.
pub open spec fn tied<T: Ranked>(list: Seq<T::V>, x: T::V) -> Seq<T::V> {
    list.filter(|y: T::V| T::ranked_le(x, y) && T::ranked_le(y, x))
}

/// Every item may stand before each one after it.
pub open spec fn in_order<T: Ranked>(list: Seq<T::V>) -> bool {
    forall|i: int, j: int| 0 <= i <= j < list.len() ==> T::ranked_le(list[i], list[j])
}

/// `after` is `before` in order, tied items in the order they had.
pub open spec fn sorted_from<T: Ranked>(before: Seq<T::V>, after: Seq<T::V>) -> bool {
    &&& in_order::<T>(after)
    &&& after.to_multiset() == before.to_multiset()
    &&& forall|x: T::V| #[trigger] tied::<T>(after, x) == tied::<T>(before, x)
}

proof fn filter_of_parts<A>(first: Seq<A>, second: Seq<A>, keep: spec_fn(A) -> bool)
    ensures
        (first + second).filter(keep) == first.filter(keep) + second.filter(keep),
{
    Seq::filter_distributes_over_add(first, second, keep);
}

proof fn filter_of_one<A>(x: A, keep: spec_fn(A) -> bool)
    ensures
        seq![x].filter(keep) == if keep(x) {
            seq![x]
        } else {
            Seq::empty()
        },
{
    reveal_with_fuel(Seq::filter, 2);
    assert(seq![x].drop_last() =~= Seq::<A>::empty());
}

proof fn filter_of_none<A>(list: Seq<A>, keep: spec_fn(A) -> bool)
    requires
        forall|i: int| 0 <= i < list.len() ==> !keep(#[trigger] list[i]),
    ensures
        list.filter(keep) == Seq::<A>::empty(),
    decreases list.len(),
{
    reveal(Seq::filter);
    if list.len() > 0 {
        assert forall|i: int| 0 <= i < list.drop_last().len() implies !keep(
            #[trigger] list.drop_last()[i],
        ) by {
            assert(list.drop_last()[i] == list[i]);
        }
        filter_of_none(list.drop_last(), keep);
        assert(!keep(list[list.len() - 1]));
    }
}

/// Putting an item in front of those it may stand before, and behind those it
/// may not, keeps a list sorted.
proof fn insertion_keeps_order<T: Ranked>(
    before: Seq<T::V>,
    low: Seq<T::V>,
    x: T::V,
    high: Seq<T::V>,
)
    requires
        sorted_from::<T>(before, low + high),
        forall|i: int| 0 <= i < low.len() ==> !T::ranked_le(x, #[trigger] low[i]),
        high.len() > 0 ==> T::ranked_le(x, high[0]),
    ensures
        sorted_from::<T>(seq![x] + before, low + seq![x] + high),
{
    let old_list = low + high;
    let list = low + seq![x] + high;
    assert forall|i: int, j: int| 0 <= i <= j < list.len() implies T::ranked_le(
        list[i],
        list[j],
    ) by {
        if i < low.len() {
            T::rank_is_an_order(x, low[i], x);
            assert(old_list[i] == low[i]);
            if j < low.len() {
                assert(old_list[j] == low[j]);
            } else if j > low.len() {
                assert(old_list[j - 1] == high[j - low.len() - 1]);
            }
        } else if i == low.len() {
            if j == i {
                T::rank_is_an_order(x, x, x);
            } else {
                assert(old_list[low.len() as int] == high[0]);
                assert(old_list[j - 1] == high[j - low.len() - 1]);
                T::rank_is_an_order(x, high[0], high[j - low.len() - 1]);
            }
        } else {
            assert(old_list[i - 1] == high[i - low.len() - 1]);
            assert(old_list[j - 1] == high[j - low.len() - 1]);
        }
    }
    assert(list.to_multiset() == (seq![x] + before).to_multiset()) by {
        vstd::seq_lib::lemma_multiset_commutative(low, seq![x]);
        vstd::seq_lib::lemma_multiset_commutative(low + seq![x], high);
        vstd::seq_lib::lemma_multiset_commutative(seq![x], before);
        vstd::seq_lib::lemma_multiset_commutative(low, high);
    }
    assert forall|k: T::V| #[trigger]
        tied::<T>(list, k) == tied::<T>(seq![x] + before, k) by {
        let keep = |y: T::V| T::ranked_le(k, y) && T::ranked_le(y, k);
        filter_of_parts(low + seq![x], high, keep);
        filter_of_parts(low, seq![x], keep);
        filter_of_parts(seq![x], before, keep);
        filter_of_parts(low, high, keep);
        filter_of_one(x, keep);
        assert(tied::<T>(old_list, k) == tied::<T>(before, k));
        if keep(x) {
            assert forall|i: int| 0 <= i < low.len() implies !keep(#[trigger] low[i]) by {
                T::rank_is_an_order(x, k, low[i]);
            }
            filter_of_none(low, keep);
            assert(low.filter(keep) + seq![x] + high.filter(keep) =~= seq![x] + (low.filter(keep)
                + high.filter(keep)));
        } else {
            assert(low.filter(keep) + Seq::<T::V>::empty() + high.filter(keep) =~= Seq::<
                T::V,
            >::empty() + (low.filter(keep) + high.filter(keep)));
        }
    }
}

/// The items in order, tied ones as they came.
pub fn sorted<T: Ranked>(list: Vec<T>) -> (out: Vec<T>)
    ensures
        sorted_from::<T>(views(list@), views(out@)),
        out@.to_multiset() == list@.to_multiset(),
        out@.len() == list@.len(),
{
    let mut rest = list;
    let mut out: Vec<T> = Vec::new();
    proof {
        assert(list@.skip(list@.len() as int) =~= Seq::<T>::empty());
        assert(views(out@) =~= Seq::<T::V>::empty());
        assert(views(list@.skip(list@.len() as int)) =~= Seq::<T::V>::empty());
    }
    while rest.len() > 0
        invariant
            rest@.len() <= list@.len(),
            rest@ == list@.take(rest@.len() as int),
            sorted_from::<T>(views(list@.skip(rest@.len() as int)), views(out@)),
            out@.to_multiset() == list@.skip(rest@.len() as int).to_multiset(),
            out@.len() + rest@.len() == list@.len(),
        decreases rest@.len(),
    {
        let ghost n = rest@.len();
        let x = rest.pop().unwrap();
        let ghost old_out = out@;
        let mut i: usize = 0;
        while i < out.len() && !x.not_after(&out[i])
            invariant
                i <= out@.len(),
                out@ == old_out,
                forall|j: int| 0 <= j < i ==> !T::ranked_le(x@, #[trigger] out@[j]@),
            decreases out@.len() - i,
        {
            i = i + 1;
        }
        out.insert(i, x);
        proof {
            let low = old_out.take(i as int);
            let high = old_out.skip(i as int);
            assert(x == list@[n - 1]);
            assert(out@ =~= low + seq![x] + high);
            assert(views(out@) =~= views(low) + seq![x@] + views(high));
            assert(views(old_out) =~= views(low) + views(high));
            assert(list@.skip(n - 1) =~= seq![x] + list@.skip(n as int));
            assert(views(list@.skip(n - 1)) =~= seq![x@] + views(list@.skip(n as int)));
            assert forall|j: int| 0 <= j < views(low).len() implies !T::ranked_le(
                x@,
                #[trigger] views(low)[j],
            ) by {
                assert(views(low)[j] == old_out[j]@);
            }
            insertion_keeps_order::<T>(
                views(list@.skip(n as int)),
                views(low),
                x@,
                views(high),
            );
            assert(old_out =~= low + high);
            vstd::seq_lib::lemma_multiset_commutative(low, seq![x]);
            vstd::seq_lib::lemma_multiset_commutative(low + seq![x], high);
            vstd::seq_lib::lemma_multiset_commutative(seq![x], list@.skip(n as int));
            vstd::seq_lib::lemma_multiset_commutative(low, high);
        }
    }
    assert(list@.skip(0) =~= list@);
    out
}

} // verus!
