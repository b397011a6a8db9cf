//! Sums, counts and selections over sequences.

use vstd::prelude::*;

verus! {

/// The elements that `keep` accepts, in their order.
pub open spec fn retained<T>(list: Seq<T>, keep: spec_fn(T) -> bool) -> Seq<T>
    decreases list.len(),
{
    if list.len() == 0 {
        Seq::empty()
    } else if keep(list.last()) {
        retained(list.drop_last(), keep).push(list.last())
    } else {
        retained(list.drop_last(), keep)
    }
}

/// The sum of `weight` over the elements.
pub open spec fn total<T>(list: Seq<T>, weight: spec_fn(T) -> nat) -> nat
    decreases list.len(),
{
    if list.len() == 0 {
        0
    } else {
        total(list.drop_last(), weight) + weight(list.last())
    }
}

pub proof fn lemma_total_concat<T>(a: Seq<T>, b: Seq<T>, weight: spec_fn(T) -> nat)
    ensures
        total(a + b, weight) == total(a, weight) + total(b, weight),
    decreases b.len(),
{
    if b.len() == 0 {
        assert(a + b =~= a);
    } else {
        assert((a + b).drop_last() =~= a + b.drop_last());
        lemma_total_concat(a, b.drop_last(), weight);
    }
}

pub proof fn lemma_total_push<T>(list: Seq<T>, x: T, weight: spec_fn(T) -> nat)
    ensures
        total(list.push(x), weight) == total(list, weight) + weight(x),
{
    assert(list.push(x).drop_last() =~= list);
}

pub proof fn lemma_total_split<T>(list: Seq<T>, i: int, weight: spec_fn(T) -> nat)
    requires
        0 <= i < list.len(),
    ensures
        total(list, weight) == total(list.take(i), weight) + weight(list[i]) + total(
            list.skip(i + 1),
            weight,
        ),
{
    assert(list =~= list.take(i).push(list[i]) + list.skip(i + 1));
    lemma_total_concat(list.take(i).push(list[i]), list.skip(i + 1), weight);
    lemma_total_push(list.take(i), list[i], weight);
}

pub proof fn lemma_total_remove<T>(list: Seq<T>, i: int, weight: spec_fn(T) -> nat)
    requires
        0 <= i < list.len(),
    ensures
        total(list, weight) == total(list.remove(i), weight) + weight(list[i]),
{
    lemma_total_split(list, i, weight);
    assert(list.remove(i) =~= list.take(i) + list.skip(i + 1));
    lemma_total_concat(list.take(i), list.skip(i + 1), weight);
}

pub proof fn lemma_total_update<T>(list: Seq<T>, i: int, x: T, weight: spec_fn(T) -> nat)
    requires
        0 <= i < list.len(),
    ensures
        total(list.update(i, x), weight) + weight(list[i]) == total(list, weight) + weight(x),
{
    let next = list.update(i, x);
    lemma_total_split(list, i, weight);
    lemma_total_split(next, i, weight);
    assert(next.take(i) =~= list.take(i));
    assert(next.skip(i + 1) =~= list.skip(i + 1));
}

pub proof fn lemma_total_retained<T>(
    list: Seq<T>,
    keep: spec_fn(T) -> bool,
    weight: spec_fn(T) -> nat,
)
    ensures
        total(retained(list, keep), weight) <= total(list, weight),
    decreases list.len(),
{
    if list.len() > 0 {
        lemma_total_retained(list.drop_last(), keep, weight);
        if keep(list.last()) {
            lemma_total_push(retained(list.drop_last(), keep), list.last(), weight);
        }
    }
}

pub proof fn lemma_total_nothing<T>(list: Seq<T>, weight: spec_fn(T) -> nat)
    requires
        forall|i: int| 0 <= i < list.len() ==> weight(#[trigger] list[i]) == 0,
    ensures
        total(list, weight) == 0,
    decreases list.len(),
{
    if list.len() > 0 {
        assert forall|i: int| 0 <= i < list.drop_last().len() implies weight(
            #[trigger] list.drop_last()[i],
        ) == 0 by {
            assert(list.drop_last()[i] == list[i]);
        }
        lemma_total_nothing(list.drop_last(), weight);
        assert(list[list.len() - 1] == list.last());
    }
}

/// Where the retained elements come from: each stood in the list at a place of
/// its own, in the same order, and was accepted.
pub open spec fn comes_from<T>(kept: Seq<T>, list: Seq<T>, places: Seq<int>) -> bool {
    &&& places.len() == kept.len()
    &&& forall|i: int|
        0 <= i < kept.len() ==> 0 <= #[trigger] places[i] < list.len() && kept[i] == list[places[i]]
    &&& forall|i: int, j: int|
        0 <= i < j < kept.len() ==> #[trigger] places[i] < #[trigger] places[j]
}

pub proof fn lemma_retained<T>(list: Seq<T>, keep: spec_fn(T) -> bool) -> (places: Seq<int>)
    ensures
        comes_from(retained(list, keep), list, places),
        forall|i: int|
            0 <= i < retained(list, keep).len() ==> keep(#[trigger] retained(list, keep)[i]),
        forall|i: int|
            0 <= i < list.len() && keep(#[trigger] list[i]) ==> retained(list, keep).contains(
                list[i],
            ),
        retained(list, keep).len() <= list.len(),
    decreases list.len(),
{
    if list.len() == 0 {
        Seq::empty()
    } else {
        let front = list.drop_last();
        let before = lemma_retained(front, keep);
        let last = list.len() - 1;
        let kept = retained(list, keep);
        let places = if keep(list.last()) {
            before.push(last)
        } else {
            before
        };
        assert forall|i: int| 0 <= i < list.len() && keep(#[trigger] list[i]) implies kept.contains(
            list[i],
        ) by {
            if i < last {
                assert(front[i] == list[i]);
                let k = retained(front, keep).index_of(list[i]);
                assert(retained(front, keep).contains(list[i]));
                assert(kept[k] == list[i]);
            } else {
                assert(kept[kept.len() - 1] == list[i]);
            }
        }
        places
    }
}

pub proof fn lemma_retained_push<T>(list: Seq<T>, x: T, keep: spec_fn(T) -> bool)
    ensures
        retained(list.push(x), keep) == if keep(x) {
            retained(list, keep).push(x)
        } else {
            retained(list, keep)
        },
{
    assert(list.push(x).drop_last() =~= list);
}

/// Nothing is dropped from a list whose elements are all accepted.
pub proof fn lemma_retained_all<T>(list: Seq<T>, keep: spec_fn(T) -> bool)
    requires
        forall|i: int| 0 <= i < list.len() ==> keep(#[trigger] list[i]),
    ensures
        retained(list, keep) == list,
    decreases list.len(),
{
    if list.len() > 0 {
        let front = list.drop_last();
        assert forall|i: int| 0 <= i < front.len() implies keep(#[trigger] front[i]) by {
            assert(front[i] == list[i]);
        }
        lemma_retained_all(front, keep);
        assert(keep(list[list.len() - 1]));
        assert(front.push(list.last()) =~= list);
    }
}

} // verus!
