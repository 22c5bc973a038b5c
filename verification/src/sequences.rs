//! Facts about sequences and vectors that the other modules lean on.

use vstd::prelude::*;

verus! {

/// Pushing onto a vector pushes the element's view onto the vector's deep view.
pub proof fn lemma_deep_view_push<T: DeepView>(before: Vec<T>, after: Vec<T>, last: T)
    requires
        after@ == before@.push(last),
    ensures
        after.deep_view() == before.deep_view().push(last.deep_view()),
{
    let grown = before.deep_view().push(last.deep_view());
    assert(after.deep_view().len() == grown.len());
    assert forall|i: int| 0 <= i < grown.len() implies after.deep_view()[i] == grown[i] by {
        if i < before@.len() {
            assert(after@[i] == before@[i]);
        }
    }
    assert(after.deep_view() =~= grown);
}

/// The deep view of a vector's prefix grows by the view of the next element.
pub proof fn lemma_deep_view_take<T: DeepView>(all: Vec<T>, i: int)
    requires
        0 <= i < all@.len(),
    ensures
        all.deep_view().take(i + 1) == all.deep_view().take(i).push(all@[i].deep_view()),
        all.deep_view().take(i + 1).drop_last() == all.deep_view().take(i),
        all.deep_view().take(i + 1).last() == all@[i].deep_view(),
        all.deep_view().len() == all@.len(),
{
    assert(all.deep_view().len() == all@.len());
    assert(all.deep_view().take(i + 1) =~= all.deep_view().take(i).push(all@[i].deep_view()));
    assert(all.deep_view().take(i + 1).drop_last() =~= all.deep_view().take(i));
}

/// What is picked from two sequences in a row is what is picked from the
/// first and then what is picked from the second.
pub proof fn lemma_filter_map_concat<A, B>(first: Seq<A>, second: Seq<A>, pick: spec_fn(A) -> Option<B>)
    ensures
        (first + second).filter_map(pick) == first.filter_map(pick) + second.filter_map(pick),
    decreases second.len(),
{
    if second.len() == 0 {
        assert(first + second =~= first);
        assert(first.filter_map(pick) + second.filter_map(pick) =~= first.filter_map(pick));
    } else {
        assert((first + second).drop_last() =~= first + second.drop_last());
        assert((first + second).last() == second.last());
        lemma_filter_map_concat(first, second.drop_last(), pick);
        match pick(second.last()) {
            Some(picked) => {
                assert((first + second).filter_map(pick) =~= first.filter_map(pick)
                    + second.filter_map(pick));
            },
            None => {},
        }
    }
}

/// Picking from what was picked is picking once, with a way of picking that
/// does both steps in a row on every item of the sequence.
pub proof fn lemma_filter_map_twice<A, B, C>(
    items: Seq<A>,
    first: spec_fn(A) -> Option<B>,
    second: spec_fn(B) -> Option<C>,
    both: spec_fn(A) -> Option<C>,
)
    requires
        forall|i: int|
            0 <= i < items.len() ==> both(#[trigger] items[i]) == match first(items[i]) {
                Some(b) => second(b),
                None => None,
            },
    ensures
        items.filter_map(first).filter_map(second) == items.filter_map(both),
    decreases items.len(),
{
    if items.len() > 0 {
        assert forall|i: int| 0 <= i < items.drop_last().len() implies both(
            #[trigger] items.drop_last()[i],
        ) == match first(items.drop_last()[i]) {
            Some(b) => second(b),
            None => None,
        } by {
            assert(items.drop_last()[i] == items[i]);
        }
        lemma_filter_map_twice(items.drop_last(), first, second, both);
        assert(items.last() == items[items.len() - 1]);
        match first(items.last()) {
            Some(b) => {
                lemma_filter_map_concat(items.drop_last().filter_map(first), seq![b], second);
                Seq::<B>::lemma_filter_map_singleton(b, second);
                assert(items.filter_map(first).filter_map(second) =~= items.filter_map(both));
            },
            None => {},
        }
    }
}

} // verus!
