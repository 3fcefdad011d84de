//! Sorting by a total order.
use vstd::prelude::*;
use vstd::relations::{sorted_by, total_ordering};

verus! {

/// Whether an executable test decides an order.
pub open spec fn decides<T, F: Fn(T, T) -> bool>(
    no_later: F,
    order: spec_fn(T, T) -> bool,
) -> bool {
    &&& forall|a: T, b: T| #[trigger] no_later.requires((a, b))
    &&& forall|a: T, b: T, holds: bool| #[trigger]
        no_later.ensures((a, b), holds) ==> holds == order(a, b)
}

/// Inserts a value into values in order.
fn insert_sorted<T: Copy, F: Fn(T, T) -> bool>(
    ordered: &mut Vec<T>,
    value: T,
    no_later: &F,
    Ghost(order): Ghost<spec_fn(T, T) -> bool>,
)
    requires
        decides(*no_later, order),
        total_ordering(order),
        sorted_by(old(ordered)@, order),
    ensures
        sorted_by(final(ordered)@, order),
        final(ordered)@.to_multiset() == old(ordered)@.to_multiset().insert(value),
{
    let mut at: usize = ordered.len();
    while at > 0 && !no_later(ordered[at - 1], value)
        invariant
            at <= ordered@.len(),
            *ordered == *old(ordered),
            decides(*no_later, order),
            total_ordering(order),
            sorted_by(ordered@, order),
            forall|i: int| at <= i < ordered@.len() ==> order(value, #[trigger] ordered@[i]),
        decreases at,
    {
        at -= 1;
        assert(order(ordered@[at as int], value) || order(value, ordered@[at as int]));
    }
    let ghost before = ordered@;
    ordered.insert(at, value);
    proof {
        vstd::seq_lib::to_multiset_insert(before, at as int, value);
        assert forall|i: int, j: int| 0 <= i < j < ordered@.len() implies #[trigger] order(
            ordered@[i],
            ordered@[j],
        ) by {
            let old_i = if i < at {
                i
            } else {
                i - 1
            };
            let old_j = if j < at {
                j
            } else {
                j - 1
            };
            if i != at && j != at {
                assert(order(before[old_i], before[old_j]));
            }
            if j == at && i < at - 1 {
                assert(order(before[i], before[at - 1]));
                assert(order(before[at - 1], value));
            }
        }
    }
}

/// The values in order.
pub(crate) fn sorted<T: Copy, F: Fn(T, T) -> bool>(
    values: &[T],
    no_later: F,
    Ghost(order): Ghost<spec_fn(T, T) -> bool>,
) -> (ordered: Vec<T>)
    requires
        decides(no_later, order),
        total_ordering(order),
    ensures
        ordered@ == values@.sort_by(order),
{
    let mut ordered: Vec<T> = Vec::new();
    let mut i: usize = 0;
    assert(ordered@ =~= values@.take(0));
    while i < values.len()
        invariant
            i <= values@.len(),
            decides(no_later, order),
            total_ordering(order),
            sorted_by(ordered@, order),
            ordered@.to_multiset() == values@.take(i as int).to_multiset(),
        decreases values@.len() - i,
    {
        proof {
            assert(values@.take(i + 1) =~= values@.take(i as int).push(values@[i as int]));
            vstd::seq_lib::to_multiset_build(values@.take(i as int), values@[i as int]);
        }
        insert_sorted(&mut ordered, values[i], &no_later, Ghost(order));
        i += 1;
    }
    proof {
        assert(values@.take(i as int) =~= values@);
        values@.lemma_sort_by_ensures(order);
        vstd::seq_lib::lemma_sorted_unique(ordered@, values@.sort_by(order), order);
    }
    ordered
}

} // verus!
