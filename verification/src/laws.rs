//! What holds of the operations taken together, for buffers of every
//! capacity and for every run of insertions and removals.

use vstd::prelude::*;
use crate::error::{EmptyCollectionError, FullCollectionError};
use crate::model::{
    accepted, append_result, appended, back_occupied, backs, fits, front_occupied,
    front_occupied_times, fronts, occupied_slots, pop_back_result, pop_front_result,
    pop_front_results, popped_back, popped_front, popped_front_times, push_result, pushed,
    pushed_all, pushed_back, pushed_front, returned, values_of, Push,
};

verus! {

/// A run of insertions, at whichever ends, adds as many slots as it has
/// insertions that succeed, and never more than the capacity allows. While
/// the run is no longer than the free slots, every insertion succeeds. The
/// buffer is full afterwards exactly when the successes have used up the
/// free slots.
pub proof fn lemma_len_counts_accepted<T>(slots: Seq<Option<T>>, capacity: nat, pushes: Seq<Push<T>>)
    requires
        slots.len() <= capacity,
    ensures
        pushed_all(slots, capacity, pushes).len() == slots.len() + accepted(
            slots,
            capacity,
            pushes,
        ),
        pushed_all(slots, capacity, pushes).len() <= capacity,
        slots.len() + pushes.len() <= capacity ==> accepted(slots, capacity, pushes)
            == pushes.len(),
        pushed_all(slots, capacity, pushes).len() == capacity <==> slots.len() + accepted(
            slots,
            capacity,
            pushes,
        ) == capacity,
    decreases pushes.len(),
{
    if pushes.len() > 0 {
        lemma_len_counts_accepted(slots, capacity, pushes.drop_last());
    }
}

/// Insertions at the back, while they fit, line the values up behind the
/// slots that were there, in the order in which they were inserted.
pub proof fn lemma_pushed_backs<T>(slots: Seq<Option<T>>, capacity: nat, values: Seq<T>)
    requires
        slots.len() + values.len() <= capacity,
    ensures
        pushed_all(slots, capacity, backs(values)) == slots + occupied_slots(values),
    decreases values.len(),
{
    if values.len() == 0 {
        assert(slots + occupied_slots(values) =~= slots);
    } else {
        let earlier = values.drop_last();
        lemma_pushed_backs(slots, capacity, earlier);
        assert(backs(values).drop_last() =~= backs(earlier));
        assert((slots + occupied_slots(earlier)).push(Some(values.last())) =~= slots
            + occupied_slots(values));
    }
}

/// Insertions at the front, while they fit, line the values up before the
/// slots that were there, the last inserted first.
pub proof fn lemma_pushed_fronts<T>(slots: Seq<Option<T>>, capacity: nat, values: Seq<T>)
    requires
        slots.len() + values.len() <= capacity,
    ensures
        pushed_all(slots, capacity, fronts(values)) == occupied_slots(values.reverse()) + slots,
    decreases values.len(),
{
    if values.len() == 0 {
        assert(occupied_slots(values.reverse()) + slots =~= slots);
    } else {
        let earlier = values.drop_last();
        lemma_pushed_fronts(slots, capacity, earlier);
        assert(fronts(values).drop_last() =~= fronts(earlier));
        assert(seq![Some(values.last())] + (occupied_slots(earlier.reverse()) + slots)
            =~= occupied_slots(values.reverse()) + slots);
    }
}

/// Removals at the front, while they find values, return the values of the
/// slots from the front on, in their order, and leave the slots behind them.
pub proof fn lemma_popped_fronts<T>(slots: Seq<Option<T>>, count: nat)
    requires
        count <= slots.len(),
        forall|i: int| 0 <= i < count ==> slots[i] is Some,
    ensures
        front_occupied_times(slots, count),
        popped_front_times(slots, count) == slots.skip(count as int),
        pop_front_results(slots, count) == Seq::new(
            count,
            |i: int| Ok::<T, EmptyCollectionError>(slots[i]->0),
        ),
    decreases count,
{
    if count == 0 {
        assert(slots.skip(0) =~= slots);
        assert(pop_front_results(slots, count) =~= Seq::new(
            count,
            |i: int| Ok::<T, EmptyCollectionError>(slots[i]->0),
        ));
    } else {
        let before = (count - 1) as nat;
        lemma_popped_fronts(slots, before);
        assert(slots.skip(before as int).drop_first() =~= slots.skip(count as int));
        assert(pop_front_results(slots, count) =~= Seq::new(
            count,
            |i: int| Ok::<T, EmptyCollectionError>(slots[i]->0),
        ));
        assert forall|done: nat| done < count implies front_occupied(
            #[trigger] popped_front_times(slots, done),
        ) by {
            if done < before {
                assert(front_occupied_times(slots, before));
            }
        }
    }
}

/// First in, first out: a buffer filled from empty by insertions at the back
/// alone gives the values back, under removals at the front, in the order in
/// which they were inserted, and is empty after the last of them.
pub proof fn lemma_first_in_first_out<T>(capacity: nat, values: Seq<T>)
    requires
        values.len() <= capacity,
    ensures
        ({
            let filled = pushed_all(Seq::<Option<T>>::empty(), capacity, backs(values));
            &&& front_occupied_times(filled, values.len())
            &&& pop_front_results(filled, values.len()) == returned(values)
            &&& popped_front_times(filled, values.len()) == Seq::<Option<T>>::empty()
        }),
{
    let filled = pushed_all(Seq::<Option<T>>::empty(), capacity, backs(values));
    lemma_pushed_backs(Seq::<Option<T>>::empty(), capacity, values);
    assert(filled =~= occupied_slots(values));
    lemma_popped_fronts(filled, values.len());
    assert(pop_front_results(filled, values.len()) =~= returned(values));
    assert(filled.skip(values.len() as int) =~= Seq::<Option<T>>::empty());
}

/// Last in, first out at the front: a buffer filled from empty by insertions
/// at the front alone gives the values back, under removals at the front, in
/// the reverse of the order in which they were inserted, and is empty after
/// the last of them.
pub proof fn lemma_last_in_first_out<T>(capacity: nat, values: Seq<T>)
    requires
        values.len() <= capacity,
    ensures
        ({
            let filled = pushed_all(Seq::<Option<T>>::empty(), capacity, fronts(values));
            &&& front_occupied_times(filled, values.len())
            &&& pop_front_results(filled, values.len()) == returned(values.reverse())
            &&& popped_front_times(filled, values.len()) == Seq::<Option<T>>::empty()
        }),
{
    let filled = pushed_all(Seq::<Option<T>>::empty(), capacity, fronts(values));
    lemma_pushed_fronts(Seq::<Option<T>>::empty(), capacity, values);
    assert(filled =~= occupied_slots(values.reverse()));
    lemma_popped_fronts(filled, values.len());
    assert(pop_front_results(filled, values.len()) =~= returned(values.reverse()));
    assert(filled.skip(values.len() as int) =~= Seq::<Option<T>>::empty());
}

/// An insertion at the back of a buffer that is not full, followed at once
/// by a removal at the back, returns the inserted value and leaves the slots
/// as they were before the two.
pub proof fn lemma_push_back_pop_back<T>(slots: Seq<Option<T>>, capacity: nat, value: T)
    requires
        slots.len() < capacity,
    ensures
        back_occupied(pushed_back(slots, capacity, value)),
        pop_back_result(pushed_back(slots, capacity, value)) == Ok::<T, EmptyCollectionError>(
            value,
        ),
        popped_back(pushed_back(slots, capacity, value)) == slots,
{
    assert(slots.push(Some(value)).drop_last() =~= slots);
}

/// An insertion at the front of a buffer that is not full, followed at once
/// by a removal at the front, returns the inserted value and leaves the
/// slots as they were before the two.
pub proof fn lemma_push_front_pop_front<T>(slots: Seq<Option<T>>, capacity: nat, value: T)
    requires
        slots.len() < capacity,
    ensures
        front_occupied(pushed_front(slots, capacity, value)),
        pop_front_result(pushed_front(slots, capacity, value)) == Ok::<T, EmptyCollectionError>(
            value,
        ),
        popped_front(pushed_front(slots, capacity, value)) == slots,
{
    assert((seq![Some(value)] + slots).drop_first() =~= slots);
}

/// An empty buffer, whatever its capacity, refuses a removal at either end
/// and stays empty.
pub proof fn lemma_pop_from_empty<T>()
    ensures
        front_occupied(Seq::<Option<T>>::empty()),
        back_occupied(Seq::<Option<T>>::empty()),
        pop_front_result(Seq::<Option<T>>::empty()) == Err::<T, EmptyCollectionError>(
            EmptyCollectionError,
        ),
        pop_back_result(Seq::<Option<T>>::empty()) == Err::<T, EmptyCollectionError>(
            EmptyCollectionError,
        ),
        popped_front(Seq::<Option<T>>::empty()) == Seq::<Option<T>>::empty(),
        popped_back(Seq::<Option<T>>::empty()) == Seq::<Option<T>>::empty(),
{
}

/// After as many insertions into an empty buffer as it has capacity, all of
/// which succeed, one more at either end is refused and leaves the slots,
/// and so their number, as they were.
pub proof fn lemma_push_beyond_capacity<T>(capacity: nat, pushes: Seq<Push<T>>, extra: Push<T>)
    requires
        pushes.len() == capacity,
    ensures
        ({
            let filled = pushed_all(Seq::<Option<T>>::empty(), capacity, pushes);
            &&& accepted(Seq::<Option<T>>::empty(), capacity, pushes) == capacity
            &&& filled.len() == capacity
            &&& push_result(filled, capacity) == Err::<usize, FullCollectionError>(
                FullCollectionError,
            )
            &&& pushed(filled, capacity, extra) == filled
        }),
{
    lemma_len_counts_accepted(Seq::<Option<T>>::empty(), capacity, pushes);
}

/// An empty buffer that has any capacity at all accepts an insertion at
/// either end, reports one slot in use, and holds the value alone.
pub proof fn lemma_push_into_empty<T>(capacity: nat, value: T)
    requires
        capacity > 0,
    ensures
        push_result(Seq::<Option<T>>::empty(), capacity) == Ok::<usize, FullCollectionError>(1),
        pushed_back(Seq::<Option<T>>::empty(), capacity, value) == seq![Some(value)],
        pushed_front(Seq::<Option<T>>::empty(), capacity, value) == seq![Some(value)],
{
    assert(Seq::<Option<T>>::empty().push(Some(value)) =~= seq![Some(value)]);
    assert(seq![Some(value)] + Seq::<Option<T>>::empty() =~= seq![Some(value)]);
}

/// A transfer of slots that all hold values does what insertions of those
/// values at the back, one by one and in their order, would do.
pub proof fn lemma_append_is_pushed_backs<T>(slots: Seq<Option<T>>, capacity: nat, values: Seq<T>)
    requires
        fits(slots, occupied_slots(values), capacity),
        values.len() <= usize::MAX,
    ensures
        appended(slots, occupied_slots(values), capacity) == pushed_all(
            slots,
            capacity,
            backs(values),
        ),
        append_result(slots, occupied_slots(values), capacity) == Ok::<usize, ()>(
            values.len() as usize,
        ),
{
    lemma_pushed_backs(slots, capacity, values);
}

/// The values of two runs of slots, one behind the other, are the values of
/// the first followed by the values of the second.
pub proof fn lemma_values_of_concat<T>(front: Seq<Option<T>>, back: Seq<Option<T>>)
    ensures
        values_of(front + back) == values_of(front) + values_of(back),
    decreases front.len(),
{
    if front.len() == 0 {
        assert(front + back =~= back);
        assert(values_of(front) + values_of(back) =~= values_of(back));
    } else {
        lemma_values_of_concat(front.drop_first(), back);
        assert((front + back).drop_first() =~= front.drop_first() + back);
        if front.first() is Some {
            assert(seq![front.first()->0] + (values_of(front.drop_first()) + values_of(back))
                =~= (seq![front.first()->0] + values_of(front.drop_first())) + values_of(back));
        }
    }
}

/// Slots that all hold values give exactly those values back, in their
/// order: a walk through a buffer that was filled by insertions alone meets
/// every inserted value, from the front to the back.
pub proof fn lemma_values_of_occupied<T>(values: Seq<T>)
    ensures
        values_of(occupied_slots(values)) == values,
    decreases values.len(),
{
    if values.len() == 0 {
        assert(values_of(occupied_slots(values)) =~= values);
    } else {
        lemma_values_of_occupied(values.drop_first());
        assert(occupied_slots(values).drop_first() =~= occupied_slots(values.drop_first()));
        assert(seq![values.first()] + values.drop_first() =~= values);
    }
}

} // verus!
