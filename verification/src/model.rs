//! What a buffer holds, seen as the sequence of its slots from front to back,
//! and what each operation makes of that sequence.
//!
//! A slot is `Some(value)` where it holds a value and `None` where it is
//! vacant. The functions here take the capacity as an argument, so that they
//! speak of buffers of every size at once.

use vstd::prelude::*;
use crate::error::{EmptyCollectionError, FullCollectionError};

verus! {

/// The slots that hold the values of `values`, one each and in their order.
pub open spec fn occupied_slots<T>(values: Seq<T>) -> Seq<Option<T>> {
    values.map_values(|value: T| Some(value))
}

/// The slots after an insertion at the back: one slot more, holding `value`,
/// unless the buffer was full, which leaves them as they were.
pub open spec fn pushed_back<T>(slots: Seq<Option<T>>, capacity: nat, value: T) -> Seq<Option<T>> {
    if slots.len() < capacity {
        slots.push(Some(value))
    } else {
        slots
    }
}

/// The slots after an insertion at the front: one slot more, holding `value`,
/// unless the buffer was full, which leaves them as they were.
pub open spec fn pushed_front<T>(slots: Seq<Option<T>>, capacity: nat, value: T) -> Seq<Option<T>> {
    if slots.len() < capacity {
        seq![Some(value)] + slots
    } else {
        slots
    }
}

/// What an insertion at either end returns: the new number of slots, or the
/// error of a full buffer.
pub open spec fn push_result<T>(slots: Seq<Option<T>>, capacity: nat) -> Result<
    usize,
    FullCollectionError,
> {
    if slots.len() < capacity {
        Ok((slots.len() + 1) as usize)
    } else {
        Err(FullCollectionError)
    }
}

/// A removal at the front finds a value to return.
pub open spec fn front_occupied<T>(slots: Seq<Option<T>>) -> bool {
    slots.len() > 0 ==> slots.first() is Some
}

/// A removal at the back finds a value to return.
pub open spec fn back_occupied<T>(slots: Seq<Option<T>>) -> bool {
    slots.len() > 0 ==> slots.last() is Some
}

/// The slots after a removal at the front.
pub open spec fn popped_front<T>(slots: Seq<Option<T>>) -> Seq<Option<T>> {
    if slots.len() > 0 {
        slots.drop_first()
    } else {
        slots
    }
}

/// The slots after a removal at the back.
pub open spec fn popped_back<T>(slots: Seq<Option<T>>) -> Seq<Option<T>> {
    if slots.len() > 0 {
        slots.drop_last()
    } else {
        slots
    }
}

/// What a removal at the front returns: the value of the first slot, or the
/// error of an empty buffer.
pub open spec fn pop_front_result<T>(slots: Seq<Option<T>>) -> Result<T, EmptyCollectionError>
    recommends
        front_occupied(slots),
{
    if slots.len() > 0 {
        Ok(slots.first()->0)
    } else {
        Err(EmptyCollectionError)
    }
}

/// What a removal at the back returns: the value of the last slot, or the
/// error of an empty buffer.
pub open spec fn pop_back_result<T>(slots: Seq<Option<T>>) -> Result<T, EmptyCollectionError>
    recommends
        back_occupied(slots),
{
    if slots.len() > 0 {
        Ok(slots.last()->0)
    } else {
        Err(EmptyCollectionError)
    }
}

/// The slots of `other` find room behind `slots`.
pub open spec fn fits<T>(slots: Seq<Option<T>>, other: Seq<Option<T>>, capacity: nat) -> bool {
    slots.len() + other.len() <= capacity
}

/// The receiving buffer's slots after a transfer: its own, then those of
/// `other` in their order; unchanged where they do not fit.
pub open spec fn appended<T>(slots: Seq<Option<T>>, other: Seq<Option<T>>, capacity: nat) -> Seq<
    Option<T>,
> {
    if fits(slots, other, capacity) {
        slots + other
    } else {
        slots
    }
}

/// The giving buffer's slots after a transfer of `other` behind `slots`:
/// none; unchanged where they do not fit.
pub open spec fn drained<T>(slots: Seq<Option<T>>, other: Seq<Option<T>>, capacity: nat) -> Seq<
    Option<T>,
> {
    if fits(slots, other, capacity) {
        Seq::empty()
    } else {
        other
    }
}

/// What a transfer returns: how many slots moved, or the signal that they do
/// not fit.
pub open spec fn append_result<T>(
    slots: Seq<Option<T>>,
    other: Seq<Option<T>>,
    capacity: nat,
) -> Result<usize, ()> {
    if fits(slots, other, capacity) {
        Ok(other.len() as usize)
    } else {
        Err(())
    }
}

/// One insertion, at either end.
pub enum Push<T> {
    Front(T),
    Back(T),
}

/// The slots after the insertion `push`.
pub open spec fn pushed<T>(slots: Seq<Option<T>>, capacity: nat, push: Push<T>) -> Seq<Option<T>> {
    match push {
        Push::Front(value) => pushed_front(slots, capacity, value),
        Push::Back(value) => pushed_back(slots, capacity, value),
    }
}

/// The slots after the insertions of `pushes`, made in their order.
pub open spec fn pushed_all<T>(slots: Seq<Option<T>>, capacity: nat, pushes: Seq<Push<T>>) -> Seq<
    Option<T>,
>
    decreases pushes.len(),
{
    if pushes.len() == 0 {
        slots
    } else {
        pushed(pushed_all(slots, capacity, pushes.drop_last()), capacity, pushes.last())
    }
}

/// How many of the insertions of `pushes`, made in their order, succeed.
pub open spec fn accepted<T>(slots: Seq<Option<T>>, capacity: nat, pushes: Seq<Push<T>>) -> nat
    decreases pushes.len(),
{
    if pushes.len() == 0 {
        0
    } else {
        let before = pushed_all(slots, capacity, pushes.drop_last());
        accepted(slots, capacity, pushes.drop_last()) + if push_result(before, capacity) is Ok {
            1nat
        } else {
            0nat
        }
    }
}

/// The insertions of `values` at the back, one each and in their order.
pub open spec fn backs<T>(values: Seq<T>) -> Seq<Push<T>> {
    values.map_values(|value: T| Push::Back(value))
}

/// The insertions of `values` at the front, one each and in their order.
pub open spec fn fronts<T>(values: Seq<T>) -> Seq<Push<T>> {
    values.map_values(|value: T| Push::Front(value))
}

/// The slots after `count` removals at the front.
pub open spec fn popped_front_times<T>(slots: Seq<Option<T>>, count: nat) -> Seq<Option<T>>
    decreases count,
{
    if count == 0 {
        slots
    } else {
        popped_front(popped_front_times(slots, (count - 1) as nat))
    }
}

/// What `count` removals at the front return, in their order.
pub open spec fn pop_front_results<T>(slots: Seq<Option<T>>, count: nat) -> Seq<
    Result<T, EmptyCollectionError>,
>
    decreases count,
{
    if count == 0 {
        Seq::empty()
    } else {
        pop_front_results(slots, (count - 1) as nat).push(
            pop_front_result(popped_front_times(slots, (count - 1) as nat)),
        )
    }
}

/// Each of `count` removals at the front finds a value to return.
pub open spec fn front_occupied_times<T>(slots: Seq<Option<T>>, count: nat) -> bool {
    forall|done: nat| done < count ==> front_occupied(#[trigger] popped_front_times(slots, done))
}

/// The results of removals that return the values of `values`, one each and
/// in their order.
pub open spec fn returned<T>(values: Seq<T>) -> Seq<Result<T, EmptyCollectionError>> {
    values.map_values(|value: T| Ok(value))
}

/// The values that `slots` hold, in their order. A vacant slot holds none.
pub open spec fn values_of<T>(slots: Seq<Option<T>>) -> Seq<T>
    decreases slots.len(),
{
    if slots.len() == 0 {
        Seq::empty()
    } else if slots.first() is Some {
        seq![slots.first()->0] + values_of(slots.drop_first())
    } else {
        values_of(slots.drop_first())
    }
}

} // verus!
