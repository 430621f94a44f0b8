//! Walking through the values of a ring buffer, from front to back.

use vstd::prelude::*;
use crate::model::values_of;
use crate::ring_buffer::RingBuffer;

verus! {

/// Dropping a vacant slot at the front changes nothing about the values.
proof fn lemma_values_skip_vacant<T>(slots: Seq<Option<T>>, position: int)
    requires
        0 <= position < slots.len(),
        slots[position] is None,
    ensures
        values_of(slots.skip(position)) == values_of(slots.skip(position + 1)),
{
    assert(slots.skip(position).drop_first() =~= slots.skip(position + 1));
}

/// A value at the front is the first of the values, and the others follow.
proof fn lemma_values_take_first<T>(slots: Seq<Option<T>>, position: int)
    requires
        0 <= position < slots.len(),
        slots[position] is Some,
    ensures
        values_of(slots.skip(position)).len() > 0,
        values_of(slots.skip(position)).first() == slots[position]->0,
        values_of(slots.skip(position)).drop_first() == values_of(slots.skip(position + 1)),
{
    assert(slots.skip(position).drop_first() =~= slots.skip(position + 1));
    assert((seq![slots[position]->0] + values_of(slots.skip(position + 1))).drop_first()
        =~= values_of(slots.skip(position + 1)));
}

/// A cursor over the values of a ring buffer, which hands them out one by
/// one from the front to the back and passes over vacant slots.
///
/// Its view is the sequence of the values that it has yet to hand out.
pub struct Iter<'a, T, const SIZE: usize> {
    ring: &'a RingBuffer<T, SIZE>,
    position: usize,
}

impl<'a, T, const SIZE: usize> View for Iter<'a, T, SIZE> {
    type V = Seq<T>;

    closed spec fn view(&self) -> Seq<T> {
        values_of(self.ring@.skip(self.position as int))
    }
}

impl<'a, T, const SIZE: usize> Iter<'a, T, SIZE> {
    #[verifier::type_invariant]
    spec fn inv(self) -> bool {
        self.position <= self.ring@.len()
    }

    /// Hands out the next value, or `None` when none is left.
    pub fn next(&mut self) -> (value: Option<&'a T>)
        ensures
            old(self)@.len() == 0 ==> value is None && final(self)@ == old(self)@,
            old(self)@.len() > 0 ==> value == Some(&old(self)@.first()) && final(self)@ == old(self)@.drop_first(),
    {
        let count: usize = self.ring.len();
        while self.position < count
            invariant
                count == self.ring@.len(),
                self.ring == old(self).ring,
                self@ == old(self)@,
            decreases count - self.position,
        {
            proof {
                use_type_invariant(&*self);
            }
            let found: Option<&'a T> = self.ring.get(self.position);
            proof {
                if found is Some {
                    lemma_values_take_first(self.ring@, self.position as int);
                } else {
                    lemma_values_skip_vacant(self.ring@, self.position as int);
                }
            }
            self.position = self.position + 1;
            if found.is_some() {
                return found;
            }
        }
        proof {
            use_type_invariant(&*self);
        }
        None
    }
}

impl<T, const SIZE: usize> RingBuffer<T, SIZE> {
    /// Returns a cursor that stands before the first value.
    pub fn iter(&self) -> (cursor: Iter<'_, T, SIZE>)
        ensures
            cursor@ == values_of(self@),
    {
        let cursor = Iter { ring: self, position: 0 };
        proof {
            assert(self@.skip(0) =~= self@);
        }
        cursor
    }
}

} // verus!
