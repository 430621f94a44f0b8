//! A circular buffer over a fixed array of slots.

use vstd::prelude::*;
use vstd::std_specs::convert::FromSpecImpl;
use crate::error::{EmptyCollectionError, FullCollectionError};
use crate::model::{
    append_result, appended, back_occupied, drained, front_occupied, occupied_slots,
    pop_back_result, pop_front_result, popped_back, popped_front, push_result, pushed_back,
    pushed_front,
};

verus! {

/// The storage index of the slot that lies `offset` places behind `head` in a
/// ring of `capacity` slots.
pub open spec fn slot_index(head: int, offset: int, capacity: int) -> int {
    (head + offset) % capacity
}

/// Within one lap the wrapped index is the plain sum, less one `capacity`
/// where the sum runs past the end of the storage.
pub proof fn lemma_slot_index(head: int, capacity: int)
    requires
        0 <= head < capacity,
    ensures
        forall|offset: int|
            0 <= offset <= capacity ==> #[trigger] slot_index(head, offset, capacity) == if head
                + offset >= capacity {
                head + offset - capacity
            } else {
                head + offset
            },
{
    assert forall|offset: int| 0 <= offset <= capacity implies #[trigger] slot_index(
        head,
        offset,
        capacity,
    ) == if head + offset >= capacity {
        head + offset - capacity
    } else {
        head + offset
    } by {
        if head + offset >= capacity {
            vstd::arithmetic::div_mod::lemma_mod_sub_multiples_vanish(head + offset, capacity);
            vstd::arithmetic::div_mod::lemma_small_mod(
                (head + offset - capacity) as nat,
                capacity as nat,
            );
        } else {
            vstd::arithmetic::div_mod::lemma_small_mod((head + offset) as nat, capacity as nat);
        }
    }
}

/// How many places behind `head` the storage index `slot` lies.
spec fn offset_of(head: int, slot: int, capacity: int) -> int {
    if slot >= head {
        slot - head
    } else {
        slot - head + capacity
    }
}

/// Computes `slot_index` without leaving the range of `usize`.
fn wrapped_index(head: usize, offset: usize, capacity: usize) -> (index: usize)
    requires
        head < capacity,
        offset <= capacity,
    ensures
        index == slot_index(head as int, offset as int, capacity as int),
        index < capacity,
{
    proof {
        lemma_slot_index(head as int, capacity as int);
    }
    let room: usize = capacity - head;
    if offset >= room {
        offset - room
    } else {
        head + offset
    }
}

/// `core::array::from_fn` builds an array by calling `f` once with each index:
/// the element at an index is what `f` returns for it.
pub assume_specification<T, const N: usize, F>[ core::array::from_fn::<T, N, F> ](f: F) -> (array:
    [T; N]) where F: FnMut(usize) -> T
    requires
        forall|i: usize| i < N ==> call_requires(f, (i,)),
    ensures
        forall|i: int| 0 <= i < N ==> call_ensures(f, (i as usize,), #[trigger] array@[i]),
;

/// The method `map` of an array builds an array of the same length by calling
/// `f` once with each element: the element at an index is what `f` returns
/// for the element that `array` has there.
pub assume_specification<A, const N: usize, F, B>[ <[A; N]>::map::<F, B> ](array: [A; N], f: F) -> (mapped:
    [B; N]) where F: FnMut(A) -> B
    requires
        forall|i: int| 0 <= i < N ==> call_requires(f, (#[trigger] array@[i],)),
    ensures
        forall|i: int| 0 <= i < N ==> call_ensures(f, (array@[i],), #[trigger] mapped@[i]),
;

/// A vacant slot, whatever its index.
fn vacant<T>(_index: usize) -> (slot: Option<T>)
    ensures
        slot is None,
{
    None
}

/// The slot that holds `value`.
fn occupied<T>(value: T) -> (slot: Option<T>)
    ensures
        slot == Some(value),
{
    Some(value)
}

/// A queue with two ends that holds at most `SIZE` values, in an array that
/// is never reallocated.
///
/// Its view is the sequence of its slots from front to back. A slot that was
/// filled by an insertion holds a value; one that came from an array of
/// optional values holds whatever that array held there.
#[derive(Debug)]
pub struct RingBuffer<T, const SIZE: usize> {
    head: usize,
    len: usize,
    buffer: [Option<T>; SIZE],
}

impl<T, const SIZE: usize> View for RingBuffer<T, SIZE> {
    type V = Seq<Option<T>>;

    closed spec fn view(&self) -> Seq<Option<T>> {
        Seq::new(
            self.len as nat,
            |i: int| self.buffer@[slot_index(self.head as int, i, SIZE as int)],
        )
    }
}

/// Every slot of `storage` is vacant.
pub open spec fn all_vacant<T>(storage: Seq<Option<T>>) -> bool {
    forall|slot: int| 0 <= slot < storage.len() ==> (#[trigger] storage[slot]) is None
}

impl<T, const SIZE: usize> RingBuffer<T, SIZE> {
    /// The storage index of the first slot in use. It says nothing while
    /// the buffer is empty.
    pub closed spec fn head_index(&self) -> nat {
        self.head as nat
    }

    /// The slots of the storage, by storage index.
    pub closed spec fn storage(&self) -> Seq<Option<T>> {
        self.buffer@
    }

    /// The storage index of the slot that lies `offset` places behind the
    /// front.
    pub open spec fn slot_of(&self, offset: int) -> int {
        slot_index(self.head_index() as int, offset, SIZE as int)
    }

    /// What holds of every buffer at all times: the slots in use are no more
    /// than the storage has, the head lies within the storage, the slots in
    /// use are those that follow the head, wrapping round at the end of the
    /// storage, and every other slot of the storage is vacant.
    pub open spec fn well_formed(&self) -> bool {
        &&& self.storage().len() == SIZE
        &&& self@.len() <= SIZE
        &&& (SIZE > 0 ==> self.head_index() < SIZE)
        &&& forall|offset: int|
            0 <= offset < self@.len() ==> self@[offset] == self.storage()[#[trigger] self.slot_of(
                offset,
            )]
        &&& forall|offset: int|
            self@.len() <= offset < SIZE ==> self.storage()[#[trigger] self.slot_of(offset)] is None
    }

    /// The same, told by storage index, as the proofs use it.
    #[verifier::type_invariant]
    spec fn inv(self) -> bool {
        &&& self.len <= SIZE
        &&& (SIZE > 0 ==> self.head < SIZE)
        &&& forall|slot: int|
            0 <= slot < SIZE && offset_of(self.head as int, slot, SIZE as int) >= self.len ==> (
            #[trigger] self.buffer@[slot]) is None
    }

    proof fn lemma_well_formed(self)
        requires
            self.inv(),
        ensures
            self.well_formed(),
    {
        if SIZE > 0 {
            lemma_slot_index(self.head as int, SIZE as int);
        }
    }

    /// The buffer whose slots are those of `slots`, front first.
    pub closed spec fn of_slots(slots: [Option<T>; SIZE]) -> Self {
        RingBuffer { head: 0, len: SIZE, buffer: slots }
    }

    /// The buffer whose slots hold the values of `values`, front first.
    pub closed spec fn of_values(values: [T; SIZE]) -> Self {
        Self::of_slots(
            choose|slots: [Option<T>; SIZE]| slots@ == occupied_slots(values@),
        )
    }

    /// Creates an empty ring buffer.
    #[must_use]
    pub fn new() -> (ring: Self)
        ensures
            ring.well_formed(),
            ring@ == Seq::<Option<T>>::empty(),
            ring.head_index() == 0,
            all_vacant(ring.storage()),
    {
        let buffer: [Option<T>; SIZE] = core::array::from_fn(vacant::<T>);
        let ring = Self { head: 0, len: 0, buffer };
        proof {
            ring.lemma_well_formed();
        }
        ring
    }

    /// Returns the number of slots in use.
    pub fn len(&self) -> (count: usize)
        ensures
            self.well_formed(),
            count == self@.len(),
    {
        proof {
            use_type_invariant(self);
            self.lemma_well_formed();
        }
        self.len
    }

    /// Returns `true` if no slot is in use.
    pub fn is_empty(&self) -> (empty: bool)
        ensures
            self.well_formed(),
            empty <==> self@.len() == 0,
    {
        proof {
            use_type_invariant(self);
            self.lemma_well_formed();
        }
        self.len == 0
    }

    /// Returns `true` if every slot is in use.
    pub fn is_full(&self) -> (full: bool)
        ensures
            self.well_formed(),
            full <==> self@.len() == SIZE,
    {
        proof {
            use_type_invariant(self);
            self.lemma_well_formed();
        }
        self.len == SIZE
    }

    /// Returns the value of the slot that lies `index` places behind the
    /// front, or `None` if that slot is vacant or beyond the slots in use.
    pub fn get(&self, index: usize) -> (value: Option<&T>)
        ensures
            self.well_formed(),
            match value {
                Some(found) => index < self@.len() && self@[index as int] == Some(*found),
                None => index >= self@.len() || self@[index as int] is None,
            },
    {
        proof {
            use_type_invariant(self);
            self.lemma_well_formed();
        }
        if index >= self.len {
            return None;
        }
        let slot: usize = wrapped_index(self.head, index, SIZE);
        self.buffer[slot].as_ref()
    }

    /// Puts `slot` behind the last slot in use.
    fn put_back(&mut self, slot: Option<T>)
        requires
            old(self)@.len() < SIZE,
        ensures
            final(self)@ == old(self)@.push(slot),
            final(self).head_index() == old(self).head_index(),
            final(self).storage() == old(self).storage().update(
                old(self).slot_of(old(self)@.len() as int),
                slot,
            ),
    {
        proof {
            use_type_invariant(&*self);
            lemma_slot_index(self.head as int, SIZE as int);
        }
        let index: usize = wrapped_index(self.head, self.len, SIZE);
        self.len = self.len + 1;
        self.buffer[index] = slot;
        proof {
            assert(self@ =~= old(self)@.push(slot));
        }
    }

    /// Puts `slot` before the first slot in use.
    fn put_front(&mut self, slot: Option<T>)
        requires
            old(self)@.len() < SIZE,
        ensures
            final(self)@ == seq![slot] + old(self)@,
            final(self).head_index() == if old(self).head_index() == 0 {
                SIZE - 1
            } else {
                old(self).head_index() - 1
            },
            final(self).storage() == old(self).storage().update(
                final(self).head_index() as int,
                slot,
            ),
    {
        proof {
            use_type_invariant(&*self);
            lemma_slot_index(self.head as int, SIZE as int);
        }
        let index: usize = if self.head == 0 {
            SIZE - 1
        } else {
            self.head - 1
        };
        proof {
            lemma_slot_index(index as int, SIZE as int);
        }
        self.len = self.len + 1;
        self.head = index;
        self.buffer[index] = slot;
        proof {
            assert(self@ =~= seq![slot] + old(self)@);
        }
    }

    /// Takes out the first slot in use and leaves its place vacant.
    fn take_front(&mut self) -> (slot: Option<T>)
        requires
            old(self)@.len() > 0,
        ensures
            slot == old(self)@.first(),
            final(self)@ == old(self)@.drop_first(),
            final(self).head_index() == old(self).slot_of(1),
            final(self).storage() == old(self).storage().update(
                old(self).head_index() as int,
                None,
            ),
    {
        proof {
            use_type_invariant(&*self);
            lemma_slot_index(self.head as int, SIZE as int);
        }
        let mut slot: Option<T> = None;
        core::mem::swap(&mut self.buffer[self.head], &mut slot);
        let next: usize = wrapped_index(self.head, 1, SIZE);
        proof {
            lemma_slot_index(next as int, SIZE as int);
        }
        self.head = next;
        self.len = self.len - 1;
        proof {
            assert(self@ =~= old(self)@.drop_first());
        }
        slot
    }

    /// Takes out the last slot in use and leaves its place vacant.
    fn take_back(&mut self) -> (slot: Option<T>)
        requires
            old(self)@.len() > 0,
        ensures
            slot == old(self)@.last(),
            final(self)@ == old(self)@.drop_last(),
            final(self).head_index() == old(self).head_index(),
            final(self).storage() == old(self).storage().update(
                old(self).slot_of(old(self)@.len() - 1),
                None,
            ),
    {
        proof {
            use_type_invariant(&*self);
            lemma_slot_index(self.head as int, SIZE as int);
        }
        let index: usize = wrapped_index(self.head, self.len - 1, SIZE);
        let mut slot: Option<T> = None;
        core::mem::swap(&mut self.buffer[index], &mut slot);
        self.len = self.len - 1;
        proof {
            assert(self@ =~= old(self)@.drop_last());
        }
        slot
    }

    /// Appends an element to the back of the ring buffer.
    /// Returns `Err(FullCollectionError)` if the ring buffer is full, and
    /// the new length otherwise.
    ///
    /// The value goes into the slot behind the last one in use, which lies
    /// `len` places behind the head; the head stays where it is.
    pub fn push_back(&mut self, value: T) -> (result: Result<usize, FullCollectionError>)
        ensures
            final(self).well_formed(),
            final(self)@ == pushed_back(old(self)@, SIZE as nat, value),
            result == push_result(old(self)@, SIZE as nat),
            result is Ok ==> final(self).head_index() == old(self).head_index() && final(self).storage() == old(self).storage().update(
                old(self).slot_of(old(self)@.len() as int),
                Some(value),
            ),
            result is Err ==> *final(self) == *old(self),
    {
        proof {
            use_type_invariant(&*self);
            self.lemma_well_formed();
        }
        if self.is_full() {
            return Err(FullCollectionError);
        }
        self.put_back(Some(value));
        proof {
            use_type_invariant(&*self);
            self.lemma_well_formed();
        }
        Ok(self.len())
    }

    /// Prepends an element to the front of the ring buffer.
    /// Returns `Err(FullCollectionError)` if the ring buffer is full, and
    /// the new length otherwise.
    ///
    /// The value goes into the slot before the head, which is the last slot
    /// of the storage where the head is the first; the head moves there.
    pub fn push_front(&mut self, value: T) -> (result: Result<usize, FullCollectionError>)
        ensures
            final(self).well_formed(),
            final(self)@ == pushed_front(old(self)@, SIZE as nat, value),
            result == push_result(old(self)@, SIZE as nat),
            result is Ok ==> final(self).head_index() == (if old(self).head_index() == 0 {
                SIZE - 1
            } else {
                old(self).head_index() - 1
            }) && final(self).storage() == old(self).storage().update(
                final(self).head_index() as int,
                Some(value),
            ),
            result is Err ==> *final(self) == *old(self),
    {
        proof {
            use_type_invariant(&*self);
            self.lemma_well_formed();
        }
        if self.is_full() {
            return Err(FullCollectionError);
        }
        self.put_front(Some(value));
        proof {
            use_type_invariant(&*self);
            self.lemma_well_formed();
        }
        Ok(self.len())
    }

    /// Removes the first element and returns it.
    /// Returns `Err(EmptyCollectionError)` if the ring buffer is empty.
    ///
    /// The slot at the head is left vacant, and the head moves one slot on,
    /// to the first slot of the storage where it was the last.
    pub fn pop_front(&mut self) -> (result: Result<T, EmptyCollectionError>)
        requires
            front_occupied(old(self)@),
        ensures
            final(self).well_formed(),
            final(self)@ == popped_front(old(self)@),
            result == pop_front_result(old(self)@),
            result is Ok ==> final(self).head_index() == old(self).slot_of(1) && final(self).storage() == old(self).storage().update(old(self).head_index() as int, None),
            result is Err ==> *final(self) == *old(self),
    {
        proof {
            use_type_invariant(&*self);
            self.lemma_well_formed();
        }
        if self.is_empty() {
            return Err(EmptyCollectionError);
        }
        let slot: Option<T> = self.take_front();
        proof {
            use_type_invariant(&*self);
            self.lemma_well_formed();
        }
        Ok(slot.unwrap())
    }

    /// Removes the last element and returns it.
    /// Returns `Err(EmptyCollectionError)` if the ring buffer is empty.
    ///
    /// The last slot in use, which lies `len - 1` places behind the head, is
    /// left vacant; the head stays where it is.
    pub fn pop_back(&mut self) -> (result: Result<T, EmptyCollectionError>)
        requires
            back_occupied(old(self)@),
        ensures
            final(self).well_formed(),
            final(self)@ == popped_back(old(self)@),
            result == pop_back_result(old(self)@),
            result is Ok ==> final(self).head_index() == old(self).head_index() && final(self).storage() == old(self).storage().update(
                old(self).slot_of(old(self)@.len() - 1),
                None,
            ),
            result is Err ==> *final(self) == *old(self),
    {
        proof {
            use_type_invariant(&*self);
            self.lemma_well_formed();
        }
        if self.is_empty() {
            return Err(EmptyCollectionError);
        }
        let slot: Option<T> = self.take_back();
        proof {
            use_type_invariant(&*self);
            self.lemma_well_formed();
        }
        Ok(slot.unwrap())
    }

    /// Drops every element and leaves the ring buffer empty, with every
    /// slot of its storage vacant.
    pub fn clear(&mut self)
        ensures
            final(self).well_formed(),
            final(self)@ == Seq::<Option<T>>::empty(),
            all_vacant(final(self).storage()),
    {
        while !self.is_empty()
            decreases self@.len(),
        {
            let _ = self.take_front();
        }
        proof {
            use_type_invariant(&*self);
        }
        self.head = 0;
        proof {
            use_type_invariant(&*self);
            self.lemma_well_formed();
        }
    }

    /// Moves all slots of `other` behind those of `self`, in their order, and
    /// leaves `other` empty. Returns how many were moved.
    /// Where `self` has too few free slots for them, returns `Err(())` and
    /// leaves both buffers as they were.
    pub fn append<const OTHER_SIZE: usize>(&mut self, other: &mut RingBuffer<T, OTHER_SIZE>) -> (result:
        Result<usize, ()>)
        ensures
            final(self).well_formed(),
            final(other).well_formed(),
            final(self)@ == appended(old(self)@, old(other)@, SIZE as nat),
            final(other)@ == drained(old(self)@, old(other)@, SIZE as nat),
            result == append_result(old(self)@, old(other)@, SIZE as nat),
            result is Ok ==> all_vacant(final(other).storage()),
            result is Err ==> *final(self) == *old(self) && *final(other) == *old(other),
    {
        let count: usize = other.len();
        if SIZE - self.len() < count {
            return Err(());
        }
        while !other.is_empty()
            invariant
                self@ + other@ == old(self)@ + old(other)@,
                self@.len() + other@.len() <= SIZE,
            decreases other@.len(),
        {
            let ghost joined = self@ + other@;
            let slot: Option<T> = other.take_front();
            self.put_back(slot);
            proof {
                assert(self@ + other@ =~= joined);
            }
        }
        proof {
            assert(self@ =~= self@ + other@);
            assert(other@ =~= Seq::<Option<T>>::empty());
            use_type_invariant(&*self);
            self.lemma_well_formed();
            use_type_invariant(&*other);
            other.lemma_well_formed();
        }
        Ok(count)
    }
}

impl<T> Default for RingBuffer<T, 16> {
    /// Creates an empty ring buffer of 16 slots.
    fn default() -> (ring: Self)
        ensures
            ring.well_formed(),
            ring@ == Seq::<Option<T>>::empty(),
            ring.head_index() == 0,
            all_vacant(ring.storage()),
    {
        Self::new()
    }
}

impl<T, const SIZE: usize> FromSpecImpl<[Option<T>; SIZE]> for RingBuffer<T, SIZE> {
    open spec fn obeys_from_spec() -> bool {
        true
    }

    open spec fn from_spec(buffer: [Option<T>; SIZE]) -> Self {
        Self::of_slots(buffer)
    }
}

impl<T, const SIZE: usize> From<[Option<T>; SIZE]> for RingBuffer<T, SIZE> {
    /// Creates a full ring buffer whose slots are those of `buffer`, front
    /// first. The slots are taken as they are: a vacant one stays vacant and
    /// counts as in use.
    fn from(buffer: [Option<T>; SIZE]) -> (ring: Self)
        ensures
            ring.well_formed(),
            ring@ == buffer@,
            ring.head_index() == 0,
            ring.storage() == buffer@,
    {
        proof {
            if SIZE > 0 {
                lemma_slot_index(0, SIZE as int);
            }
        }
        let ring = Self { head: 0, len: SIZE, buffer };
        proof {
            assert(ring@ =~= buffer@);
            ring.lemma_well_formed();
        }
        ring
    }
}

impl<T, const SIZE: usize> FromSpecImpl<[T; SIZE]> for RingBuffer<T, SIZE> {
    open spec fn obeys_from_spec() -> bool {
        true
    }

    open spec fn from_spec(buffer: [T; SIZE]) -> Self {
        Self::of_values(buffer)
    }
}

impl<T, const SIZE: usize> From<[T; SIZE]> for RingBuffer<T, SIZE> {
    /// Creates a full ring buffer that holds the values of `buffer`, front
    /// first.
    fn from(buffer: [T; SIZE]) -> (ring: Self)
        ensures
            ring.well_formed(),
            ring@ == occupied_slots(buffer@),
            ring.head_index() == 0,
            ring.storage() == occupied_slots(buffer@),
    {
        let slots: [Option<T>; SIZE] = buffer.map(occupied::<T>);
        proof {
            if SIZE > 0 {
                lemma_slot_index(0, SIZE as int);
            }
            assert(slots@ =~= occupied_slots(buffer@));
            let chosen = choose|slots: [Option<T>; SIZE]| slots@ == occupied_slots(buffer@);
            assert(chosen =~= slots);
        }
        let ring = Self { head: 0, len: SIZE, buffer: slots };
        proof {
            assert(ring@ =~= slots@);
            ring.lemma_well_formed();
        }
        ring
    }
}

} // verus!
