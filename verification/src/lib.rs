//! A growable-array container with capacity-managed storage and a
//! borrow-scoped, read-only cursor over its live elements.
//!
//! `ToyVec<T>` owns a backing buffer of `capacity` slots and keeps the first
//! `len` of them live; appending past the capacity reallocates, doubling the
//! buffer. `Iter<'vec, T>` reads a snapshot of the live range through a shared
//! borrow, so the borrow checker rules out mutation while a cursor is alive.
//!
//! Spare slots hold `None` rather than a default value of `T`, so the element
//! type needs no trait bound to be stored, and no slot is ever uninitialized.
use vstd::prelude::*;

verus! {

/// Capacity after one growth step: an empty buffer grows to a single slot,
/// a non-empty one doubles.
pub open spec fn grown_capacity(capacity: nat) -> nat {
    if capacity == 0 {
        1
    } else {
        2 * capacity
    }
}

/// Capacity after appending one element to a container of the given length
/// and capacity: unchanged while there is a spare slot, grown otherwise.
pub open spec fn capacity_after_push(length: nat, capacity: nat) -> nat {
    if length < capacity {
        capacity
    } else {
        grown_capacity(capacity)
    }
}

/// Capacity of a container built by `count` appends into an initially empty
/// container (capacity 0).
pub open spec fn capacity_after_appends(count: nat) -> nat
    decreases count,
{
    if count == 0 {
        0
    } else {
        capacity_after_push((count - 1) as nat, capacity_after_appends((count - 1) as nat))
    }
}

/// Whether `n` is a power of two (1, 2, 4, 8, ...).
pub open spec fn is_pow2(n: nat) -> bool
    decreases n,
{
    if n == 0 {
        false
    } else if n == 1 {
        true
    } else {
        n % 2 == 0 && is_pow2(n / 2)
    }
}

/// A growable array: an owned buffer of `capacity` slots, the first `len`
/// of which hold the live elements.
pub struct ToyVec<T> {
    elements: Vec<Option<T>>,
    len: usize,
}

impl<T> View for ToyVec<T> {
    type V = Seq<T>;

    /// The live elements, in index order.
    closed spec fn view(&self) -> Seq<T> {
        Seq::new(self.len as nat, |i: int| self.elements@[i]->0)
    }
}

impl<T> ToyVec<T> {
    /// Total number of allocated slots, live or spare.
    pub closed spec fn spec_capacity(&self) -> nat {
        self.elements@.len()
    }

    /// Well-formedness: the live range fits in the buffer, live slots hold
    /// values, and spare slots hold the `None` placeholder.
    pub closed spec fn wf(&self) -> bool {
        &&& self.len <= self.elements@.len()
        &&& forall|i: int| 0 <= i < self.len ==> self.elements@[i] is Some
        &&& forall|i: int| self.len <= i < self.elements@.len() ==> self.elements@[i] is None
    }

    /// The capacity never falls below the number of live elements.
    pub proof fn lemma_capacity_bounds_length(&self)
        requires
            self.wf(),
        ensures
            self@.len() <= self.spec_capacity(),
    {
    }

    /// An empty container with no allocated slots.
    pub fn new() -> (v: Self)
        ensures
            v.wf(),
            v@ == Seq::<T>::empty(),
            v.spec_capacity() == 0,
    {
        Self::with_capacity(0)
    }

    /// An empty container with `capacity` pre-allocated (placeholder) slots.
    pub fn with_capacity(capacity: usize) -> (v: Self)
        ensures
            v.wf(),
            v@ == Seq::<T>::empty(),
            v.spec_capacity() == capacity,
    {
        let v = ToyVec { elements: Self::allocate_in_heap(capacity), len: 0 };
        proof {
            assert(v@ =~= Seq::<T>::empty());
        }
        v
    }

    /// A fresh buffer of `size` placeholder slots.
    fn allocate_in_heap(size: usize) -> (buffer: Vec<Option<T>>)
        ensures
            buffer@.len() == size,
            forall|i: int| 0 <= i < size ==> buffer@[i] is None,
    {
        let mut buffer: Vec<Option<T>> = Vec::new();
        while buffer.len() < size
            invariant
                buffer@.len() <= size,
                forall|i: int| 0 <= i < buffer@.len() ==> buffer@[i] is None,
            decreases size - buffer@.len(),
        {
            buffer.push(None);
        }
        buffer
    }

    /// Number of live elements.
    pub fn len(&self) -> (n: usize)
        ensures
            n == self@.len(),
    {
        self.len
    }

    /// Number of allocated slots.
    pub fn capacity(&self) -> (c: usize)
        ensures
            c == self.spec_capacity(),
    {
        self.elements.len()
    }

    /// Appends `element` at the end, growing the buffer first when it is
    /// full. The capacity never shrinks, and a container whose capacity
    /// matches the growth progression for its length keeps matching it.
    pub fn push(&mut self, element: T)
        requires
            old(self).wf(),
            old(self)@.len() == old(self).spec_capacity() ==> 2 * old(self).spec_capacity()
                <= usize::MAX,
        ensures
            final(self).wf(),
            final(self)@ == old(self)@.push(element),
            final(self)@.len() == old(self)@.len() + 1,
            final(self).spec_capacity() == capacity_after_push(
                old(self)@.len(),
                old(self).spec_capacity(),
            ),
            final(self).spec_capacity() >= old(self).spec_capacity(),
            old(self).spec_capacity() == capacity_after_appends(old(self)@.len())
                ==> final(self).spec_capacity() == capacity_after_appends(final(self)@.len()),
    {
        if self.len == self.capacity() {
            self.grow();
        }
        self.elements[self.len] = Some(element);
        self.len = self.len + 1;
        proof {
            assert(self@ =~= old(self)@.push(element));
        }
    }

    /// Removes and returns the last element, or `None` on an empty container.
    /// The vacated slot goes back to the placeholder, and the capacity stays
    /// exactly as it was.
    pub fn pop(&mut self) -> (removed: Option<T>)
        requires
            old(self).wf(),
        ensures
            final(self).wf(),
            final(self).spec_capacity() == old(self).spec_capacity(),
            old(self)@.len() == 0 ==> removed is None && final(self)@ == old(self)@,
            old(self)@.len() > 0 ==> (removed matches Some(element) && element == old(self)@.last()
                && final(self)@ == old(self)@.drop_last()),
    {
        if self.len == 0 {
            None
        } else {
            self.len = self.len - 1;
            let removed: Option<T> = self.elements[self.len].take();
            proof {
                assert(self@ =~= old(self)@.drop_last());
            }
            removed
        }
    }

    /// Returns a reference to the element at `index`, or `None` when `index`
    /// is at or beyond the live length. Never panics.
    pub fn get(&self, index: usize) -> (r: Option<&T>)
        requires
            self.wf(),
        ensures
            index < self@.len() ==> (r matches Some(element) && *element == self@[index as int]),
            index >= self@.len() ==> r is None,
    {
        if index < self.len {
            self.elements[index].as_ref()
        } else {
            None
        }
    }

    /// Returns the element at `index`, or `default` when `index` is out of
    /// the live range.
    pub fn get_or<'a>(&'a self, index: usize, default: &'a T) -> (r: &'a T)
        requires
            self.wf(),
        ensures
            index < self@.len() ==> *r == self@[index as int],
            index >= self@.len() ==> *r == *default,
    {
        match self.get(index) {
            Some(element) => element,
            None => default,
        }
    }

    /// Produces a read-only cursor over the live elements. The cursor holds a
    /// shared borrow of this container for its whole life, so no mutation of
    /// the container compiles while the cursor (or a reference it yielded) is
    /// alive. Its bound is a snapshot of the current length.
    pub fn iter<'vec>(&'vec self) -> (it: Iter<'vec, T>)
        requires
            self.wf(),
        ensures
            it.wf(),
            it@ == self@,
            it.spec_pos() == 0,
            it.remaining() == self@,
    {
        let it = Iter { elements: &self.elements, len: self.len, pos: 0 };
        proof {
            assert(it@ =~= self@);
            assert(it.remaining() =~= self@);
        }
        it
    }

    /// Reallocates the buffer to the next capacity of the growth progression
    /// (one slot from empty, double otherwise), moving every slot's value to
    /// the same index of the new buffer.
    #[verifier::loop_isolation(false)]
    fn grow(&mut self)
        requires
            old(self).wf(),
            2 * old(self).spec_capacity() <= usize::MAX,
        ensures
            final(self).wf(),
            final(self)@ == old(self)@,
            final(self).len == old(self).len,
            final(self).spec_capacity() == grown_capacity(old(self).spec_capacity()),
    {
        if self.elements.len() == 0 {
            self.elements = Self::allocate_in_heap(1);
            proof {
                assert(self@ =~= old(self)@);
            }
        } else {
            let new_capacity: usize = self.elements.len() * 2;
            let mut old_elements: Vec<Option<T>> = Self::allocate_in_heap(new_capacity);
            core::mem::swap(&mut self.elements, &mut old_elements);
            let ghost orig: Seq<Option<T>> = old_elements@;
            let mut i: usize = 0;
            while i < old_elements.len()
                invariant
                    i <= orig.len(),
                    old_elements@.len() == orig.len(),
                    forall|j: int| i <= j < orig.len() ==> old_elements@[j] == orig[j],
                    self.elements@.len() == new_capacity,
                    forall|j: int| 0 <= j < i ==> self.elements@[j] == orig[j],
                    forall|j: int| i <= j < new_capacity ==> self.elements@[j] is None,
                    self.len == old(self).len,
                decreases old_elements@.len() - i,
            {
                let moved: Option<T> = old_elements[i].take();
                self.elements[i] = moved;
                i = i + 1;
            }
            proof {
                assert forall|k: int| 0 <= k < self.len implies self.elements@[k] is Some by {
                    assert(self.elements@[k] == orig[k]);
                    assert(old(self).elements@[k] is Some);
                }
                assert forall|k: int|
                    self.len <= k < self.elements@.len() implies self.elements@[k] is None by {
                    if k < orig.len() {
                        assert(self.elements@[k] == orig[k]);
                        assert(old(self).elements@[k] is None);
                    }
                }
                assert(self@ =~= old(self)@);
            }
        }
    }
}

/// A lazy forward cursor over the live elements of a `ToyVec`, bound to a
/// shared borrow of the container: the borrow checker rejects any mutation of
/// the source while the cursor or a yielded reference is alive.
pub struct Iter<'vec, T> {
    elements: &'vec Vec<Option<T>>,
    len: usize,
    pos: usize,
}

impl<'vec, T> View for Iter<'vec, T> {
    type V = Seq<T>;

    /// The snapshot of the live elements taken when the cursor was created.
    closed spec fn view(&self) -> Seq<T> {
        Seq::new(self.len as nat, |i: int| self.elements@[i]->0)
    }
}

impl<'vec, T> Iter<'vec, T> {
    /// Well-formedness: the position never passes the bound, and the bound
    /// fits in the borrowed buffer's live prefix.
    pub closed spec fn wf(&self) -> bool {
        &&& self.pos <= self.len
        &&& self.len <= self.elements@.len()
        &&& forall|i: int| 0 <= i < self.len ==> self.elements@[i] is Some
    }

    /// Index of the next element to yield.
    pub closed spec fn spec_pos(&self) -> nat {
        self.pos as nat
    }

    /// The elements still to be yielded, in the order they will come.
    pub open spec fn remaining(&self) -> Seq<T> {
        self@.subrange(self.spec_pos() as int, self@.len() as int)
    }

    /// Yields a reference to the next element and advances, or returns `None`
    /// once the bound is reached; the exhausted state is terminal, so further
    /// calls keep returning `None` and change nothing.
    pub fn next(&mut self) -> (r: Option<&'vec T>)
        requires
            old(self).wf(),
        ensures
            final(self).wf(),
            final(self)@ == old(self)@,
            old(self).spec_pos() < old(self)@.len() ==> (r matches Some(element)
                && *element == old(self)@[old(self).spec_pos() as int]
                && final(self).spec_pos() == old(self).spec_pos() + 1
                && old(self).remaining() == seq![*element] + final(self).remaining()),
            old(self).spec_pos() >= old(self)@.len() ==> (r is None
                && final(self).spec_pos() == old(self).spec_pos()
                && final(self).remaining() == Seq::<T>::empty()),
    {
        if self.pos >= self.len {
            proof {
                assert(self.remaining() =~= Seq::<T>::empty());
            }
            None
        } else {
            let elements: &'vec Vec<Option<T>> = self.elements;
            let r: Option<&'vec T> = elements[self.pos].as_ref();
            self.pos = self.pos + 1;
            proof {
                assert(old(self).remaining() =~= seq![old(self)@[old(self).spec_pos() as int]]
                    + self.remaining());
            }
            r
        }
    }
}

/// Law: appending a value and immediately removing from the end returns that
/// value and restores the previous contents (the capacity may stay enlarged:
/// `push` never shrinks it and `pop` keeps it exactly).
pub proof fn lemma_push_pop_round_trip<T>(contents: Seq<T>, value: T)
    ensures
        contents.push(value).len() == contents.len() + 1,
        contents.push(value).last() == value,
        contents.push(value).drop_last() == contents,
{
    assert(contents.push(value).drop_last() =~= contents);
}

/// Law: starting from capacity 0, the capacity after `count` appends is a
/// power of two at least `count` (the first growth allocates a single slot,
/// every later growth doubles), and is below twice `count`.
pub proof fn lemma_capacity_doubling(count: nat)
    requires
        count > 0,
    ensures
        is_pow2(capacity_after_appends(count)),
        capacity_after_appends(count) >= count,
        capacity_after_appends(count) < 2 * count,
    decreases count,
{
    if count == 1 {
        assert(capacity_after_appends(1) == grown_capacity(capacity_after_appends(0)));
    } else {
        let prev_count = (count - 1) as nat;
        let prev = capacity_after_appends(prev_count);
        lemma_capacity_doubling(prev_count);
        assert(capacity_after_appends(count) == capacity_after_push(prev_count, prev));
        if prev_count < prev {
            assert(capacity_after_push(prev_count, prev) == prev);
        } else {
            assert(prev == prev_count);
            assert(capacity_after_push(prev_count, prev) == 2 * prev);
            assert((2 * prev) % 2 == 0 && (2 * prev) / 2 == prev);
            assert(is_pow2(2 * prev));
        }
    }
}

/// Any two distinct powers of two differ by at least a factor of two.
proof fn lemma_pow2_ordering(small: nat, large: nat)
    requires
        is_pow2(small),
        is_pow2(large),
        small < large,
    ensures
        2 * small <= large,
    decreases small,
{
    if small > 1 {
        lemma_pow2_ordering(small / 2, large / 2);
    }
}

/// Law: the capacity after `count` appends from an empty container is the
/// smallest power of two that can hold `count` elements.
pub proof fn lemma_capacity_is_minimal(count: nat, other: nat)
    requires
        count > 0,
        is_pow2(other),
        other >= count,
    ensures
        capacity_after_appends(count) <= other,
{
    lemma_capacity_doubling(count);
    if other < capacity_after_appends(count) {
        lemma_pow2_ordering(other, capacity_after_appends(count));
    }
}

} // verus!
