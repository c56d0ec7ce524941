//! The growable array: a contiguous, heap-backed sequence container.
//!
//! A `JVec<T>` owns one buffer obtained from a [`ByteAllocator`], laid
//! out for `capacity` elements of `T`. It is created empty with no
//! allocation, grows only through `push`, and reads through `get`;
//! `destroy` drops the container, releasing the buffer with the exact
//! layout it was allocated with and handing the elements back to the
//! caller, whose drop of them is the drop of the container's contents.

use vstd::layout::align_of;
use vstd::layout::layout_for_type_is_valid;
use vstd::layout::size_of;
use vstd::prelude::*;

use crate::allocator::countdown_after_call;
use crate::allocator::ByteAllocator;
use crate::capacity::cap_for;
use crate::capacity::lemma_cap_for_at_least;
use crate::capacity::lemma_cap_for_succ_full;
use crate::capacity::lemma_cap_for_succ_within;
use crate::capacity::INITIAL_CAPACITY;

verus! {

/// Why an append failed. On failure the container is unchanged and the
/// rejected value is handed back beside the error.
#[derive(Debug, Clone, Copy, PartialEq, Eq)]
pub enum JVecError {
    /// Computing the next buffer size — the doubled slot count, or the
    /// byte count for it — would overflow the platform size type. The
    /// check is made before the allocator is called.
    CapacityOverflow,
    /// The allocator could not satisfy the requested `(size, alignment)`.
    AllocationFailure,
}

/// A growable, contiguous sequence container: a buffer sized for
/// `capacity` elements, of which the first `length` are the values
/// appended so far, in order.
#[derive(Debug)]
pub struct JVec<T> {
    elems: Vec<T>,
    cap: usize,
    buf: usize,
}

impl<T> View for JVec<T> {
    type V = Seq<T>;

    /// The values appended so far, in append order.
    closed spec fn view(&self) -> Seq<T> {
        self.elems@
    }
}

impl<T> JVec<T> {
    /// How many element slots the buffer holds.
    pub closed spec fn spec_capacity(&self) -> usize {
        self.cap
    }

    /// The allocator's identifier for the buffer; meaningful only while
    /// the capacity is positive.
    pub closed spec fn buffer_id(self) -> usize {
        self.buf
    }

    /// How many bytes the buffer occupies: `capacity * size_of::<T>()`.
    pub open spec fn buffer_bytes(self) -> int {
        self.spec_capacity() * size_of::<T>()
    }

    /// The container's invariant: the capacity is exactly what the growth
    /// policy gives for the current length — so the length fits in the
    /// buffer — and the buffer's byte size fits the platform size type.
    pub closed spec fn wf(self) -> bool {
        &&& self.cap == cap_for(self.elems@.len() as nat)
        &&& self.elems@.len() <= self.cap
        &&& self.cap * size_of::<T>() <= usize::MAX
    }

    /// The container's buffer is on the allocator's books, with the
    /// exact layout the container will release it with.
    pub open spec fn owns_buffer(self, a: ByteAllocator) -> bool {
        self.spec_capacity() > 0 ==> a.live().contains_pair(
            self.buffer_id(),
            (self.buffer_bytes() as usize, align_of::<T>() as usize),
        )
    }

    /// The allocator's live regions apart from the container's buffer.
    pub open spec fn live_without_buffer(self, a: ByteAllocator) -> Map<usize, (usize, usize)> {
        if self.spec_capacity() == 0 {
            a.live()
        } else {
            a.live().remove(self.buffer_id())
        }
    }

    /// The slot count an append into a full buffer asks for: the initial
    /// capacity on the first allocation, twice the capacity afterwards.
    pub open spec fn next_capacity(self) -> int {
        if self.spec_capacity() == 0 {
            INITIAL_CAPACITY as int
        } else {
            2 * self.spec_capacity()
        }
    }

    /// Whether computing the next buffer size would overflow the
    /// platform size type: the doubled slot count, or its byte count.
    pub open spec fn grow_would_overflow(self) -> bool {
        ||| self.next_capacity() > usize::MAX
        ||| self.next_capacity() * size_of::<T>() > usize::MAX
    }

    /// Whether an append would succeed: there is room, or the buffer can
    /// be grown — no size overflow, and the allocator satisfies the one
    /// allocation call the growth makes.
    pub open spec fn append_would_succeed(self, a: ByteAllocator) -> bool {
        ||| self@.len() < self.spec_capacity()
        ||| {
            &&& !self.grow_would_overflow()
            &&& if self.spec_capacity() == 0 {
                a.can_allocate(self.next_capacity() * size_of::<T>())
            } else {
                a.can_reallocate(self.buffer_bytes(), self.next_capacity() * size_of::<T>())
            }
        }
    }

    /// An empty container: no elements, no buffer, no allocation.
    pub fn new() -> (v: Self)
        ensures
            v.wf(),
            v@ == Seq::<T>::empty(),
            v.spec_capacity() == 0,
    {
        JVec { elems: Vec::new(), cap: 0, buf: 0 }
    }

    /// How many elements the container holds.
    pub fn len(&self) -> (n: usize)
        ensures
            n == self@.len(),
    {
        self.elems.len()
    }

    /// How many element slots the buffer holds.
    #[verifier::when_used_as_spec(spec_capacity)]
    pub fn capacity(&self) -> (c: usize)
        ensures
            c == self.spec_capacity(),
    {
        self.cap
    }

    /// The element at `index`, or absent when `index` is not below the
    /// length. Out of range is a normal result, not an error.
    pub fn get(&self, index: usize) -> (r: Option<&T>)
        ensures
            index < self@.len() ==> r == Some(&self@[index as int]),
            index >= self@.len() ==> r is None,
    {
        if index < self.elems.len() {
            Some(&self.elems[index])
        } else {
            None
        }
    }

    /// Appends `value` at position `length`. When the buffer is full, it
    /// is first grown through the allocator: the initial allocation asks
    /// for `INITIAL_CAPACITY` slots, every later growth doubles the slot
    /// count, moving the contents bytewise. On failure — size overflow,
    /// found before the allocator is called, or a refused allocation —
    /// the container and the buffer are unchanged and the value comes
    /// back beside the error.
    pub fn push(&mut self, a: &mut ByteAllocator, value: T) -> (r: Result<(), (JVecError, T)>)
        requires
            old(self).wf(),
            old(a).wf(),
            old(self).owns_buffer(*old(a)),
        ensures
            final(self).wf(),
            final(a).wf(),
            final(self).owns_buffer(*final(a)),
            r is Ok <==> old(self).append_would_succeed(*old(a)),
            match r {
                Ok(()) => {
                    &&& final(self)@ == old(self)@.push(value)
                    &&& final(self).spec_capacity() == cap_for(final(self)@.len() as nat)
                },
                Err((e, rejected)) => {
                    &&& rejected == value
                    &&& final(self)@ == old(self)@
                    &&& final(self).spec_capacity() == old(self).spec_capacity()
                    &&& final(self).buffer_id() == old(self).buffer_id()
                    &&& (e == JVecError::CapacityOverflow <==> old(self).grow_would_overflow())
                    &&& (e == JVecError::AllocationFailure <==> !old(self).grow_would_overflow())
                },
            },
            old(self)@.len() < old(self).spec_capacity() ==> {
                &&& *final(a) == *old(a)
                &&& final(self).spec_capacity() == old(self).spec_capacity()
                &&& final(self).buffer_id() == old(self).buffer_id()
            },
            old(self)@.len() == old(self).spec_capacity() && old(self).grow_would_overflow()
                ==> *final(a) == *old(a),
            old(self)@.len() == old(self).spec_capacity() && !old(self).grow_would_overflow()
                ==> {
                &&& final(a).fail_countdown() == countdown_after_call(old(a).fail_countdown())
                &&& (r is Err ==> final(a).live() == old(a).live() && final(a).outstanding()
                    == old(a).outstanding() && final(a).ids_left() == old(a).ids_left())
                &&& (r is Ok ==> {
                    &&& final(a).ids_left() == old(a).ids_left() - 1
                    &&& final(self).spec_capacity() == old(self).next_capacity()
                    &&& !old(self).live_without_buffer(*old(a)).dom().contains(
                        final(self).buffer_id(),
                    )
                    &&& final(a).live() == old(self).live_without_buffer(*old(a)).insert(
                        final(self).buffer_id(),
                        (final(self).buffer_bytes() as usize, align_of::<T>() as usize),
                    )
                    &&& final(a).outstanding() == old(a).outstanding()
                        + final(self).buffer_bytes() - old(self).buffer_bytes()
                })
            },
    {
        layout_for_type_is_valid::<T>();
        if self.elems.len() < self.cap {
            proof {
                lemma_cap_for_succ_within(self.elems@.len() as nat);
            }
            self.elems.push(value);
            Ok(())
        } else if self.cap == 0 {
            let size = core::mem::size_of::<T>();
            match INITIAL_CAPACITY.checked_mul(size) {
                None => Err((JVecError::CapacityOverflow, value)),
                Some(bytes) => {
                    match a.allocate(bytes, core::mem::align_of::<T>()) {
                        None => Err((JVecError::AllocationFailure, value)),
                        Some(id) => {
                            proof {
                                lemma_cap_for_succ_full(self.elems@.len() as nat);
                            }
                            self.buf = id;
                            self.cap = INITIAL_CAPACITY;
                            self.elems.push(value);
                            Ok(())
                        },
                    }
                },
            }
        } else {
            let size = core::mem::size_of::<T>();
            match self.cap.checked_mul(2) {
                None => Err((JVecError::CapacityOverflow, value)),
                Some(new_cap) => {
                    match new_cap.checked_mul(size) {
                        None => Err((JVecError::CapacityOverflow, value)),
                        Some(new_bytes) => {
                            let old_bytes = self.cap * size;
                            match a.reallocate(
                                self.buf,
                                old_bytes,
                                core::mem::align_of::<T>(),
                                new_bytes,
                            ) {
                                None => Err((JVecError::AllocationFailure, value)),
                                Some(new_id) => {
                                    proof {
                                        lemma_cap_for_succ_full(self.elems@.len() as nat);
                                    }
                                    self.buf = new_id;
                                    self.cap = new_cap;
                                    self.elems.push(value);
                                    Ok(())
                                },
                            }
                        },
                    }
                },
            }
        }
    }

    /// Destroys the container: releases the buffer to the allocator with
    /// the exact `(size, alignment)` it was allocated with — after which
    /// no bytes attributable to the container are outstanding — and
    /// returns the elements to the caller, whose drop of them drops the
    /// container's contents.
    pub fn destroy(self, a: &mut ByteAllocator) -> (elems: Vec<T>)
        requires
            self.wf(),
            old(a).wf(),
            self.owns_buffer(*old(a)),
        ensures
            final(a).wf(),
            elems@ == self@,
            final(a).live() == self.live_without_buffer(*old(a)),
            old(a).outstanding() == final(a).outstanding() + self.buffer_bytes(),
            final(a).fail_countdown() == old(a).fail_countdown(),
    {
        layout_for_type_is_valid::<T>();
        let JVec { elems, cap, buf } = self;
        if cap > 0 {
            let bytes = cap * core::mem::size_of::<T>();
            a.free(buf, bytes, core::mem::align_of::<T>());
        }
        elems
    }
}

/// The container's standing invariant, which `new` establishes and
/// `push` keeps: after any sequence of appends from the empty container
/// the capacity is exactly what the growth policy gives for the length —
/// 0 while nothing has been appended, else the smallest `4 * 2^k` that
/// is at least the length — so the capacity is never below the length,
/// and the buffer's byte size fits the platform size type.
pub proof fn lemma_container_invariant<T>(v: JVec<T>)
    requires
        v.wf(),
    ensures
        v.spec_capacity() == cap_for(v@.len() as nat),
        v@.len() <= v.spec_capacity(),
        (v.spec_capacity() == 0 <==> v@.len() == 0),
        v.buffer_bytes() <= usize::MAX,
{
    lemma_cap_for_at_least(v@.len() as nat);
}

/// Appending then reading yields identity: a read below the old length
/// sees the value already there, and the read at the old length sees the
/// value just appended.
pub proof fn lemma_append_then_read<T>(s: Seq<T>, value: T, i: int)
    requires
        0 <= i <= s.len(),
    ensures
        i < s.len() ==> s.push(value)[i] == s[i],
        i == s.len() ==> s.push(value)[i] == value,
{
}

} // verus!
