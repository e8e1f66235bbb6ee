//! The two ends of a ring buffer. Each end owns its cursor; both reach the
//! storage through one shared lock, which keeps the ring well formed.
use vstd::prelude::*;
use vstd::rwlock::{RwLock, RwLockPredicate};
use std::sync::Arc;
use crate::ring::{DirectRingBuffer, accepts_spans, accepts_read_spans};
use crate::window::{advance_index, cursor_after, valid_cursor, transfer_limit};

verus! {

/// What the lock promises of the ring it holds: it is well formed and keeps
/// the capacity it was created with.
pub struct RingBounds {
    pub capacity: nat,
}

impl<T> RwLockPredicate<DirectRingBuffer<T>> for RingBounds {
    open spec fn inv(self, v: DirectRingBuffer<T>) -> bool {
        v@.wf() && v@.capacity() == self.capacity
    }
}

/// The shared storage, behind its lock.
pub type SharedRing<T> = RwLock<DirectRingBuffer<T>, RingBounds>;

/// Producer part of the ring buffer.
///
/// The consumer may move between any two calls of this end, so a contract
/// here fixes what this end alone decides: its cursor, which moves by
/// exactly what was written, the capacity, and bounds on each count. What a
/// call does to the shared ring is the contract of the [`DirectRingBuffer`]
/// method it makes under the lock.
pub struct Producer<T> {
    buffer: Arc<SharedRing<T>>,
    index: usize,
}

impl<T> Producer<T> {
    #[verifier::type_invariant]
    spec fn cursor_in_storage(self) -> bool {
        valid_cursor(self.buffer.pred().capacity, self.index as nat)
    }

    /// The number of slots of the ring.
    pub closed spec fn capacity(&self) -> nat {
        self.buffer.pred().capacity
    }

    /// The slot the next write goes to.
    pub closed spec fn cursor(&self) -> nat {
        self.index as nat
    }

    /// The storage this end writes to.
    pub closed spec fn ring(&self) -> SharedRing<T> {
        *self.buffer
    }

    /// Returns the number of elements available for writing.
    pub fn available(&self) -> (r: usize)
        ensures
            r <= self.capacity(),
    {
        let handle = self.buffer.acquire_read();
        let r = handle.borrow().available_write();
        handle.release_read();
        r
    }

    /// Writes elements through `f`, which is handed the free slots as at
    /// most two contiguous spans (the second only where the first ends at the
    /// physical end of the storage), each with the number of elements already
    /// written in this call. `f` returns how many leading elements of its span
    /// it wrote; a count short of the span ends the call. At most `max_size`
    /// elements are offered, if given. Returns the number written.
    ///
    /// `f` must leave the length of each span as it was, as any safe Rust
    /// body does; Verus cannot see that of a `&mut [T]` by itself.
    pub fn write_slices<F: FnMut(&mut [T], usize) -> usize>(&mut self, f: F, max_size: Option<usize>) -> (r: usize)
        requires
            accepts_spans(f),
            forall|s: &mut [T], o: usize, d: usize|
                call_ensures(f, (s, o), d) ==> (*final(s))@.len() == (*s)@.len(),
        ensures
            r <= old(self).capacity(),
            r <= transfer_limit(old(self).capacity(), max_size),
            final(self).capacity() == old(self).capacity(),
            final(self).ring() == old(self).ring(),
            final(self).cursor() == cursor_after(old(self).capacity(), old(self).cursor(), r as nat),
    {
        proof {
            use_type_invariant(&*self);
        }
        let (mut ring, guard) = self.buffer.acquire_write();
        let mut index = self.index;
        let (r, _returned) = ring.process_write_slices(&mut index, f, max_size);
        self.index = index;
        proof {
            let n = ring@.capacity();
            if n > 0 {
                vstd::arithmetic::div_mod::lemma_mod_bound((old(self).index + r) as int, n as int);
            }
        }
        guard.release_write(ring);
        r
    }

    /// Older name of [`Producer::write_slices`].
    pub fn write<F: FnMut(&mut [T], usize) -> usize>(&mut self, f: F, max_size: Option<usize>) -> (r: usize)
        requires
            accepts_spans(f),
            forall|s: &mut [T], o: usize, d: usize|
                call_ensures(f, (s, o), d) ==> (*final(s))@.len() == (*s)@.len(),
        ensures
            r <= old(self).capacity(),
            r <= transfer_limit(old(self).capacity(), max_size),
            final(self).capacity() == old(self).capacity(),
            final(self).ring() == old(self).ring(),
            final(self).cursor() == cursor_after(old(self).capacity(), old(self).cursor(), r as nat),
    {
        self.write_slices(f, max_size)
    }

    /// Writes a single element; `false` when the ring was full.
    pub fn write_element(&mut self, value: T) -> (r: bool)
        ensures
            final(self).capacity() == old(self).capacity(),
            final(self).ring() == old(self).ring(),
            old(self).capacity() == 0 ==> !r,
            final(self).cursor() == if r {
                advance_index(old(self).capacity(), old(self).cursor(), 1)
            } else {
                old(self).cursor()
            },
    {
        proof {
            use_type_invariant(&*self);
        }
        let (mut ring, guard) = self.buffer.acquire_write();
        let mut index = self.index;
        let r = ring.write_element(&mut index, value);
        self.index = index;
        guard.release_write(ring);
        r
    }
}

/// Consumer part of the ring buffer.
///
/// As for [`Producer`], the contracts here fix this end's cursor, which
/// moves by exactly what was read, and bounds on each count; the effect on
/// the shared ring is that of the [`DirectRingBuffer`] method each call
/// makes under the lock.
pub struct Consumer<T> {
    buffer: Arc<SharedRing<T>>,
    index: usize,
}

impl<T> Consumer<T> {
    #[verifier::type_invariant]
    spec fn cursor_in_storage(self) -> bool {
        valid_cursor(self.buffer.pred().capacity, self.index as nat)
    }

    /// The number of slots of the ring.
    pub closed spec fn capacity(&self) -> nat {
        self.buffer.pred().capacity
    }

    /// The slot the next read comes from.
    pub closed spec fn cursor(&self) -> nat {
        self.index as nat
    }

    /// The storage this end reads from.
    pub closed spec fn ring(&self) -> SharedRing<T> {
        *self.buffer
    }

    /// Returns the number of elements available for reading.
    pub fn available(&self) -> (r: usize)
        ensures
            r <= self.capacity(),
    {
        let handle = self.buffer.acquire_read();
        let r = handle.borrow().available_read();
        handle.release_read();
        r
    }

    /// Reads elements through `f`, which is handed the unread elements as at
    /// most two contiguous spans (the second only where the first ends at the
    /// physical end of the storage), each with the number of elements already
    /// read in this call. `f` returns how many leading elements of its span it
    /// consumed; a count short of the span ends the call. At most `max_size`
    /// elements are offered, if given. Returns the number read.
    pub fn read_slices<F: FnMut(&[T], usize) -> usize>(&mut self, f: F, max_size: Option<usize>) -> (r: usize)
        requires
            accepts_read_spans(f),
        ensures
            r <= old(self).capacity(),
            r <= transfer_limit(old(self).capacity(), max_size),
            final(self).capacity() == old(self).capacity(),
            final(self).ring() == old(self).ring(),
            final(self).cursor() == cursor_after(old(self).capacity(), old(self).cursor(), r as nat),
    {
        proof {
            use_type_invariant(&*self);
        }
        let (mut ring, guard) = self.buffer.acquire_write();
        let mut index = self.index;
        let (r, _returned) = ring.process_read_slices(&mut index, f, max_size);
        self.index = index;
        proof {
            let n = ring@.capacity();
            if n > 0 {
                vstd::arithmetic::div_mod::lemma_mod_bound((old(self).index + r) as int, n as int);
            }
        }
        guard.release_write(ring);
        r
    }

    /// Older name of [`Consumer::read_slices`].
    pub fn read<F: FnMut(&[T], usize) -> usize>(&mut self, f: F, max_size: Option<usize>) -> (r: usize)
        requires
            accepts_read_spans(f),
        ensures
            r <= old(self).capacity(),
            r <= transfer_limit(old(self).capacity(), max_size),
            final(self).capacity() == old(self).capacity(),
            final(self).ring() == old(self).ring(),
            final(self).cursor() == cursor_after(old(self).capacity(), old(self).cursor(), r as nat),
    {
        self.read_slices(f, max_size)
    }

    /// Reads a single element; `None` when the ring was empty.
    pub fn read_element(&mut self) -> (r: Option<T>)
        where
            T: Copy,
        ensures
            final(self).capacity() == old(self).capacity(),
            final(self).ring() == old(self).ring(),
            old(self).capacity() == 0 ==> r is None,
            final(self).cursor() == if r is Some {
                advance_index(old(self).capacity(), old(self).cursor(), 1)
            } else {
                old(self).cursor()
            },
    {
        proof {
            use_type_invariant(&*self);
        }
        let (mut ring, guard) = self.buffer.acquire_write();
        let mut index = self.index;
        let r = ring.read_element(&mut index);
        self.index = index;
        guard.release_write(ring);
        r
    }
}

/// Creates a ring buffer of `size` slots and returns its two ends.
pub fn create_ring_buffer<T: Copy + Default>(size: usize) -> (r: (Producer<T>, Consumer<T>))
    ensures
        r.0.capacity() == size,
        r.1.capacity() == size,
        r.0.cursor() == 0,
        r.1.cursor() == 0,
        r.0.ring() == r.1.ring(),
{
    let ring = DirectRingBuffer::new(size, T::default());
    let buffer = Arc::new(RwLock::new(ring, Ghost(RingBounds { capacity: size as nat })));
    let producer = Producer { buffer: Arc::clone(&buffer), index: 0 };
    (producer, Consumer { buffer, index: 0 })
}

} // verus!
