//! The storage shared by the two ends of a ring buffer and the count of
//! slots that hold unread data.
use vstd::prelude::*;
use crate::window::{
    advance_index, cursor_after, valid_cursor, ring_window, transfer_limit, runs_offered,
    run_start, run_offset, run_length, transfer_total, first_run, lemma_advance_is_modular,
    limit_of, next_run, clamp_done, lemma_mod_within, ring_offset, run_done,
};

verus! {

/// The abstract state of a ring: its slots, and how many of them, counted
/// from the consumer's cursor, hold unread data.
pub struct RingView<T> {
    pub slots: Seq<T>,
    pub used: nat,
}

impl<T> RingView<T> {
    pub open spec fn capacity(self) -> nat {
        self.slots.len()
    }

    pub open spec fn wf(self) -> bool {
        self.used <= self.capacity()
    }

    pub open spec fn available_read(self) -> nat {
        self.used
    }

    pub open spec fn available_write(self) -> nat {
        (self.capacity() - self.used) as nat
    }

    /// The unread data, oldest first, for a consumer whose cursor is `read`.
    pub open spec fn contents(self, read: nat) -> Seq<T> {
        ring_window(self.slots, read, self.used)
    }

    /// The ring after one element is put in the free slot `at`.
    pub open spec fn written(self, at: nat, value: T) -> RingView<T> {
        RingView { slots: self.slots.update(at as int, value), used: self.used + 1 }
    }

    /// The ring after the oldest element is taken.
    pub open spec fn taken(self) -> RingView<T> {
        RingView { slots: self.slots, used: (self.used - 1) as nat }
    }

    /// The ring after its `count` oldest elements are taken at once.
    pub open spec fn batch_taken(self, count: nat) -> RingView<T> {
        RingView { slots: self.slots, used: (self.used - count) as nat }
    }

    /// `after` is this ring once `count` elements were written from cursor
    /// `write`, in a transfer that could touch the `limit` slots from there:
    /// slots beyond those keep their elements.
    pub open spec fn batch_written(self, after: RingView<T>, write: nat, limit: nat, count: nat) -> bool {
        &&& after.capacity() == self.capacity()
        &&& after.used == self.used + count
        &&& count <= limit
        &&& forall|p: int|
            0 <= p < self.capacity() && ring_offset(self.capacity(), write, p as nat) >= limit
                ==> #[trigger] after.slots[p] == self.slots[p]
    }

    /// The producer's cursor sits right after the unread data.
    pub open spec fn cursors_agree(self, read: nat, write: nat) -> bool {
        &&& valid_cursor(self.capacity(), read)
        &&& valid_cursor(self.capacity(), write)
        &&& write == cursor_after(self.capacity(), read, self.used)
    }
}

/// Fixed storage of `capacity` slots and the number of them in use.
pub struct DirectRingBuffer<T> {
    elements: Vec<T>,
    used: usize,
}

impl<T> View for DirectRingBuffer<T> {
    type V = RingView<T>;

    closed spec fn view(&self) -> RingView<T> {
        RingView { slots: self.elements@, used: self.used as nat }
    }
}

impl<T: Copy> DirectRingBuffer<T> {
    /// An empty ring of `capacity` slots, each set to `fill`.
    pub fn new(capacity: usize, fill: T) -> (r: Self)
        ensures
            r@.wf(),
            r@.slots == Seq::new(capacity as nat, |i: int| fill),
            r@.used == 0,
    {
        let mut elements: Vec<T> = Vec::new();
        while elements.len() < capacity
            invariant
                elements@.len() <= capacity,
                forall|i: int| 0 <= i < elements@.len() ==> elements@[i] == fill,
            decreases capacity - elements@.len(),
        {
            elements.push(fill);
        }
        assert(elements@ =~= Seq::new(capacity as nat, |i: int| fill));
        DirectRingBuffer { elements, used: 0 }
    }

    /// Takes the oldest unread element, if there is one.
    pub fn read_element(&mut self, index: &mut usize) -> (r: Option<T>)
        requires
            old(self)@.wf(),
            valid_cursor(old(self)@.capacity(), *old(index) as nat),
        ensures
            final(self)@.wf(),
            old(self)@.used == 0 ==> r is None && final(self)@ == old(self)@ && *final(index)
                == *old(index),
            old(self)@.used > 0 ==> r == Some(old(self)@.slots[*old(index) as int])
                && final(self)@ == old(self)@.taken() && *final(index) == advance_index(
                old(self)@.capacity(),
                *old(index) as nat,
                1,
            ),
    {
        if self.available_read() == 0 {
            None
        } else {
            let ret = Some(self.elements[*index]);
            self.wraparound_index(index, 1);
            self.used = self.used - 1;
            ret
        }
    }

}

/// The body accepts every span and offset it may be handed.
pub open spec fn accepts_spans<T, F: FnMut(&mut [T], usize) -> usize>(f: F) -> bool {
    forall|s: &mut [T], o: usize| call_requires(f, (s, o))
}

/// The body, handed a span of `length` slots at transfer offset `offset`,
/// may return `returned`.
pub open spec fn write_body_returned<T, F: FnMut(&mut [T], usize) -> usize>(
    f: F,
    length: nat,
    offset: usize,
    returned: usize,
) -> bool {
    exists|s: &mut [T]| (*s)@.len() == length && #[trigger] call_ensures(f, (s, offset), returned)
}

/// The body accepts every read-only span and offset it may be handed.
pub open spec fn accepts_read_spans<T, F: FnMut(&[T], usize) -> usize>(f: F) -> bool {
    forall|s: &[T], o: usize| call_requires(f, (s, o))
}

/// The body, handed the span `span` at transfer offset `offset`, may return
/// `returned`.
pub open spec fn read_body_returned<T, F: FnMut(&[T], usize) -> usize>(
    f: F,
    span: Seq<T>,
    offset: usize,
    returned: usize,
) -> bool {
    exists|s: &[T]| s@ == span && #[trigger] call_ensures(f, (s, offset), returned)
}

/// The slots that run `i` of a transfer covers.
pub open spec fn run_span<T>(slots: Seq<T>, cursor: nat, limit: nat, i: nat) -> Seq<T> {
    let start = run_start(slots.len(), cursor, limit, i) as int;
    slots.subrange(start, start + run_length(slots.len(), cursor, limit, i))
}

impl<T> DirectRingBuffer<T> {
    /// Puts `value` in the slot at the producer's cursor, if one is free.
    pub fn write_element(&mut self, index: &mut usize, value: T) -> (r: bool)
        requires
            old(self)@.wf(),
            valid_cursor(old(self)@.capacity(), *old(index) as nat),
        ensures
            final(self)@.wf(),
            r == (old(self)@.used < old(self)@.capacity()),
            !r ==> final(self)@ == old(self)@ && *final(index) == *old(index),
            r ==> final(self)@ == old(self)@.written(*old(index) as nat, value) && *final(index)
                == advance_index(
                old(self)@.capacity(),
                *old(index) as nat,
                1,
            ),
    {
        if self.available_write() == 0 {
            false
        } else {
            self.elements.set(*index, value);
            self.wraparound_index(index, 1);
            self.used = self.used + 1;
            true
        }
    }

    /// Offers the unread slots after the consumer's cursor to `f`, as at
    /// most two contiguous runs (the tail of the storage, then its head), and
    /// releases as read what `f` reports.
    ///
    /// The result also holds, as ghost, what `f` returned for each run.
    pub fn process_read_slices<F: FnMut(&[T], usize) -> usize>(
        &mut self,
        index: &mut usize,
        mut f: F,
        max_size: Option<usize>,
    ) -> (r: (usize, Ghost<Seq<usize>>))
        requires
            old(self)@.wf(),
            valid_cursor(old(self)@.capacity(), *old(index) as nat),
            accepts_read_spans(f),
        ensures
            ({
                let n = old(self)@.capacity();
                let c = *old(index) as nat;
                let limit = transfer_limit(old(self)@.available_read(), max_size);
                let returned = r.1@;
                &&& returned.len() == runs_offered(n, c, limit, returned)
                &&& r.0 == transfer_total(n, c, limit, returned)
                &&& r.0 <= limit
                &&& forall|i: int|
                    0 <= i < returned.len() ==> read_body_returned(
                        f,
                        run_span(old(self)@.slots, c, limit, i as nat),
                        run_offset(n, c, limit, i as nat) as usize,
                        #[trigger] returned[i],
                    )
                &&& final(self)@.wf()
                &&& final(self)@ == old(self)@.batch_taken(r.0 as nat)
                &&& *final(index) == cursor_after(n, c, r.0 as nat)
            }),
    {
        let ghost n = self@.capacity();
        let ghost c = *index as nat;
        let ghost body = f;
        let capacity = self.elements.len();
        let available = self.available_read();
        let limit = limit_of(available, max_size);
        let mut total: usize = 0;
        let ghost mut returned: Seq<usize> = Seq::empty();
        proof {
            if n > 0 {
                lemma_mod_within(c as int, n as int);
            }
        }
        while total < limit
            invariant_except_break
                returned.len() == 0 ==> total == 0 && *index == c,
                returned.len() >= 1 ==> limit > 0,
                returned.len() >= 1 ==> run_done(returned[0] as nat, first_run(n, c, limit as nat))
                    == first_run(n, c, limit as nat),
                returned.len() == 1 ==> total == first_run(n, c, limit as nat) && (total < limit
                    ==> *index == 0),
                returned.len() == 2 ==> first_run(n, c, limit as nat) < limit && total == limit
                    && run_done(returned[1] as nat, (limit - first_run(n, c, limit as nat)) as nat) == limit
                    - first_run(n, c, limit as nat),
                returned.len() <= 2,
            invariant
                forall|i: int|
                    0 <= i < returned.len() ==> read_body_returned(
                        f,
                        run_span(self@.slots, c, limit as nat, i as nat),
                        run_offset(n, c, limit as nat, i as nat) as usize,
                        #[trigger] returned[i],
                    ),
                capacity == n,
                f == body,
                self@ == old(self)@,
                self.elements@.len() == n,
                limit == transfer_limit(old(self)@.available_read(), max_size),
                limit <= self.used,
                limit <= n,
                total <= limit,
                valid_cursor(n, c),
                valid_cursor(n, *index as nat),
                *index == cursor_after(n, c, total as nat),
                accepts_read_spans(f),
            ensures
                returned.len() == runs_offered(n, c, limit as nat, returned),
                total == transfer_total(n, c, limit as nat, returned),
            decreases limit - total,
        {
            let start = *index;
            let run = next_run(capacity, start, limit - total);
            let slice = self.elements.as_slice();
            let (_head, tail) = slice.split_at(start);
            let (part, _rest) = tail.split_at(run);
            let got = f(part, total);
            let done = clamp_done(got, run);
            proof {
                assert(part@ =~= run_span(self@.slots, c, limit as nat, returned.len()));
                assert(read_body_returned(f, part@, total, got));
                returned = returned.push(got);
            }
            let ghost before = *index as nat;
            total = total + done;
            self.wraparound_index(index, done);
            proof {
                lemma_advance_is_modular(n, before, done as nat);
                if returned.len() == 2 {
                    vstd::arithmetic::div_mod::lemma_mod_add_multiples_vanish(done as int, n as int);
                }
            }
            if done < run {
                break;
            }
        }
        self.used = self.used - total;
        (total, Ghost(returned))
    }

    /// Offers the free slots after the producer's cursor to `f`, as at most
    /// two contiguous runs (the tail of the storage, then its head), and
    /// publishes as written what `f` reports.
    ///
    /// The result also holds, as ghost, what `f` returned for each run.
    pub fn process_write_slices<F: FnMut(&mut [T], usize) -> usize>(
        &mut self,
        index: &mut usize,
        mut f: F,
        max_size: Option<usize>,
    ) -> (r: (usize, Ghost<Seq<usize>>))
        requires
            old(self)@.wf(),
            valid_cursor(old(self)@.capacity(), *old(index) as nat),
            accepts_spans(f),
            // No safe Rust body can change the length of the span it is
            // handed; Verus does not know this of a `&mut [T]` by itself.
            forall|s: &mut [T], o: usize, d: usize|
                call_ensures(f, (s, o), d) ==> (*final(s))@.len() == (*s)@.len(),
        ensures
            ({
                let n = old(self)@.capacity();
                let w = *old(index) as nat;
                let limit = transfer_limit(old(self)@.available_write(), max_size);
                let returned = r.1@;
                &&& returned.len() == runs_offered(n, w, limit, returned)
                &&& r.0 == transfer_total(n, w, limit, returned)
                &&& r.0 <= limit
                &&& forall|i: int|
                    0 <= i < returned.len() ==> write_body_returned(
                        f,
                        run_length(n, w, limit, i as nat),
                        run_offset(n, w, limit, i as nat) as usize,
                        #[trigger] returned[i],
                    )
                &&& final(self)@.wf()
                &&& old(self)@.batch_written(final(self)@, w, limit, r.0 as nat)
                &&& *final(index) == cursor_after(n, w, r.0 as nat)
            }),
    {
        let ghost n = self@.capacity();
        let ghost w = *index as nat;
        let ghost old_slots = self@.slots;
        let ghost body = f;
        let capacity = self.elements.len();
        let available = self.available_write();
        let limit = limit_of(available, max_size);
        let mut total: usize = 0;
        let ghost mut returned: Seq<usize> = Seq::empty();
        proof {
            if n > 0 {
                lemma_mod_within(w as int, n as int);
            }
        }
        while total < limit
            invariant_except_break
                returned.len() == 0 ==> total == 0 && *index == w,
                returned.len() >= 1 ==> limit > 0,
                returned.len() >= 1 ==> run_done(returned[0] as nat, first_run(n, w, limit as nat))
                    == first_run(n, w, limit as nat),
                returned.len() == 1 ==> total == first_run(n, w, limit as nat) && (total < limit
                    ==> *index == 0),
                returned.len() == 2 ==> first_run(n, w, limit as nat) < limit && total == limit
                    && run_done(returned[1] as nat, (limit - first_run(n, w, limit as nat)) as nat) == limit
                    - first_run(n, w, limit as nat),
                returned.len() <= 2,
            invariant
                forall|i: int|
                    0 <= i < returned.len() ==> write_body_returned(
                        f,
                        run_length(n, w, limit as nat, i as nat),
                        run_offset(n, w, limit as nat, i as nat) as usize,
                        #[trigger] returned[i],
                    ),
                capacity == n,
                f == body,
                self.elements@.len() == n,
                old_slots.len() == n,
                self.used == old(self)@.used,
                limit == transfer_limit(old(self)@.available_write(), max_size),
                limit <= n - self.used,
                total <= limit,
                valid_cursor(n, w),
                valid_cursor(n, *index as nat),
                *index == cursor_after(n, w, total as nat),
                accepts_spans(f),
                forall|s: &mut [T], o: usize, d: usize|
                    call_ensures(f, (s, o), d) ==> (*final(s))@.len() == (*s)@.len(),
                forall|p: int|
                    0 <= p < n && ring_offset(n, w, p as nat) >= limit ==> #[trigger] self.elements@[p]
                        == old_slots[p],
            ensures
                returned.len() == runs_offered(n, w, limit as nat, returned),
                total == transfer_total(n, w, limit as nat, returned),
            decreases limit - total,
        {
            let start = *index;
            let run = next_run(capacity, start, limit - total);
            let slice = self.elements.as_mut_slice();
            let (_head, tail) = slice.split_at_mut(start);
            let (part, _rest) = tail.split_at_mut(run);
            let got = f(part, total);
            proof {
                assert(exists|s: &mut [T]| (*s)@.len() == run && call_ensures(f, (s, total), got));
                assert(write_body_returned(f, run as nat, total, got));
            }
            let done = clamp_done(got, run);
            proof {
                returned = returned.push(got);
            }
            let ghost before = *index as nat;
            total = total + done;
            self.wraparound_index(index, done);
            proof {
                lemma_advance_is_modular(n, before, done as nat);
                if returned.len() == 2 {
                    vstd::arithmetic::div_mod::lemma_mod_add_multiples_vanish(done as int, n as int);
                }
            }
            if done < run {
                break;
            }
        }
        self.used = self.used + total;
        (total, Ghost(returned))
    }

    /// The number of slots.
    pub fn capacity(&self) -> (r: usize)
        ensures
            r == self@.capacity(),
    {
        self.elements.len()
    }

    /// The number of elements that can be read.
    pub fn available_read(&self) -> (r: usize)
        ensures
            r == self@.available_read(),
    {
        self.used
    }

    /// The number of elements that can be written.
    pub fn available_write(&self) -> (r: usize)
        requires
            self@.wf(),
        ensures
            r == self@.available_write(),
            self@.capacity() <= usize::MAX,
    {
        self.elements.len() - self.used
    }

    /// Moves a cursor `advance` slots forward, back to zero at the physical
    /// end of the storage.
    pub fn wraparound_index(&self, index: &mut usize, advance: usize)
        requires
            *old(index) + advance <= self@.capacity(),
        ensures
            *final(index) == advance_index(self@.capacity(), *old(index) as nat, advance as nat),
    {
        let capacity = self.elements.len();
        *index = if *index + advance >= capacity {
            0
        } else {
            *index + advance
        };
    }
}

} // verus!
