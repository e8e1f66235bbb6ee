//! Index arithmetic of the ring: how a cursor wraps, how many slots one
//! transfer may touch, and how a transfer is cut into contiguous runs.
use vstd::prelude::*;

verus! {

/// Where a cursor lands after moving `advance` slots forward from `index`,
/// for a move that never passes the physical end of the storage.
pub open spec fn advance_index(capacity: nat, index: nat, advance: nat) -> nat {
    if index + advance >= capacity {
        0
    } else {
        index + advance
    }
}

/// Where a cursor lands after `count` slots, wrapping as often as needed.
pub open spec fn cursor_after(capacity: nat, index: nat, count: nat) -> nat {
    if capacity == 0 {
        index
    } else {
        (index + count) % capacity
    }
}

/// A cursor is valid when it names a slot, or is zero on an empty storage.
pub open spec fn valid_cursor(capacity: nat, index: nat) -> bool {
    index < capacity || index == 0
}

/// How far slot `p` lies after slot `start`, going forward around the ring.
pub open spec fn ring_offset(capacity: nat, start: nat, p: nat) -> nat {
    if p >= start {
        (p - start) as nat
    } else {
        (p + capacity - start) as nat
    }
}

/// The `count` slots that follow `start` around the ring, in order.
pub open spec fn ring_window<T>(slots: Seq<T>, start: nat, count: nat) -> Seq<T> {
    Seq::new(count, |i: int| slots[(start + i) % (slots.len() as int)])
}

/// How many slots one transfer may touch: the caller's bound, if any, but
/// never more than are available.
pub open spec fn transfer_limit(available: nat, max_size: Option<usize>) -> nat {
    match max_size {
        Some(m) => if (m as nat) < available {
            m as nat
        } else {
            available
        },
        None => available,
    }
}

/// Length of the first contiguous run of a transfer: it stops at the physical
/// end of the storage.
pub open spec fn first_run(capacity: nat, cursor: nat, limit: nat) -> nat {
    if capacity - cursor < limit {
        (capacity - cursor) as nat
    } else {
        limit
    }
}

/// What a run counts as done when the body reports `returned` of `offered`
/// slots: a report beyond the run is cut to the run.
pub open spec fn run_done(returned: nat, offered: nat) -> nat {
    if returned < offered {
        returned
    } else {
        offered
    }
}

/// Whether a transfer ends after its first run: the body stopped short, or
/// the first run already covers the whole transfer.
pub open spec fn ends_after_first(capacity: nat, cursor: nat, limit: nat, returned: Seq<usize>) -> bool {
    let first = first_run(capacity, cursor, limit);
    run_done(returned[0] as nat, first) < first || first == limit
}

/// How many runs the body is offered, given what it returns for each.
pub open spec fn runs_offered(capacity: nat, cursor: nat, limit: nat, returned: Seq<usize>) -> nat {
    if limit == 0 {
        0
    } else if ends_after_first(capacity, cursor, limit, returned) {
        1
    } else {
        2
    }
}

/// Where run `i` of a transfer starts in the storage.
pub open spec fn run_start(capacity: nat, cursor: nat, limit: nat, i: nat) -> nat {
    if i == 0 {
        cursor
    } else {
        0
    }
}

/// How many slots were already transferred before run `i` was offered.
pub open spec fn run_offset(capacity: nat, cursor: nat, limit: nat, i: nat) -> nat {
    if i == 0 {
        0
    } else {
        first_run(capacity, cursor, limit)
    }
}

/// Length of run `i`.
pub open spec fn run_length(capacity: nat, cursor: nat, limit: nat, i: nat) -> nat {
    if i == 0 {
        first_run(capacity, cursor, limit)
    } else {
        (limit - first_run(capacity, cursor, limit)) as nat
    }
}

/// How many slots a transfer moves in all, given what the body returns for
/// each run it is offered.
pub open spec fn transfer_total(capacity: nat, cursor: nat, limit: nat, returned: Seq<usize>) -> nat {
    let first = first_run(capacity, cursor, limit);
    if limit == 0 {
        0
    } else if ends_after_first(capacity, cursor, limit, returned) {
        run_done(returned[0] as nat, first)
    } else {
        first + run_done(returned[1] as nat, (limit - first) as nat)
    }
}

/// The number of slots one transfer may touch.
pub fn limit_of(available: usize, max_size: Option<usize>) -> (r: usize)
    ensures
        r == transfer_limit(available as nat, max_size),
{
    let wanted = match max_size {
        Some(m) => m,
        None => available,
    };
    if wanted < available {
        wanted
    } else {
        available
    }
}

/// Length of the next contiguous run: what is left of the transfer, cut at
/// the physical end of the storage.
pub fn next_run(capacity: usize, cursor: usize, remaining: usize) -> (r: usize)
    requires
        cursor <= capacity,
    ensures
        r == first_run(capacity as nat, cursor as nat, remaining as nat),
{
    let room = capacity - cursor;
    if room < remaining {
        room
    } else {
        remaining
    }
}

/// What a run counts as done from the body's report.
pub fn clamp_done(returned: usize, offered: usize) -> (r: usize)
    ensures
        r == run_done(returned as nat, offered as nat),
{
    if returned < offered {
        returned
    } else {
        offered
    }
}

/// Moving a cursor within one run lands where the ring's modular order says.
pub proof fn lemma_advance_is_modular(capacity: nat, index: nat, advance: nat)
    requires
        index < capacity,
        index + advance <= capacity,
    ensures
        advance_index(capacity, index, advance) == cursor_after(capacity, index, advance),
{
    if index + advance == capacity {
        vstd::arithmetic::div_mod::lemma_mod_self_0(capacity as int);
    } else {
        vstd::arithmetic::div_mod::lemma_small_mod(index + advance, capacity);
    }
}

/// A position one lap past the end of the storage is that far from its start.
pub proof fn lemma_mod_one_lap(x: int, n: int)
    requires
        0 < n,
        n <= x < 2 * n,
    ensures
        x % n == x - n,
{
    vstd::arithmetic::div_mod::lemma_mod_add_multiples_vanish(x - n, n);
    vstd::arithmetic::div_mod::lemma_small_mod((x - n) as nat, n as nat);
}

/// A position short of the end of the storage is itself.
pub proof fn lemma_mod_within(x: int, n: int)
    requires
        0 <= x < n,
    ensures
        x % n == x,
{
    vstd::arithmetic::div_mod::lemma_small_mod(x as nat, n as nat);
}

} // verus!
