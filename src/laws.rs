//! What holds of the ring across operations: capacity is conserved, data
//! leaves in the order it came in, and transfers are cut into runs as the
//! storage's end dictates.
use vstd::prelude::*;
use crate::ring::RingView;
use crate::window::{
    advance_index, cursor_after, valid_cursor, ring_window, ring_offset, lemma_mod_within,
    lemma_mod_one_lap, transfer_limit, first_run, runs_offered, run_start, run_offset,
    run_length, transfer_total,
};
use crate::ring::run_span;

verus! {

/// Two positions less than one lap apart fall on different slots.
proof fn lemma_mod_distinct(x: int, y: int, n: int)
    requires
        0 < n,
        0 <= x < y < x + n,
    ensures
        x % n != y % n,
{
    vstd::arithmetic::div_mod::lemma_fundamental_div_mod(x, n);
    vstd::arithmetic::div_mod::lemma_fundamental_div_mod(y, n);
    vstd::arithmetic::div_mod::lemma_mod_bound(x, n);
    vstd::arithmetic::div_mod::lemma_mod_bound(y, n);
    if x % n == y % n {
        let k = y / n - x / n;
        assert(n * k == y - x) by (nonlinear_arith)
            requires
                x == n * (x / n) + (x % n),
                y == n * (y / n) + (y % n),
                x % n == y % n,
                k == y / n - x / n,
        ;
        if k >= 1 {
            assert(n * k >= n) by (nonlinear_arith)
                requires
                    k >= 1,
                    n > 0,
            ;
        } else {
            assert(n * k <= 0) by (nonlinear_arith)
                requires
                    k <= 0,
                    n > 0,
            ;
        }
    }
}

/// The cursor one step past `index` is the next slot in ring order.
proof fn lemma_step_is_modular(n: nat, index: nat)
    requires
        index < n,
    ensures
        advance_index(n, index, 1) == ((index + 1) as int) % (n as int),
{
    crate::window::lemma_advance_is_modular(n, index, 1);
}

/// Capacity is conserved: what can be read and what can be written always
/// add up to the number of slots.
pub proof fn lemma_capacity_conserved<T>(v: RingView<T>)
    requires
        v.wf(),
    ensures
        v.available_read() + v.available_write() == v.capacity(),
{
}

/// A ring with no slots can neither be read nor written.
pub proof fn lemma_zero_capacity<T>(v: RingView<T>)
    requires
        v.wf(),
        v.capacity() == 0,
    ensures
        v.available_read() == 0,
        v.available_write() == 0,
{
}

/// Writing one element at the producer's cursor appends it to the unread
/// data, and the producer's cursor again sits right after that data.
pub proof fn lemma_write_appends<T>(v: RingView<T>, read: nat, write: nat, value: T)
    requires
        v.wf(),
        v.cursors_agree(read, write),
        v.used < v.capacity(),
    ensures
        v.written(write, value).contents(read) == v.contents(read).push(value),
        v.written(write, value).cursors_agree(read, advance_index(v.capacity(), write, 1)),
        v.written(write, value).wf(),
{
    let n = v.capacity();
    let after = v.written(write, value);
    assert forall|i: int| 0 <= i < v.used implies #[trigger] after.contents(read)[i] == v.contents(
        read,
    )[i] by {
        lemma_mod_distinct(read + i, (read + v.used) as int, n as int);
    }
    assert(after.contents(read) =~= v.contents(read).push(value));
    lemma_step_is_modular(n, write);
    vstd::arithmetic::div_mod::lemma_add_mod_noop_right(1, (read + v.used) as int, n as int);
    vstd::arithmetic::div_mod::lemma_mod_bound((read + v.used + 1) as int, n as int);
}

/// Taking one element at the consumer's cursor yields the oldest unread
/// element and leaves the rest, in order, after the next slot.
pub proof fn lemma_take_removes_oldest<T>(v: RingView<T>, read: nat, write: nat)
    requires
        v.wf(),
        v.cursors_agree(read, write),
        v.used > 0,
    ensures
        v.slots[read as int] == v.contents(read)[0],
        v.taken().contents(advance_index(v.capacity(), read, 1)) == v.contents(read).drop_first(),
        v.taken().cursors_agree(advance_index(v.capacity(), read, 1), write),
        v.taken().wf(),
{
    let n = v.capacity();
    let next = advance_index(n, read, 1);
    lemma_mod_within(read as int, n as int);
    lemma_step_is_modular(n, read);
    assert forall|i: int| 0 <= i < v.used - 1 implies #[trigger] v.taken().contents(next)[i]
        == v.contents(read).drop_first()[i] by {
        vstd::arithmetic::div_mod::lemma_add_mod_noop((read + 1) as int, i, n as int);
        lemma_mod_within(i, n as int);
    }
    assert(v.taken().contents(next) =~= v.contents(read).drop_first());
    vstd::arithmetic::div_mod::lemma_add_mod_noop((read + 1) as int, (v.used - 1) as int, n as int);
    lemma_mod_within((v.used - 1) as int, n as int);
}

/// The ring after `values` are written one at a time from cursor `write`.
pub open spec fn after_writes<T>(v: RingView<T>, write: nat, values: Seq<T>) -> RingView<T>
    decreases values.len(),
{
    if values.len() == 0 {
        v
    } else {
        after_writes(
            v.written(write, values[0]),
            advance_index(v.capacity(), write, 1),
            values.drop_first(),
        )
    }
}

/// What `count` single reads from cursor `read` return, oldest first.
pub open spec fn reads<T>(v: RingView<T>, read: nat, count: nat) -> Seq<T>
    decreases count,
{
    if count == 0 || v.used == 0 {
        Seq::empty()
    } else {
        seq![v.slots[read as int]] + reads(
            v.taken(),
            advance_index(v.capacity(), read, 1),
            (count - 1) as nat,
        )
    }
}

/// Writing elements one at a time appends them, in order, to the unread data.
pub proof fn lemma_writes_append<T>(v: RingView<T>, read: nat, write: nat, values: Seq<T>)
    requires
        v.wf(),
        v.cursors_agree(read, write),
        v.used + values.len() <= v.capacity(),
    ensures
        after_writes(v, write, values).contents(read) == v.contents(read) + values,
        after_writes(v, write, values).wf(),
        after_writes(v, write, values).capacity() == v.capacity(),
        after_writes(v, write, values).used == v.used + values.len(),
    decreases values.len(),
{
    if values.len() == 0 {
        assert(v.contents(read) + values =~= v.contents(read));
    } else {
        let next = v.written(write, values[0]);
        lemma_write_appends(v, read, write, values[0]);
        lemma_writes_append(next, read, advance_index(v.capacity(), write, 1), values.drop_first());
        assert(v.contents(read).push(values[0]) + values.drop_first() =~= v.contents(read) + values);
    }
}

/// Reading elements one at a time returns the unread data, oldest first.
pub proof fn lemma_reads_in_order<T>(v: RingView<T>, read: nat, write: nat, count: nat)
    requires
        v.wf(),
        v.cursors_agree(read, write),
        count <= v.used,
    ensures
        reads(v, read, count) == v.contents(read).take(count as int),
    decreases count,
{
    if count == 0 {
        assert(v.contents(read).take(0) =~= Seq::<T>::empty());
    } else {
        let next = advance_index(v.capacity(), read, 1);
        lemma_take_removes_oldest(v, read, write);
        lemma_reads_in_order(v.taken(), next, write, (count - 1) as nat);
        assert(seq![v.slots[read as int]] + v.contents(read).drop_first().take(count - 1)
            =~= v.contents(read).take(count as int));
    }
}

/// First in, first out: after writing `values` one at a time, reading
/// everything one at a time returns what was unread before, then `values`,
/// each once and in order.
pub proof fn lemma_first_in_first_out<T>(v: RingView<T>, read: nat, write: nat, values: Seq<T>)
    requires
        v.wf(),
        v.cursors_agree(read, write),
        v.used + values.len() <= v.capacity(),
    ensures
        reads(after_writes(v, write, values), read, v.used + values.len()) == v.contents(read)
            + values,
{
    let after = after_writes(v, write, values);
    lemma_writes_append(v, read, write, values);
    let w2 = cursor_after(v.capacity(), read, after.used);
    if v.capacity() > 0 {
        lemma_mod_within(read as int, v.capacity() as int);
        vstd::arithmetic::div_mod::lemma_mod_bound((read + after.used) as int, v.capacity() as int);
    }
    lemma_reads_in_order(after, read, w2, after.used);
    assert(after.contents(read).take(after.used as int) =~= after.contents(read));
}

/// Moving a cursor `k` further around the ring, from a cursor already
/// wrapped, lands where moving the unwrapped position would.
proof fn lemma_wrapped_then_moved(n: nat, x: nat, k: nat)
    requires
        n > 0,
    ensures
        (((x as int) % (n as int)) + k) % (n as int) == ((x + k) as int) % (n as int),
{
    vstd::arithmetic::div_mod::lemma_add_mod_noop_right(k as int, x as int, n as int);
}

/// The slot of unread element `i` lies `n - used + i` slots after the
/// producer's cursor: past every slot a write may touch.
proof fn lemma_unread_offset(n: nat, read: nat, used: nat, i: nat)
    requires
        read < n,
        i < used <= n,
    ensures
        ring_offset(
            n,
            (((read + used) as int) % (n as int)) as nat,
            (((read + i) as int) % (n as int)) as nat,
        ) == n - used + i,
{
    let x = (read + i) as int;
    let y = (read + used) as int;
    if x < n {
        lemma_mod_within(x, n as int);
    } else {
        lemma_mod_one_lap(x, n as int);
    }
    if y < n {
        lemma_mod_within(y, n as int);
    } else {
        lemma_mod_one_lap(y, n as int);
    }
}

/// A batch write appends the slots it filled, in ring order from the
/// producer's cursor, to the unread data; the cursors agree again after.
pub proof fn lemma_batch_write_appends<T>(
    before: RingView<T>,
    after: RingView<T>,
    read: nat,
    write: nat,
    limit: nat,
    count: nat,
)
    requires
        before.wf(),
        before.cursors_agree(read, write),
        limit <= before.available_write(),
        before.batch_written(after, write, limit, count),
    ensures
        after.wf(),
        after.contents(read) == before.contents(read) + ring_window(after.slots, write, count),
        after.cursors_agree(read, cursor_after(before.capacity(), write, count)),
{
    let n = before.capacity();
    if n == 0 {
        assert(after.contents(read) =~= before.contents(read) + ring_window(after.slots, write, count));
    } else {
        lemma_mod_within(read as int, n as int);
        let expected = before.contents(read) + ring_window(after.slots, write, count);
        assert forall|i: int| 0 <= i < before.used + count implies #[trigger] after.contents(read)[i]
            == expected[i] by {
            if i < before.used {
                lemma_unread_offset(n, read, before.used, i as nat);
                vstd::arithmetic::div_mod::lemma_mod_bound(read + i, n as int);
                assert(after.slots[(read + i) % (n as int)] == before.slots[(read + i) % (n as int)]);
            } else {
                lemma_wrapped_then_moved(n, read + before.used, (i - before.used) as nat);
            }
        }
        assert(after.contents(read) =~= expected);
        lemma_wrapped_then_moved(n, read + before.used, count);
        vstd::arithmetic::div_mod::lemma_mod_bound((write + count) as int, n as int);
    }
}

/// A batch read removes the `count` oldest elements and leaves the rest, in
/// order, after the consumer's new cursor; the cursors agree again after.
pub proof fn lemma_batch_read_takes_oldest<T>(v: RingView<T>, read: nat, write: nat, count: nat)
    requires
        v.wf(),
        v.cursors_agree(read, write),
        count <= v.used,
    ensures
        v.batch_taken(count).contents(cursor_after(v.capacity(), read, count)) == v.contents(
            read,
        ).skip(count as int),
        v.batch_taken(count).cursors_agree(cursor_after(v.capacity(), read, count), write),
        v.batch_taken(count).wf(),
{
    let n = v.capacity();
    let next = cursor_after(n, read, count);
    if n == 0 {
        assert(v.batch_taken(count).contents(next) =~= v.contents(read).skip(count as int));
    } else {
        assert forall|i: int| 0 <= i < v.used - count implies #[trigger] v.batch_taken(count).contents(
            next,
        )[i] == v.contents(read).skip(count as int)[i] by {
            lemma_wrapped_then_moved(n, read + count, i as nat);
        }
        assert(v.batch_taken(count).contents(next) =~= v.contents(read).skip(count as int));
        lemma_wrapped_then_moved(n, read + count, (v.used - count) as nat);
        vstd::arithmetic::div_mod::lemma_mod_bound((read + count) as int, n as int);
    }
}

/// The spans a batch read hands to its body are the unread data, oldest
/// first, each starting where the previous one ended.
pub proof fn lemma_read_spans_are_contents<T>(v: RingView<T>, read: nat, write: nat, limit: nat, i: nat)
    requires
        v.wf(),
        v.cursors_agree(read, write),
        0 < limit <= v.used,
        i == 0 || (i == 1 && first_run(v.capacity(), read, limit) < limit),
    ensures
        run_span(v.slots, read, limit, i) == v.contents(read).subrange(
            run_offset(v.capacity(), read, limit, i) as int,
            (run_offset(v.capacity(), read, limit, i) + run_length(v.capacity(), read, limit, i)) as int,
        ),
{
    let n = v.capacity();
    let offset = run_offset(n, read, limit, i);
    let len = run_length(n, read, limit, i);
    assert forall|k: int| 0 <= k < len implies #[trigger] run_span(v.slots, read, limit, i)[k]
        == v.contents(read)[offset + k] by {
        if i == 0 {
            lemma_mod_within(read + k, n as int);
        } else {
            lemma_mod_one_lap(read + offset + k, n as int);
        }
    }
    assert(run_span(v.slots, read, limit, i) =~= v.contents(read).subrange(
        offset as int,
        (offset + len) as int,
    ));
}

/// With nothing available, the body is never called and nothing moves; so
/// it is for a write to a full ring and a read from an empty one.
pub proof fn lemma_nothing_to_transfer(
    capacity: nat,
    cursor: nat,
    max_size: Option<usize>,
    returned: Seq<usize>,
)
    ensures
        transfer_limit(0, max_size) == 0,
        runs_offered(capacity, cursor, transfer_limit(0, max_size), returned) == 0,
        transfer_total(capacity, cursor, transfer_limit(0, max_size), returned) == 0,
{
}

/// A body that reports fewer elements than the run it was offered ends the
/// transfer: it is offered no further run, and the transfer counts what was
/// done up to there.
pub proof fn lemma_short_run_ends_transfer(
    capacity: nat,
    cursor: nat,
    limit: nat,
    returned: Seq<usize>,
)
    requires
        valid_cursor(capacity, cursor),
        0 < limit <= capacity,
        returned.len() == runs_offered(capacity, cursor, limit, returned),
    ensures
        forall|i: int|
            0 <= i < returned.len() && #[trigger] returned[i] < run_length(
                capacity,
                cursor,
                limit,
                i as nat,
            ) ==> i == returned.len() - 1 && transfer_total(capacity, cursor, limit, returned)
                == run_offset(capacity, cursor, limit, i as nat) + returned[i],
{
}

/// A transfer that crosses the physical end of the storage is offered as
/// two runs: the tail of the storage from the cursor at offset zero, then
/// the head of the storage at the offset where the tail ended.
pub proof fn lemma_wraparound_split(capacity: nat, cursor: nat, limit: nat, returned: Seq<usize>)
    requires
        cursor < capacity,
        capacity - cursor < limit <= capacity,
        returned.len() >= 1,
        returned[0] >= capacity - cursor,
    ensures
        runs_offered(capacity, cursor, limit, returned) == 2,
        run_start(capacity, cursor, limit, 0) == cursor,
        run_offset(capacity, cursor, limit, 0) == 0,
        run_length(capacity, cursor, limit, 0) == capacity - cursor,
        run_start(capacity, cursor, limit, 1) == 0,
        run_offset(capacity, cursor, limit, 1) == capacity - cursor,
        run_length(capacity, cursor, limit, 1) == limit - (capacity - cursor),
{
}

} // verus!
