use crate::cursor::{
    is_pow2, lemma_slot_in_range, lemma_slot_offset, lemma_wrap_index, slot_index, slot_of,
};
use vstd::prelude::*;

verus! {

/// What the producer side keeps to itself: its own write cursor, which only
/// it advances, and the last read cursor it has seen.
pub struct WriterCursor {
    pub local_w: u64,
    pub cached_r: u64,
}

/// What the consumer side keeps to itself: its own read cursor, which only it
/// advances, and the last write cursor it has seen.
pub struct ReaderCursor {
    pub local_r: u64,
    pub cached_w: u64,
}

impl WriterCursor {
    /// Both cursors start at zero.
    pub fn new() -> (r: Self)
        ensures
            r.local_w == 0,
            r.cached_r == 0,
    {
        WriterCursor { local_w: 0, cached_r: 0 }
    }

    /// Values written and not yet known to be read, counted against the
    /// cached read cursor.
    pub fn pending(&self) -> (r: u64)
        ensures
            r == self.local_w.wrapping_sub(self.cached_r),
    {
        self.local_w.wrapping_sub(self.cached_r)
    }

    /// Whether the buffer of `capacity` slots is full as far as the cached
    /// read cursor tells.
    pub fn is_full(&self, capacity: u64) -> (r: bool)
        ensures
            r == (self.local_w.wrapping_sub(self.cached_r) == capacity),
    {
        self.pending() == capacity
    }

    /// Take a fresh snapshot of the read cursor.
    pub fn refresh(&mut self, observed_r: u64)
        ensures
            final(self).cached_r == observed_r,
            final(self).local_w == old(self).local_w,
    {
        self.cached_r = observed_r;
    }

    /// The slot that the next value goes to.
    pub fn slot(&self, capacity: u64) -> (r: u64)
        requires
            is_pow2(capacity),
        ensures
            r == slot_of(self.local_w, capacity),
            r < capacity,
    {
        slot_index(self.local_w, capacity)
    }

    /// Count one more value written; returns the write cursor to publish.
    pub fn advance(&mut self) -> (r: u64)
        ensures
            final(self).local_w == old(self).local_w.wrapping_add(1),
            final(self).cached_r == old(self).cached_r,
            r == final(self).local_w,
    {
        self.local_w = self.local_w.wrapping_add(1);
        self.local_w
    }
}

impl ReaderCursor {
    /// Both cursors start at zero.
    pub fn new() -> (r: Self)
        ensures
            r.local_r == 0,
            r.cached_w == 0,
    {
        ReaderCursor { local_r: 0, cached_w: 0 }
    }

    /// Whether the buffer is empty as far as the cached write cursor tells.
    pub fn is_empty(&self) -> (r: bool)
        ensures
            r == (self.local_r == self.cached_w),
    {
        self.local_r == self.cached_w
    }

    /// Take a fresh snapshot of the write cursor.
    pub fn refresh(&mut self, observed_w: u64)
        ensures
            final(self).cached_w == observed_w,
            final(self).local_r == old(self).local_r,
    {
        self.cached_w = observed_w;
    }

    /// The number of values between this reader and an observed write
    /// cursor, by wrapping subtraction, so that it stays right when the
    /// write cursor has wrapped past zero and the read cursor has not.
    pub fn occupancy(&self, observed_w: u64) -> (r: u64)
        ensures
            r == observed_w.wrapping_sub(self.local_r),
    {
        observed_w.wrapping_sub(self.local_r)
    }

    /// The slot that the next value comes from.
    pub fn slot(&self, capacity: u64) -> (r: u64)
        requires
            is_pow2(capacity),
        ensures
            r == slot_of(self.local_r, capacity),
            r < capacity,
    {
        slot_index(self.local_r, capacity)
    }

    /// Count one more value read; returns the read cursor to publish.
    pub fn advance(&mut self) -> (r: u64)
        ensures
            final(self).local_r == old(self).local_r.wrapping_add(1),
            final(self).cached_w == old(self).cached_w,
            r == final(self).local_r,
    {
        self.local_r = self.local_r.wrapping_add(1);
        self.local_r
    }
}

/// A stale snapshot of the read cursor is a safe one. While the reader's
/// real cursor `r` lies between the writer's snapshot `cached_r` and its
/// write cursor `w`, the writer's count of pending values bounds the true
/// occupancy from above: room that the writer sees is really there, and a
/// push it makes keeps the occupancy within `n`.
pub proof fn lemma_stale_read_cursor(w: u64, cached_r: u64, r: u64, n: u64)
    requires
        r.wrapping_sub(cached_r) <= w.wrapping_sub(cached_r),
        w.wrapping_sub(cached_r) < n,
    ensures
        w.wrapping_sub(r) <= w.wrapping_sub(cached_r),
        w.wrapping_add(1).wrapping_sub(r) <= n,
{
}

/// A stale snapshot of the write cursor is a safe one. While the writer's
/// real cursor `w` lies at or past the reader's snapshot `cached_w`, a value
/// that the snapshot shows is really there.
pub proof fn lemma_stale_write_cursor(r: u64, cached_w: u64, w: u64)
    requires
        cached_w.wrapping_sub(r) <= w.wrapping_sub(r),
        r != cached_w,
    ensures
        w.wrapping_sub(r) > 0,
{
}

/// The two sides never touch one slot at once: while fewer than `n` values
/// are queued between `r` and `w`, the slot that the writer fills next is
/// none of those that the reader may still read.
pub proof fn lemma_write_slot_free(r: u64, w: u64, n: u64, k: int)
    requires
        is_pow2(n),
        w.wrapping_sub(r) < n,
        0 <= k < w.wrapping_sub(r),
    ensures
        slot_of(w, n) != (slot_of(r, n) + k) % (n as int),
{
    lemma_slot_in_range(r, n);
    lemma_slot_offset(r, w.wrapping_sub(r), n);
    assert(r.wrapping_add(w.wrapping_sub(r)) == w);
    lemma_wrap_index(slot_of(r, n) as int, k, n as int);
    lemma_wrap_index(slot_of(r, n) as int, w.wrapping_sub(r) as int, n as int);
}

} // verus!
