use crate::cursor::{
    is_pow2, is_power_of_two, lemma_mod_succ, lemma_pow2_bound, lemma_slot_in_range, lemma_slot_step, lemma_wrap_index,
    slot_of,
};
use crate::handle::{ReaderCursor, WriterCursor};
use vstd::arithmetic::div_mod::{lemma_mod_add_multiples_vanish, lemma_mod_self_0, lemma_small_mod};
use vstd::prelude::*;

verus! {

/// What a push does to the queued values `q` of a buffer of `cap` slots, and
/// what it hands back: the value is appended when there is room, and handed
/// back unchanged, the queue untouched, when the buffer holds `cap` values.
pub open spec fn push_step<T>(q: Seq<T>, t: T, cap: nat) -> (Seq<T>, Option<T>) {
    if q.len() < cap {
        (q.push(t), None)
    } else {
        (q, Some(t))
    }
}

/// What a pull does to the queued values `q`, and what it returns: the oldest
/// value, or nothing when the queue is empty.
pub open spec fn pull_step<T>(q: Seq<T>) -> (Seq<T>, Option<T>) {
    if q.len() == 0 {
        (q, None)
    } else {
        (q.drop_first(), Some(q[0]))
    }
}

/// A free slot, as the buffer starts with.
fn vacant<T>(_index: usize) -> (r: Option<T>)
    ensures
        r is None,
{
    None
}

/// Relies on array_init::array_init: element `i` of the array is what the
/// initializer returns for index `i`, here always a free slot.
#[verifier::external_body]
fn vacant_slots<T, const N: usize>() -> (r: [Option<T>; N])
    ensures
        forall|i: int| 0 <= i < N ==> (#[trigger] r@[i]) is None,
{
    array_init::array_init(|i| vacant(i))
}

/// A ring buffer of `N` slots owned by one thread, driven by the same writer
/// and reader decisions as a shared one, with each side reading the other's
/// cursor directly.
pub struct LocalRing<T, const N: usize> {
    slots: [Option<T>; N],
    writer: WriterCursor,
    reader: ReaderCursor,
}

impl<T, const N: usize> LocalRing<T, N> {
    /// The number of slots, as a cursor value.
    pub open spec fn cap() -> u64 {
        N as u64
    }

    /// The number of values between the read and the write cursor.
    pub closed spec fn occupancy(&self) -> u64 {
        self.writer.local_w.wrapping_sub(self.reader.local_r)
    }

    /// The slot of the oldest value.
    pub closed spec fn head(&self) -> int {
        slot_of(self.reader.local_r, Self::cap()) as int
    }

    /// The slot of the value `k` places after the oldest.
    pub closed spec fn slot_at(&self, k: int) -> int {
        (self.head() + k) % (N as int)
    }

    /// The queued values, oldest first.
    pub closed spec fn view(&self) -> Seq<T> {
        Seq::new(self.occupancy() as nat, |k: int| self.slots@[self.slot_at(k)]->Some_0)
    }

    /// The slots from the read cursor up to the write cursor hold values and
    /// all others are free; each cached cursor lies between the side's own
    /// cursor and the other side's.
    pub closed spec fn wf(&self) -> bool {
        let w = self.writer.local_w;
        let r = self.reader.local_r;
        &&& is_pow2(Self::cap())
        &&& N as u64 == N
        &&& self.occupancy() <= N
        &&& slot_of(w, Self::cap()) == self.slot_at(self.occupancy() as int)
        &&& forall|k: int| 0 <= k < self.occupancy() ==> (#[trigger] self.slots@[self.slot_at(k)]) is Some
        &&& forall|k: int| self.occupancy() <= k < N ==> (#[trigger] self.slots@[self.slot_at(k)]) is None
        &&& r.wrapping_sub(self.writer.cached_r) + self.occupancy() == w.wrapping_sub(self.writer.cached_r)
        &&& w.wrapping_sub(self.writer.cached_r) <= N
        &&& self.reader.cached_w.wrapping_sub(r) + w.wrapping_sub(self.reader.cached_w) == self.occupancy()
    }

    /// Slots up to one lap on from the head are in range, and distinct.
    proof fn lemma_slot_at(&self, k: int)
        requires
            is_pow2(Self::cap()),
            N as u64 == N,
            0 <= k < N,
        ensures
            0 <= self.slot_at(k) < N,
            self.slot_at(k) == if self.head() + k < N { self.head() + k } else { self.head() + k - N },
    {
        lemma_slot_in_range(self.reader.local_r, Self::cap());
        lemma_wrap_index(self.head(), k, N as int);
    }

    /// Two buffers with the same slots and the same own cursors hold the same
    /// values in the same places, whatever their cached cursors.
    proof fn lemma_same_queue(&self, other: &Self)
        requires
            self.wf(),
            other.slots == self.slots,
            other.writer.local_w == self.writer.local_w,
            other.reader.local_r == self.reader.local_r,
            other.writer.cached_r == other.reader.local_r || other.writer.cached_r == self.writer.cached_r,
            other.reader.cached_w == other.writer.local_w || other.reader.cached_w == self.reader.cached_w,
        ensures
            other.wf(),
            other@ == self@,
    {
        assert forall|k: int| 0 <= k < N implies other.slot_at(k) == self.slot_at(k) by {}
        assert forall|k: int| 0 <= k < other.occupancy() implies (#[trigger] other.slots@[other.slot_at(k)]) is Some by {
            assert(other.slot_at(k) == self.slot_at(k));
        }
        assert forall|k: int| other.occupancy() <= k < N implies (#[trigger] other.slots@[other.slot_at(k)]) is None by {
            assert(other.slot_at(k) == self.slot_at(k));
        }
        assert(other@ =~= self@);
    }

    /// An empty buffer: both cursors at zero, every slot free. The number of
    /// slots must be a power of two.
    pub fn new() -> (r: Self)
        requires
            is_pow2(N as u64),
        ensures
            r.wf(),
            r@ == Seq::<T>::empty(),
    {
        let r = LocalRing { slots: vacant_slots(), writer: WriterCursor::new(), reader: ReaderCursor::new() };
        proof {
            let m = (N - 1) as u64;
            assert(0u64 & m == 0) by (bit_vector);
            assert(r.head() == 0);
            assert(r.occupancy() == 0);
            lemma_wrap_index(0, 0, N as int);
            assert forall|k: int| r.occupancy() <= k < N implies (#[trigger] r.slots@[r.slot_at(k)]) is None by {
                lemma_wrap_index(0, k, N as int);
            }
            assert(r@ =~= Seq::<T>::empty());
        }
        r
    }

    /// Offer `t` to the buffer. It is queued when fewer than `N` values are
    /// queued, with the read cursor refreshed first where the cached one says
    /// the buffer is full; otherwise it is handed back and nothing changes.
    pub fn push(&mut self, t: T) -> (r: Option<T>)
        requires
            old(self).wf(),
        ensures
            final(self).wf(),
            (final(self)@, r) == push_step(old(self)@, t, N as nat),
    {
        let cap = N as u64;
        if self.writer.is_full(cap) {
            self.writer.refresh(self.reader.local_r);
            proof {
                old(self).lemma_same_queue(self);
            }
            if self.writer.is_full(cap) {
                proof {
                    assert(self@ =~= old(self)@);
                }
                return Some(t);
            }
        }
        let ghost pre = *self;
        let s = self.writer.slot(cap);
        self.slots[s as usize] = Some(t);
        self.writer.advance();
        proof {
            let occ = pre.occupancy() as int;
            lemma_pow2_bound(cap);
            assert(occ < N);
            assert(self.occupancy() == occ + 1);
            pre.lemma_slot_at(occ);
            assert(self.head() == pre.head());
            assert forall|k: int| 0 <= k < self.occupancy() implies (#[trigger] self.slots@[self.slot_at(k)]) is Some by {
                pre.lemma_slot_at(k);
                assert(self.slot_at(k) == pre.slot_at(k));
                if k < occ {
                    assert(pre.slots@[pre.slot_at(k)] is Some);
                }
            }
            assert forall|k: int| self.occupancy() <= k < N implies (#[trigger] self.slots@[self.slot_at(k)]) is None by {
                pre.lemma_slot_at(k);
                assert(self.slot_at(k) == pre.slot_at(k));
                assert(pre.slots@[pre.slot_at(k)] is None);
            }
            lemma_slot_step(pre.writer.local_w, cap);
            lemma_mod_succ(pre.head() + occ, N as int);
            assert(slot_of(self.writer.local_w, cap) == self.slot_at(occ + 1));
            assert forall|k: int| 0 <= k < occ implies self.slots@[self.slot_at(k)] == pre.slots@[pre.slot_at(k)] by {
                pre.lemma_slot_at(k);
            }
            assert(self@ =~= old(self)@.push(t));
        }
        None
    }

    /// Take the oldest value, with the write cursor refreshed first where
    /// the cached one says the buffer is empty; nothing when no value is
    /// queued, and then nothing changes.
    pub fn pull(&mut self) -> (r: Option<T>)
        requires
            old(self).wf(),
        ensures
            final(self).wf(),
            (final(self)@, r) == pull_step(old(self)@),
    {
        let cap = N as u64;
        if self.reader.is_empty() {
            self.reader.refresh(self.writer.local_w);
            proof {
                old(self).lemma_same_queue(self);
            }
            if self.reader.is_empty() {
                return None;
            }
        }
        let ghost pre = *self;
        let s = self.reader.slot(cap);
        let mut v: Option<T> = None;
        std::mem::swap(&mut v, &mut self.slots[s as usize]);
        self.reader.advance();
        proof {
            let occ = pre.occupancy() as int;
            lemma_pow2_bound(cap);
            assert(0 < occ <= N);
            assert(self.occupancy() == occ - 1);
            pre.lemma_slot_at(0);
            lemma_slot_step(pre.reader.local_r, cap);
            lemma_small_mod(pre.head() as nat, N as nat);
            lemma_mod_succ(pre.head(), N as int);
            if pre.head() + 1 < N {
                lemma_small_mod((pre.head() + 1) as nat, N as nat);
            } else {
                lemma_mod_self_0(N as int);
            }
            assert(self.head() == if pre.head() + 1 < N { pre.head() + 1 } else { 0 });
            assert forall|k: int| 0 <= k < N - 1 implies self.slot_at(k) == pre.slot_at(k + 1) by {
                pre.lemma_slot_at(k + 1);
                self.lemma_slot_at(k);
            }
            assert(self.slot_at(N - 1) == pre.slot_at(0)) by {
                self.lemma_slot_at(N - 1);
            }
            assert forall|k: int| 0 <= k < self.occupancy() implies (#[trigger] self.slots@[self.slot_at(k)]) is Some by {
                pre.lemma_slot_at(k + 1);
                assert(pre.slots@[pre.slot_at(k + 1)] is Some);
            }
            assert forall|k: int| self.occupancy() <= k < N implies (#[trigger] self.slots@[self.slot_at(k)]) is None by {
                if k < N - 1 {
                    pre.lemma_slot_at(k + 1);
                    assert(pre.slots@[pre.slot_at(k + 1)] is None);
                }
            }
            if occ == N {
                lemma_mod_add_multiples_vanish(pre.head(), N as int);
                assert(pre.slot_at(occ) == pre.slot_at(0));
            }
            assert(slot_of(self.writer.local_w, cap) == self.slot_at(occ - 1));
            assert(self@ =~= old(self)@.drop_first());
        }
        v
    }

    /// Tear the buffer down, handing back each queued value exactly once,
    /// oldest first.
    pub fn into_remaining(self) -> (r: Vec<T>)
        requires
            self.wf(),
        ensures
            r@ == self@,
    {
        let ghost all = self@;
        let mut ring = self;
        let mut out: Vec<T> = Vec::new();
        loop
            invariant
                ring.wf(),
                all == out@ + ring@,
                all == self@,
            decreases ring@.len(),
        {
            let ghost before = ring@;
            match ring.pull() {
                Some(v) => {
                    out.push(v);
                    proof {
                        assert(before.len() > 0);
                        assert(all =~= out@ + ring@);
                    }
                },
                None => {
                    proof {
                        assert(before.len() == 0);
                        assert(all =~= out@);
                    }
                    return out;
                },
            }
        }
    }

    /// An empty buffer when `N` is a power of two; nothing otherwise, since
    /// the slot mask would then be wrong.
    pub fn try_new() -> (r: Option<Self>)
        ensures
            r is Some <==> is_pow2(N as u64),
            r matches Some(b) ==> b.wf() && b@ == Seq::<T>::empty(),
    {
        if is_power_of_two(N as u64) {
            Some(Self::new())
        } else {
            None
        }
    }

    /// A buffer never holds more values than it has slots.
    pub proof fn lemma_within_capacity(&self)
        requires
            self.wf(),
        ensures
            self@.len() <= N,
    {
    }

    /// The number of queued values.
    pub fn len(&self) -> (r: usize)
        requires
            self.wf(),
        ensures
            r == self@.len(),
    {
        self.reader.occupancy(self.writer.local_w) as usize
    }
}

} // verus!
