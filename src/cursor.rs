use vstd::arithmetic::div_mod::{
    lemma_add_mod_noop, lemma_mod_add_multiples_vanish, lemma_mod_self_0, lemma_small_mod,
};
use vstd::prelude::*;

verus! {

/// `n` has exactly one bit set.
pub open spec fn is_pow2(n: u64) -> bool {
    n > 0 && n & ((n - 1) as u64) == 0
}

/// The physical slot that the cursor value `c` selects among `n` slots: the
/// low bits of the cursor.
pub open spec fn slot_of(c: u64, n: u64) -> u64 {
    c & ((n - 1) as u64)
}

/// A masked cursor lies inside the buffer.
pub proof fn lemma_slot_in_range(c: u64, n: u64)
    requires
        is_pow2(n),
    ensures
        slot_of(c, n) < n,
{
    assert(n > 0 && n & ((n - 1) as u64) == 0 ==> c & ((n - 1) as u64) < n) by (bit_vector);
}

/// A power of two is at most half the counter range, so two occupancies of at
/// most `n` never wrap when added.
pub proof fn lemma_pow2_bound(n: u64)
    requires
        is_pow2(n),
    ensures
        n <= 0x8000_0000_0000_0000,
{
    assert(n > 0 && n & ((n - 1) as u64) == 0 ==> n <= 0x8000_0000_0000_0000u64) by (bit_vector);
}

/// Advancing a cursor by one, wrapping at the word, advances its slot by one
/// modulo `n`: the counter range is a multiple of `n`.
pub proof fn lemma_slot_step(c: u64, n: u64)
    requires
        is_pow2(n),
    ensures
        slot_of(c.wrapping_add(1), n) == (slot_of(c, n) + 1) % (n as int),
{
    lemma_slot_in_range(c, n);
    let m = (n - 1) as u64;
    let s = c & m;
    if c == 0xffff_ffff_ffff_ffff {
        assert(n > 0 && n & m == 0 && m == n - 1 ==> 0xffff_ffff_ffff_ffffu64 & m == m) by (bit_vector);
        assert(0u64 & m == 0) by (bit_vector);
        assert(c.wrapping_add(1) == 0);
        assert(s + 1 == n);
        lemma_mod_self_0(n as int);
    } else {
        let d = (c + 1) as u64;
        assert(d == c.wrapping_add(1));
        assert(n > 0 && n & m == 0 && m == n - 1 && c < 0xffff_ffff_ffff_ffffu64 && d == c + 1
            && s == c & m ==> (s == m && d & m == 0) || (s < m && d & m == s + 1)) by (bit_vector);
        if s == m {
            lemma_mod_self_0(n as int);
        } else {
            lemma_small_mod((s + 1) as nat, n as nat);
        }
    }
}

/// Going `k` slots on from slot `h`, for less than one lap, wraps at most once.
pub proof fn lemma_wrap_index(h: int, k: int, n: int)
    requires
        0 <= h < n,
        0 <= k < n,
    ensures
        (h + k) % n == if h + k < n { h + k } else { h + k - n },
{
    if h + k < n {
        lemma_small_mod((h + k) as nat, n as nat);
    } else {
        lemma_mod_add_multiples_vanish(h + k - n, n);
        lemma_small_mod((h + k - n) as nat, n as nat);
    }
}

/// Stepping on by one commutes with reducing modulo `n`.
pub proof fn lemma_mod_succ(x: int, n: int)
    requires
        0 <= x,
        0 < n,
    ensures
        ((x % n) + 1) % n == (x + 1) % n,
{
    lemma_add_mod_noop(x, 1, n);
    if n == 1 {
        lemma_mod_self_0(1);
        assert(x % n == 0);
    } else {
        lemma_small_mod(1, n as nat);
    }
}

/// Advancing a cursor by `d`, wrapping at the word, advances its slot by `d`
/// modulo `n`.
pub proof fn lemma_slot_offset(c: u64, d: u64, n: u64)
    requires
        is_pow2(n),
    ensures
        slot_of(c.wrapping_add(d), n) == (slot_of(c, n) + d) % (n as int),
    decreases d,
{
    if d == 0 {
        lemma_slot_in_range(c, n);
        lemma_small_mod(slot_of(c, n) as nat, n as nat);
        assert(c.wrapping_add(0) == c);
    } else {
        let e = (d - 1) as u64;
        lemma_slot_offset(c, e, n);
        lemma_slot_step(c.wrapping_add(e), n);
        assert(c.wrapping_add(e).wrapping_add(1) == c.wrapping_add(d));
        lemma_mod_succ(slot_of(c, n) + e, n as int);
    }
}

/// Whether `n` is a power of two.
pub fn is_power_of_two(n: u64) -> (r: bool)
    ensures
        r == is_pow2(n),
{
    n > 0 && n & (n - 1) == 0
}

/// The slot that cursor `c` selects among `n` slots.
pub fn slot_index(c: u64, n: u64) -> (r: u64)
    requires
        is_pow2(n),
    ensures
        r == slot_of(c, n),
        r < n,
{
    proof {
        lemma_slot_in_range(c, n);
    }
    c & (n - 1)
}

/// The slots that hold values when the read cursor is `read` and the write
/// cursor is `write`, oldest first: the slot of each cursor value from `read`
/// up to `write`. They are distinct, so a teardown that empties each of them
/// releases every queued value exactly once and touches no other slot.
pub fn live_slots(read: u64, write: u64, capacity: u64) -> (r: Vec<u64>)
    requires
        is_pow2(capacity),
        write.wrapping_sub(read) <= capacity,
    ensures
        r@.len() == write.wrapping_sub(read),
        forall|k: int| 0 <= k < r@.len() ==> #[trigger] r@[k] == slot_of(read.wrapping_add(k as u64), capacity),
        forall|k: int| 0 <= k < r@.len() ==> #[trigger] r@[k] == (slot_of(read, capacity) + k) % (capacity as int),
        forall|i: int, j: int| 0 <= i < j < r@.len() ==> r@[i] != r@[j],
{
    let count = write.wrapping_sub(read);
    let mut out: Vec<u64> = Vec::new();
    let mut c: u64 = read;
    let mut i: u64 = 0;
    proof {
        lemma_slot_in_range(read, capacity);
        lemma_small_mod(slot_of(read, capacity) as nat, capacity as nat);
    }
    while i < count
        invariant
            is_pow2(capacity),
            count <= capacity,
            i <= count,
            out@.len() == i,
            slot_of(c, capacity) == (slot_of(read, capacity) + i) % (capacity as int),
            slot_of(read, capacity) < capacity,
            forall|k: int| 0 <= k < i ==> #[trigger] out@[k] == (slot_of(read, capacity) + k) % (capacity as int),
        decreases count - i,
    {
        out.push(slot_index(c, capacity));
        proof {
            lemma_slot_step(c, capacity);
            lemma_mod_succ(slot_of(read, capacity) + i, capacity as int);
        }
        c = c.wrapping_add(1);
        i = i + 1;
    }
    proof {
        assert forall|a: int, b: int| 0 <= a < b < out@.len() implies out@[a] != out@[b] by {
            lemma_wrap_index(slot_of(read, capacity) as int, a, capacity as int);
            lemma_wrap_index(slot_of(read, capacity) as int, b, capacity as int);
        }
        assert forall|k: int| 0 <= k < out@.len() implies #[trigger] out@[k] == slot_of(read.wrapping_add(k as u64), capacity) by {
            lemma_slot_offset(read, k as u64, capacity);
        }
    }
    out
}

} // verus!
