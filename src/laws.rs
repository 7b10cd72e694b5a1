use crate::ring::{pull_step, push_step};
use vstd::prelude::*;

verus! {

/// One call on a buffer: a push of a value, or a pull.
pub enum Op<T> {
    Push(T),
    Pull,
}

/// The queue after one call.
pub open spec fn apply<T>(q: Seq<T>, op: Op<T>, cap: nat) -> Seq<T> {
    match op {
        Op::Push(t) => push_step(q, t, cap).0,
        Op::Pull => pull_step(q).0,
    }
}

/// The queue after a run of calls from `q`.
pub open spec fn run<T>(q: Seq<T>, ops: Seq<Op<T>>, cap: nat) -> Seq<T>
    decreases ops.len(),
{
    if ops.len() == 0 {
        q
    } else {
        run(apply(q, ops[0], cap), ops.drop_first(), cap)
    }
}

/// The values that the pushes of a run had accepted, in order.
pub open spec fn accepted<T>(q: Seq<T>, ops: Seq<Op<T>>, cap: nat) -> Seq<T>
    decreases ops.len(),
{
    if ops.len() == 0 {
        Seq::empty()
    } else {
        let rest = accepted(apply(q, ops[0], cap), ops.drop_first(), cap);
        match ops[0] {
            Op::Push(t) => if push_step(q, t, cap).1 is None {
                seq![t] + rest
            } else {
                rest
            },
            Op::Pull => rest,
        }
    }
}

/// The values that the pulls of a run returned, in order.
pub open spec fn delivered<T>(q: Seq<T>, ops: Seq<Op<T>>, cap: nat) -> Seq<T>
    decreases ops.len(),
{
    if ops.len() == 0 {
        Seq::empty()
    } else {
        let rest = delivered(apply(q, ops[0], cap), ops.drop_first(), cap);
        match ops[0] {
            Op::Pull => if q.len() > 0 {
                seq![q[0]] + rest
            } else {
                rest
            },
            Op::Push(_) => rest,
        }
    }
}

/// First in, first out: over any run of pushes and pulls, what was queued at
/// the start followed by what the pushes accepted is what the pulls returned
/// followed by what is still queued. From an empty buffer, the pulls return
/// a prefix of the accepted values, in the order they were pushed.
pub proof fn lemma_fifo<T>(q: Seq<T>, ops: Seq<Op<T>>, cap: nat)
    ensures
        q + accepted(q, ops, cap) == delivered(q, ops, cap) + run(q, ops, cap),
    decreases ops.len(),
{
    if ops.len() > 0 {
        let next = apply(q, ops[0], cap);
        lemma_fifo(next, ops.drop_first(), cap);
        match ops[0] {
            Op::Push(t) => {
                if q.len() < cap {
                    assert(q + accepted(q, ops, cap) =~= next + accepted(next, ops.drop_first(), cap));
                } else {
                    assert(q + accepted(q, ops, cap) =~= next + accepted(next, ops.drop_first(), cap));
                }
            },
            Op::Pull => {
                if q.len() > 0 {
                    assert(q =~= seq![q[0]] + next);
                    assert(delivered(q, ops, cap) + run(q, ops, cap) =~= seq![q[0]] + (delivered(
                        next,
                        ops.drop_first(),
                        cap,
                    ) + run(next, ops.drop_first(), cap)));
                }
            },
        }
    } else {
        assert(q + accepted(q, ops, cap) =~= delivered(q, ops, cap) + run(q, ops, cap));
    }
}

/// The buffer never holds more than its capacity, whatever the run of calls.
pub proof fn lemma_capacity_bound<T>(q: Seq<T>, ops: Seq<Op<T>>, cap: nat)
    requires
        q.len() <= cap,
    ensures
        run(q, ops, cap).len() <= cap,
    decreases ops.len(),
{
    if ops.len() > 0 {
        lemma_capacity_bound(apply(q, ops[0], cap), ops.drop_first(), cap);
    }
}

/// A push is refused exactly when the buffer holds `cap` values, and a pull
/// comes back empty exactly when it holds none.
pub proof fn lemma_signals_exact<T>(q: Seq<T>, t: T, cap: nat)
    requires
        q.len() <= cap,
    ensures
        (push_step(q, t, cap).1 == Some(t)) == (q.len() == cap),
        (push_step(q, t, cap).1 is None) == (q.len() < cap),
        (pull_step(q).1 is None) == (q.len() == 0),
{
}

/// A push of each of `vals`, in order.
pub open spec fn pushes<T>(vals: Seq<T>) -> Seq<Op<T>> {
    Seq::new(vals.len(), |i: int| Op::Push(vals[i]))
}

/// `k` pulls.
pub open spec fn pulls<T>(k: nat) -> Seq<Op<T>> {
    Seq::new(k, |i: int| Op::Pull)
}

/// Running two runs one after the other is running their concatenation.
proof fn lemma_run_concat<T>(q: Seq<T>, a: Seq<Op<T>>, b: Seq<Op<T>>, cap: nat)
    ensures
        run(q, a + b, cap) == run(run(q, a, cap), b, cap),
        delivered(q, a + b, cap) == delivered(q, a, cap) + delivered(run(q, a, cap), b, cap),
    decreases a.len(),
{
    if a.len() == 0 {
        assert(a + b =~= b);
        assert(delivered(q, a + b, cap) =~= delivered(q, a, cap) + delivered(run(q, a, cap), b, cap));
    } else {
        let next = apply(q, a[0], cap);
        assert((a + b).drop_first() =~= a.drop_first() + b);
        assert((a + b)[0] == a[0]);
        lemma_run_concat(next, a.drop_first(), b, cap);
        assert(delivered(q, a + b, cap) =~= delivered(q, a, cap) + delivered(run(q, a, cap), b, cap));
    }
}

/// Pushes that all find room append their values and return nothing.
proof fn lemma_run_pushes<T>(q: Seq<T>, vals: Seq<T>, cap: nat)
    requires
        q.len() + vals.len() <= cap,
    ensures
        run(q, pushes(vals), cap) == q + vals,
        delivered(q, pushes(vals), cap) == Seq::<T>::empty(),
    decreases vals.len(),
{
    if vals.len() == 0 {
        assert(q + vals =~= q);
    } else {
        assert(pushes(vals).drop_first() =~= pushes(vals.drop_first()));
        lemma_run_pushes(q.push(vals[0]), vals.drop_first(), cap);
        assert(q.push(vals[0]) + vals.drop_first() =~= q + vals);
    }
}

/// `k` pulls on at least `k` queued values return the oldest `k`.
proof fn lemma_run_pulls<T>(q: Seq<T>, k: nat, cap: nat)
    requires
        k <= q.len(),
    ensures
        run(q, pulls(k), cap) == q.subrange(k as int, q.len() as int),
        delivered(q, pulls(k), cap) == q.subrange(0, k as int),
    decreases k,
{
    if k == 0 {
        assert(q.subrange(0, q.len() as int) =~= q);
        assert(q.subrange(0, 0) =~= Seq::<T>::empty());
    } else {
        assert(pulls::<T>(k).drop_first() =~= pulls::<T>((k - 1) as nat));
        lemma_run_pulls(q.drop_first(), (k - 1) as nat, cap);
        assert(q.drop_first().subrange(k - 1, q.len() - 1) =~= q.subrange(k as int, q.len() as int));
        assert(seq![q[0]] + q.drop_first().subrange(0, k - 1) =~= q.subrange(0, k as int));
    }
}

/// Round trip: pushing at most `cap` values into an empty buffer and then
/// pulling as many returns exactly those values in the same order, leaves
/// the buffer empty, and a further pull returns nothing.
pub proof fn lemma_round_trip<T>(vals: Seq<T>, cap: nat)
    requires
        vals.len() <= cap,
    ensures
        delivered(Seq::empty(), pushes(vals) + pulls(vals.len()), cap) == vals,
        run(Seq::empty(), pushes(vals) + pulls(vals.len()), cap) == Seq::<T>::empty(),
        pull_step(run(Seq::empty(), pushes(vals) + pulls(vals.len()), cap)).1 is None,
{
    let e = Seq::<T>::empty();
    lemma_run_concat(e, pushes(vals), pulls(vals.len()), cap);
    lemma_run_pushes(e, vals, cap);
    assert(e + vals =~= vals);
    lemma_run_pulls(vals, vals.len(), cap);
    assert(vals.subrange(0, vals.len() as int) =~= vals);
    assert(vals.subrange(vals.len() as int, vals.len() as int) =~= e);
    assert(e + vals =~= vals);
}

} // verus!
