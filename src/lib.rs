//! A fixed-capacity single-producer single-consumer ring buffer.
//!
//! Cursors are unbounded counters that wrap at the word; a cursor selects the
//! slot given by its low bits, which is why the number of slots is a power of
//! two.
//!
//! - `cursor`: slot masking of wrapping cursors, and the slots that hold
//!   values between a read and a write cursor.
//! - `handle`: the decisions that the writer and the reader take on their own
//!   cursor and their cached snapshot of the other side's cursor, and why a
//!   stale snapshot is safe.
//! - `ring`: a ring buffer owned by one thread and driven by those decisions,
//!   whose contents are modelled as a sequence.
//! - `laws`: first-in first-out order, the capacity bound, exact full and
//!   empty signals, and the round trip, over any run of pushes and pulls.
pub mod cursor;
pub mod handle;
pub mod laws;
pub mod ring;
