use ringbuffer_spsc::cursor::{is_power_of_two, live_slots, slot_index};
use ringbuffer_spsc::handle::{ReaderCursor, WriterCursor};

#[test]
fn powers_of_two() {
    assert!(is_power_of_two(1));
    assert!(is_power_of_two(2));
    assert!(is_power_of_two(16));
    assert!(is_power_of_two(1 << 63));
    assert!(!is_power_of_two(0));
    assert!(!is_power_of_two(3));
    assert!(!is_power_of_two(12));
    assert!(!is_power_of_two(u64::MAX));
}

#[test]
fn slot_is_low_bits_of_cursor() {
    assert_eq!(slot_index(0, 4), 0);
    assert_eq!(slot_index(5, 4), 1);
    assert_eq!(slot_index(1_000_003, 16), 1_000_003 % 16);
    assert_eq!(slot_index(u64::MAX, 8), 7);
    assert_eq!(slot_index(u64::MAX, 1), 0);
}

#[test]
fn live_slots_across_counter_wrap() {
    assert_eq!(live_slots(u64::MAX - 1, 2, 4), vec![2, 3, 0, 1]);
    assert_eq!(live_slots(u64::MAX, 1, 8), vec![7, 0]);
    assert_eq!(live_slots(6, 6, 4), Vec::<u64>::new());
    assert_eq!(live_slots(5, 7, 4), vec![1, 2]);
}

#[test]
fn writer_full_only_at_capacity() {
    let mut w = WriterCursor::new();
    assert!(!w.is_full(4));
    for _ in 0..4 {
        w.advance();
    }
    assert_eq!(w.pending(), 4);
    assert!(w.is_full(4));
    w.refresh(1);
    assert!(!w.is_full(4));
    assert_eq!(w.slot(4), 0);
    assert_eq!(w.advance(), 5);
    assert!(w.is_full(4));
}

#[test]
fn writer_pending_wraps() {
    let w = WriterCursor { local_w: 2, cached_r: u64::MAX - 1 };
    assert_eq!(w.pending(), 4);
    assert!(w.is_full(4));
    let mut w = WriterCursor { local_w: u64::MAX, cached_r: u64::MAX };
    assert_eq!(w.advance(), 0);
    assert_eq!(w.pending(), 1);
}

#[test]
fn reader_empty_and_occupancy() {
    let mut r = ReaderCursor::new();
    assert!(r.is_empty());
    assert_eq!(r.occupancy(0), 0);
    r.refresh(3);
    assert!(!r.is_empty());
    assert_eq!(r.occupancy(3), 3);
    assert_eq!(r.slot(2), 0);
    assert_eq!(r.advance(), 1);
    assert_eq!(r.slot(2), 1);
}

#[test]
fn reader_occupancy_across_wrap() {
    let r = ReaderCursor { local_r: u64::MAX, cached_w: u64::MAX };
    assert_eq!(r.occupancy(1), 2);
    assert_eq!(r.occupancy(u64::MAX), 0);
    let mut r = ReaderCursor { local_r: u64::MAX, cached_w: 0 };
    assert_eq!(r.advance(), 0);
    assert!(r.is_empty());
}
