use ringbuffer_spsc::ring::LocalRing;
use std::cell::Cell;
use std::rc::Rc;

#[test]
fn capacity_four_scenario() {
    let mut rb = LocalRing::<u32, 4>::new();
    for v in 0..4u32 {
        assert_eq!(rb.push(v), None);
    }
    assert_eq!(rb.push(4), Some(4));
    assert_eq!(rb.pull(), Some(0));
    assert_eq!(rb.pull(), Some(1));
    assert_eq!(rb.pull(), Some(2));
    assert_eq!(rb.pull(), Some(3));
    assert_eq!(rb.pull(), None);
    assert_eq!(rb.push(4), None);
    assert_eq!(rb.pull(), Some(4));
}

#[test]
fn fresh_buffer_is_empty() {
    let mut rb = LocalRing::<String, 8>::new();
    assert_eq!(rb.len(), 0);
    assert_eq!(rb.pull(), None);
    assert_eq!(rb.len(), 0);
}

#[test]
fn round_trip_keeps_order() {
    let vals = [17u64, 3, 99, 42, 5, 8, 1000, 7];
    let mut rb = LocalRing::<u64, 8>::new();
    for &v in vals.iter() {
        assert_eq!(rb.push(v), None);
    }
    assert_eq!(rb.len(), 8);
    for &v in vals.iter() {
        assert_eq!(rb.pull(), Some(v));
    }
    assert_eq!(rb.pull(), None);
    assert_eq!(rb.len(), 0);
}

#[test]
fn full_signal_hands_value_back_unchanged() {
    let mut rb = LocalRing::<String, 2>::new();
    assert_eq!(rb.push("a".to_string()), None);
    assert_eq!(rb.push("b".to_string()), None);
    assert_eq!(rb.push("c".to_string()), Some("c".to_string()));
    assert_eq!(rb.len(), 2);
    assert_eq!(rb.pull(), Some("a".to_string()));
    assert_eq!(rb.push("c".to_string()), None);
    assert_eq!(rb.pull(), Some("b".to_string()));
    assert_eq!(rb.pull(), Some("c".to_string()));
    assert_eq!(rb.pull(), None);
}

#[test]
fn capacity_one_alternates() {
    let mut rb = LocalRing::<i32, 1>::new();
    for v in 0..10i32 {
        assert_eq!(rb.push(v), None);
        assert_eq!(rb.push(v + 100), Some(v + 100));
        assert_eq!(rb.len(), 1);
        assert_eq!(rb.pull(), Some(v));
        assert_eq!(rb.pull(), None);
    }
}

#[test]
fn interleaved_stream_is_fifo() {
    let total: u64 = 1_000_000;
    let mut rb = LocalRing::<u64, 16>::new();
    let mut next_in: u64 = 0;
    let mut next_out: u64 = 0;
    let mut burst: u64 = 1;
    while next_out < total {
        let mut k = 0;
        while k < burst && next_in < total {
            match rb.push(next_in) {
                None => next_in += 1,
                Some(v) => {
                    assert_eq!(v, next_in);
                    assert_eq!(rb.len(), 16);
                    break;
                }
            }
            k += 1;
        }
        let mut k = 0;
        while k < (burst * 7) % 13 + 1 {
            match rb.pull() {
                Some(v) => {
                    assert_eq!(v, next_out);
                    next_out += 1;
                }
                None => {
                    assert_eq!(next_out, next_in);
                    break;
                }
            }
            k += 1;
        }
        assert!(rb.len() <= 16);
        burst = burst % 23 + 1;
    }
    assert_eq!(next_out, total);
    assert_eq!(rb.pull(), None);
}

#[test]
fn try_new_rejects_non_power_of_two() {
    assert!(LocalRing::<u8, 3>::try_new().is_none());
    assert!(LocalRing::<u8, 0>::try_new().is_none());
    assert!(LocalRing::<u8, 12>::try_new().is_none());
    let rb = LocalRing::<u8, 32>::try_new();
    assert!(rb.is_some());
    assert_eq!(rb.unwrap().len(), 0);
}

struct Counted {
    drops: Rc<Cell<u32>>,
    id: u32,
}

impl Drop for Counted {
    fn drop(&mut self) {
        self.drops.set(self.drops.get() + 1);
    }
}

#[test]
fn teardown_releases_each_remaining_value_once() {
    let drops = Rc::new(Cell::new(0u32));
    let mut rb = LocalRing::<Counted, 4>::new();
    for id in 0..6u32 {
        let t = Counted { drops: drops.clone(), id };
        if let Some(back) = rb.push(t) {
            assert!(back.id >= 4);
        }
    }
    assert_eq!(drops.get(), 2);
    let first = rb.pull().unwrap();
    assert_eq!(first.id, 0);
    drop(first);
    assert_eq!(drops.get(), 3);
    let rest = rb.into_remaining();
    assert_eq!(rest.len(), 3);
    assert_eq!(rest.iter().map(|t| t.id).collect::<Vec<u32>>(), vec![1, 2, 3]);
    assert_eq!(drops.get(), 3);
    drop(rest);
    assert_eq!(drops.get(), 6);
}

#[test]
fn teardown_of_empty_buffer_releases_nothing() {
    let drops = Rc::new(Cell::new(0u32));
    let mut rb = LocalRing::<Counted, 2>::new();
    assert!(rb.push(Counted { drops: drops.clone(), id: 1 }).is_none());
    drop(rb.pull());
    assert_eq!(drops.get(), 1);
    let rest = rb.into_remaining();
    assert!(rest.is_empty());
    assert_eq!(drops.get(), 1);
}
