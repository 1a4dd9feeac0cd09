use rawedio::pool_queue::{consumer_slot, producer_slot};

#[test]
fn producer_slot_is_none_when_full() {
    assert_eq!(producer_slot(5, 1, 4), None);
    assert_eq!(producer_slot(0, 0, 0), None);
}

#[test]
fn producer_slot_wraps_around() {
    assert_eq!(producer_slot(5, 2, 4), Some(1));
    assert_eq!(producer_slot(0, 0, 4), Some(0));
    assert_eq!(producer_slot(7, 7, 3), Some(1));
}

#[test]
fn consumer_slot_is_none_when_empty() {
    assert_eq!(consumer_slot(5, 5, 4), None);
    assert_eq!(consumer_slot(0, 0, 0), None);
}

#[test]
fn consumer_slot_wraps_around() {
    assert_eq!(consumer_slot(2, 5, 4), Some(2));
    assert_eq!(consumer_slot(9, 10, 4), Some(1));
}

#[test]
fn producer_and_consumer_slots_differ() {
    let len: u64 = 4;
    for tail in 0..12u64 {
        for head in tail..=tail + len {
            if let (Some(p), Some(c)) = (producer_slot(head, tail, len), consumer_slot(tail, head, len)) {
                assert_ne!(p, c);
            }
        }
    }
}
