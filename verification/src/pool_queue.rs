//! The slot arithmetic of a fixed-size ring buffer shared by one producer
//! and one consumer.
//!
//! The queue has `len` slots and two counters that only grow: `head`, the
//! number of slots the producer has handed on, and `tail`, the number of
//! slots the consumer has handed back. Between them lie the slots in use.
//! The atomics and the shared storage stay with the caller; these functions
//! decide which slot each side may touch.

use vstd::prelude::*;

verus! {

/// The counters of a queue of `len` slots are consistent: the consumer is
/// never ahead of the producer, and the producer never more than `len` slots
/// ahead of the consumer.
pub open spec fn counters_ok(head: int, tail: int, len: int) -> bool {
    tail <= head <= tail + len
}

/// The slot the producer may fill next, or `None` when all `len` slots are
/// in use.
///
/// `tail` may be a stale reading of the consumer's counter: a full queue is
/// then read again before giving up.
pub fn producer_slot(head: u64, tail: u64, len: u64) -> (r: Option<usize>)
    requires
        counters_ok(head as int, tail as int, len as int),
        len <= usize::MAX,
    ensures
        r is None <==> head - tail == len,
        r matches Some(i) ==> i == head % len && i < len,
{
    if head - tail == len {
        None
    } else {
        Some((head % len) as usize)
    }
}

/// The slot the consumer may read next, or `None` when no slot is in use.
///
/// `head` may be a stale reading of the producer's counter: an empty queue
/// is then read again before giving up.
pub fn consumer_slot(tail: u64, head: u64, len: u64) -> (r: Option<usize>)
    requires
        counters_ok(head as int, tail as int, len as int),
        len <= usize::MAX,
    ensures
        r is None <==> head == tail,
        r matches Some(i) ==> i == tail % len && i < len,
{
    if head == tail {
        None
    } else {
        Some((tail % len) as usize)
    }
}

/// The producer and the consumer never get the same slot: whenever both
/// may take one, their slots differ.
pub proof fn lemma_slots_distinct(head: u64, tail: u64, len: u64)
    requires
        counters_ok(head as int, tail as int, len as int),
        head - tail != len,
        head != tail,
    ensures
        head % len != tail % len,
{
    let d: int = head - tail;
    assert(0 < d < len);
    vstd::arithmetic::div_mod::lemma_mod_equivalence(head as int, tail as int, len as int);
    vstd::arithmetic::div_mod::lemma_small_mod(d as nat, len as nat);
}

} // verus!
