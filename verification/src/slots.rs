use vstd::prelude::*;
use crate::network::ring_index;
use crate::scalar::is_power_of_two;
use ringbuffer::AllocRingBuffer;
use ringbuffer::RingBuffer;

verus! {

/// A ring buffer of slot numbers, kept by the `ringbuffer` crate.
#[verifier::external_body]
pub struct SlotRing {
    ring: AllocRingBuffer<usize>,
}

/// The slot numbers that a ring holds, oldest first.
pub uninterp spec fn ring_slots(ring: SlotRing) -> Seq<usize>;

/// The capacity that a ring was made with.
pub uninterp spec fn ring_capacity(ring: SlotRing) -> nat;

/// How many pushes a ring has counted since it was made.
pub uninterp spec fn ring_written(ring: SlotRing) -> nat;

/// A ring may hold this many slot numbers at most, so that its storage can be laid out.
pub const RING_LIMIT: usize = 134217728;

/// The limit of a ring is a power of two.
pub proof fn lemma_ring_limit()
    ensures
        is_power_of_two(RING_LIMIT as nat),
{
    reveal_with_fuel(is_power_of_two, 32);
}

/// `AllocRingBuffer::new`: an empty ring of the given capacity, which has counted no push.
/// The crate panics on a capacity that is zero or no power of two, and cannot lay out a
/// ring whose storage would exceed `isize::MAX` bytes; the bound on the capacity stays
/// clear of that for slot numbers of up to eight bytes.
#[verifier::external_body]
pub(crate) fn ring_new(capacity: usize) -> (ring: SlotRing)
    requires
        is_power_of_two(capacity as nat),
        capacity <= RING_LIMIT,
    ensures
        ring_slots(ring) == Seq::<usize>::empty(),
        ring_capacity(ring) == capacity,
        ring_written(ring) == 0,
{
    SlotRing { ring: AllocRingBuffer::new(capacity) }
}

/// `RingBuffer::push` of `AllocRingBuffer`: the slot number is added as the newest; where
/// the ring is full the oldest is dropped first. The crate counts the pushes in a `usize`
/// without a check, so a ring that has counted `usize::MAX` pushes takes no more.
#[verifier::external_body]
pub(crate) fn ring_push(ring: &mut SlotRing, slot: usize)
    requires
        ring_written(*old(ring)) < usize::MAX,
    ensures
        ring_slots(*final(ring)) == if ring_slots(*old(ring)).len() == ring_capacity(*old(ring)) {
            ring_slots(*old(ring)).drop_first().push(slot)
        } else {
            ring_slots(*old(ring)).push(slot)
        },
        ring_capacity(*final(ring)) == ring_capacity(*old(ring)),
        ring_written(*final(ring)) == ring_written(*old(ring)) + 1,
{
    ring.ring.push(slot)
}

/// `RingBuffer::get` of `AllocRingBuffer`: the slot number at a relative index, where 0 is
/// the oldest and -1 the newest and every index is taken modulo the number held; nothing
/// where the ring is empty. The crate adds the index to its count of dropped slot numbers
/// as an `isize`, so the ring must have counted no more than `isize::MAX` pushes.
#[verifier::external_body]
pub(crate) fn ring_get(ring: &SlotRing, index: isize) -> (slot: Option<usize>)
    requires
        ring_written(*ring) <= isize::MAX,
        ring_slots(*ring).len() <= isize::MAX,
    ensures
        slot == if ring_slots(*ring).len() == 0 {
            None
        } else {
            Some(ring_slots(*ring)[ring_index(index as int, ring_slots(*ring).len() as int)])
        },
{
    ring.ring.get(index).copied()
}

} // verus!
