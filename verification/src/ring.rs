use vstd::prelude::*;
use crate::network::ring_index;
use crate::scalar::is_power_of_two;
use crate::slots::ring_capacity;
use crate::slots::ring_get;
use crate::slots::ring_new;
use crate::slots::ring_push;
use crate::slots::ring_slots;
use crate::slots::ring_written;
use crate::slots::SlotRing;
use crate::slots::RING_LIMIT;

verus! {

/// When a ring has counted this many pushes, its slot numbers are moved to a fresh ring.
const REBASE_AT: usize = 1073741824;

/// A delay line of fixed capacity: it always holds as many samples as its capacity, and
/// every push drops the oldest of them.
///
/// The samples stand in slots that never move. A ring buffer holds the numbers of the
/// slots in the order of the age of their samples, so that a push overwrites the slot that
/// is first in the ring and passes its number on to the end.
pub struct DelayLine<T> {
    slots: Vec<T>,
    order: SlotRing,
    /// How many pushes the ring has counted.
    written: usize,
}

/// The slot numbers are those of `slots` slots, each of them once.
spec fn is_slot_order(order: Seq<usize>, slots: nat) -> bool {
    &&& order.len() == slots
    &&& forall|k: int| 0 <= k < order.len() ==> #[trigger] order[k] < slots
    &&& forall|j: int, k: int| 0 <= j < k < order.len() ==> order[j] != order[k]
}

/// The sample at relative offset `offset` of a line given by its samples, oldest first.
pub open spec fn sample_at<T>(line: Seq<T>, offset: int) -> T {
    line[ring_index(offset, line.len() as int)]
}

/// The samples of a line after `value` was pushed.
pub open spec fn pushed<T>(line: Seq<T>, value: T) -> Seq<T> {
    line.drop_first().push(value)
}

/// Reading `back` steps back after a push gives what was pushed, if `back` is one, and
/// else what stood one step nearer before the push.
pub proof fn lemma_read_after_push<T>(line: Seq<T>, value: T, back: int)
    requires
        1 <= back <= line.len(),
    ensures
        sample_at(pushed(line, value), -back) == if back == 1 {
            value
        } else {
            sample_at(line, 1 - back)
        },
{
    let n = line.len() as int;
    vstd::arithmetic::div_mod::lemma_fundamental_div_mod_converse(-back, n, -1, n - back);
    if back > 1 {
        vstd::arithmetic::div_mod::lemma_fundamental_div_mod_converse(1 - back, n, -1, n + 1 - back);
    }
}

/// The samples of a line after the samples `values` were pushed, one after the other.
pub open spec fn pushed_all<T>(line: Seq<T>, values: Seq<T>) -> Seq<T>
    decreases values.len(),
{
    if values.len() == 0 {
        line
    } else {
        pushed(pushed_all(line, values.drop_last()), values.last())
    }
}

/// A read of `back` steps back sees what was pushed `back` pushes ago, as long as the
/// line reaches that far.
pub proof fn lemma_read_after_pushes<T>(line: Seq<T>, values: Seq<T>, back: int)
    requires
        1 <= back <= values.len(),
        back <= line.len(),
    ensures
        pushed_all(line, values).len() == line.len(),
        sample_at(pushed_all(line, values), -back) == values[values.len() - back],
    decreases values.len(),
{
    lemma_pushed_all_len(line, values.drop_last());
    lemma_read_after_push(pushed_all(line, values.drop_last()), values.last(), back);
    if back > 1 {
        lemma_read_after_pushes(line, values.drop_last(), back - 1);
    }
}

/// Pushing does not change how many samples a line holds.
proof fn lemma_pushed_all_len<T>(line: Seq<T>, values: Seq<T>)
    requires
        line.len() > 0,
    ensures
        pushed_all(line, values).len() == line.len(),
    decreases values.len(),
{
    if values.len() > 0 {
        lemma_pushed_all_len(line, values.drop_last());
    }
}

impl<T: Copy> DelayLine<T> {
    /// The line holds at least one sample, and its ring holds the number of each slot once.
    pub closed spec fn wf(&self) -> bool {
        &&& 0 < self.slots@.len() <= RING_LIMIT
        &&& is_power_of_two(self.slots@.len())
        &&& ring_capacity(self.order) == self.slots@.len()
        &&& is_slot_order(ring_slots(self.order), self.slots@.len())
        &&& ring_written(self.order) == self.written
        &&& self.written <= REBASE_AT
    }

    /// The samples held, oldest first.
    pub closed spec fn view(&self) -> Seq<T> {
        Seq::new(self.slots@.len(), |age: int| self.slots@[ring_slots(self.order)[age] as int])
    }

    /// The sample at relative offset `offset`: offset 0 is the oldest sample, which the next
    /// push overwrites; offset -1 is the sample pushed last; offsets wrap around the line.
    pub open spec fn at(&self, offset: int) -> T {
        sample_at(self@, offset)
    }

    /// A ring that holds the slot numbers `0` to `capacity - 1`, the smallest as the oldest.
    fn fresh_order(capacity: usize) -> (order: SlotRing)
        requires
            0 < capacity <= RING_LIMIT,
            is_power_of_two(capacity as nat),
        ensures
            ring_capacity(order) == capacity,
            ring_written(order) == capacity,
            ring_slots(order) == Seq::new(capacity as nat, |k: int| k as usize),
    {
        let mut order = ring_new(capacity);
        let mut n: usize = 0;
        while n < capacity
            invariant
                n <= capacity <= RING_LIMIT,
                ring_capacity(order) == capacity,
                ring_written(order) == n,
                ring_slots(order) == Seq::new(n as nat, |k: int| k as usize),
            decreases capacity - n,
        {
            ring_push(&mut order, n);
            assert(ring_slots(order) =~= Seq::new((n + 1) as nat, |k: int| k as usize));
            n += 1;
        }
        order
    }

    /// A line of `capacity` samples, each of them `value`.
    pub fn filled(capacity: usize, value: T) -> (line: Self)
        requires
            0 < capacity <= RING_LIMIT,
            is_power_of_two(capacity as nat),
        ensures
            line.wf(),
            line@ == Seq::new(capacity as nat, |age: int| value),
    {
        let mut slots: Vec<T> = Vec::new();
        let mut n: usize = 0;
        while n < capacity
            invariant
                n <= capacity,
                slots@.len() == n,
                forall|k: int| 0 <= k < n ==> slots@[k] == value,
            decreases capacity - n,
        {
            slots.push(value);
            n += 1;
        }
        let order = Self::fresh_order(capacity);
        let line = DelayLine { slots, order, written: capacity };
        assert(line@ =~= Seq::new(capacity as nat, |age: int| value));
        line
    }

    /// How many samples the line holds.
    pub fn capacity(&self) -> (capacity: usize)
        requires
            self.wf(),
        ensures
            capacity == self@.len(),
            capacity > 0,
    {
        self.slots.len()
    }

    /// Moves the slot numbers to a fresh ring, in their order.
    fn rebase(&mut self)
        requires
            old(self).wf(),
        ensures
            final(self).wf(),
            final(self)@ == old(self)@,
            final(self).written == final(self).slots@.len(),
    {
        let capacity = self.slots.len();
        let mut order = ring_new(capacity);
        let mut k: usize = 0;
        while k < capacity
            invariant
                self.wf(),
                *self == *old(self),
                capacity == self.slots@.len(),
                k <= capacity,
                ring_capacity(order) == capacity,
                ring_written(order) == k,
                ring_slots(order) == ring_slots(self.order).take(k as int),
            decreases capacity - k,
        {
            proof {
                vstd::arithmetic::div_mod::lemma_small_mod(k as nat, capacity as nat);
            }
            let slot = match ring_get(&self.order, k as isize) {
                Some(slot) => slot,
                None => 0,
            };
            ring_push(&mut order, slot);
            assert(ring_slots(order) =~= ring_slots(self.order).take(k + 1));
            k += 1;
        }
        assert(ring_slots(self.order).take(capacity as int) =~= ring_slots(self.order));
        self.order = order;
        self.written = capacity;
        assert(self@ =~= old(self)@);
    }

    /// Pushes `value` and drops the oldest sample.
    pub fn push(&mut self, value: T)
        requires
            old(self).wf(),
        ensures
            final(self).wf(),
            final(self)@ == pushed(old(self)@, value),
    {
        if self.written >= REBASE_AT {
            self.rebase();
        }
        let ghost before = ring_slots(self.order);
        proof {
            vstd::arithmetic::div_mod::lemma_small_mod(0, self.slots@.len());
        }
        let oldest = match ring_get(&self.order, 0) {
            Some(slot) => slot,
            None => 0,
        };
        assert(oldest == before[0]);
        self.slots.set(oldest, value);
        ring_push(&mut self.order, oldest);
        self.written = self.written + 1;
        proof {
            let after = ring_slots(self.order);
            assert(after == before.drop_first().push(oldest));
            assert(is_slot_order(after, self.slots@.len())) by {
                assert forall|k: int| 0 <= k < after.len() implies #[trigger] after[k]
                    < self.slots@.len() by {
                    if k < after.len() - 1 {
                        assert(after[k] == before[k + 1]);
                    }
                }
                assert forall|j: int, k: int| 0 <= j < k < after.len() implies after[j]
                    != after[k] by {
                    assert(after[j] == before[j + 1]);
                    if k < after.len() - 1 {
                        assert(after[k] == before[k + 1]);
                    } else {
                        assert(after[k] == before[0]);
                    }
                }
            }
            assert forall|age: int| 0 <= age < self.slots@.len() implies self@[age] == pushed(
                old(self)@,
                value,
            )[age] by {
                if age < self.slots@.len() - 1 {
                    assert(after[age] == before[age + 1]);
                    assert(before[age + 1] != before[0]);
                }
            }
            assert(self@ =~= pushed(old(self)@, value));
        }
    }

    /// The sample at relative offset `offset`.
    pub fn get(&self, offset: isize) -> (sample: &T)
        requires
            self.wf(),
        ensures
            *sample == self.at(offset as int),
    {
        let slot = match ring_get(&self.order, offset) {
            Some(slot) => slot,
            None => 0,
        };
        &self.slots[slot]
    }
}

} // verus!
