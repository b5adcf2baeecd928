//! The producing side of the ring.

use super::common::{record_room, round_up_to_8, HEADER_SIZE};
use super::error::MpscBufError;
use super::ringbuf::{overwritten, RingBuf, Slot, SlotState};
use vstd::prelude::*;

verus! {

/// Whether the consumer is woken when a record is finished.
#[derive(Debug, Clone, Copy, PartialEq, Eq, Structural)]
pub enum WakeupStrategy {
    /// Always wake the consumer.
    Forced,
    /// Never wake it: it polls, or is notified by hand.
    NoWakeup,
}

/// Where a record goes.
#[derive(Debug, Clone, Copy, PartialEq, Eq, Structural)]
pub struct Reservation {
    /// The position of the record's header.
    pub pos: u64,
    /// The length that its header says.
    pub len: u32,
    /// The producer position behind the record.
    pub next: u64,
}

/// Whether a record of `size` bytes does not fit between the two positions.
pub open spec fn no_room(producer_pos: u64, consumer_pos: u64, size_mask: u64, size: int) -> bool {
    producer_pos + record_room(size) - consumer_pos > size_mask
}

/// Decides where a record of `size` bytes goes, given the two positions and
/// whether the lock was got. The header holds the low 32 bits of the size.
pub fn plan_reserve(
    locked: bool,
    producer_pos: u64,
    consumer_pos: u64,
    size_mask: u64,
    size: usize,
) -> (r: Result<Reservation, MpscBufError>)
    requires
        size <= usize::MAX - 15,
        consumer_pos <= producer_pos,
        producer_pos + record_room(size as int) <= u64::MAX,
    ensures
        match r {
            Ok(plan) => {
                &&& locked
                &&& !no_room(producer_pos, consumer_pos, size_mask, size as int)
                &&& plan.pos == producer_pos
                &&& plan.len == size as u32
                &&& plan.next == producer_pos + record_room(size as int)
            },
            Err(MpscBufError::LockTimeout) => !locked,
            Err(MpscBufError::InsufficientSpace(next, consumer, mask)) => {
                &&& locked
                &&& no_room(producer_pos, consumer_pos, size_mask, size as int)
                &&& next == producer_pos + record_room(size as int)
                &&& consumer == consumer_pos
                &&& mask == size_mask
            },
            Err(_) => false,
        },
{
    let total_size: usize = round_up_to_8(size + HEADER_SIZE);
    if !locked {
        return Err(MpscBufError::LockTimeout);
    }
    let new_prod_pos: u64 = producer_pos + total_size as u64;
    if new_prod_pos - consumer_pos > size_mask {
        return Err(MpscBufError::InsufficientSpace(new_prod_pos, consumer_pos, size_mask));
    }
    Ok(Reservation { pos: producer_pos, len: size as u32, next: new_prod_pos })
}

/// The slots with the one at `pos` in another state.
pub open spec fn settled(slots: Seq<Slot>, pos: int, state: SlotState) -> Seq<Slot> {
    slots.map_values(
        |s: Slot|
            if s.pos == pos {
                Slot { state, ..s }
            } else {
                s
            },
    )
}

/// A producer; the ring it writes to is handed to each call.
#[derive(Debug, Clone, Copy)]
pub struct Producer {
    pub wakeup_strategy: WakeupStrategy,
}

/// A record that was reserved and is neither committed nor discarded yet.
#[derive(Debug)]
pub struct ReservedBuffer {
    pos: u64,
    size: usize,
    wakeup_strategy: WakeupStrategy,
}

impl ReservedBuffer {
    /// The position of the record.
    pub closed spec fn pos(&self) -> u64 {
        self.pos
    }

    /// How many bytes it has.
    pub closed spec fn spec_size(&self) -> usize {
        self.size
    }

    /// Whether finishing it wakes the consumer.
    pub closed spec fn wakes(&self) -> bool {
        self.wakeup_strategy == WakeupStrategy::Forced
    }

    /// The slot of the record.
    pub open spec fn slot(&self) -> Slot {
        Slot { pos: self.pos() as nat, len: self.spec_size() as nat, state: SlotState::Busy }
    }

    /// Whether the record is waiting in the ring to be finished.
    pub open spec fn pending(&self, ring: &RingBuf) -> bool {
        ring.slots().contains(self.slot())
    }

    pub fn size(&self) -> (r: usize)
        ensures
            r == self.spec_size(),
    {
        self.size
    }

    /// Writes `bytes` into the record, from `at` on.
    pub fn write(&self, ring: &mut RingBuf, at: usize, bytes: &[u8])
        requires
            old(ring).wf(),
            self.pending(old(ring)),
            at + bytes@.len() <= self.spec_size(),
        ensures
            final(ring).wf(),
            final(ring).size() == old(ring).size(),
            final(ring).producer() == old(ring).producer(),
            final(ring).consumer() == old(ring).consumer(),
            final(ring).dropped_count() == old(ring).dropped_count(),
            final(ring).slots() == old(ring).slots(),
            final(ring).payload(self.slot()) == overwritten(
                old(ring).payload(self.slot()),
                at as int,
                bytes@,
            ),
            forall|i: int|
                0 <= i < old(ring).slots().len() && old(ring).slots()[i] != self.slot()
                    ==> final(ring).payload(#[trigger] old(ring).slots()[i]) == old(ring).payload(
                    old(ring).slots()[i],
                ),
    {
        let ghost index = choose|i: int|
            0 <= i < ring.slots().len() && ring.slots()[i] == self.slot();
        ring.fill_slot(Ghost(index), self.pos, at, bytes);
    }

    /// Fills the whole record.
    pub fn copy_from_slice(&self, ring: &mut RingBuf, bytes: &[u8])
        requires
            old(ring).wf(),
            self.pending(old(ring)),
            bytes@.len() == self.spec_size(),
        ensures
            filled(old(ring), final(ring), self, bytes@),
    {
        self.write(ring, 0, bytes);
        assert(ring.payload(self.slot()) =~= bytes@);
    }

    /// Hands the record to the consumer. Returns whether to wake it.
    pub fn commit(self, ring: &mut RingBuf) -> (notify: bool)
        requires
            old(ring).wf(),
            self.pending(old(ring)),
        ensures
            finished(old(ring), final(ring), self.pos() as int, SlotState::Committed),
            notify == self.wakes(),
    {
        self.finish(ring, false)
    }

    /// Gives the record up. Returns whether to wake the consumer.
    pub fn discard(self, ring: &mut RingBuf) -> (notify: bool)
        requires
            old(ring).wf(),
            self.pending(old(ring)),
        ensures
            finished(old(ring), final(ring), self.pos() as int, SlotState::Discarded),
            notify == self.wakes(),
    {
        self.finish(ring, true)
    }

    fn finish(self, ring: &mut RingBuf, discard: bool) -> (notify: bool)
        requires
            old(ring).wf(),
            self.pending(old(ring)),
        ensures
            finished(
                old(ring),
                final(ring),
                self.pos() as int,
                if discard {
                    SlotState::Discarded
                } else {
                    SlotState::Committed
                },
            ),
            notify == self.wakes(),
    {
        let ghost slots = ring.slots();
        let ghost index = choose|i: int| 0 <= i < slots.len() && slots[i] == self.slot();
        ring.settle_slot(Ghost(index), self.pos, discard);
        proof {
            let state = if discard {
                SlotState::Discarded
            } else {
                SlotState::Committed
            };
            assert forall|i: int| 0 <= i < slots.len() && i != index implies (
            #[trigger] slots[i]).pos != self.pos by {
                if i < index {
                    assert(slots[i].end() <= slots[index].pos);
                } else {
                    assert(slots[index].end() <= slots[i].pos);
                }
            }
            assert(ring.slots() =~= settled(slots, self.pos as int, state));
        }
        self.wakeup_strategy == WakeupStrategy::Forced
    }
}

/// The ring after a reservation: the record is the newest, and the others are as
/// they were.
pub open spec fn reserved(before: &RingBuf, after: &RingBuf, buffer: &ReservedBuffer) -> bool {
    &&& after.wf()
    &&& after.size() == before.size()
    &&& after.consumer() == before.consumer()
    &&& after.dropped_count() == before.dropped_count()
    &&& buffer.pos() == before.producer()
    &&& after.producer() == before.producer() + record_room(buffer.spec_size() as int)
    &&& after.slots() == before.slots().push(buffer.slot())
    &&& forall|i: int|
        0 <= i < before.slots().len() ==> after.payload(#[trigger] before.slots()[i])
            == before.payload(before.slots()[i])
}

/// The ring after a record was filled: the record holds the bytes, and the others
/// are as they were.
pub open spec fn filled(
    before: &RingBuf,
    after: &RingBuf,
    buffer: &ReservedBuffer,
    bytes: Seq<u8>,
) -> bool {
    &&& after.wf()
    &&& after.size() == before.size()
    &&& after.producer() == before.producer()
    &&& after.consumer() == before.consumer()
    &&& after.dropped_count() == before.dropped_count()
    &&& after.slots() == before.slots()
    &&& after.payload(buffer.slot()) == bytes
    &&& forall|i: int|
        0 <= i < before.slots().len() && before.slots()[i] != buffer.slot() ==> after.payload(
            #[trigger] before.slots()[i],
        ) == before.payload(before.slots()[i])
}

/// The ring after the record at `pos` got its final state: that record's state
/// has changed, and nothing else.
pub open spec fn finished(before: &RingBuf, after: &RingBuf, pos: int, state: SlotState) -> bool {
    &&& after.wf()
    &&& after.size() == before.size()
    &&& after.producer() == before.producer()
    &&& after.consumer() == before.consumer()
    &&& after.dropped_count() == before.dropped_count()
    &&& after.slots() == settled(before.slots(), pos, state)
    &&& forall|i: int|
        0 <= i < before.slots().len() ==> after.payload(#[trigger] before.slots()[i])
            == before.payload(before.slots()[i])
}

impl Producer {
    pub fn from_parts(wakeup_strategy: WakeupStrategy) -> (r: Self)
        ensures
            r.wakeup_strategy == wakeup_strategy,
    {
        Producer { wakeup_strategy }
    }

    /// Reserves a record of `size` bytes. It fails, and leaves the ring as it
    /// was, exactly when the record does not fit. The header of one that fits must
    /// hold its length.
    pub fn reserve(&self, ring: &mut RingBuf, size: usize) -> (r: Result<
        ReservedBuffer,
        MpscBufError,
    >)
        requires
            old(ring).wf(),
            size <= usize::MAX - 15,
            old(ring).producer() + record_room(size as int) <= u64::MAX,
            size <= u32::MAX || no_room(
                old(ring).producer(),
                old(ring).consumer(),
                (old(ring).size() - 1) as u64,
                size as int,
            ),
        ensures
            match r {
                Ok(buffer) => {
                    &&& !no_room(
                        old(ring).producer(),
                        old(ring).consumer(),
                        (old(ring).size() - 1) as u64,
                        size as int,
                    )
                    &&& buffer.spec_size() == size
                    &&& buffer.wakes() == (self.wakeup_strategy == WakeupStrategy::Forced)
                    &&& reserved(old(ring), final(ring), &buffer)
                },
                Err(MpscBufError::InsufficientSpace(next, consumer, mask)) => {
                    &&& no_room(
                        old(ring).producer(),
                        old(ring).consumer(),
                        (old(ring).size() - 1) as u64,
                        size as int,
                    )
                    &&& next == old(ring).producer() + record_room(size as int)
                    &&& consumer == old(ring).consumer()
                    &&& mask == old(ring).size() - 1
                    &&& *final(ring) == *old(ring)
                },
                Err(_) => false,
            },
    {
        match plan_reserve(true, ring.producer_pos(), ring.consumer_pos(), ring.size_mask(), size) {
            Err(e) => Err(e),
            Ok(plan) => {
                ring.push_slot(plan.len, plan.next);
                Ok(ReservedBuffer { pos: plan.pos, size, wakeup_strategy: self.wakeup_strategy })
            },
        }
    }

    /// Counts a record that was dropped.
    pub fn increment_dropped(&self, ring: &mut RingBuf)
        ensures
            final(ring).dropped_count() == (if old(ring).dropped_count() == u64::MAX {
                0
            } else {
                (old(ring).dropped_count() + 1) as u64
            }),
            final(ring).memory() == old(ring).memory(),
            final(ring).producer() == old(ring).producer(),
            final(ring).consumer() == old(ring).consumer(),
            final(ring).slots() == old(ring).slots(),
    {
        ring.increment_dropped()
    }
}

} // verus!
