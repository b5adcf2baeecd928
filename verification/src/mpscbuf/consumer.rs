//! The consuming side of the ring.

use super::common::{
    lemma_flags, record_room, record_room_of, RecordHeader, BUSY_FLAG, DISCARD_FLAG,
};
use super::producer::{filled, finished, reserved, settled, ReservedBuffer};
use super::error::MpscBufError;
use super::ringbuf::{check_size, leading_discarded, RingBuf, Slot, SlotState};
use crate::power::is_power_of_two;
use vstd::prelude::*;

verus! {

/// What the consumer does about the header it sees.
#[derive(Debug, Clone, Copy, PartialEq, Eq, Structural)]
pub enum ConsumeStep {
    /// There is no record.
    Empty,
    /// The next record is still being filled.
    Busy,
    /// The next record has `len` bytes; the one behind it is at `next`.
    Deliver { len: u32, next: u64 },
    /// The next record is passed over.
    Skip { next: u64 },
}

/// Decides what to do about the record at the consumer position.
pub fn plan_consume(cons_pos: u64, prod_pos: u64, header: RecordHeader) -> (r: ConsumeStep)
    requires
        cons_pos < prod_pos ==> cons_pos + record_room(header.spec_len() as int) <= u64::MAX,
    ensures
        r == (if cons_pos >= prod_pos {
            ConsumeStep::Empty
        } else if header.spec_flags() & BUSY_FLAG != 0 {
            ConsumeStep::Busy
        } else if header.spec_flags() & DISCARD_FLAG == 0 {
            ConsumeStep::Deliver {
                len: header.spec_len(),
                next: (cons_pos + record_room(header.spec_len() as int)) as u64,
            }
        } else {
            ConsumeStep::Skip { next: (cons_pos + record_room(header.spec_len() as int)) as u64 }
        }),
{
    if cons_pos >= prod_pos {
        return ConsumeStep::Empty;
    }
    let (len, flags): (u32, u32) = header.len_and_flags();
    if flags & BUSY_FLAG != 0 {
        return ConsumeStep::Busy;
    }
    let total_len: u64 = record_room_of(len);
    if flags & DISCARD_FLAG == 0 {
        ConsumeStep::Deliver { len, next: cons_pos + total_len }
    } else {
        ConsumeStep::Skip { next: cons_pos + total_len }
    }
}

/// A record that was read; it stays in the ring until it is released.
#[derive(Debug)]
pub struct Record {
    data: Vec<u8>,
    next: u64,
}

impl Record {
    /// The data of the record.
    pub closed spec fn bytes(&self) -> Seq<u8> {
        self.data@
    }

    /// The position behind the record.
    pub closed spec fn next(&self) -> u64 {
        self.next
    }

    pub fn as_slice(&self) -> (r: &[u8])
        ensures
            r@ == self.bytes(),
    {
        self.data.as_slice()
    }
}

/// The one consumer of a ring, which is handed to each call.
#[derive(Debug, Clone, Copy)]
pub struct Consumer {}

impl Consumer {
    /// A consumer with a ring of `data_size` bytes, which has nothing in it, where
    /// a page has `page` bytes.
    pub fn new(data_size: usize, page: usize) -> (r: Result<(Self, RingBuf), MpscBufError>)
        requires
            8 <= page,
        ensures
            match r {
                Ok((_, ring)) => {
                    &&& page <= data_size && is_power_of_two(data_size as int)
                    &&& ring.wf()
                    &&& ring.size() == data_size
                    &&& ring.producer() == 0
                    &&& ring.consumer() == 0
                    &&& ring.dropped_count() == 0
                    &&& ring.slots() == Seq::<Slot>::empty()
                },
                Err(MpscBufError::SizeTooSmall(n)) => data_size < page && n == page,
                Err(MpscBufError::SizeNotAligned(n)) => {
                    &&& page <= data_size
                    &&& !is_power_of_two(data_size as int)
                    &&& n == page
                },
                Err(_) => false,
            },
    {
        match check_size(data_size, page) {
            Ok(_) => Ok((Consumer::from_parts(), RingBuf::new(data_size))),
            Err(e) => Err(e),
        }
    }

    pub fn from_parts() -> (r: Self)
        ensures
            r == (Consumer {  }),
    {
        Consumer {  }
    }

    /// Reads the next record: the discarded ones at the front leave the ring,
    /// and what is then the oldest is returned if it is committed. It stays in
    /// the ring.
    pub fn consume(&self, ring: &mut RingBuf) -> (r: Option<Record>)
        requires
            old(ring).wf(),
        ensures
            final(ring).wf(),
            final(ring).memory() == old(ring).memory(),
            final(ring).producer() == old(ring).producer(),
            final(ring).dropped_count() == old(ring).dropped_count(),
            final(ring).slots() == old(ring).slots().skip(
                leading_discarded(old(ring).slots()) as int,
            ),
            match r {
                Some(record) => {
                    &&& final(ring).slots().len() > 0
                    &&& final(ring).slots()[0].state == SlotState::Committed
                    &&& record.bytes() == old(ring).payload(final(ring).slots()[0])
                    &&& record.next() == final(ring).slots()[0].end()
                },
                None => final(ring).slots().len() == 0 || final(ring).slots()[0].state
                    == SlotState::Busy,
            },
    {
        let ghost all = ring.slots();
        let ghost mut passed: int = 0;
        proof {
            lemma_flags();
            assert(all.skip(0) =~= all);
        }
        loop
            invariant
                ring.wf(),
                ring.memory() == old(ring).memory(),
                ring.producer() == old(ring).producer(),
                ring.dropped_count() == old(ring).dropped_count(),
                all == old(ring).slots(),
                0 <= passed <= all.len(),
                ring.slots() == all.skip(passed),
                leading_discarded(all) == passed + leading_discarded(all.skip(passed)),
                BUSY_FLAG & BUSY_FLAG != 0,
                DISCARD_FLAG & BUSY_FLAG == 0,
                DISCARD_FLAG & DISCARD_FLAG != 0,
                0u32 & BUSY_FLAG == 0,
                0u32 & DISCARD_FLAG == 0,
            decreases ring.slots().len(),
        {
            let cons_pos: u64 = ring.consumer_pos();
            let prod_pos: u64 = ring.producer_pos();
            let header: RecordHeader = ring.load_header(cons_pos);
            let ghost slots = ring.slots();
            proof {
                if slots.len() > 0 {
                    assert(ring.header_ok(slots[0]));
                    assert(slots[0].end() <= ring.producer());
                }
            }
            match plan_consume(cons_pos, prod_pos, header) {
                ConsumeStep::Empty => {
                    return None;
                },
                ConsumeStep::Busy => {
                    return None;
                },
                ConsumeStep::Deliver { len, next } => {
                    let data: Vec<u8> = ring.copy_payload(cons_pos, len);
                    return Some(Record { data, next });
                },
                ConsumeStep::Skip { next } => {
                    ring.pop_slot(next);
                    proof {
                        assert(all.skip(passed).drop_first() =~= all.skip(passed + 1));
                        passed = passed + 1;
                    }
                },
            }
        }
    }

    /// Takes a record that `consume` returned out of the ring.
    pub fn release(&self, ring: &mut RingBuf, record: Record)
        requires
            old(ring).wf(),
            old(ring).slots().len() > 0,
            record.next() == old(ring).slots()[0].end(),
        ensures
            final(ring).wf(),
            final(ring).memory() == old(ring).memory(),
            final(ring).producer() == old(ring).producer(),
            final(ring).dropped_count() == old(ring).dropped_count(),
            final(ring).slots() == old(ring).slots().drop_first(),
            final(ring).consumer() == record.next(),
    {
        ring.pop_slot(record.next);
    }

    /// The number of bytes between the two positions.
    pub fn available_records(&self, ring: &RingBuf) -> (r: u64)
        ensures
            r == (if ring.producer() >= ring.consumer() {
                ring.producer() - ring.consumer()
            } else {
                0
            }),
    {
        ring.producer_pos().saturating_sub(ring.consumer_pos())
    }

    pub fn data_size(&self, ring: &RingBuf) -> (r: usize)
        ensures
            r == ring.size(),
    {
        ring.data_size()
    }

    /// The bytes that are mapped: a page of `page` bytes with the positions, and the
    /// data.
    pub fn memory_size(&self, ring: &RingBuf, page: usize) -> (r: usize)
        requires
            ring.size() + page <= usize::MAX,
        ensures
            r == ring.size() + page,
    {
        ring.data_size() + page
    }

    /// How many records the producers dropped.
    pub fn dropped(&self, ring: &RingBuf) -> (r: u64)
        ensures
            r == ring.dropped_count(),
    {
        ring.dropped()
    }
}

/// What the consumer reads of `slots` before it has to wait, given each slot's
/// data: the committed records before the first that is still being filled.
pub open spec fn readable(slots: Seq<Slot>, payload: spec_fn(Slot) -> Seq<u8>) -> Seq<Seq<u8>>
    decreases slots.len(),
{
    if slots.len() == 0 {
        seq![]
    } else {
        match slots[0].state {
            SlotState::Busy => seq![],
            SlotState::Discarded => readable(slots.drop_first(), payload),
            SlotState::Committed => seq![payload(slots[0])] + readable(
                slots.drop_first(),
                payload,
            ),
        }
    }
}

/// What the consumer reads of a ring before it has to wait.
pub open spec fn readable_of(ring: &RingBuf) -> Seq<Seq<u8>> {
    readable(ring.slots(), |s: Slot| ring.payload(s))
}

/// The data of all committed records of `slots`, in the order of their reservation.
pub open spec fn records(slots: Seq<Slot>, payload: spec_fn(Slot) -> Seq<u8>) -> Seq<Seq<u8>>
    decreases slots.len(),
{
    if slots.len() == 0 {
        seq![]
    } else if slots.last().state == SlotState::Committed {
        records(slots.drop_last(), payload).push(payload(slots.last()))
    } else {
        records(slots.drop_last(), payload)
    }
}

/// The data of all committed records of a ring.
pub open spec fn records_of(ring: &RingBuf) -> Seq<Seq<u8>> {
    records(ring.slots(), |s: Slot| ring.payload(s))
}

/// Whether no record is being filled.
pub open spec fn none_busy(slots: Seq<Slot>) -> bool {
    forall|i: int| 0 <= i < slots.len() ==> (#[trigger] slots[i]).state != SlotState::Busy
}

/// `consume` returns the first of the readable records, and nothing exactly when
/// there is none; releasing it leaves the others to be read, in their order.
pub proof fn law_consume_reads_in_order(slots: Seq<Slot>, payload: spec_fn(Slot) -> Seq<u8>)
    ensures
        ({
            let rest = slots.skip(leading_discarded(slots) as int);
            let read = readable(slots, payload);
            &&& leading_discarded(slots) <= slots.len()
            &&& read.len() > 0 <==> rest.len() > 0 && rest[0].state == SlotState::Committed
            &&& rest.len() > 0 ==> rest[0].state != SlotState::Discarded
            &&& read.len() > 0 ==> read[0] == payload(rest[0]) && read.drop_first() == readable(
                rest.drop_first(),
                payload,
            )
            &&& readable(rest, payload) == read
        }),
    decreases slots.len(),
{
    if slots.len() > 0 && slots[0].state == SlotState::Discarded {
        law_consume_reads_in_order(slots.drop_first(), payload);
        assert(slots.skip(leading_discarded(slots) as int) =~= slots.drop_first().skip(
            leading_discarded(slots.drop_first()) as int,
        ));
    } else {
        assert(slots.skip(0) =~= slots);
        let read = readable(slots, payload);
        if slots.len() > 0 && slots[0].state == SlotState::Committed {
            assert(read.drop_first() =~= readable(slots.drop_first(), payload));
        }
    }
}

/// A reservation changes nothing of what can be read: the new record is not read
/// before it is finished.
pub proof fn law_reservation_is_not_read(
    slots: Seq<Slot>,
    slot: Slot,
    payload: spec_fn(Slot) -> Seq<u8>,
)
    requires
        slot.state == SlotState::Busy,
    ensures
        readable(slots.push(slot), payload) == readable(slots, payload),
    decreases slots.len(),
{
    if slots.len() > 0 {
        law_reservation_is_not_read(slots.drop_first(), slot, payload);
        assert(slots.push(slot).drop_first() =~= slots.drop_first().push(slot));
        assert(slots.push(slot)[0] == slots[0]);
    } else {
        assert(readable(slots.push(slot), payload) =~= seq![]);
    }
}

/// What is read is what was written: once the newest record is committed and
/// every record before it is finished, its data is read last, after all that
/// could be read before; once it is discarded, it is never read.
pub proof fn law_written_record_is_read(
    slots: Seq<Slot>,
    slot: Slot,
    payload: spec_fn(Slot) -> Seq<u8>,
)
    requires
        forall|i: int| 0 <= i < slots.len() ==> (#[trigger] slots[i]).state != SlotState::Busy,
    ensures
        slot.state == SlotState::Committed ==> readable(slots.push(slot), payload) == readable(
            slots,
            payload,
        ).push(payload(slot)),
        slot.state == SlotState::Discarded ==> readable(slots.push(slot), payload) == readable(
            slots,
            payload,
        ),
    decreases slots.len(),
{
    let all = slots.push(slot);
    if slots.len() > 0 {
        let rest = slots.drop_first();
        assert forall|i: int| 0 <= i < rest.len() implies (#[trigger] rest[i]).state
            != SlotState::Busy by {
            assert(rest[i] == slots[i + 1]);
        }
        law_written_record_is_read(rest, slot, payload);
        assert(all.drop_first() =~= rest.push(slot));
        assert(all[0] == slots[0]);
        assert(readable(all, payload) =~= (if slot.state == SlotState::Committed {
            readable(slots, payload).push(payload(slot))
        } else {
            readable(all, payload)
        }));
    } else {
        assert(all.drop_first() =~= slots);
        assert(readable(slots, payload) =~= seq![]);
        if slot.state == SlotState::Committed {
            assert(readable(all, payload) =~= seq![payload(slot)]);
            assert(seq![payload(slot)] =~= readable(slots, payload).push(payload(slot)));
        }
    }
}

/// Finishing a record leaves what could be read before it readable, in the same
/// order: what is readable only grows at its end.
pub proof fn law_finishing_keeps_readable(
    slots: Seq<Slot>,
    pos: int,
    state: SlotState,
    before: spec_fn(Slot) -> Seq<u8>,
    after: spec_fn(Slot) -> Seq<u8>,
)
    requires
        forall|i: int|
            0 <= i < slots.len() && (#[trigger] slots[i]).pos == pos ==> slots[i].state
                == SlotState::Busy,
        forall|i: int|
            0 <= i < slots.len() && (#[trigger] slots[i]).state == SlotState::Committed ==> after(
                slots[i],
            ) == before(slots[i]),
    ensures
        readable(slots, before).is_prefix_of(readable(settled(slots, pos, state), after)),
    decreases slots.len(),
{
    let done = settled(slots, pos, state);
    if slots.len() > 0 {
        let rest = slots.drop_first();
        assert forall|i: int| 0 <= i < rest.len() && (#[trigger] rest[i]).pos == pos implies
            rest[i].state == SlotState::Busy by {
            assert(rest[i] == slots[i + 1]);
        }
        assert forall|i: int|
            0 <= i < rest.len() && (#[trigger] rest[i]).state == SlotState::Committed implies after(
            rest[i],
        ) == before(rest[i]) by {
            assert(rest[i] == slots[i + 1]);
        }
        law_finishing_keeps_readable(rest, pos, state, before, after);
        assert(done.drop_first() =~= settled(rest, pos, state));
        if slots[0].state == SlotState::Busy {
            assert(readable(slots, before) =~= seq![]);
        } else {
            assert(done[0] == slots[0]);
        }
    }
}

/// What can be read depends on the data of committed records alone.
proof fn lemma_readable_of_same_data(
    slots: Seq<Slot>,
    before: spec_fn(Slot) -> Seq<u8>,
    after: spec_fn(Slot) -> Seq<u8>,
)
    requires
        forall|i: int|
            0 <= i < slots.len() ==> after(#[trigger] slots[i]) == before(slots[i]),
    ensures
        readable(slots, before) == readable(slots, after),
    decreases slots.len(),
{
    if slots.len() > 0 {
        let rest = slots.drop_first();
        assert forall|i: int| 0 <= i < rest.len() implies after(#[trigger] rest[i]) == before(
            rest[i],
        ) by {
            assert(rest[i] == slots[i + 1]);
        }
        lemma_readable_of_same_data(rest, before, after);
        assert(after(slots[0]) == before(slots[0]));
    }
}

/// The committed records before and behind a place, one after the other.
proof fn lemma_records_split(slots: Seq<Slot>, payload: spec_fn(Slot) -> Seq<u8>, i: int)
    requires
        0 <= i <= slots.len(),
    ensures
        records(slots, payload) == records(slots.take(i), payload) + records(
            slots.skip(i),
            payload,
        ),
    decreases slots.len() - i,
{
    let tail = slots.skip(i);
    if i == slots.len() {
        assert(slots.take(i) =~= slots);
        assert(records(slots, payload) + records(tail, payload) =~= records(slots, payload));
    } else {
        let shorter = slots.drop_last();
        lemma_records_split(shorter, payload, i);
        assert(shorter.take(i) =~= slots.take(i));
        assert(shorter.skip(i) =~= tail.drop_last());
        assert(tail.last() == slots.last());
        if slots.last().state == SlotState::Committed {
            assert((records(slots.take(i), payload) + records(tail.drop_last(), payload)).push(
                payload(slots.last()),
            ) =~= records(slots.take(i), payload) + records(tail, payload));
        }
    }
}

/// The committed records depend on their own data alone.
proof fn lemma_records_of_same_data(
    slots: Seq<Slot>,
    before: spec_fn(Slot) -> Seq<u8>,
    after: spec_fn(Slot) -> Seq<u8>,
)
    requires
        forall|i: int|
            0 <= i < slots.len() && (#[trigger] slots[i]).state == SlotState::Committed ==> after(
                slots[i],
            ) == before(slots[i]),
    ensures
        records(slots, before) == records(slots, after),
    decreases slots.len(),
{
    if slots.len() > 0 {
        let rest = slots.drop_last();
        assert forall|i: int|
            0 <= i < rest.len() && (#[trigger] rest[i]).state == SlotState::Committed implies after(
            rest[i],
        ) == before(rest[i]) by {
            assert(rest[i] == slots[i]);
        }
        lemma_records_of_same_data(rest, before, after);
    }
}

/// Records are read in the order of their reservation: what can be read now is the
/// start of the committed records, it is all of those before the first record that
/// is being filled, and it is all of them where none is.
pub proof fn law_records_are_read_in_order(
    slots: Seq<Slot>,
    payload: spec_fn(Slot) -> Seq<u8>,
    i: int,
)
    requires
        0 <= i <= slots.len(),
        none_busy(slots.take(i)),
    ensures
        readable(slots, payload).is_prefix_of(records(slots, payload)),
        records(slots.take(i), payload).is_prefix_of(readable(slots, payload)),
        i < slots.len() && slots[i].state == SlotState::Busy ==> readable(slots, payload)
            == records(slots.take(i), payload),
        i == slots.len() ==> readable(slots, payload) == records(slots, payload),
    decreases slots.len(),
{
    if slots.len() == 0 {
        assert(slots.take(i) =~= slots);
    } else {
        let rest = slots.drop_first();
        let read = readable(slots, payload);
        let one = seq![slots[0]];
        lemma_records_split(slots, payload, 1);
        assert(slots.take(1) =~= one);
        assert(slots.skip(1) =~= rest);
        assert(one.drop_last() =~= Seq::<Slot>::empty());
        assert(records(one.drop_last(), payload) =~= seq![]);
        if i == 0 {
            assert(slots.take(0) =~= Seq::<Slot>::empty());
            if slots[0].state != SlotState::Busy {
                assert(rest.take(0) =~= Seq::<Slot>::empty());
                law_records_are_read_in_order(rest, payload, 0);
            }
        } else {
            let part = slots.take(i);
            assert(part[0] == slots[0]);
            assert forall|j: int| 0 <= j < i - 1 implies (#[trigger] rest.take(i - 1)[j]).state
                != SlotState::Busy by {
                assert(rest.take(i - 1)[j] == part[j + 1]);
            }
            law_records_are_read_in_order(rest, payload, i - 1);
            lemma_records_split(part, payload, 1);
            assert(part.take(1) =~= one);
            assert(part.skip(1) =~= rest.take(i - 1));
            if i < slots.len() {
                assert(rest[i - 1] == slots[i]);
            }
        }
        assert(read.is_prefix_of(records(slots, payload))) by {
            if slots[0].state == SlotState::Committed {
                assert(records(one, payload) =~= seq![payload(slots[0])]);
            } else {
                assert(records(one, payload) =~= seq![]);
                assert(records(slots, payload) =~= records(rest, payload));
            }
        }
        if i > 0 {
            let part = slots.take(i);
            if slots[0].state == SlotState::Committed {
                assert(records(one, payload) =~= seq![payload(slots[0])]);
            } else {
                assert(records(one, payload) =~= seq![]);
                assert(records(part, payload) =~= records(rest.take(i - 1), payload));
            }
            if i == slots.len() {
                assert(part =~= slots);
                assert(rest.take(i - 1) =~= rest);
            }
        }
    }
}

/// A record that is being filled stays in the ring, with its bytes, whatever else
/// is done: other records are reserved, filled and finished, and the consumer reads
/// and releases.
pub proof fn law_held_record_is_kept(
    before: &RingBuf,
    after: &RingBuf,
    buffer: &ReservedBuffer,
    other: &ReservedBuffer,
    bytes: Seq<u8>,
    state: SlotState,
)
    requires
        before.wf(),
        buffer.pending(before),
        ({
            ||| reserved(before, after, other)
            ||| filled(before, after, other, bytes) && other.slot() != buffer.slot()
            ||| finished(before, after, other.pos() as int, state) && other.pos() != buffer.pos()
            ||| after.memory() == before.memory() && after.slots() == before.slots().skip(
                leading_discarded(before.slots()) as int,
            )
            ||| after.memory() == before.memory() && after.slots() == before.slots().drop_first()
                && before.slots()[0].state != SlotState::Busy
        }),
    ensures
        buffer.pending(after),
        after.payload(buffer.slot()) == before.payload(buffer.slot()),
{
    let slots = before.slots();
    let i = choose|i: int| 0 <= i < slots.len() && slots[i] == buffer.slot();
    if reserved(before, after, other) {
        assert(after.slots()[i] == slots[i]);
    } else if filled(before, after, other, bytes) && other.slot() != buffer.slot() {
        assert(after.slots()[i] == slots[i]);
    } else if finished(before, after, other.pos() as int, state) && other.pos() != buffer.pos() {
        assert(after.slots()[i] == slots[i]);
        assert(after.payload(slots[i]) == before.payload(slots[i]));
    } else if after.slots() == slots.drop_first() && slots[0].state != SlotState::Busy {
        assert(i > 0);
        assert(after.slots()[i - 1] == slots[i]);
    } else {
        let n = leading_discarded(slots) as int;
        lemma_leading_discarded(slots, i);
        assert(after.slots()[i - n] == slots[i]);
    }
}

/// The discarded records at the front end before any other.
proof fn lemma_leading_discarded(slots: Seq<Slot>, i: int)
    requires
        0 <= i < slots.len(),
        slots[i].state != SlotState::Discarded,
    ensures
        leading_discarded(slots) <= i,
    decreases slots.len(),
{
    if slots[0].state == SlotState::Discarded {
        assert(slots.drop_first()[i - 1] == slots[i]);
        lemma_leading_discarded(slots.drop_first(), i - 1);
    }
}

/// Committing a record puts its bytes among the committed records at the place of its
/// reservation: behind those reserved before it, and before those reserved after it.
pub proof fn law_committed_in_order(
    before: &RingBuf,
    after: &RingBuf,
    buffer: &ReservedBuffer,
    index: int,
)
    requires
        before.wf(),
        0 <= index < before.slots().len(),
        before.slots()[index] == buffer.slot(),
        finished(before, after, buffer.pos() as int, SlotState::Committed),
    ensures
        ({
            let data = |s: Slot| before.payload(s);
            records_of(after) == records(before.slots().take(index), data) + seq![
                before.payload(buffer.slot()),
            ] + records(before.slots().skip(index + 1), data)
        }),
{
    let slots = before.slots();
    let done = after.slots();
    let old_data = |s: Slot| before.payload(s);
    let new_data = |s: Slot| after.payload(s);
    let committed = Slot { state: SlotState::Committed, ..buffer.slot() };
    assert forall|i: int| 0 <= i < slots.len() && i != index implies (#[trigger] done[i])
        == slots[i] && new_data(slots[i]) == old_data(slots[i]) by {
        if i < index {
            assert(slots[i].end() <= slots[index].pos);
        } else {
            assert(slots[index].end() <= slots[i].pos);
        }
        assert(after.payload(slots[i]) == before.payload(slots[i]));
    }
    assert(done[index] == committed);
    assert(after.payload(slots[index]) == before.payload(slots[index]));
    assert(new_data(committed) =~= before.payload(buffer.slot()));
    lemma_records_split(done, new_data, index);
    let tail = done.skip(index);
    lemma_records_split(tail, new_data, 1);
    assert(done.take(index) =~= slots.take(index));
    assert(tail.skip(1) =~= slots.skip(index + 1));
    assert(tail.take(1) =~= seq![committed]);
    assert(tail.take(1).drop_last() =~= Seq::<Slot>::empty());
    assert(records(tail.take(1).drop_last(), new_data) =~= seq![]);
    assert(records(tail.take(1), new_data) =~= seq![new_data(committed)]);
    assert forall|i: int| 0 <= i < index implies new_data(#[trigger] slots.take(index)[i])
        == old_data(slots.take(index)[i]) by {
        assert(done[i] == slots[i]);
    }
    assert forall|i: int| 0 <= i < slots.len() - index - 1 implies new_data(
        #[trigger] slots.skip(index + 1)[i],
    ) == old_data(slots.skip(index + 1)[i]) by {
        assert(done[index + 1 + i] == slots[index + 1 + i]);
    }
    lemma_records_of_same_data(slots.take(index), old_data, new_data);
    lemma_records_of_same_data(slots.skip(index + 1), old_data, new_data);
    assert(records_of(after) =~= records(slots.take(index), old_data) + seq![
        before.payload(buffer.slot()),
    ] + records(slots.skip(index + 1), old_data));
}

/// A read gives back what was written: reserving a record, filling it with `bytes` and
/// committing it adds exactly `bytes` to the end of the committed records, whatever
/// other records are being filled. It can be read at once where none is; else what
/// can be read stays as it was until the others are finished.
pub proof fn law_read_gives_back_what_was_written(
    before: &RingBuf,
    taken: &RingBuf,
    full: &RingBuf,
    after: &RingBuf,
    buffer: &ReservedBuffer,
    bytes: Seq<u8>,
)
    requires
        before.wf(),
        reserved(before, taken, buffer),
        filled(taken, full, buffer, bytes),
        finished(full, after, buffer.pos() as int, SlotState::Committed),
    ensures
        records_of(after) == records_of(before).push(bytes),
        readable_of(after) == if none_busy(before.slots()) {
            readable_of(before).push(bytes)
        } else {
            readable_of(before)
        },
{
    let slots = before.slots();
    let old_data = |s: Slot| before.payload(s);
    let new_data = |s: Slot| after.payload(s);
    let committed = Slot { state: SlotState::Committed, ..buffer.slot() };
    let all = slots.push(committed);
    assert forall|i: int| 0 <= i < slots.len() implies (#[trigger] slots[i]).pos != buffer.pos()
        && new_data(slots[i]) == old_data(slots[i]) by {
        assert(slots[i].end() <= before.producer());
        assert(taken.slots()[i] == slots[i]);
        assert(full.slots()[i] == slots[i]);
        assert(taken.payload(slots[i]) == before.payload(slots[i]));
        assert(full.payload(taken.slots()[i]) == taken.payload(taken.slots()[i]));
        assert(after.payload(full.slots()[i]) == full.payload(full.slots()[i]));
    }
    assert(full.slots()[slots.len() as int] == buffer.slot());
    assert(after.payload(full.slots()[slots.len() as int]) == full.payload(buffer.slot()));
    assert(after.slots() =~= all);
    assert(new_data(committed) =~= bytes);
    lemma_records_of_same_data(slots, old_data, new_data);
    assert(all.drop_last() =~= slots);
    lemma_readable_of_same_data(slots, old_data, new_data);
    if none_busy(slots) {
        law_written_record_is_read(slots, committed, new_data);
    } else {
        let n = lemma_first_busy(slots);
        assert(all.take(n) =~= slots.take(n));
        assert(all[n] == slots[n]);
        law_records_are_read_in_order(slots, new_data, n);
        law_records_are_read_in_order(all, new_data, n);
    }
}

/// The place of the first record that is being filled.
proof fn lemma_first_busy(slots: Seq<Slot>) -> (n: int)
    requires
        !none_busy(slots),
    ensures
        0 <= n < slots.len(),
        slots[n].state == SlotState::Busy,
        none_busy(slots.take(n)),
    decreases slots.len(),
{
    if none_busy(slots.drop_last()) {
        let n = slots.len() - 1;
        assert(slots.take(n) =~= slots.drop_last());
        assert forall|i: int| 0 <= i < n implies (#[trigger] slots[i]).state != SlotState::Busy by {
            assert(slots.drop_last()[i] == slots[i]);
        }
        n
    } else {
        let n = lemma_first_busy(slots.drop_last());
        assert(slots.take(n) =~= slots.drop_last().take(n));
        n
    }
}

} // verus!
