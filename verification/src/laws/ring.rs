//! How records lie in a ring.

use crate::mpscbuf::common::{record_room, rounded_up, RecordHeader};
use crate::mpscbuf::producer::{no_room, settled};
use crate::mpscbuf::ringbuf::{bytes_at, overwritten, Slot, SlotState};
use vstd::prelude::*;

verus! {

/// The room of a record is the smallest multiple of eight that holds its header of eight
/// bytes and its data.
pub proof fn law_room_of_a_record(len: int, other: int)
    requires
        0 <= len,
    ensures
        rounded_up(len) % 8 == 0,
        rounded_up(len) >= len,
        other % 8 == 0 && other >= len ==> rounded_up(len) <= other,
        record_room(len) % 8 == 0,
        record_room(len) >= 8 + len,
        other % 8 == 0 && other >= 8 + len ==> record_room(len) <= other,
{
}

/// A record has room exactly if what is taken, together with it, stays within the mask.
pub proof fn law_record_has_room(producer: u64, consumer: u64, mask: u64, size: int, room: int)
    requires
        0 <= size,
        room % 8 == 0,
        8 + size <= room < 16 + size,
    ensures
        !no_room(producer, consumer, mask, size) <==> producer - consumer + room <= mask,
        record_room(size) == room,
{
}

/// The low half of a header is the length of its record, and the high half its flags.
pub proof fn law_header(len: u32, flags: u32, header: RecordHeader)
    requires
        header.word == flags * 0x1_0000_0000 + len,
    ensures
        header.spec_len() == len,
        header.spec_flags() == flags,
{
    let word = header.word;
    assert(word as u32 == len && (word >> 32) as u32 == flags) by (bit_vector)
        requires
            word == flags * 0x1_0000_0000 + len,
    ;
}

/// A record that is being filled has the highest bit of its flags set, one that is to be
/// passed over the one below it, and one that can be read none.
pub proof fn law_flags_of_a_record(slot: Slot)
    ensures
        slot.state == SlotState::Busy <==> slot.flags() == 0x8000_0000,
        slot.state == SlotState::Discarded <==> slot.flags() == 0x4000_0000,
        slot.state == SlotState::Committed <==> slot.flags() == 0,
        slot.end() - slot.pos >= 8 + slot.len,
{
}

/// Bytes that are written stand where they were written, and the others as they did.
pub proof fn law_writing(before: Seq<u8>, at: int, bytes: Seq<u8>, i: int)
    requires
        0 <= at,
        at + bytes.len() <= before.len(),
        0 <= i < before.len(),
    ensures
        overwritten(before, at, bytes).len() == before.len(),
        overwritten(before, at, bytes).subrange(at, at + bytes.len()) == bytes,
        i < at || i >= at + bytes.len() ==> overwritten(before, at, bytes)[i] == before[i],
{
    assert(overwritten(before, at, bytes).subrange(at, at + bytes.len()) =~= bytes);
}

/// The bytes at a position go on at the start of the memory where its end is reached.
pub proof fn law_positions_wrap_around(data: Seq<u8>, pos: int, n: int, m: int)
    requires
        data.len() > 0,
        0 <= pos,
        0 <= n,
        0 <= m,
    ensures
        bytes_at(data, pos, n).len() == n,
        bytes_at(data, pos, n + m) == bytes_at(data, pos, n) + bytes_at(data, pos + n, m),
        bytes_at(data, pos + data.len(), n) == bytes_at(data, pos, n),
        pos + n <= data.len() ==> bytes_at(data, pos, n) == data.subrange(pos, pos + n),
{
    let size = data.len() as int;
    assert(bytes_at(data, pos, n + m) =~= bytes_at(data, pos, n) + bytes_at(data, pos + n, m));
    assert forall|i: int| 0 <= i < n implies bytes_at(data, pos + size, n)[i] == bytes_at(
        data,
        pos,
        n,
    )[i] by {
        vstd::arithmetic::div_mod::lemma_mod_add_multiples_vanish(pos + i, size);
        assert((size + (pos + i)) % size == (pos + i) % size);
        assert(pos + size + i == size + (pos + i));
    }
    assert(bytes_at(data, pos + size, n) =~= bytes_at(data, pos, n));
    if pos + n <= size {
        assert forall|i: int| 0 <= i < n implies bytes_at(data, pos, n)[i] == data[pos + i] by {
            vstd::arithmetic::div_mod::lemma_small_mod((pos + i) as nat, size as nat);
        }
        assert(bytes_at(data, pos, n) =~= data.subrange(pos, pos + n));
    }
}

/// Finishing a record changes the state of the one at its position and of no other, and
/// nothing else of any.
pub proof fn law_finishing(slots: Seq<Slot>, pos: int, state: SlotState, i: int)
    requires
        0 <= i < slots.len(),
    ensures
        settled(slots, pos, state).len() == slots.len(),
        settled(slots, pos, state)[i].pos == slots[i].pos,
        settled(slots, pos, state)[i].len == slots[i].len,
        slots[i].pos == pos ==> settled(slots, pos, state)[i].state == state,
        slots[i].pos != pos ==> settled(slots, pos, state)[i] == slots[i],
{
}

} // verus!
