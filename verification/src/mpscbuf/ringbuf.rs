//! The ring: its memory, its positions, and the records that are in it.

use super::common::{record_room, RecordHeader, BUSY_FLAG, DISCARD_FLAG, HEADER_SIZE};
use super::error::MpscBufError;
use crate::power::{is_power_of_two, lemma_exponent, power_of_two};
use vstd::arithmetic::div_mod::{lemma_fundamental_div_mod_converse, lemma_mod_bound};
use vstd::arithmetic::power2::{lemma2_to64, pow2};
use vstd::bits::{lemma_u64_low_bits_mask_is_mod, low_bits_mask};
use vstd::bytes::{
    lemma_auto_spec_u64_to_from_le_bytes, spec_u64_from_le_bytes, u64_from_le_bytes,
    u64_to_le_bytes,
};
use vstd::prelude::*;

verus! {

/// What is known of a record between its reservation and its consumption.
pub enum SlotState {
    Busy,
    Committed,
    Discarded,
}

/// A record in the ring: the position of its header, the length of its data,
/// and its state.
pub struct Slot {
    pub pos: nat,
    pub len: nat,
    pub state: SlotState,
}

impl Slot {
    /// The position behind the record.
    pub open spec fn end(self) -> int {
        self.pos + record_room(self.len as int)
    }

    /// The flags of the record's header.
    pub open spec fn flags(self) -> u32 {
        match self.state {
            SlotState::Busy => BUSY_FLAG,
            SlotState::Committed => 0,
            SlotState::Discarded => DISCARD_FLAG,
        }
    }
}

/// The `n` bytes at position `pos`; positions count up for ever, and wrap around
/// the memory.
pub open spec fn bytes_at(data: Seq<u8>, pos: int, n: int) -> Seq<u8> {
    Seq::new(n as nat, |i: int| data[(pos + i) % (data.len() as int)])
}

/// The header at position `pos`, stored in little-endian order.
pub open spec fn header_at(data: Seq<u8>, pos: int) -> RecordHeader {
    RecordHeader { word: spec_u64_from_le_bytes(bytes_at(data, pos, 8)) }
}

/// Whether the slots, from `consumer` to `producer`, follow each other without a
/// gap.
pub open spec fn chained(slots: Seq<Slot>, consumer: int, producer: int) -> bool {
    &&& slots.len() == 0 ==> consumer == producer
    &&& slots.len() > 0 ==> slots[0].pos == consumer && slots.last().end() == producer
    &&& forall|i: int|
        0 <= i < slots.len() ==> consumer <= (#[trigger] slots[i]).pos && slots[i].end() <= producer
            && slots[i].pos % 8 == 0
    &&& forall|i: int, j: int|
        0 <= i < j < slots.len() ==> (#[trigger] slots[i]).end() <= (#[trigger] slots[j]).pos
    &&& forall|i: int, j: int|
        0 <= i && j == i + 1 && j < slots.len() ==> (#[trigger] slots[i]).end() == (
        #[trigger] slots[j]).pos
}

/// How many slots at the front are discarded.
pub open spec fn leading_discarded(slots: Seq<Slot>) -> nat
    decreases slots.len(),
{
    if slots.len() > 0 && slots[0].state == SlotState::Discarded {
        1 + leading_discarded(slots.drop_first())
    } else {
        0
    }
}

/// Whether a ring can have `data_size` bytes of data, where a page has `page`: it has
/// at least one page, and a power of two of bytes.
pub fn check_size(data_size: usize, page: usize) -> (r: Result<(), MpscBufError>)
    ensures
        match r {
            Ok(_) => page <= data_size && is_power_of_two(data_size as int),
            Err(MpscBufError::SizeTooSmall(n)) => data_size < page && n == page,
            Err(MpscBufError::SizeNotAligned(n)) => {
                &&& page <= data_size
                &&& !is_power_of_two(data_size as int)
                &&& n == page
            },
            Err(_) => false,
        },
{
    if data_size < page {
        return Err(MpscBufError::SizeTooSmall(page));
    }
    if !power_of_two(data_size) {
        return Err(MpscBufError::SizeNotAligned(page));
    }
    Ok(())
}

/// The ring buffer.
pub struct RingBuf {
    data: Vec<u8>,
    producer: u64,
    consumer: u64,
    dropped: u64,
    slots: Ghost<Seq<Slot>>,
}

impl RingBuf {
    /// The bytes of the memory.
    pub closed spec fn memory(&self) -> Seq<u8> {
        self.data@
    }

    /// How many bytes of memory there are.
    pub open spec fn size(&self) -> int {
        self.memory().len() as int
    }

    /// The position at which the next record is reserved.
    pub closed spec fn producer(&self) -> u64 {
        self.producer
    }

    /// The position of the next record to consume.
    pub closed spec fn consumer(&self) -> u64 {
        self.consumer
    }

    /// How many records were dropped.
    pub closed spec fn dropped_count(&self) -> u64 {
        self.dropped
    }

    /// The records in the ring, oldest first.
    pub closed spec fn slots(&self) -> Seq<Slot> {
        self.slots@
    }

    /// The data of a record.
    pub open spec fn payload(&self, slot: Slot) -> Seq<u8> {
        bytes_at(self.memory(), slot.pos + HEADER_SIZE, slot.len as int)
    }

    /// Whether the header in memory says of the slot what it is.
    pub open spec fn header_ok(&self, slot: Slot) -> bool {
        let header = header_at(self.memory(), slot.pos as int);
        header.spec_len() == slot.len && header.spec_flags() == slot.flags()
    }

    /// The ring is sound: the size of the memory is a power of two, the records
    /// fill exactly the stretch between the two positions, which is shorter than
    /// the memory, and each header in memory says what the record is.
    pub open spec fn wf(&self) -> bool {
        &&& is_power_of_two(self.size())
        &&& 8 <= self.size()
        &&& self.consumer() <= self.producer()
        &&& self.producer() - self.consumer() < self.size()
        &&& self.producer() % 8 == 0
        &&& self.consumer() % 8 == 0
        &&& chained(self.slots(), self.consumer() as int, self.producer() as int)
        &&& forall|i: int|
            0 <= i < self.slots().len() ==> self.header_ok(#[trigger] self.slots()[i])
    }

    /// A ring of `data_size` bytes with nothing in it.
    pub fn new(data_size: usize) -> (r: Self)
        requires
            is_power_of_two(data_size as int),
            8 <= data_size,
        ensures
            r.wf(),
            r.size() == data_size,
            r.producer() == 0,
            r.consumer() == 0,
            r.dropped_count() == 0,
            r.slots() == Seq::<Slot>::empty(),
    {
        let mut data: Vec<u8> = Vec::new();
        data.resize(data_size, 0);
        RingBuf { data, producer: 0, consumer: 0, dropped: 0, slots: Ghost(Seq::empty()) }
    }

    pub fn data_size(&self) -> (r: usize)
        ensures
            r == self.size(),
    {
        self.data.len()
    }

    pub fn size_mask(&self) -> (r: u64)
        requires
            self.wf(),
        ensures
            r == self.size() - 1,
    {
        (self.data.len() - 1) as u64
    }

    pub fn consumer_pos(&self) -> (r: u64)
        ensures
            r == self.consumer(),
    {
        self.consumer
    }

    pub fn producer_pos(&self) -> (r: u64)
        ensures
            r == self.producer(),
    {
        self.producer
    }

    /// Counts one dropped record; the count wraps around.
    pub fn increment_dropped(&mut self)
        ensures
            final(self).dropped_count() == (if old(self).dropped_count() == u64::MAX {
                0
            } else {
                (old(self).dropped_count() + 1) as u64
            }),
            final(self).memory() == old(self).memory(),
            final(self).producer() == old(self).producer(),
            final(self).consumer() == old(self).consumer(),
            final(self).slots() == old(self).slots(),
    {
        self.dropped = self.dropped.wrapping_add(1);
    }

    pub fn dropped(&self) -> (r: u64)
        ensures
            r == self.dropped_count(),
    {
        self.dropped
    }

    /// Reads the header at a position.
    pub(crate) fn load_header(&self, pos: u64) -> (r: RecordHeader)
        requires
            self.wf(),
            pos % 8 == 0,
        ensures
            r == header_at(self.memory(), pos as int),
    {
        let size: usize = self.data.len();
        let offset: usize = masked(pos, size) as usize;
        proof {
            lemma_aligned_run(self.size(), pos as int, 8);
        }
        let mut bytes: Vec<u8> = Vec::new();
        let mut i: usize = 0;
        while i < 8
            invariant
                i <= 8,
                self.wf(),
                size == self.size(),
                offset == pos as int % self.size(),
                offset + 8 <= self.size(),
                forall|j: int|
                    0 <= j < 8 ==> #[trigger] ((pos + j) % self.size()) == offset + j,
                bytes@ =~= bytes_at(self.memory(), pos as int, i as int),
            decreases 8 - i,
        {
            assert((pos + i as int) % self.size() == offset + i);
            bytes.push(self.data[offset + i]);
            i += 1;
        }
        RecordHeader { word: u64_from_le_bytes(bytes.as_slice()) }
    }

    /// Writes bytes at a position, around the end of the memory if need be; a
    /// byte at any position less than one memory size away from the written ones
    /// stays as it was.
    fn store(&mut self, pos: u64, bytes: &[u8])
        requires
            is_power_of_two(old(self).size()),
            8 <= old(self).size(),
            bytes@.len() <= old(self).size(),
            pos + bytes@.len() <= u64::MAX,
        ensures
            final(self).memory().len() == old(self).memory().len(),
            bytes_at(final(self).memory(), pos as int, bytes@.len() as int) == bytes@,
            forall|q: int|
                (pos + bytes@.len() - old(self).size() <= q < pos || pos + bytes@.len() <= q < pos
                    + old(self).size()) ==> #[trigger] final(self).memory()[q % old(self).size()]
                    == old(self).memory()[q % old(self).size()],
            final(self).producer() == old(self).producer(),
            final(self).consumer() == old(self).consumer(),
            final(self).dropped_count() == old(self).dropped_count(),
            final(self).slots() == old(self).slots(),
    {
        let size: usize = self.data.len();
        let ghost before = self.memory();
        let mut i: usize = 0;
        while i < bytes.len()
            invariant
                size == before.len(),
                self.memory().len() == before.len(),
                before == old(self).memory(),
                is_power_of_two(size as int),
                8 <= size,
                i <= bytes@.len() <= size,
                pos + bytes@.len() <= u64::MAX,
                forall|j: int|
                    0 <= j < i ==> #[trigger] self.memory()[(pos + j) % (size as int)] == bytes@[j],
                forall|q: int|
                    (pos + i - size <= q < pos || pos + i <= q < pos + size)
                        ==> #[trigger] self.memory()[q % (size as int)] == before[q % (size
                        as int)],
                self.producer() == old(self).producer(),
                self.consumer() == old(self).consumer(),
                self.dropped_count() == old(self).dropped_count(),
                self.slots() == old(self).slots(),
            decreases bytes@.len() - i,
        {
            let at: usize = masked(pos + i as u64, size) as usize;
            let ghost prev = self.memory();
            self.data[at] = bytes[i];
            proof {
                assert(self.memory() == prev.update(at as int, bytes@[i as int]));
                assert forall|j: int| 0 <= j < i + 1 implies #[trigger] self.memory()[(pos + j) % (
                size as int)] == bytes@[j] by {
                    if j < i {
                        lemma_apart(size as int, pos + j, pos + i as int);
                        lemma_mod_bound(pos + j, size as int);
                    }
                }
                assert forall|q: int|
                    (pos + i + 1 - size <= q < pos || pos + i + 1 <= q < pos + size) implies
                    #[trigger] self.memory()[q % (size as int)] == before[q % (size as int)] by {
                    lemma_apart(size as int, q, pos + i as int);
                    lemma_mod_bound(q, size as int);
                }
            }
            i += 1;
        }
        assert(bytes_at(self.memory(), pos as int, bytes@.len() as int) =~= bytes@);
    }

    /// Writes a header.
    fn store_header(&mut self, pos: u64, header: RecordHeader)
        requires
            is_power_of_two(old(self).size()),
            8 <= old(self).size(),
            pos + 8 <= u64::MAX,
        ensures
            final(self).memory().len() == old(self).memory().len(),
            header_at(final(self).memory(), pos as int) == header,
            forall|q: int|
                (pos + 8 - old(self).size() <= q < pos || pos + 8 <= q < pos + old(self).size())
                    ==> #[trigger] final(self).memory()[q % old(self).size()] == old(
                    self,
                ).memory()[q % old(self).size()],
            final(self).producer() == old(self).producer(),
            final(self).consumer() == old(self).consumer(),
            final(self).dropped_count() == old(self).dropped_count(),
            final(self).slots() == old(self).slots(),
    {
        proof {
            lemma_auto_spec_u64_to_from_le_bytes();
        }
        let bytes: Vec<u8> = u64_to_le_bytes(header.word);
        self.store(pos, bytes.as_slice());
    }

    /// Puts a record of `len` bytes at the producer position, and moves that
    /// position behind it.
    #[verifier::spinoff_prover]
    #[verifier::rlimit(40)]
    pub(crate) fn push_slot(&mut self, len: u32, next: u64)
        requires
            old(self).wf(),
            next == old(self).producer() + record_room(len as int),
            next - old(self).consumer() < old(self).size(),
        ensures
            final(self).wf(),
            final(self).size() == old(self).size(),
            final(self).producer() == next,
            final(self).consumer() == old(self).consumer(),
            final(self).dropped_count() == old(self).dropped_count(),
            final(self).slots() == old(self).slots().push(
                Slot { pos: old(self).producer() as nat, len: len as nat, state: SlotState::Busy },
            ),
            forall|i: int|
                0 <= i < old(self).slots().len() ==> final(self).payload(
                    #[trigger] old(self).slots()[i],
                ) == old(self).payload(old(self).slots()[i]),
    {
        let pos: u64 = self.producer;
        self.store_header(pos, RecordHeader::new(len));
        self.producer = next;
        let ghost slot = Slot { pos: pos as nat, len: len as nat, state: SlotState::Busy };
        self.slots = Ghost(self.slots@.push(slot));
        proof {
            lemma_chained_push(
                old(self).slots(),
                old(self).consumer() as int,
                old(self).producer() as int,
                slot,
            );
            assert forall|i: int| 0 <= i < old(self).slots().len() implies self.header_ok(
                #[trigger] old(self).slots()[i],
            ) && self.payload(old(self).slots()[i]) == old(self).payload(old(self).slots()[i]) by {
                let s = old(self).slots()[i];
                assert(old(self).header_ok(s));
                assert(bytes_at(self.memory(), s.pos as int, 8) =~= bytes_at(
                    old(self).memory(),
                    s.pos as int,
                    8,
                ));
                assert(self.payload(s) =~= old(self).payload(s));
            }
            assert forall|i: int| 0 <= i < self.slots().len() implies self.header_ok(
                #[trigger] self.slots()[i],
            ) by {
                if i < old(self).slots().len() {
                    assert(self.slots()[i] == old(self).slots()[i]);
                }
            }
        }
    }

    /// Writes into the data of the record `index`, from `at` on.
    pub(crate) fn fill_slot(&mut self, index: Ghost<int>, pos: u64, at: usize, bytes: &[u8])
        requires
            old(self).wf(),
            0 <= index@ < old(self).slots().len(),
            old(self).slots()[index@].pos == pos,
            at + bytes@.len() <= old(self).slots()[index@].len,
        ensures
            final(self).wf(),
            final(self).size() == old(self).size(),
            final(self).producer() == old(self).producer(),
            final(self).consumer() == old(self).consumer(),
            final(self).dropped_count() == old(self).dropped_count(),
            final(self).slots() == old(self).slots(),
            final(self).payload(old(self).slots()[index@]) == overwritten(
                old(self).payload(old(self).slots()[index@]),
                at as int,
                bytes@,
            ),
            forall|i: int|
                0 <= i < old(self).slots().len() && i != index@ ==> final(self).payload(
                    #[trigger] old(self).slots()[i],
                ) == old(self).payload(old(self).slots()[i]),
    {
        let ghost slots = old(self).slots();
        let ghost mine = slots[index@];
        let start: u64 = pos + 8 + at as u64;
        self.store(start, bytes);
        proof {
            assert forall|i: int| 0 <= i < slots.len() implies self.header_ok(#[trigger] slots[i])
                && (i != index@ ==> self.payload(slots[i]) == old(self).payload(slots[i])) by {
                let s = slots[i];
                assert(old(self).header_ok(s));
                if i < index@ {
                    assert(s.end() <= mine.pos);
                } else if i > index@ {
                    assert(mine.end() <= s.pos);
                }
                assert(bytes_at(self.memory(), s.pos as int, 8) =~= bytes_at(
                    old(self).memory(),
                    s.pos as int,
                    8,
                ));
                if i != index@ {
                    assert(self.payload(s) =~= old(self).payload(s));
                }
            }
            let new = self.payload(mine);
            let want = overwritten(old(self).payload(mine), at as int, bytes@);
            assert forall|k: int| 0 <= k < mine.len implies new[k] == want[k] by {
                if at <= k < at + bytes@.len() {
                    let j = k - at;
                    assert(bytes_at(self.memory(), start as int, bytes@.len() as int)[j]
                        == bytes@[j]);
                    assert(start + j == mine.pos + 8 + k);
                } else {
                    let q = mine.pos + 8 + k;
                    assert(self.memory()[q % old(self).size()] == old(self).memory()[q % old(
                        self,
                    ).size()]);
                }
            }
            assert(new =~= want);
        }
    }

    /// Gives the record `index`, which is being filled, its final state.
    pub(crate) fn settle_slot(&mut self, index: Ghost<int>, pos: u64, discard: bool)
        requires
            old(self).wf(),
            0 <= index@ < old(self).slots().len(),
            old(self).slots()[index@].pos == pos,
            old(self).slots()[index@].state == SlotState::Busy,
        ensures
            final(self).wf(),
            final(self).size() == old(self).size(),
            final(self).producer() == old(self).producer(),
            final(self).consumer() == old(self).consumer(),
            final(self).dropped_count() == old(self).dropped_count(),
            final(self).slots() == old(self).slots().update(
                index@,
                Slot {
                    state: if discard {
                        SlotState::Discarded
                    } else {
                        SlotState::Committed
                    },
                    ..old(self).slots()[index@]
                },
            ),
            forall|i: int|
                0 <= i < old(self).slots().len() ==> final(self).payload(
                    #[trigger] old(self).slots()[i],
                ) == old(self).payload(old(self).slots()[i]),
    {
        let ghost slots = old(self).slots();
        let ghost mine = slots[index@];
        assert(old(self).header_ok(mine));
        let mut header: RecordHeader = self.load_header(pos);
        if discard {
            header.discard();
        } else {
            header.commit();
        }
        self.store_header(pos, header);
        let ghost settled = Slot {
            state: if discard {
                SlotState::Discarded
            } else {
                SlotState::Committed
            },
            ..mine
        };
        self.slots = Ghost(self.slots@.update(index@, settled));
        proof {
            assert forall|i: int| 0 <= i < slots.len() implies (i != index@ ==> self.header_ok(
                #[trigger] slots[i],
            )) && self.payload(slots[i]) == old(self).payload(slots[i]) by {
                let s = slots[i];
                assert(old(self).header_ok(s));
                if i < index@ {
                    assert(s.end() <= mine.pos);
                } else if i > index@ {
                    assert(mine.end() <= s.pos);
                }
                if i != index@ {
                    assert(bytes_at(self.memory(), s.pos as int, 8) =~= bytes_at(
                        old(self).memory(),
                        s.pos as int,
                        8,
                    ));
                }
                assert(self.payload(s) =~= old(self).payload(s));
            }
            assert forall|i: int| 0 <= i < self.slots().len() implies self.header_ok(
                #[trigger] self.slots()[i],
            ) by {
                if i != index@ {
                    assert(self.slots()[i] == slots[i]);
                }
            }
            assert(chained(self.slots(), self.consumer() as int, self.producer() as int));
        }
    }

    /// Moves the consumer position behind the oldest record.
    pub(crate) fn pop_slot(&mut self, next: u64)
        requires
            old(self).wf(),
            old(self).slots().len() > 0,
            next == old(self).slots()[0].end(),
        ensures
            final(self).wf(),
            final(self).memory() == old(self).memory(),
            final(self).producer() == old(self).producer(),
            final(self).consumer() == next,
            final(self).dropped_count() == old(self).dropped_count(),
            final(self).slots() == old(self).slots().drop_first(),
    {
        self.consumer = next;
        self.slots = Ghost(self.slots@.drop_first());
        proof {
            let before = old(self).slots();
            let after = self.slots();
            assert forall|i: int| 0 <= i < after.len() implies self.header_ok(
                #[trigger] after[i],
            ) by {
                assert(after[i] == before[i + 1]);
                assert(old(self).header_ok(before[i + 1]));
            }
            if after.len() > 0 {
                assert(before[0].end() == before[1].pos);
            }
            assert(chained(after, self.consumer() as int, self.producer() as int)) by {
                assert forall|i: int, j: int| 0 <= i && j == i + 1 && j < after.len() implies (
                #[trigger] after[i]).end() == (#[trigger] after[j]).pos by {
                    assert(before[i + 1].end() == before[j + 1].pos);
                }
            }
        }
    }

    /// Copies the data of a record out.
    pub(crate) fn copy_payload(&self, pos: u64, len: u32) -> (r: Vec<u8>)
        requires
            self.wf(),
            pos + 8 + len <= u64::MAX,
        ensures
            r@ == bytes_at(self.memory(), pos + 8, len as int),
    {
        let size: usize = self.data.len();
        let mut r: Vec<u8> = Vec::new();
        let mut i: u32 = 0;
        while i < len
            invariant
                self.wf(),
                size == self.size(),
                i <= len,
                pos + 8 + len <= u64::MAX,
                r@ =~= bytes_at(self.memory(), pos + 8, i as int),
            decreases len - i,
        {
            let at: usize = masked(pos + 8 + i as u64, size) as usize;
            r.push(self.data[at]);
            i += 1;
        }
        r
    }
}

/// `old` with `bytes` written from `at` on.
pub open spec fn overwritten(old_bytes: Seq<u8>, at: int, bytes: Seq<u8>) -> Seq<u8> {
    Seq::new(
        old_bytes.len(),
        |k: int|
            if at <= k < at + bytes.len() {
                bytes[k - at]
            } else {
                old_bytes[k]
            },
    )
}

/// The offset of a position in a memory of `size` bytes.
fn masked(pos: u64, size: usize) -> (r: u64)
    requires
        is_power_of_two(size as int),
    ensures
        r == pos as int % size as int,
        r < size,
{
    let ghost k = lemma_exponent(size as int);
    proof {
        vstd::arithmetic::power2::lemma_pow2_pos(k);
    }
    let mask: u64 = size as u64 - 1;
    proof {
        lemma_u64_low_bits_mask_is_mod(pos, k);
        assert(low_bits_mask(k) == mask);
        lemma_mod_bound(pos as int, size as int);
    }
    pos & mask
}

/// Two positions less than one memory size apart lie at different offsets.
proof fn lemma_apart(size: int, p: int, q: int)
    requires
        size > 0,
        p != q,
        -size < p - q < size,
    ensures
        p % size != q % size,
{
    if p % size == q % size {
        vstd::arithmetic::div_mod::lemma_fundamental_div_mod(p, size);
        vstd::arithmetic::div_mod::lemma_fundamental_div_mod(q, size);
        let d = p / size - q / size;
        assert(p - q == size * d) by (nonlinear_arith)
            requires
                p == size * (p / size) + p % size,
                q == size * (q / size) + q % size,
                p % size == q % size,
                d == p / size - q / size,
        ;
        assert(false) by (nonlinear_arith)
            requires
                size > 0,
                p != q,
                -size < p - q < size,
                p - q == size * d,
        ;
    }
}

/// A header never wraps around the end of the memory.
proof fn lemma_aligned_run(size: int, pos: int, n: int)
    requires
        is_power_of_two(size),
        size >= 8,
        pos >= 0,
        pos % 8 == 0,
        n == 8,
    ensures
        pos % size + 8 <= size,
        forall|j: int| 0 <= j < n ==> #[trigger] ((pos + j) % size) == pos % size + j,
{
    lemma_power_of_two_aligned(size);
    let off = pos % size;
    let q = pos / size;
    let m = size / 8;
    vstd::arithmetic::div_mod::lemma_fundamental_div_mod(pos, size);
    lemma_mod_bound(pos, size);
    assert(off % 8 == 0) by {
        assert(off == 8 * (pos / 8 - m * q)) by (nonlinear_arith)
            requires
                pos == size * q + off,
                size == 8 * m,
                pos == 8 * (pos / 8),
        ;
    }
    assert forall|j: int| 0 <= j < n implies #[trigger] ((pos + j) % size) == off + j by {
        assert(pos + j == q * size + (off + j)) by (nonlinear_arith)
            requires
                pos == size * q + off,
        ;
        lemma_fundamental_div_mod_converse(pos + j, size, q, off + j);
    }
}

/// A power of two that is at least eight is a multiple of eight.
proof fn lemma_power_of_two_aligned(size: int)
    requires
        is_power_of_two(size),
        size >= 8,
    ensures
        size % 8 == 0,
        size == 8 * (size / 8),
{
    let k = choose|k: nat| #[trigger] pow2(k) == size;
    lemma2_to64();
    if k < 3 {
        assert(pow2(0) == 1 && pow2(1) == 2 && pow2(2) == 4);
        assert(k == 0 || k == 1 || k == 2);
        assert(false);
    }
    vstd::arithmetic::power2::lemma_pow2_adds(3, (k - 3) as nat);
    assert(pow2(3) == 8);
    assert(size == 8 * pow2((k - 3) as nat));
}

/// A record right behind the last one keeps the records without a gap.
proof fn lemma_chained_push(slots: Seq<Slot>, consumer: int, producer: int, slot: Slot)
    requires
        chained(slots, consumer, producer),
        consumer <= producer,
        slot.pos == producer,
        producer % 8 == 0,
    ensures
        chained(slots.push(slot), consumer, slot.end()),
{
    let more = slots.push(slot);
    assert forall|i: int| 0 <= i < more.len() implies consumer <= (#[trigger] more[i]).pos
        && more[i].end() <= slot.end() && more[i].pos % 8 == 0 by {
        if i < slots.len() {
            assert(more[i] == slots[i]);
        }
    }
    assert forall|i: int, j: int| 0 <= i < j < more.len() implies (#[trigger] more[i]).end() <= (
    #[trigger] more[j]).pos by {
        assert(more[i] == slots[i]);
        if j < slots.len() {
            assert(more[j] == slots[j]);
        }
    }
    assert forall|i: int, j: int| 0 <= i && j == i + 1 && j < more.len() implies (
    #[trigger] more[i]).end() == (#[trigger] more[j]).pos by {
        assert(more[i] == slots[i]);
        if j < slots.len() {
            assert(more[j] == slots[j]);
        } else {
            assert(slots[i] == slots.last());
        }
    }
}

} // verus!
