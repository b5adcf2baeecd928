//! Records of the kernel programs: plain structures in little-endian order.

use super::error::BpfError;
use vstd::bytes::{
    lemma_auto_spec_u32_to_from_le_bytes, lemma_auto_spec_u64_to_from_le_bytes,
    spec_u16_from_le_bytes, spec_u32_from_le_bytes, spec_u64_from_le_bytes, u16_from_le_bytes,
    u32_from_le_bytes, u32_to_le_bytes, u64_from_le_bytes, u64_to_le_bytes,
};
use vstd::prelude::*;

verus! {

/// The `n` bytes at `at`.
pub open spec fn bytes_of(data: Seq<u8>, at: int, n: int) -> Seq<u8> {
    data.subrange(at, at + n)
}

/// The 64-bit number at `at`.
pub open spec fn u64_at(data: Seq<u8>, at: int) -> u64 {
    spec_u64_from_le_bytes(bytes_of(data, at, 8))
}

/// The 32-bit number at `at`.
pub open spec fn u32_at(data: Seq<u8>, at: int) -> u32 {
    spec_u32_from_le_bytes(bytes_of(data, at, 4))
}

/// The 16-bit number at `at`.
pub open spec fn u16_at(data: Seq<u8>, at: int) -> u16 {
    spec_u16_from_le_bytes(bytes_of(data, at, 2))
}

/// A copy of the bytes `data[at..at + n]`.
pub fn read_bytes(data: &[u8], at: usize, n: usize) -> (r: Vec<u8>)
    requires
        at + n <= data@.len(),
    ensures
        r@ == bytes_of(data@, at as int, n as int),
{
    let mut r: Vec<u8> = Vec::new();
    let len: usize = data.len();
    let mut i: usize = 0;
    while i < n
        invariant
            i <= n,
            len == data@.len(),
            at + n <= len,
            r@ =~= bytes_of(data@, at as int, i as int),
        decreases n - i,
    {
        r.push(data[at + i]);
        i += 1;
    }
    r
}

pub fn read_u64(data: &[u8], at: usize) -> (r: u64)
    requires
        at + 8 <= data@.len(),
    ensures
        r == u64_at(data@, at as int),
{
    let bytes: Vec<u8> = read_bytes(data, at, 8);
    u64_from_le_bytes(bytes.as_slice())
}

pub fn read_u32(data: &[u8], at: usize) -> (r: u32)
    requires
        at + 4 <= data@.len(),
    ensures
        r == u32_at(data@, at as int),
{
    let bytes: Vec<u8> = read_bytes(data, at, 4);
    u32_from_le_bytes(bytes.as_slice())
}

pub fn read_u16(data: &[u8], at: usize) -> (r: u16)
    requires
        at + 2 <= data@.len(),
    ensures
        r == u16_at(data@, at as int),
{
    let bytes: Vec<u8> = read_bytes(data, at, 2);
    u16_from_le_bytes(bytes.as_slice())
}

/// Puts a 64-bit number behind the bytes.
pub fn put_u64(data: &mut Vec<u8>, n: u64)
    ensures
        final(data)@.len() == old(data)@.len() + 8,
        final(data)@.take(old(data)@.len() as int) == old(data)@,
        u64_at(final(data)@, old(data)@.len() as int) == n,
{
    let mut bytes: Vec<u8> = u64_to_le_bytes(n);
    let ghost before = data@;
    let ghost added = bytes@;
    data.append(&mut bytes);
    proof {
        lemma_auto_spec_u64_to_from_le_bytes();
        assert(data@.take(before.len() as int) =~= before);
        assert(bytes_of(data@, before.len() as int, 8) =~= added);
    }
}

/// Puts a 32-bit number behind the bytes.
pub fn put_u32(data: &mut Vec<u8>, n: u32)
    ensures
        final(data)@.len() == old(data)@.len() + 4,
        final(data)@.take(old(data)@.len() as int) == old(data)@,
        u32_at(final(data)@, old(data)@.len() as int) == n,
{
    let mut bytes: Vec<u8> = u32_to_le_bytes(n);
    let ghost before = data@;
    let ghost added = bytes@;
    data.append(&mut bytes);
    proof {
        lemma_auto_spec_u32_to_from_le_bytes();
        assert(data@.take(before.len() as int) =~= before);
        assert(bytes_of(data@, before.len() as int, 4) =~= added);
    }
}

/// The bytes within the first `n` are those of the whole.
pub(crate) proof fn lemma_bytes_of_take(data: Seq<u8>, n: int)
    requires
        0 <= n <= data.len(),
    ensures
        forall|at: int|
            0 <= at && at + 8 <= n ==> #[trigger] u64_at(data.take(n), at) == u64_at(data, at),
        forall|at: int|
            0 <= at && at + 4 <= n ==> #[trigger] u32_at(data.take(n), at) == u32_at(data, at),
{
    assert forall|at: int| 0 <= at && at + 8 <= n implies #[trigger] u64_at(data.take(n), at)
        == u64_at(data, at) by {
        assert(bytes_of(data.take(n), at, 8) =~= bytes_of(data, at, 8));
    }
    assert forall|at: int| 0 <= at && at + 4 <= n implies #[trigger] u32_at(data.take(n), at)
        == u32_at(data, at) by {
        assert(bytes_of(data.take(n), at, 4) =~= bytes_of(data, at, 4));
    }
}

/// The error for a record that is too short.
pub(crate) fn too_short(description: &str) -> (r: BpfError)
    ensures
        r.is_map("failed to parse "@ + description@ + ": TooShort"@),
{
    BpfError::MapError("failed to parse ".to_owned().concat(description).concat(": TooShort"))
}

/// The bytes of a text that a zero byte ends.
pub open spec fn until_zero(bytes: Seq<u8>) -> Seq<u8>
    decreases bytes.len(),
{
    if bytes.len() == 0 || bytes[0] == 0 {
        seq![]
    } else {
        seq![bytes[0]] + until_zero(bytes.drop_first())
    }
}

/// The text in a field of fixed size that a zero byte ends, if it does not fill
/// the field.
pub fn field_text(bytes: &[u8]) -> (r: String)
    ensures
        r@ == crate::text::lossy_text(until_zero(bytes@)),
{
    let mut head: Vec<u8> = Vec::new();
    let mut i: usize = 0;
    assert(bytes@.skip(0) =~= bytes@);
    assert(head@ + until_zero(bytes@) =~= until_zero(bytes@));
    while i < bytes.len() && bytes[i] != 0
        invariant
            i <= bytes@.len(),
            head@ + until_zero(bytes@.skip(i as int)) == until_zero(bytes@),
        decreases bytes@.len() - i,
    {
        let ghost before = head@;
        let ghost rest = bytes@.skip(i as int);
        head.push(bytes[i]);
        assert(rest.drop_first() =~= bytes@.skip(i + 1));
        assert(before + until_zero(rest) =~= head@ + until_zero(bytes@.skip(i + 1)));
        i += 1;
    }
    assert(head@ + until_zero(bytes@.skip(i as int)) =~= head@);
    crate::text::from_utf8_lossy(head.as_slice())
}

/// `a - b`, or zero where that is negative.
pub open spec fn less(a: u64, b: u64) -> u64 {
    if a >= b {
        (a - b) as u64
    } else {
        0
    }
}

/// The smaller of a number and the largest of 64 bits.
pub open spec fn capped(n: int) -> u64 {
    if n > u64::MAX {
        u64::MAX
    } else {
        n as u64
    }
}

/// `a * b`, or the largest number where that is too large.
pub fn saturating_product(a: u64, b: u64) -> (r: u64)
    ensures
        r == capped(a * b),
{
    match a.checked_mul(b) {
        Some(n) => n,
        None => u64::MAX,
    }
}

} // verus!
