//! Network addresses as text.

use crate::text::{decimal, join, joined, numeral, push_decimal, push_numeral, texts};
use vstd::prelude::*;

verus! {

/// The number that bytes write in network order.
pub open spec fn network_value(bytes: Seq<u8>) -> int
    decreases bytes.len(),
{
    if bytes.len() == 0 {
        0
    } else {
        network_value(bytes.drop_last()) * 256 + bytes.last()
    }
}

/// The bytes of an address as one number.
pub fn address_of(bytes: &[u8]) -> (r: u128)
    requires
        bytes@.len() == 16,
    ensures
        r == network_value(bytes@),
{
    let mut r: u128 = 0;
    let mut i: usize = 0;
    let ghost mut limit: int = 1;
    proof {
        assert(bytes@.take(0) =~= seq![]);
        lemma_limit(0);
    }
    while i < 16
        invariant
            i <= 16,
            bytes@.len() == 16,
            r == network_value(bytes@.take(i as int)),
            0 <= r < limit,
            limit == vstd::arithmetic::power::pow(256, i as nat),
        decreases 16 - i,
    {
        proof {
            assert(bytes@.take(i + 1).drop_last() =~= bytes@.take(i as int));
            lemma_limit(i as nat);
            vstd::arithmetic::power::lemma_pow_adds(256, i as nat, 1);
            vstd::arithmetic::power::lemma_pow1(256);
        }
        r = r * 256 + bytes[i] as u128;
        proof {
            limit = limit * 256;
        }
        i += 1;
    }
    assert(bytes@.take(16) =~= bytes@);
    r
}

proof fn lemma_limit(n: nat)
    requires
        n < 16,
    ensures
        vstd::arithmetic::power::pow(256, n) * 256 <= 0x1_0000_0000_0000_0000_0000_0000_0000_0000,
        vstd::arithmetic::power::pow(256, 0) == 1,
{
    vstd::arithmetic::power::lemma_pow_increases(256, n, 15);
    reveal_with_fuel(vstd::arithmetic::power::pow, 17);
}

/// The last `n` digits of a number written to `base`, the highest first.
pub open spec fn digits_of(value: int, base: int, n: nat) -> Seq<int>
    decreases n,
{
    if n == 0 {
        seq![]
    } else {
        digits_of(value / base, base, (n - 1) as nat).push(value % base)
    }
}

fn digits(value: u128, base: u32, n: usize) -> (r: Vec<u32>)
    requires
        base > 0,
    ensures
        r@.len() == n,
        forall|i: int|
            0 <= i < n ==> #[trigger] r@[i] == digits_of(value as int, base as int, n as nat)[i],
        digits_of(value as int, base as int, n as nat).len() == n,
        forall|i: int| 0 <= i < n ==> #[trigger] r@[i] < base,
    decreases n,
{
    if n == 0 {
        Vec::new()
    } else {
        let mut r: Vec<u32> = digits(value / (base as u128), base, n - 1);
        r.push((value % (base as u128)) as u32);
        r
    }
}

/// Four octets with dots between them.
pub open spec fn ipv4_text(octets: Seq<int>) -> Seq<char> {
    decimal(octets[0] as nat) + "."@ + decimal(octets[1] as nat) + "."@ + decimal(octets[2] as nat)
        + "."@ + decimal(octets[3] as nat)
}

fn ipv4_string(octets: &Vec<u32>, from: usize) -> (r: String)
    requires
        from + 4 <= octets@.len(),
    ensures
        r@ == ipv4_text(
            seq![
                octets@[from as int] as int,
                octets@[from + 1] as int,
                octets@[from + 2] as int,
                octets@[from + 3] as int,
            ],
        ),
{
    let n: usize = octets.len();
    assert(from + 4 <= n);
    let mut r: String = String::new();
    push_decimal(&mut r, octets[from] as u64);
    r.append(".");
    push_decimal(&mut r, octets[from + 1] as u64);
    r.append(".");
    push_decimal(&mut r, octets[from + 2] as u64);
    r.append(".");
    push_decimal(&mut r, octets[from + 3] as u64);
    assert(r@ =~= ipv4_text(
        seq![
            octets@[from as int] as int,
            octets@[from + 1] as int,
            octets@[from + 2] as int,
            octets@[from + 3] as int,
        ],
    ));
    r
}

/// How many zeros stand from `i` on.
pub open spec fn zero_run(segments: Seq<int>, i: int) -> int
    decreases segments.len() - i,
{
    if 0 <= i < segments.len() && segments[i] == 0 {
        1 + zero_run(segments, i + 1)
    } else {
        0
    }
}

/// The start and length of the longest run of zeros that starts before `n`, the
/// first of them if there are several.
pub open spec fn longest_run(segments: Seq<int>, n: int) -> (int, int)
    decreases n,
{
    if n <= 0 {
        (0, 0)
    } else {
        let (start, len) = longest_run(segments, n - 1);
        if zero_run(segments, n - 1) > len {
            (n - 1, zero_run(segments, n - 1))
        } else {
            (start, len)
        }
    }
}

/// Segments in hexadecimal, with colons between them.
pub open spec fn hex_list(segments: Seq<int>) -> Seq<char> {
    joined(segments.map_values(|s: int| numeral(s as nat, 16)), ":"@)
}

/// Whether segments stand for an address of the older kind.
pub open spec fn is_mapped(segments: Seq<int>) -> bool {
    &&& segments[0] == 0
    &&& segments[1] == 0
    &&& segments[2] == 0
    &&& segments[3] == 0
    &&& segments[4] == 0
    &&& segments[5] == 0xffff
}

/// An address of eight segments: the longest run of two or more zeros is left
/// out, and an address of the older kind is shown as one.
pub open spec fn ipv6_text(address: int) -> Seq<char> {
    let segments = digits_of(address, 0x1_0000, 8);
    let octets = digits_of(address, 256, 16);
    if is_mapped(segments) {
        "::ffff:"@ + ipv4_text(seq![octets[12], octets[13], octets[14], octets[15]])
    } else {
        let (start, len) = longest_run(segments, 8);
        if len > 1 {
            hex_list(segments.take(start)) + "::"@ + hex_list(segments.skip(start + len))
        } else {
            hex_list(segments)
        }
    }
}

fn hex_string(segments: &Vec<u32>, from: usize, to: usize) -> (r: String)
    requires
        from <= to <= segments@.len(),
    ensures
        r@ == hex_list(
            segments@.subrange(from as int, to as int).map_values(|s: u32| s as int),
        ),
{
    let ghost part = segments@.subrange(from as int, to as int).map_values(|s: u32| s as int);
    let ghost list = part.map_values(|s: int| numeral(s as nat, 16));
    let mut parts: Vec<String> = Vec::new();
    let mut i: usize = from;
    while i < to
        invariant
            from <= i <= to <= segments@.len(),
            part == segments@.subrange(from as int, to as int).map_values(|s: u32| s as int),
            list == part.map_values(|s: int| numeral(s as nat, 16)),
            texts(parts@) =~= list.take(i - from),
        decreases to - i,
    {
        let ghost before = parts@;
        let mut s: String = String::new();
        push_numeral(&mut s, segments[i] as u64, 16);
        proof {
            assert(s@ =~= numeral(segments@[i as int] as nat, 16));
            assert(list[i - from] == s@);
        }
        let ghost v = s@;
        parts.push(s);
        assert(texts(parts@) =~= texts(before).push(v));
        i += 1;
    }
    assert(texts(parts@) =~= list);
    join(&parts, ":")
}

/// The text of an address of the older kind, which stands in the first four bytes.
pub fn ipv4_name(address: u128) -> (r: String)
    ensures
        r@ == ipv4_text(digits_of(address as int, 256, 16)),
{
    let octets: Vec<u32> = digits(address, 256, 16);
    ipv4_string(&octets, 0)
}

fn count_zeros(segments: &Vec<u32>, from: usize) -> (r: usize)
    requires
        from <= segments@.len(),
    ensures
        r == zero_run(segments@.map_values(|s: u32| s as int), from as int),
        from + r <= segments@.len(),
    decreases segments@.len() - from,
{
    if from < segments.len() && segments[from] == 0 {
        1 + count_zeros(segments, from + 1)
    } else {
        0
    }
}

/// The text of an address.
pub fn ipv6_name(address: u128) -> (r: String)
    ensures
        r@ == ipv6_text(address as int),
{
    let segments: Vec<u32> = digits(address, 0x1_0000, 8);
    let ghost segs = digits_of(address as int, 0x1_0000, 8);
    assert(segments@.map_values(|s: u32| s as int) =~= segs);
    if segments[0] == 0 && segments[1] == 0 && segments[2] == 0 && segments[3] == 0 && segments[4]
        == 0 && segments[5] == 0xffff {
        let octets: Vec<u32> = digits(address, 256, 16);
        let tail: String = ipv4_string(&octets, 12);
        return "::ffff:".to_owned().concat(tail.as_str());
    }
    let mut start: usize = 0;
    let mut len: usize = 0;
    let mut i: usize = 0;
    while i < 8
        invariant
            i <= 8,
            segments@.len() == 8,
            segs == segments@.map_values(|s: u32| s as int),
            (start as int, len as int) == longest_run(segs, i as int),
            start + len <= 8,
        decreases 8 - i,
    {
        let run: usize = count_zeros(&segments, i);
        if run > len {
            start = i;
            len = run;
        }
        i += 1;
    }
    if len > 1 {
        let head: String = hex_string(&segments, 0, start);
        let tail: String = hex_string(&segments, start + len, 8);
        proof {
            assert(segments@.subrange(0, start as int).map_values(|s: u32| s as int)
                =~= segs.take(start as int));
            assert(segments@.subrange(start + len, 8).map_values(|s: u32| s as int) =~= segs.skip(
                start + len,
            ));
        }
        head.concat("::").concat(tail.as_str())
    } else {
        assert(segments@.subrange(0, 8).map_values(|s: u32| s as int) =~= segs);
        hex_string(&segments, 0, 8)
    }
}

} // verus!
