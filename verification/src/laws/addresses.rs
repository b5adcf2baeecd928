//! How addresses of peers are written.

use crate::bpf::address::{
    digits_of, hex_list, ipv4_text, ipv6_text, longest_run, network_value, zero_run,
};
use crate::bpf::nettrack::PeerKey;
use crate::laws::records::law_network_order;
use crate::text::decimal;
use vstd::arithmetic::div_mod::lemma_div_denominator;
use vstd::arithmetic::power::{lemma_pow0, lemma_pow1, lemma_pow_adds, lemma_pow_positive, pow};
use vstd::prelude::*;

verus! {

/// The digits of a number to a base are there to any length; each is what its place
/// counts.
pub proof fn law_digits(value: int, base: int, n: nat)
    requires
        base > 0,
        value >= 0,
    ensures
        digits_of(value, base, n).len() == n,
        forall|i: int|
            0 <= i < n ==> #[trigger] digits_of(value, base, n)[i] == (value / pow(
                base,
                (n - 1 - i) as nat,
            )) % base,
    decreases n,
{
    lemma_pow0(base);
    if n > 0 {
        let below = (n - 1) as nat;
        assert(value / base >= 0) by (nonlinear_arith)
            requires
                value >= 0,
                base > 0,
        ;
        law_digits(value / base, base, below);
        let digits = digits_of(value, base, n);
        assert forall|i: int| 0 <= i < n implies #[trigger] digits[i] == (value / pow(
            base,
            (n - 1 - i) as nat,
        )) % base by {
            if i < below {
                let place = (below - 1 - i) as nat;
                assert(digits[i] == digits_of(value / base, base, below)[i]);
                lemma_pow_adds(base, 1, place);
                lemma_pow1(base);
                lemma_pow_positive(base, place);
                lemma_div_denominator(value, base, pow(base, place));
            } else {
                assert(value / 1 == value);
            }
        }
    }
}

/// Bytes that stand for a number are its digits.
proof fn lemma_octets(address: Seq<u8>)
    ensures
        digits_of(network_value(address), 256, address.len()).len() == address.len(),
        forall|i: int|
            0 <= i < address.len() ==> #[trigger] digits_of(
                network_value(address),
                256,
                address.len(),
            )[i] == address[i],
{
    law_network_order(address);
    law_digits(network_value(address), 256, address.len());
}

/// A peer with an address of the older kind is called after its protocol, the first four
/// bytes of its address and its port.
pub proof fn law_peer_of_the_older_kind(key: PeerKey, address: Seq<u8>)
    requires
        address.len() == 16,
        key.remote_addr == network_value(address),
        key.family == 2,
    ensures
        ({
            let place = decimal(address[0] as nat) + "."@ + decimal(address[1] as nat) + "."@
                + decimal(address[2] as nat) + "."@ + decimal(address[3] as nat) + ":"@ + decimal(
                key.remote_port as nat,
            );
            &&& key.protocol == 0 ==> key.name() == "tcp"@ + " "@ + place
            &&& key.protocol == 1 ==> key.name() == "udp"@ + " "@ + place
            &&& key.protocol > 1 ==> key.name() == "network"@ + " "@ + place
        }),
{
    lemma_octets(address);
    let octets = digits_of(key.remote_addr as int, 256, 16);
    assert(octets[0] == address[0]);
    assert(octets[1] == address[1]);
    assert(octets[2] == address[2]);
    assert(octets[3] == address[3]);
    let host = decimal(address[0] as nat) + "."@ + decimal(address[1] as nat) + "."@ + decimal(
        address[2] as nat,
    ) + "."@ + decimal(address[3] as nat);
    assert(ipv4_text(octets) == host);
    let place = host + ":"@ + decimal(key.remote_port as nat);
    assert("tcp"@ + " "@ + host + ":"@ + decimal(key.remote_port as nat) =~= "tcp"@ + " "@
        + place);
    assert("udp"@ + " "@ + host + ":"@ + decimal(key.remote_port as nat) =~= "udp"@ + " "@
        + place);
    assert("network"@ + " "@ + host + ":"@ + decimal(key.remote_port as nat) =~= "network"@ + " "@
        + place);
}

/// A run of zeros ends where something else stands or nothing does.
proof fn lemma_zero_run(segments: Seq<int>, i: int)
    requires
        0 <= i <= segments.len(),
    ensures
        0 <= zero_run(segments, i) <= segments.len() - i,
        forall|k: int| i <= k < i + zero_run(segments, i) ==> #[trigger] segments[k] == 0,
        i + zero_run(segments, i) < segments.len() ==> segments[i + zero_run(segments, i)] != 0,
    decreases segments.len() - i,
{
    if i < segments.len() && segments[i] == 0 {
        lemma_zero_run(segments, i + 1);
    }
}

/// Whether zeros stand at `len` places from `start` on.
pub open spec fn zeros_at(segments: Seq<int>, start: int, len: int) -> bool {
    &&& 0 <= start && 0 <= len && start + len <= segments.len()
    &&& forall|k: int| start <= k < start + len ==> #[trigger] segments[k] == 0
}

/// The longest run of zeros is one, none is longer, and none as long begins before it.
pub proof fn law_longest_run(segments: Seq<int>, start: int, len: int)
    requires
        zeros_at(segments, start, len),
    ensures
        zeros_at(
            segments,
            longest_run(segments, segments.len() as int).0,
            longest_run(segments, segments.len() as int).1,
        ),
        len <= longest_run(segments, segments.len() as int).1,
        len > 0 && len == longest_run(segments, segments.len() as int).1 ==> start
            >= longest_run(segments, segments.len() as int).0,
{
    lemma_longest_run(segments, segments.len() as int);
    if len > 0 {
        lemma_zero_run(segments, start);
        let n = zero_run(segments, start);
        if n < len {
            assert(segments[start + n] == 0);
        }
    }
}

proof fn lemma_longest_run(segments: Seq<int>, n: int)
    requires
        0 <= n <= segments.len(),
    ensures
        ({
            let (start, len) = longest_run(segments, n);
            &&& zeros_at(segments, start, len)
            &&& len > 0 ==> start < n
            &&& forall|i: int| 0 <= i < n ==> #[trigger] zero_run(segments, i) <= len
            &&& forall|i: int|
                0 <= i < n && len > 0 && #[trigger] zero_run(segments, i) == len ==> i >= start
        }),
    decreases n,
{
    if n > 0 {
        lemma_longest_run(segments, n - 1);
        lemma_zero_run(segments, n - 1);
    }
}

/// An address of the newer kind is its segments in hexadecimal with colons between them;
/// the first of the longest runs of zeros, if it has two or more, is left out.
pub proof fn law_addresses_of_the_newer_kind(address: Seq<u8>)
    requires
        address.len() == 16,
        !(address[0] == 0 && address[1] == 0 && address[2] == 0 && address[3] == 0 && address[4]
            == 0 && address[5] == 0 && address[6] == 0 && address[7] == 0 && address[8] == 0
            && address[9] == 0 && address[10] == 0xff && address[11] == 0xff),
    ensures
        ({
            let segments = Seq::new(
                8,
                |i: int| address[2 * i] as int * 256 + address[2 * i + 1] as int,
            );
            let (start, len) = longest_run(segments, 8);
            &&& len < 2 ==> ipv6_text(network_value(address)) == hex_list(segments)
            &&& len >= 2 ==> ipv6_text(network_value(address)) == hex_list(segments.take(start))
                + "::"@ + hex_list(segments.skip(start + len))
        }),
{
    lemma_segments(address);
    let segments = Seq::new(8, |i: int| address[2 * i] as int * 256 + address[2 * i + 1] as int);
    assert(digits_of(network_value(address), 0x1_0000, 8) =~= segments);
}

/// An address of the newer kind that stands for one of the older is written as one.
pub proof fn law_mapped_addresses(address: Seq<u8>)
    requires
        address.len() == 16,
        address[0] == 0 && address[1] == 0 && address[2] == 0 && address[3] == 0 && address[4] == 0
            && address[5] == 0 && address[6] == 0 && address[7] == 0 && address[8] == 0
            && address[9] == 0 && address[10] == 0xff && address[11] == 0xff,
    ensures
        ipv6_text(network_value(address)) == "::ffff:"@ + (decimal(address[12] as nat) + "."@
            + decimal(address[13] as nat) + "."@ + decimal(address[14] as nat) + "."@ + decimal(
            address[15] as nat,
        )),
{
    lemma_segments(address);
    lemma_octets(address);
    let octets = digits_of(network_value(address), 256, 16);
    assert(octets[12] == address[12]);
    assert(octets[13] == address[13]);
    assert(octets[14] == address[14]);
    assert(octets[15] == address[15]);
}

/// Two bytes make a segment.
proof fn lemma_segments(address: Seq<u8>)
    requires
        address.len() == 16,
    ensures
        ({
            let segments = digits_of(network_value(address), 0x1_0000, 8);
            &&& segments.len() == 8
            &&& segments[0] == address[0] * 256 + address[1]
            &&& segments[1] == address[2] * 256 + address[3]
            &&& segments[2] == address[4] * 256 + address[5]
            &&& segments[3] == address[6] * 256 + address[7]
            &&& segments[4] == address[8] * 256 + address[9]
            &&& segments[5] == address[10] * 256 + address[11]
            &&& segments[6] == address[12] * 256 + address[13]
            &&& segments[7] == address[14] * 256 + address[15]
        }),
{
    lemma_pairs(address, 8);
}

proof fn lemma_pairs(bytes: Seq<u8>, n: nat)
    requires
        bytes.len() == 2 * n,
    ensures
        digits_of(network_value(bytes), 0x1_0000, n).len() == n,
        forall|i: int|
            0 <= i < n ==> #[trigger] digits_of(network_value(bytes), 0x1_0000, n)[i] == bytes[2
                * i] * 256 + bytes[2 * i + 1],
    decreases n,
{
    if n > 0 {
        let below = (n - 1) as nat;
        let one = bytes.drop_last();
        let two = one.drop_last();
        lemma_pairs(two, below);
        law_network_order(two);
        let high = network_value(two);
        let value = network_value(bytes);
        assert(network_value(one) == high * 256 + one.last());
        assert(value == (high * 256 + one.last()) * 256 + bytes.last());
        assert(value / 0x1_0000 == high && value % 0x1_0000 == one.last() * 256 + bytes.last());
        let digits = digits_of(value, 0x1_0000, n);
        assert(digits == digits_of(high, 0x1_0000, below).push(value % 0x1_0000));
        assert forall|i: int| 0 <= i < n implies #[trigger] digits[i] == bytes[2 * i] * 256
            + bytes[2 * i + 1] by {
            if i < below {
                assert(digits[i] == digits_of(high, 0x1_0000, below)[i]);
                assert(two[2 * i] == bytes[2 * i]);
                assert(two[2 * i + 1] == bytes[2 * i + 1]);
            } else {
                assert(one.last() == bytes[2 * i]);
            }
        }
    }
}

} // verus!
