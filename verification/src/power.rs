//! Powers of two.

use vstd::arithmetic::power2::{
    lemma2_to64, lemma2_to64_rest, lemma_pow2_strictly_increases, lemma_pow2_unfold, pow2,
};
use vstd::prelude::*;

verus! {

/// Whether a size is a power of two.
pub open spec fn is_power_of_two(n: int) -> bool {
    exists|k: nat| #[trigger] pow2(k) == n
}

pub fn power_of_two(n: usize) -> (r: bool)
    ensures
        r == is_power_of_two(n as int),
{
    let wide: u128 = n as u128;
    let mut p: u128 = 1;
    let ghost mut k: nat = 0;
    proof {
        lemma2_to64();
    }
    while p < wide
        invariant
            p == pow2(k),
            wide == n,
            wide <= 0xffff_ffff_ffff_ffff,
            1 <= p <= 0x2_0000_0000_0000_0000,
            forall|j: nat| j < k ==> #[trigger] pow2(j) < wide,
        decreases if p < wide {
            wide - p
        } else {
            0
        },
    {
        proof {
            assert forall|j: nat| j < k + 1 implies #[trigger] pow2(j) < wide by {
                if j < k {
                } else {
                    assert(j == k);
                }
            }
            lemma_pow2_unfold(k + 1);
        }
        p = p * 2;
        proof {
            k = k + 1;
        }
    }
    proof {
        if is_power_of_two(n as int) && p != wide {
            let j = choose|j: nat| #[trigger] pow2(j) == n as int;
            if j > k {
                lemma_pow2_strictly_increases(k, j);
            }
            assert(j >= k);
            assert(j == k);
        }
    }
    p == wide
}

/// The exponent of a power of two that 64 bits hold.
pub proof fn lemma_exponent(n: int) -> (k: nat)
    requires
        is_power_of_two(n),
        n <= u64::MAX,
    ensures
        k < 64,
        pow2(k) == n,
{
    let k = choose|k: nat| #[trigger] pow2(k) == n;
    lemma2_to64();
    lemma2_to64_rest();
    if k > 64 {
        lemma_pow2_strictly_increases(64, k);
    }
    k
}

} // verus!
