//! The mathematical model: natural-number readings of byte strings and
//! the elementary spec functions the contracts are stated over.

use vstd::prelude::*;

verus! {

/// The big-endian unsigned reading of a byte string.
pub open spec fn be_nat(s: Seq<u8>) -> nat
    decreases s.len(),
{
    if s.len() == 0 {
        0
    } else {
        be_nat(s.drop_last()) * 256 + (s.last() as nat)
    }
}

/// The value of `n` with bit `k` forced to one.
pub open spec fn set_bit_nat(n: nat, k: nat) -> nat {
    if (n / vstd::arithmetic::power2::pow2(k)) % 2 == 1 {
        n
    } else {
        n + vstd::arithmetic::power2::pow2(k)
    }
}

/// The 2-adic valuation: how often 2 divides `m` (0 for `m == 0`).
pub open spec fn two_adic(m: nat) -> nat
    decreases m,
{
    if m == 0 {
        0
    } else if m % 2 == 1 {
        0
    } else {
        1 + two_adic(m / 2)
    }
}

/// Forcing a bit on puts the value at or above that bit's weight.
pub proof fn lemma_set_bit_ge(n: nat, k: nat)
    ensures
        set_bit_nat(n, k) >= vstd::arithmetic::power2::pow2(k),
{
    let p = vstd::arithmetic::power2::pow2(k);
    vstd::arithmetic::power2::lemma_pow2_pos(k);
    if (n / p) % 2 == 1 {
        assert(n / p >= 1);
        vstd::arithmetic::div_mod::lemma_fundamental_div_mod(n as int, p as int);
        vstd::arithmetic::div_mod::lemma_mod_bound(n as int, p as int);
        assert(p as int * (n as int / p as int) >= p as int) by (nonlinear_arith)
            requires
                n as int / p as int >= 1,
                p as int > 0,
        ;
    }
}

/// Primality of a natural number, stated by trial division.
pub open spec fn is_prime(n: nat) -> bool {
    n >= 2 && forall|d: nat| 2 <= d < n ==> #[trigger] (n % d) != 0
}

} // verus!
