//! The probable-primality test: Miller–Rabin with the two fixed bases
//! 2 and 3, the round count the search is specified with.  Fixed bases
//! keep the test — and so the whole derivation — deterministic.

use vstd::prelude::*;
use crate::model::two_adic;
use crate::bignum::{
    big_eq, big_eq_u64, big_from_u64, big_mod_u64, big_modpow, big_shr, big_sub_u64,
    big_trailing_zeros, nat_of,
};
use vstd::arithmetic::power::pow;
use vstd::arithmetic::power2::pow2;

verus! {

/// The squaring chain of a Miller–Rabin witness check: whether some
/// square in the next `s` squarings of `x` modulo `n` equals `n - 1`.
pub open spec fn mr_squares(x: nat, n: nat, s: nat) -> bool
    decreases s,
{
    if s == 0 {
        false
    } else {
        x == (n - 1) as nat || mr_squares((x * x) % n, n, (s - 1) as nat)
    }
}

/// Whether base `a` reports "probably prime" for an odd `n >= 5`:
/// with `n - 1 == d * 2^s` and `d` odd, either `a^d == 1 (mod n)` or
/// some entry of the squaring chain from `a^d` equals `n - 1`.
pub open spec fn mr_base_passes(n: nat, a: nat) -> bool {
    let s = two_adic((n - 1) as nat);
    let d = (n - 1) as nat / pow2(s);
    let x = (pow(a as int, d) % (n as int)) as nat;
    x == 1 || mr_squares(x, n, s)
}

/// The probable-primality test the search relies on.  A prime always
/// passes; a composite passes with negligible probability over the
/// pseudorandom candidates the expansion produces.
pub open spec fn spec_probable_prime(n: nat) -> bool {
    if n < 2 {
        false
    } else if n == 2 || n == 3 {
        true
    } else if n % 2 == 0 {
        false
    } else {
        mr_base_passes(n, 2) && mr_base_passes(n, 3)
    }
}

/// One Miller–Rabin round for base `a`.
fn mr_round(
    n: &num_bigint::BigUint,
    n1: &num_bigint::BigUint,
    d: &num_bigint::BigUint,
    s: u64,
    a: u64,
) -> (r: bool)
    requires
        nat_of(*n) >= 5,
        nat_of(*n1) == nat_of(*n) - 1,
        s as nat == two_adic(nat_of(*n1)),
        nat_of(*d) == nat_of(*n1) / pow2(s as nat),
    ensures
        r == mr_base_passes(nat_of(*n), a as nat),
{
    let ab = big_from_u64(a);
    let x0 = big_modpow(&ab, d, n);
    proof {
        assert(nat_of(x0) as int == pow(a as int, nat_of(*d)) % (nat_of(*n) as int));
    }
    if big_eq_u64(&x0, 1) {
        return true;
    }
    let mut x = x0;
    let mut i: u64 = 0;
    while i < s
        invariant_except_break
            i <= s,
            nat_of(*n) >= 5,
            nat_of(*n1) == nat_of(*n) - 1,
            mr_base_passes(nat_of(*n), a as nat) == mr_squares(
                nat_of(x),
                nat_of(*n),
                (s - i) as nat,
            ),
        ensures
            (i < s) == mr_base_passes(nat_of(*n), a as nat),
        decreases s - i,
    {
        if big_eq(&x, n1) {
            proof {
                assert(mr_squares(nat_of(x), nat_of(*n), (s - i) as nat));
            }
            break;
        }
        let two = big_from_u64(2);
        let xx = big_modpow(&x, &two, n);
        proof {
            let xi = nat_of(x) as int;
            assert(pow(xi, 2) == xi * xi) by {
                reveal_with_fuel(pow, 3);
            }
            assert(nat_of(xx) == (nat_of(x) * nat_of(x)) % nat_of(*n));
            assert(mr_squares(nat_of(x), nat_of(*n), (s - i) as nat) == mr_squares(
                nat_of(xx),
                nat_of(*n),
                (s - i - 1) as nat,
            ));
        }
        x = xx;
        i = i + 1;
    }
    i < s
}

/// Whether the value passes the probable-primality test: Miller–Rabin
/// with bases 2 and 3.
pub fn is_probable_prime(n: &num_bigint::BigUint) -> (r: bool)
    ensures
        r == spec_probable_prime(nat_of(*n)),
{
    if big_eq_u64(n, 0) || big_eq_u64(n, 1) {
        return false;
    }
    if big_eq_u64(n, 2) || big_eq_u64(n, 3) {
        return true;
    }
    if big_mod_u64(n, 2) == 0 {
        return false;
    }
    let n1 = big_sub_u64(n, 1);
    let s: u64 = match big_trailing_zeros(&n1) {
        Option::Some(k) => k,
        Option::None => {
            proof {
                assert(false);
            }
            0
        },
    };
    let d = big_shr(&n1, s);
    if !mr_round(n, &n1, &d, s, 2) {
        return false;
    }
    mr_round(n, &n1, &d, s, 3)
}

} // verus!
