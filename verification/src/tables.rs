//! The constants table: the modulus `M`, the ordered residue list, and the
//! sieve information (small primes with the inverse of `M` modulo each).
//! The table is a pure function of nothing — it is rebuilt, identically,
//! on every call.

use vstd::prelude::*;
use crate::model::is_prime;
use crate::bignum::{big_from_u64, big_modinv, big_to_u64, nat_of};

verus! {

/// The modulus that candidates are forced into a residue class of:
/// `2^3 * 3 * 5 * 7 * 11 * 13`.  Its many small factors keep the
/// traversed offsets statistically uniform, and the factor 8 pins the
/// candidate modulo 8.
pub const M: u32 = 120120;

/// Whether `x` is one of the allowed residues modulo `M`: congruent to 7
/// modulo 8 and divisible by none of the odd factors of `M`.
pub open spec fn is_residue(x: nat) -> bool {
    x % 8 == 7 && x % 3 != 0 && x % 5 != 0 && x % 7 != 0 && x % 11 != 0 && x % 13 != 0
}

/// The ordered residues in `[x, M)` that step through `x, x+8, x+16, ...`.
pub open spec fn residues_from(x: nat) -> Seq<u32>
    decreases 120127 - x,
{
    if x >= 120120 {
        Seq::empty()
    } else if is_residue(x) {
        seq![x as u32] + residues_from(x + 8)
    } else {
        residues_from(x + 8)
    }
}

/// The full ordered residue list: every allowed residue below `M`, in
/// increasing order.
pub open spec fn residues_spec() -> Seq<u32> {
    residues_from(7)
}

/// Every listed residue is an allowed residue below `M`.
pub proof fn lemma_residues_from_props(x: nat)
    ensures
        forall|i: int|
            0 <= i < residues_from(x).len() ==> (is_residue((#[trigger] residues_from(x)[i]) as nat)
                && residues_from(x)[i] < 120120),
    decreases 120127 - x,
{
    if x >= 120120 {
    } else {
        lemma_residues_from_props(x + 8);
        if is_residue(x) {
            assert forall|i: int| 0 <= i < residues_from(x).len() implies (is_residue(
                (#[trigger] residues_from(x)[i]) as nat,
            ) && residues_from(x)[i] < 120120) by {
                if i == 0 {
                    assert(residues_from(x)[0] == x as u32);
                } else {
                    assert(residues_from(x)[i] == residues_from(x + 8)[i - 1]);
                }
            }
        } else {
            assert(residues_from(x) == residues_from(x + 8));
        }
    }
}

/// The residue list is not empty (23 is an allowed residue).
pub proof fn lemma_residues_nonempty()
    ensures
        residues_spec().len() > 0,
{
    reveal_with_fuel(residues_from, 4);
    assert(residues_spec().len() > 0);
}

/// Builds the ordered residue list.
pub fn residues_table() -> (r: Vec<u32>)
    ensures
        r@ == residues_spec(),
{
    let mut v: Vec<u32> = Vec::new();
    let mut x: u32 = 7;
    while x < 120120
        invariant
            7 <= x <= 120127,
            x % 8 == 7,
            v@ + residues_from(x as nat) == residues_spec(),
        decreases 120127 - x,
    {
        if x % 3 != 0 && x % 5 != 0 && x % 7 != 0 && x % 11 != 0 && x % 13 != 0 {
            let ghost old_v = v@;
            v.push(x);
            proof {
                assert(v@ + residues_from((x + 8) as nat) =~= old_v + residues_from(x as nat));
            }
        } else {
            proof {
                assert(residues_from(x as nat) == residues_from((x + 8) as nat));
            }
        }
        x = x + 8;
    }
    proof {
        assert(v@ =~= residues_spec());
    }
    v
}

/// Whether `M` has a multiplicative inverse modulo `p`.
pub open spec fn has_inverse(p: nat) -> bool {
    exists|q: nat| q < p && #[trigger] (((120120 as nat % p) * q) % p) == 1
}

/// The primes the sieve works with: the odd primes below `2^16` that do
/// not divide `M` (stated through the existence of an inverse of `M`).
pub open spec fn sieve_prime(p: nat) -> bool {
    is_prime(p) && 2 < p < 65536 && has_inverse(p)
}

/// A well-formed sieve entry: a sieve prime `p` paired with the inverse
/// of `M` modulo `p`.
pub open spec fn sieve_entry_ok(e: (u16, u16)) -> bool {
    sieve_prime(e.0 as nat) && (e.1 as nat) < (e.0 as nat) && ((120120 as nat % (e.0 as nat)) * (
    e.1 as nat)) % (e.0 as nat) == 1
}

/// Exact primality of a machine integer, decided by trial division.
pub fn is_small_prime(n: u32) -> (r: bool)
    ensures
        r == is_prime(n as nat),
{
    if n < 2 {
        return false;
    }
    let mut d: u32 = 2;
    while d < 65536
        invariant_except_break
            2 <= d <= 65536,
            n >= 2,
            forall|e: nat| 2 <= e < d ==> #[trigger] ((n as nat) % e) != 0,
        ensures
            2 <= d <= 65536,
            n >= 2,
            forall|e: nat| 2 <= e < d ==> #[trigger] ((n as nat) % e) != 0,
            d == 65536 || (d as u64) * (d as u64) > n as u64,
        decreases 65536 - d,
    {
        proof {
            assert((d as u64) * (d as u64) < 0x2_0000_0000u64) by (nonlinear_arith)
                requires
                    d < 65536,
            ;
        }
        let dd: u64 = (d as u64) * (d as u64);
        if dd > n as u64 {
            break;
        }
        if n % d == 0 {
            proof {
                assert(d < n) by (nonlinear_arith)
                    requires
                        2 <= d,
                        d as u64 * d as u64 <= n as u64,
                ;
                assert((n as nat) % (d as nat) == 0);
            }
            return false;
        }
        d = d + 1;
    }
    proof {
        assert((d as u64) * (d as u64) > n as u64) by (nonlinear_arith)
            requires
                d == 65536 || (d as u64) * (d as u64) > n as u64,
                n < 0x1_0000_0000u64,
        ;
        assert forall|e: nat| 2 <= e < n as nat implies #[trigger] ((n as nat) % e) != 0 by {
            if e >= d {
                if (n as nat) % e == 0 {
                    let nn = n as int;
                    let ee = e as int;
                    vstd::arithmetic::div_mod::lemma_fundamental_div_mod(nn, ee);
                    let f = nn / ee;
                    assert(nn == ee * f);
                    assert(f >= 1) by (nonlinear_arith)
                        requires
                            nn == ee * f,
                            nn >= 2,
                            ee >= 2,
                            ee < nn,
                    ;
                    assert(f != 1) by (nonlinear_arith)
                        requires
                            nn == ee * f,
                            ee < nn,
                    ;
                    assert(f < d) by (nonlinear_arith)
                        requires
                            nn == ee * f,
                            ee >= d,
                            d as u64 * d as u64 > n as u64,
                            nn == n as int,
                            f >= 2,
                            d >= 2,
                    ;
                    assert((n as nat) % (f as nat) == 0) by {
                        vstd::arithmetic::div_mod::lemma_mod_multiples_basic(f, ee);
                        assert((ee * f) % ee == 0);
                        vstd::arithmetic::div_mod::lemma_mod_multiples_basic(ee, f);
                        assert((f * ee) % f == 0);
                        assert(ee * f == f * ee) by (nonlinear_arith);
                    }
                    assert(false);
                }
            }
        }
    }
    true
}

/// Builds the sieve table: for every sieve prime `p` in increasing order,
/// the pair `(p, q)` with `q` the inverse of `M` modulo `p`.
pub fn sieve_table() -> (r: Vec<(u16, u16)>)
    ensures
        forall|i: int| 0 <= i < r@.len() ==> sieve_entry_ok(#[trigger] r@[i]),
        forall|p: nat| sieve_prime(p) ==> exists|i: int|
            0 <= i < r@.len() && (#[trigger] r@[i]).0 as nat == p,
{
    let mut v: Vec<(u16, u16)> = Vec::new();
    proof {
        assert forall|q: nat| q < 2 implies #[trigger] (((120120 as nat % 2) * q) % 2) != 1 by {
            assert(120120 as nat % 2 == 0);
        }
        assert(!has_inverse(2));
    }
    let mut p: u32 = 3;
    while p < 65536
        invariant
            3 <= p <= 65537,
            p % 2 == 1,
            forall|i: int| 0 <= i < v@.len() ==> sieve_entry_ok(#[trigger] v@[i]),
            forall|pp: nat| pp < p && sieve_prime(pp) ==> exists|i: int|
                0 <= i < v@.len() && (#[trigger] v@[i]).0 as nat == pp,
        decreases 65537 - p,
    {
        if is_small_prime(p) {
            let m_red: u32 = 120120 % p;
            let a = big_from_u64(m_red as u64);
            let pm = big_from_u64(p as u64);
            match big_modinv(&a, &pm) {
                Option::Some(x) => {
                    let q64 = big_to_u64(&x);
                    let q: u16 = q64 as u16;
                    let pp: u16 = p as u16;
                    proof {
                        assert(has_inverse(p as nat)) by {
                            assert(nat_of(x) < p as nat && ((120120 as nat % (p as nat)) * nat_of(
                                x,
                            )) % (p as nat) == 1);
                        }
                        assert(sieve_entry_ok((pp, q)));
                    }
                    let ghost old_v = v@;
                    v.push((pp, q));
                    proof {
                        assert(v@[v@.len() - 1].0 as nat == p as nat);
                        assert(forall|i: int| 0 <= i < old_v.len() ==> v@[i] == old_v[i]);
                    }
                },
                Option::None => {
                    proof {
                        assert(!has_inverse(p as nat));
                    }
                },
            }
        }
        proof {
            // The skipped even number between this prime candidate and the
            // next is composite, so nothing is missed.
            let ev = (p + 1) as nat;
            if ev < 65536 && is_prime(ev) {
                assert(ev % 2 == 0);
                assert(2 <= 2 < ev);
                assert(ev % 2 != 0);
            }
        }
        p = p + 2;
    }
    v
}

} // verus!
