//! The sieve engine: marks, within a 65536-wide window of offsets above a
//! base candidate, exactly those offsets whose candidate a sieve prime
//! divides.  Marked candidates are composite; unmarked candidates have no
//! divisor among the sieve primes.

use vstd::prelude::*;
use crate::tables::{sieve_entry_ok, sieve_prime};
use crate::bignum::{big_mod_u64, nat_of};
use vstd::arithmetic::div_mod::{
    lemma_add_mod_noop, lemma_mod_bound, lemma_mod_self_0, lemma_mod_sub_multiples_vanish,
    lemma_mul_mod_noop_general, lemma_mul_mod_noop_left, lemma_mul_mod_noop_right,
    lemma_small_mod,
};

verus! {

/// The candidate at window offset `j` above base `b`.
pub open spec fn cand_at(b: nat, j: int) -> nat {
    (b + 120120 * j) as nat
}

/// Whether some sieve prime divides `c` — such a candidate is composite.
pub open spec fn sieve_hit(c: nat) -> bool {
    exists|p: nat| sieve_prime(p) && #[trigger] (c % p) == 0
}

/// The offsets a sieve entry marks are exactly those whose candidate its
/// prime divides: with `q` inverting `mv` modulo `p`, offset `j` satisfies
/// `(b + mv * j) % p == 0` exactly when `j ≡ ((p - b % p) % p) * q (mod p)`.
pub proof fn lemma_sieve_offset(b: int, mv: int, p: int, q: int, j: int)
    requires
        0 <= b,
        0 <= j,
        0 < mv,
        2 < p,
        0 <= q < p,
        ((mv % p) * q) % p == 1,
    ensures
        (j % p == (((p - b % p) % p) * q) % p) <==> ((b + mv * j) % p == 0),
{
    let r = b % p;
    let mq = mv % p;
    let crem = (p - r) % p;
    let t = (mv * j) % p;
    let start = (crem * q) % p;
    lemma_mod_bound(b, p);
    lemma_mod_bound(mv, p);
    lemma_mod_bound(mv * j, p);
    lemma_mod_bound(crem * q, p);
    lemma_mod_bound(p - r, p);
    lemma_mod_bound(j, p);
    // The candidate's remainder splits into the base's and the step's.
    lemma_add_mod_noop(b, mv * j, p);
    assert((b + mv * j) % p == (r + t) % p);
    // The step's remainder is the ceiling remainder exactly when the
    // candidate is divisible.
    assert(((r + t) % p == 0) <==> (t == crem)) by {
        if r == 0 {
            lemma_mod_self_0(p);
            assert(crem == 0);
            lemma_small_mod(t as nat, p as nat);
        } else {
            lemma_small_mod((p - r) as nat, p as nat);
            assert(crem == p - r);
            if r + t < p {
                lemma_small_mod((r + t) as nat, p as nat);
            } else {
                lemma_mod_sub_multiples_vanish(r + t, p);
                assert((r + t - p) % p == (r + t) % p);
                lemma_small_mod((r + t - p) as nat, p as nat);
            }
        }
    }
    // j's residue equals the step's remainder multiplied by the inverse.
    assert(j % p == (t * q) % p) by {
        lemma_mul_mod_noop_right(j, mq * q, p);
        assert((j * ((mq * q) % p)) % p == (j * (mq * q)) % p);
        assert(j * 1 == j);
        assert(j % p == (j * (mq * q)) % p);
        assert(j * (mq * q) == (j * mq) * q) by (nonlinear_arith);
        lemma_mul_mod_noop_left(j * mq, q, p);
        assert((((j * mq) % p) * q) % p == ((j * mq) * q) % p);
        lemma_mul_mod_noop_right(j, mv, p);
        assert((j * mq) % p == (j * mv) % p);
        assert(j * mv == mv * j) by (nonlinear_arith);
    }
    // And conversely the step's remainder is determined by j's residue.
    assert((j % p == start) ==> (t == crem)) by {
        if j % p == start {
            lemma_mul_mod_noop_general(mv, j, p);
            assert(t == (mq * (j % p)) % p);
            lemma_mul_mod_noop_right(mq, crem * q, p);
            assert((mq * ((crem * q) % p)) % p == (mq * (crem * q)) % p);
            assert(mq * (crem * q) == crem * (mq * q)) by (nonlinear_arith);
            lemma_mul_mod_noop_right(crem, mq * q, p);
            assert((crem * ((mq * q) % p)) % p == (crem * (mq * q)) % p);
            assert(crem * 1 == crem);
            lemma_small_mod(crem as nat, p as nat);
            assert(t == crem);
        }
    }
    assert((t == crem) ==> (j % p == start));
}

/// Builds the composite-marking window above `base`: flag `j` is set
/// exactly when some sieve prime divides `base + M * j`.
pub fn build_sieve(base: &num_bigint::BigUint, table: &Vec<(u16, u16)>) -> (r: Vec<bool>)
    requires
        forall|i: int| 0 <= i < table@.len() ==> sieve_entry_ok(#[trigger] table@[i]),
        forall|p: nat| sieve_prime(p) ==> exists|i: int|
            0 <= i < table@.len() && (#[trigger] table@[i]).0 as nat == p,
    ensures
        r@.len() == 65536,
        forall|j: int|
            0 <= j < 65536 ==> ((#[trigger] r@[j]) == sieve_hit(cand_at(nat_of(*base), j))),
{
    let ghost bv = nat_of(*base);
    let mut sieve: Vec<bool> = Vec::new();
    let mut z: usize = 0;
    while z < 65536
        invariant
            sieve@.len() == z,
            z <= 65536,
            forall|j: int| 0 <= j < z ==> !(#[trigger] sieve@[j]),
        decreases 65536 - z,
    {
        sieve.push(false);
        z = z + 1;
    }
    let mut k: usize = 0;
    while k < table.len()
        invariant
            sieve@.len() == 65536,
            k <= table@.len(),
            nat_of(*base) == bv,
            forall|i: int| 0 <= i < table@.len() ==> sieve_entry_ok(#[trigger] table@[i]),
            forall|j: int| 0 <= j < 65536 && (#[trigger] sieve@[j]) ==> sieve_hit(cand_at(bv, j)),
            forall|e: int, j: int|
                0 <= e < k && 0 <= j < 65536 && #[trigger] (cand_at(bv, j) % (table@[e].0 as nat))
                    == 0 ==> sieve@[j],
        decreases table@.len() - k,
    {
        let entry = table[k];
        let p16 = entry.0;
        let q16 = entry.1;
        proof {
            assert(sieve_entry_ok(table@[k as int]));
            assert(table@[k as int].0 == p16);
            assert(table@[k as int].1 == q16);
        }
        let pu: u64 = p16 as u64;
        let rem: u64 = big_mod_u64(base, pu);
        let crem: u64 = if rem == 0 {
            0
        } else {
            pu - rem
        };
        proof {
            assert((crem as int) * (q16 as int) < 0x1_0000_0000) by (nonlinear_arith)
                requires
                    crem < 65536,
                    q16 < 65536,
            ;
        }
        let start64: u64 = (crem * (q16 as u64)) % pu;
        let start: usize = start64 as usize;
        let ghost startg = start as int;
        let ghost pg = pu as int;
        proof {
            assert forall|j: int| 0 <= j < start as int && j % (pu as int) == start as int
                implies sieve@[j] by {
                lemma_small_mod(j as nat, pu as nat);
                assert(false);
            }
        }
        proof {
            let pi = pu as int;
            assert(crem as int == (pi - (bv as int) % pi) % pi) by {
                lemma_mod_bound(bv as int, pi);
                if rem == 0 {
                    lemma_mod_self_0(pi);
                } else {
                    lemma_small_mod((pi - (bv as int) % pi) as nat, pi as nat);
                }
            }
            lemma_mod_bound(crem as int * q16 as int, pi);
            assert(start < pu);
            lemma_small_mod(startg as nat, pg as nat);
            assert(startg % pg == startg);
        }
        let mut idx: usize = start;
        while idx < 65536
            invariant
                sieve@.len() == 65536,
                nat_of(*base) == bv,
                2 < pu < 65536,
                idx as int % pg == startg,
                startg == ((pg - (bv as int) % pg) % pg * (q16 as int)) % pg,
                pg == p16 as int,
                pg == pu as int,
                sieve_prime(pu as nat),
                (q16 as nat) < (pu as nat),
                ((120120 as nat % (pu as nat)) * (q16 as nat)) % (pu as nat) == 1,
                idx <= 65536 + pu,
                forall|j: int|
                    0 <= j < 65536 && (#[trigger] sieve@[j]) ==> sieve_hit(cand_at(bv, j)),
                forall|e: int, j: int|
                    0 <= e < k && 0 <= j < 65536 && #[trigger] (cand_at(bv, j) % (
                    table@[e].0 as nat)) == 0 ==> sieve@[j],
                forall|i: int| 0 <= i < table@.len() ==> sieve_entry_ok(#[trigger] table@[i]),
                forall|j: int| 0 <= j < idx && j % pg == startg ==> sieve@[j],
            decreases 65536 + pu - idx,
        {
            proof {
                lemma_sieve_offset(bv as int, 120120, pg, q16 as int, idx as int);
                assert(cand_at(bv, idx as int) % (pu as nat) == 0);
                assert(sieve_prime(pu as nat));
                assert(sieve_hit(cand_at(bv, idx as int)));
            }
            sieve[idx] = true;
            proof {
                vstd::arithmetic::div_mod::lemma_mod_add_multiples_vanish(idx as int, pg);
                assert forall|j: int| 0 <= j < idx as int + pg && j % pg == startg
                    implies sieve@[j] by {
                    if j > idx as int {
                        vstd::arithmetic::div_mod::lemma_mod_equivalence(j, idx as int, pg);
                        lemma_small_mod((j - idx as int) as nat, pg as nat);
                        assert(false);
                    }
                }
            }
            idx = idx + pu as usize;
        }
        proof {
            assert forall|j: int|
                0 <= j < 65536 && #[trigger] (cand_at(bv, j) % (table@[k as int].0 as nat))
                    == 0 implies sieve@[j] by {
                lemma_sieve_offset(bv as int, 120120, pg, q16 as int, j);
                assert(j % pg == startg);
            }
        }
        k = k + 1;
    }
    proof {
        assert forall|j: int| 0 <= j < 65536 implies ((#[trigger] sieve@[j]) == sieve_hit(
            cand_at(bv, j),
        )) by {
            if sieve_hit(cand_at(bv, j)) {
                let p = choose|p: nat| sieve_prime(p) && #[trigger] (cand_at(bv, j) % p) == 0;
                let i = choose|i: int|
                    0 <= i < table@.len() && (#[trigger] table@[i]).0 as nat == p;
                assert(cand_at(bv, j) % (table@[i].0 as nat) == 0);
                assert(sieve@[j]);
            }
        }
    }
    sieve
}

} // verus!
