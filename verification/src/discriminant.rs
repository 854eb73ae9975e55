//! The public entry point: derives a discriminant — a negative probable
//! prime of the requested bit length, congruent to 7 modulo 8 — from a
//! seed, deterministically.

use vstd::prelude::*;
use crate::bignum::{
    big_add_u64, big_from_bytes_be, big_mod_u64, big_neg, big_set_bit, big_shr, big_sub_u64,
    int_of, nat_of,
};
use crate::digest::DigestKind;
use crate::expand::{expand_spec, random_bytes_from_seed};
use crate::model::{be_nat, set_bit_nat};
use crate::primality::{is_probable_prime, spec_probable_prime};
use crate::sieve::{build_sieve, cand_at, sieve_hit};
use crate::tables::{
    lemma_residues_from_props, lemma_residues_nonempty, residues_spec, residues_table,
    sieve_entry_ok, sieve_prime, sieve_table,
};
use vstd::arithmetic::power2::pow2;

verus! {

/// How many expanded bytes one derivation consumes: enough to cover
/// `length` bits, plus two bytes that pick the residue.
pub open spec fn expanded_len(length: u16) -> nat {
    (length as nat + 7) / 8 + 2
}

/// The index of the bit that is forced on.  A requested length of zero
/// wraps to the highest index, as 16-bit arithmetic does.
pub open spec fn top_bit_index(length: u16) -> nat {
    if length == 0 {
        65535
    } else {
        (length - 1) as nat
    }
}

/// The residue the last two expanded bytes pick from the residue list.
pub open spec fn chosen_residue(kind: DigestKind, seed: Seq<u8>, length: u16) -> nat {
    let bytes = expand_spec(kind, seed, expanded_len(length));
    let rb = expanded_len(length) as int;
    let numerator = (bytes[rb - 2] as nat) * 256 + (bytes[rb - 1] as nat);
    residues_spec()[(numerator % residues_spec().len()) as int] as nat
}

/// The candidate before the residue adjustment: the leading expanded
/// bytes read big-endian, shifted down into `length` bits, with the top
/// bit forced.
pub open spec fn unadjusted_candidate(kind: DigestKind, seed: Seq<u8>, length: u16) -> nat {
    let bytes = expand_spec(kind, seed, expanded_len(length));
    let rb = expanded_len(length) as int;
    let shift = ((8 - (length as nat % 8)) % 8) as nat;
    let n0 = be_nat(bytes.take(rb - 2)) / pow2(shift);
    set_bit_nat(n0, top_bit_index(length))
}

/// The starting candidate: the unadjusted candidate moved into the
/// chosen residue class modulo `M`.
pub open spec fn start_candidate(kind: DigestKind, seed: Seq<u8>, length: u16) -> nat {
    let n1 = unadjusted_candidate(kind, seed, length);
    (n1 - (n1 % 120120) + chosen_residue(kind, seed, length)) as nat
}

/// The candidate the search visits at step `j`.
pub open spec fn nth_candidate(kind: DigestKind, seed: Seq<u8>, length: u16, j: nat) -> nat {
    (start_candidate(kind, seed, length) + 120120 * j) as nat
}

/// Whether a candidate survives: no sieve prime divides it and it passes
/// the probable-primality test.
pub open spec fn accepted(c: nat) -> bool {
    !sieve_hit(c) && spec_probable_prime(c)
}

/// Whether step `j` is the first the search accepts.
pub open spec fn first_accepted_at(kind: DigestKind, seed: Seq<u8>, length: u16, j: nat) -> bool {
    accepted(nth_candidate(kind, seed, length, j)) && forall|i: nat|
        i < j ==> !accepted(#[trigger] nth_candidate(kind, seed, length, i))
}

/// What the derivation returns: the negation of the first accepted
/// candidate.  This pins the result completely — it is a function of the
/// seed, the length and the digest choice alone.
pub open spec fn is_discriminant(kind: DigestKind, seed: Seq<u8>, length: u16, d: int) -> bool {
    exists|j: nat|
        #![trigger nth_candidate(kind, seed, length, j)]
        d == -(nth_candidate(kind, seed, length, j) as int) && first_accepted_at(
            kind,
            seed,
            length,
            j,
        )
}

/// How many steps the search will try before giving up: 2^32 windows of
/// 2^16 offsets.  By prime density the first few windows already contain
/// a prime except with negligible probability, so the bound is never
/// reached in practice; it makes termination a theorem rather than a
/// hope.
pub open spec fn search_cap() -> nat {
    0x1_0000_0000_0000
}

/// Creates a discriminant from a seed and a bit length: the negation of
/// the first candidate of the derived arithmetic progression that
/// survives the sieve and the probable-primality test.  The result is
/// `None` only if no candidate within the (astronomical) search cap
/// survives.
pub fn create_discriminant(seed: &[u8], length: u16, kind: DigestKind) -> (d: Option<
    num_bigint::BigInt,
>)
    ensures
        d matches Some(v) ==> is_discriminant(kind, seed@, length, int_of(v)),
        d is Some <==> exists|j: nat|
            j < search_cap() && accepted(#[trigger] nth_candidate(kind, seed@, length, j)),
{
    let residues = residues_table();
    let table = sieve_table();
    proof {
        lemma_residues_nonempty();
        lemma_residues_from_props(7);
    }
    let rb_len: usize = ((length as usize) + 7) / 8 + 2;
    let bytes = random_bytes_from_seed(seed, rb_len, kind);
    let head = vstd::slice::slice_subrange(bytes.as_slice(), 0, rb_len - 2);
    let b0 = bytes[rb_len - 2];
    let b1 = bytes[rb_len - 1];
    let numerator: usize = (b0 as usize) * 256 + (b1 as usize);
    let shift: u16 = (8 - (length % 8)) % 8;
    let n_raw = big_from_bytes_be(head);
    let n0 = big_shr(&n_raw, shift as u64);
    let bit: u64 = if length == 0 {
        65535
    } else {
        (length - 1) as u64
    };
    let n1 = big_set_bit(&n0, bit);
    let rem: u64 = big_mod_u64(&n1, 120120);
    let residue: u32 = residues[numerator % residues.len()];
    proof {
        assert(head@ == expand_spec(kind, seed@, expanded_len(length)).take(
            expanded_len(length) as int - 2,
        ));
        assert(nat_of(n1) == unadjusted_candidate(kind, seed@, length));
        assert(residue as nat == chosen_residue(kind, seed@, length));
        vstd::arithmetic::div_mod::lemma_mod_decreases(nat_of(n1), 120120);
        assert(rem as nat <= nat_of(n1));
    }
    let n2 = if (residue as u64) > rem {
        big_add_u64(&n1, residue as u64 - rem)
    } else {
        big_sub_u64(&n1, rem - residue as u64)
    };
    let ghost start = start_candidate(kind, seed@, length);
    proof {
        assert(nat_of(n2) == start);
    }
    let mut n = n2;
    let mut w: u64 = 0;
    let ghost mut jb: nat = 0nat;
    while w < 0x1_0000_0000u64
        invariant
            nat_of(n) == start + 120120 * jb,
            jb == (w as nat) * 65536,
            w <= 0x1_0000_0000u64,
            start == start_candidate(kind, seed@, length),
            forall|i: nat| i < jb ==> !accepted(#[trigger] nth_candidate(kind, seed@, length, i)),
            forall|i: int| 0 <= i < table@.len() ==> sieve_entry_ok(#[trigger] table@[i]),
            forall|p: nat| sieve_prime(p) ==> exists|i: int|
                0 <= i < table@.len() && (#[trigger] table@[i]).0 as nat == p,
        decreases 0x1_0000_0000u64 - w,
    {
        let sieve = build_sieve(&n, &table);
        let ghost base = nat_of(n);
        proof {
            assert(jb + 65536 <= search_cap()) by (nonlinear_arith)
                requires
                    jb == (w as nat) * 65536,
                    w < 0x1_0000_0000u64,
            ;
        }
        let mut i: usize = 0;
        while i < 65536
            invariant
                i <= 65536,
                sieve@.len() == 65536,
                jb + 65536 <= search_cap(),
                nat_of(n) == base,
                base == start + 120120 * jb,
                start == start_candidate(kind, seed@, length),
                forall|j: int| 0 <= j < 65536 ==> ((#[trigger] sieve@[j]) == sieve_hit(
                    cand_at(base, j),
                )),
                forall|ii: nat|
                    ii < jb + i ==> !accepted(#[trigger] nth_candidate(kind, seed@, length, ii)),
            decreases 65536 - i,
        {
            let ghost jg = (jb + i) as nat;
            proof {
                assert(cand_at(base, i as int) == nth_candidate(kind, seed@, length, jg));
            }
            if !sieve[i] {
                let q: u64 = 120120u64 * (i as u64);
                let c = big_add_u64(&n, q);
                proof {
                    assert(nat_of(c) == nth_candidate(kind, seed@, length, jg));
                }
                if is_probable_prime(&c) {
                    let out = big_neg(&c);
                    proof {
                        assert(!sieve_hit(nth_candidate(kind, seed@, length, jg)));
                        assert(accepted(nth_candidate(kind, seed@, length, jg)));
                        assert(first_accepted_at(kind, seed@, length, jg));
                        assert(int_of(out) == -(nth_candidate(kind, seed@, length, jg) as int));
                        assert(is_discriminant(kind, seed@, length, int_of(out)));
                        assert(jg < search_cap());
                    }
                    return Option::Some(out);
                }
                proof {
                    assert(!accepted(nth_candidate(kind, seed@, length, jg)));
                }
            } else {
                proof {
                    assert(sieve_hit(nth_candidate(kind, seed@, length, jg)));
                    assert(!accepted(nth_candidate(kind, seed@, length, jg)));
                }
            }
            i = i + 1;
            proof {
                assert forall|ii: nat| ii < jb + i implies !accepted(
                    #[trigger] nth_candidate(kind, seed@, length, ii),
                ) by {
                    if ii == jg {
                        assert(!accepted(nth_candidate(kind, seed@, length, ii)));
                    }
                }
            }
        }
        n = big_add_u64(&n, 120120u64 * 65536u64);
        w = w + 1;
        proof {
            jb = jb + 65536;
            assert(jb == (w as nat) * 65536) by (nonlinear_arith)
                requires
                    jb == ((w - 1) as nat) * 65536 + 65536,
                    w >= 1,
            ;
            assert(120120 * ((jb - 65536) as nat) + 120120 * 65536 == 120120 * jb);
        }
    }
    proof {
        assert(jb == search_cap());
    }
    Option::None
}

} // verus!
