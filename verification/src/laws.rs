//! The laws of the derivation, proved once and for all inputs: the
//! result is unique (determinism), negative, congruent to 7 modulo 8,
//! probably prime, and no smaller than the forced top bit allows.

use vstd::prelude::*;
use crate::digest::DigestKind;
use crate::discriminant::{
    unadjusted_candidate,
    accepted, chosen_residue, first_accepted_at, is_discriminant, nth_candidate, start_candidate,
    top_bit_index,
};
use crate::model::set_bit_nat;
use crate::tables::{is_residue, lemma_residues_from_props, lemma_residues_nonempty, residues_spec};
use crate::primality::spec_probable_prime;
use vstd::arithmetic::div_mod::{
    lemma_fundamental_div_mod, lemma_mod_bound, lemma_mod_multiples_vanish, lemma_small_mod,
};
use vstd::arithmetic::power2::pow2;

verus! {

/// Determinism: for a fixed digest choice, two discriminants derived
/// from the same seed and length are identical.
pub proof fn lemma_discriminant_deterministic(
    kind: DigestKind,
    seed: Seq<u8>,
    length: u16,
    d1: int,
    d2: int,
)
    requires
        is_discriminant(kind, seed, length, d1),
        is_discriminant(kind, seed, length, d2),
    ensures
        d1 == d2,
{
    let j1 = choose|j: nat|
        #![trigger nth_candidate(kind, seed, length, j)]
        d1 == -(nth_candidate(kind, seed, length, j) as int) && first_accepted_at(
            kind,
            seed,
            length,
            j,
        );
    let j2 = choose|j: nat|
        #![trigger nth_candidate(kind, seed, length, j)]
        d2 == -(nth_candidate(kind, seed, length, j) as int) && first_accepted_at(
            kind,
            seed,
            length,
            j,
        );
    if j1 < j2 {
        assert(!accepted(nth_candidate(kind, seed, length, j1)));
        assert(false);
    }
    if j2 < j1 {
        assert(!accepted(nth_candidate(kind, seed, length, j2)));
        assert(false);
    }
}

/// The chosen residue is an allowed residue below `M`.
pub proof fn lemma_chosen_residue_props(kind: DigestKind, seed: Seq<u8>, length: u16)
    ensures
        is_residue(chosen_residue(kind, seed, length)),
        chosen_residue(kind, seed, length) < 120120,
{
    lemma_residues_nonempty();
    lemma_residues_from_props(7);
    let bytes = crate::expand::expand_spec(kind, seed, crate::discriminant::expanded_len(length));
    let rb = crate::discriminant::expanded_len(length) as int;
    let numerator = (bytes[rb - 2] as nat) * 256 + (bytes[rb - 1] as nat);
    lemma_mod_bound(numerator as int, residues_spec().len() as int);
}

/// Every candidate the search visits is congruent to the chosen residue
/// modulo `M`, hence congruent to 7 modulo 8.
pub proof fn lemma_candidate_congruent(kind: DigestKind, seed: Seq<u8>, length: u16, j: nat)
    ensures
        nth_candidate(kind, seed, length, j) % 120120 == chosen_residue(kind, seed, length),
        nth_candidate(kind, seed, length, j) % 8 == 7,
{
    lemma_chosen_residue_props(kind, seed, length);
    let res = chosen_residue(kind, seed, length) as int;
    let n1 = unadjusted_candidate(kind, seed, length) as int;
    vstd::arithmetic::div_mod::lemma_mod_decreases(n1 as nat, 120120);
    lemma_fundamental_div_mod(n1, 120120);
    lemma_mod_bound(n1, 120120);
    let k = n1 / 120120;
    assert(start_candidate(kind, seed, length) as int == n1 - (n1 % 120120) + res);
    assert(start_candidate(kind, seed, length) as int == 120120 * k + res);
    let c = nth_candidate(kind, seed, length, j) as int;
    assert(c == 120120 * (k + j) + res) by (nonlinear_arith)
        requires
            c == 120120 * k + res + 120120 * j,
    ;
    lemma_mod_multiples_vanish(k + j, res, 120120);
    lemma_small_mod(res as nat, 120120);
    assert(c % 120120 == res);
    assert(c == 8 * (15015 * (k + j)) + res) by (nonlinear_arith)
        requires
            c == 120120 * (k + j) + res,
    ;
    lemma_mod_multiples_vanish(15015 * (k + j), res, 8);
    assert(c % 8 == res % 8);
    assert(res % 8 == 7);
}

/// Sign invariant: a derived discriminant is strictly negative.
pub proof fn lemma_discriminant_negative(kind: DigestKind, seed: Seq<u8>, length: u16, d: int)
    requires
        is_discriminant(kind, seed, length, d),
    ensures
        d < 0,
{
    let j = choose|j: nat|
        #![trigger nth_candidate(kind, seed, length, j)]
        d == -(nth_candidate(kind, seed, length, j) as int) && first_accepted_at(
            kind,
            seed,
            length,
            j,
        );
    assert(spec_probable_prime(nth_candidate(kind, seed, length, j)));
    assert(nth_candidate(kind, seed, length, j) >= 2);
}

/// Congruence invariant: the magnitude of a derived discriminant is
/// congruent to 7 modulo 8 (and to the chosen residue modulo `M`).
pub proof fn lemma_discriminant_congruence(kind: DigestKind, seed: Seq<u8>, length: u16, d: int)
    requires
        is_discriminant(kind, seed, length, d),
    ensures
        (-d) % 8 == 7,
        (-d) % 120120 == chosen_residue(kind, seed, length),
{
    let j = choose|j: nat|
        #![trigger nth_candidate(kind, seed, length, j)]
        d == -(nth_candidate(kind, seed, length, j) as int) && first_accepted_at(
            kind,
            seed,
            length,
            j,
        );
    lemma_candidate_congruent(kind, seed, length, j);
}

/// Primality: the magnitude of a derived discriminant passes the
/// probable-primality test.
pub proof fn lemma_discriminant_probable_prime(
    kind: DigestKind,
    seed: Seq<u8>,
    length: u16,
    d: int,
)
    requires
        is_discriminant(kind, seed, length, d),
    ensures
        spec_probable_prime((-d) as nat),
{
    let j = choose|j: nat|
        #![trigger nth_candidate(kind, seed, length, j)]
        d == -(nth_candidate(kind, seed, length, j) as int) && first_accepted_at(
            kind,
            seed,
            length,
            j,
        );
    assert((-d) as nat == nth_candidate(kind, seed, length, j));
}

/// Bit-length invariant, the provable side: the forced top bit keeps the
/// magnitude above `2^(length-1) - M`.  (That the magnitude does not
/// outgrow `length` bits holds only with overwhelming probability — the
/// residue adjustment and the search both move the candidate upward — so
/// that side is checked by the known-answer tests, not proved.)
pub proof fn lemma_discriminant_lower_bound(kind: DigestKind, seed: Seq<u8>, length: u16, d: int)
    requires
        is_discriminant(kind, seed, length, d),
        length >= 1,
    ensures
        -d > pow2((length - 1) as nat) - 120120,
{
    let j = choose|j: nat|
        #![trigger nth_candidate(kind, seed, length, j)]
        d == -(nth_candidate(kind, seed, length, j) as int) && first_accepted_at(
            kind,
            seed,
            length,
            j,
        );
    lemma_chosen_residue_props(kind, seed, length);
    let bytes = crate::expand::expand_spec(kind, seed, crate::discriminant::expanded_len(length));
    let rb = crate::discriminant::expanded_len(length) as int;
    let shift = ((8 - (length as nat % 8)) % 8) as nat;
    let n0 = crate::model::be_nat(bytes.take(rb - 2)) / pow2(shift);
    let k = top_bit_index(length);
    let n1 = crate::discriminant::unadjusted_candidate(kind, seed, length);
    assert(n1 == set_bit_nat(n0, k));
    vstd::arithmetic::div_mod::lemma_mod_decreases(n1, 120120);
    crate::model::lemma_set_bit_ge(n0, k);
    assert(n1 >= pow2(k));
    lemma_mod_bound(n1 as int, 120120);
    assert(start_candidate(kind, seed, length) > n1 - 120120);
    assert(nth_candidate(kind, seed, length, j) >= start_candidate(kind, seed, length));
    assert(k == (length - 1) as nat);
}

} // verus!
