//! The arbitrary-precision integer capability, consumed from `num_bigint`
//! through trusted wrappers.  Each wrapper's contract states the value of
//! the result over the mathematical views `nat_of` and `int_of`.

use vstd::prelude::*;
use crate::model::be_nat;
use num_traits::ToPrimitive;

verus! {

#[verifier::external_type_specification]
#[verifier::external_body]
pub struct ExBigUint(num_bigint::BigUint);

#[verifier::external_type_specification]
#[verifier::external_body]
pub struct ExBigInt(num_bigint::BigInt);

/// The natural number a `BigUint` stands for.
pub uninterp spec fn nat_of(n: num_bigint::BigUint) -> nat;

/// The integer a `BigInt` stands for.
pub uninterp spec fn int_of(n: num_bigint::BigInt) -> int;

/// Relies on `num_bigint::BigUint::from_bytes_be`: the big-endian
/// unsigned reading of the bytes.
#[verifier::external_body]
pub fn big_from_bytes_be(bytes: &[u8]) -> (r: num_bigint::BigUint)
    ensures
        nat_of(r) == be_nat(bytes@),
{
    num_bigint::BigUint::from_bytes_be(bytes)
}

/// Relies on `num_bigint::BigUint: From<u64>`.
#[verifier::external_body]
pub fn big_from_u64(v: u64) -> (r: num_bigint::BigUint)
    ensures
        nat_of(r) == v as nat,
{
    num_bigint::BigUint::from(v)
}

/// Relies on `num_bigint`'s right shift: division by a power of two.
#[verifier::external_body]
pub fn big_shr(a: &num_bigint::BigUint, k: u64) -> (r: num_bigint::BigUint)
    ensures
        nat_of(r) == nat_of(*a) / vstd::arithmetic::power2::pow2(k as nat),
{
    a >> k
}

/// Relies on `num_bigint::BigUint::set_bit`: sets the bit in the given
/// position.
#[verifier::external_body]
pub fn big_set_bit(a: &num_bigint::BigUint, bit: u64) -> (r: num_bigint::BigUint)
    ensures
        nat_of(r) == crate::model::set_bit_nat(nat_of(*a), bit as nat),
{
    let mut r = a.clone();
    r.set_bit(bit, true);
    r
}

/// Relies on `num_bigint`'s remainder (Euclidean on unsigned values) and
/// on `ToPrimitive::to_u64`, which succeeds because the remainder is
/// below `m`.
#[verifier::external_body]
pub fn big_mod_u64(a: &num_bigint::BigUint, m: u64) -> (r: u64)
    requires
        m > 0,
    ensures
        r as nat == nat_of(*a) % (m as nat),
{
    (a % num_bigint::BigUint::from(m)).to_u64().unwrap()
}

/// Relies on `num_bigint`'s addition with a primitive.
#[verifier::external_body]
pub fn big_add_u64(a: &num_bigint::BigUint, v: u64) -> (r: num_bigint::BigUint)
    ensures
        nat_of(r) == nat_of(*a) + v,
{
    a + v
}

/// Relies on `num_bigint`'s subtraction with a primitive, which panics
/// on underflow; the precondition rules that out.
#[verifier::external_body]
pub fn big_sub_u64(a: &num_bigint::BigUint, v: u64) -> (r: num_bigint::BigUint)
    requires
        v as nat <= nat_of(*a),
    ensures
        nat_of(r) == nat_of(*a) - v,
{
    a - v
}

/// Relies on `num_bigint::BigUint::modpow`: `base^exp mod m`.  It panics
/// on a zero modulus; the precondition rules that out.
#[verifier::external_body]
pub fn big_modpow(
    base: &num_bigint::BigUint,
    exp: &num_bigint::BigUint,
    m: &num_bigint::BigUint,
) -> (r: num_bigint::BigUint)
    requires
        nat_of(*m) > 0,
    ensures
        nat_of(r) as int == vstd::arithmetic::power::pow(
            nat_of(*base) as int,
            nat_of(*exp),
        ) % (nat_of(*m) as int),
{
    base.modpow(exp, m)
}

/// Relies on `num_bigint::BigUint::trailing_zeros`: the number of
/// low-order zero bits, `None` exactly on zero.
#[verifier::external_body]
pub fn big_trailing_zeros(a: &num_bigint::BigUint) -> (r: Option<u64>)
    ensures
        r is Some <==> nat_of(*a) > 0,
        r matches Some(k) ==> k as nat == crate::model::two_adic(nat_of(*a)),
{
    a.trailing_zeros()
}

/// Relies on `num_bigint::BigUint::modinv`: an inverse in `[0, m)`
/// exists if and only if the arguments are coprime, so on `None` no
/// inverse exists at all.
#[verifier::external_body]
pub fn big_modinv(a: &num_bigint::BigUint, m: &num_bigint::BigUint) -> (r: Option<
    num_bigint::BigUint,
>)
    requires
        nat_of(*m) >= 2,
    ensures
        r matches Some(x) ==> nat_of(x) < nat_of(*m) && (nat_of(*a) * nat_of(x)) % nat_of(*m)
            == 1,
        r is None ==> forall|x: nat| x < nat_of(*m) ==> #[trigger] ((nat_of(*a) * x) % nat_of(*m))
            != 1,
{
    a.modinv(m)
}

/// Relies on `num_bigint::BigUint: PartialEq`: equality of values.
#[verifier::external_body]
pub fn big_eq(a: &num_bigint::BigUint, b: &num_bigint::BigUint) -> (r: bool)
    ensures
        r == (nat_of(*a) == nat_of(*b)),
{
    a == b
}

/// Relies on `num_bigint::BigUint: PartialEq` and `From<u64>`.
#[verifier::external_body]
pub fn big_eq_u64(a: &num_bigint::BigUint, v: u64) -> (r: bool)
    ensures
        r == (nat_of(*a) == v as nat),
{
    *a == num_bigint::BigUint::from(v)
}

/// Relies on `ToPrimitive::to_u64`, which succeeds exactly when the
/// value fits; the precondition guarantees that.
#[verifier::external_body]
pub fn big_to_u64(a: &num_bigint::BigUint) -> (r: u64)
    requires
        nat_of(*a) <= u64::MAX,
    ensures
        r as nat == nat_of(*a),
{
    a.to_u64().unwrap()
}

/// Relies on `num_bigint::BigInt::from_biguint` with a minus sign: the
/// additive negation of the magnitude.
#[verifier::external_body]
pub fn big_neg(a: &num_bigint::BigUint) -> (r: num_bigint::BigInt)
    ensures
        int_of(r) == -(nat_of(*a) as int),
{
    num_bigint::BigInt::from_biguint(num_bigint::Sign::Minus, a.clone())
}

} // verus!
