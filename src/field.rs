//! The scalar field and the group G1 of BLS12-381, as Verus sees them.
//!
//! A scalar is modelled by its canonical integer in `[0, R)`; a point of G1,
//! a cyclic group of prime order `R`, by its discrete logarithm to a fixed
//! generator, also in `[0, R)`. Group operations then become arithmetic
//! modulo `R`.
use blstrs::{G1Projective, Scalar};
use group::ff::Field;
use group::Group;
use vstd::prelude::*;

verus! {

#[verifier::external_type_specification]
#[verifier::external_body]
pub struct ExScalar(blstrs::Scalar);

#[verifier::external_type_specification]
#[verifier::external_body]
pub struct ExG1Projective(blstrs::G1Projective);

/// The order of the scalar field and of G1.
pub open spec fn modulus() -> int {
    (154095187621958656428822154526901524485 as int) * 18446744073709551616 * 18446744073709551616
        + 111310594309268602877181240610339684353 as int
}

/// Sum in the field.
pub open spec fn fadd(x: int, y: int) -> int {
    (x + y) % modulus()
}

/// Product in the field.
pub open spec fn fmul(x: int, y: int) -> int {
    (x * y) % modulus()
}

/// Additive inverse in the field.
pub open spec fn fneg(x: int) -> int {
    (modulus() - x) % modulus()
}

/// Multiplicative inverse in the field, by Fermat's little theorem.
pub open spec fn finv(x: int) -> int {
    vstd::arithmetic::power::pow(x, (modulus() - 2) as nat) % modulus()
}

/// Whether an integer is a canonical field element.
pub open spec fn in_field(x: int) -> bool {
    0 <= x < modulus()
}

/// `256` to the power `n`.
pub open spec fn pow256(n: nat) -> nat
    decreases n,
{
    if n == 0 {
        1
    } else {
        256 * pow256((n - 1) as nat)
    }
}

/// The integer that a little-endian byte string encodes.
pub open spec fn le_value(s: Seq<u8>) -> nat
    decreases s.len(),
{
    if s.len() == 0 {
        0
    } else {
        (le_value(s.drop_last()) + pow256((s.len() - 1) as nat) * s.last()) as nat
    }
}

/// The `len` bytes of the little-endian encoding of `x` modulo `256^len`.
pub open spec fn le_bytes(x: nat, len: nat) -> Seq<u8>
    decreases len,
{
    if len == 0 {
        seq![]
    } else {
        seq![(x % 256) as u8] + le_bytes(x / 256, (len - 1) as nat)
    }
}

/// An integer that a scalar stands for modulo `R`.
pub uninterp spec fn scalar_integer(s: Scalar) -> int;

/// A discrete logarithm of a point of G1 (the prime-order subgroup that
/// blstrs keeps its points in) to a fixed generator, modulo `R`.
pub uninterp spec fn point_integer(p: G1Projective) -> int;

/// The canonical integer of a scalar, in `[0, R)`.
pub closed spec fn scalar_value(s: Scalar) -> int {
    scalar_integer(s) % modulus()
}

/// The canonical discrete logarithm of a point, in `[0, R)`.
pub closed spec fn point_log(p: G1Projective) -> int {
    point_integer(p) % modulus()
}

/// Every scalar value is a canonical field element.
pub proof fn lemma_scalar_canonical(s: Scalar)
    ensures
        in_field(scalar_value(s)),
{
}

/// Every logarithm of a point is a canonical field element.
pub proof fn lemma_point_canonical(p: G1Projective)
    ensures
        in_field(point_log(p)),
{
}

/// The 48-byte compressed encoding of the point whose logarithm is `x`.
pub uninterp spec fn g1_encoding(x: int) -> [u8; 48];

/// The values of a sequence of scalars.
pub open spec fn scalar_values(s: Seq<Scalar>) -> Seq<int> {
    s.map_values(|x: Scalar| scalar_value(x))
}

/// The logarithms of a sequence of points.
pub open spec fn point_logs(p: Seq<G1Projective>) -> Seq<int> {
    p.map_values(|x: G1Projective| point_log(x))
}

/// Relies on blstrs' derived `Clone for Scalar`: a copy of the value.
pub assume_specification[ <blstrs::Scalar as core::clone::Clone>::clone ](x: &blstrs::Scalar) -> (r:
    blstrs::Scalar)
    ensures
        scalar_value(r) == scalar_value(*x),
;

/// Relies on blstrs' derived `Clone for G1Projective`: a copy of the point.
pub assume_specification[ <blstrs::G1Projective as core::clone::Clone>::clone ](
    p: &blstrs::G1Projective,
) -> (r: blstrs::G1Projective)
    ensures
        point_log(r) == point_log(*p),
;

/// Relies on ff's `Field::zero` for blstrs' Scalar.
#[verifier::external_body]
pub fn scalar_zero() -> (r: Scalar)
    ensures
        scalar_integer(r) % modulus() == 0,
        scalar_value(r) == 0,
{
    Scalar::zero()
}

/// Relies on ff's `Field::one` for blstrs' Scalar.
#[verifier::external_body]
pub fn scalar_one() -> (r: Scalar)
    ensures
        scalar_value(r) == 1,
{
    Scalar::one()
}

/// Relies on blstrs' `From<u64> for Scalar`: the scalar of a small integer.
#[verifier::external_body]
pub fn scalar_from_u64(x: u64) -> (r: Scalar)
    ensures
        scalar_value(r) == x as int % modulus(),
{
    Scalar::from(x)
}

/// Relies on blstrs' `Add<&Scalar> for &Scalar`: addition modulo R.
#[verifier::external_body]
pub fn scalar_add(x: &Scalar, y: &Scalar) -> (r: Scalar)
    ensures
        scalar_value(r) == fadd(scalar_value(*x), scalar_value(*y)),
{
    x + y
}

/// Relies on blstrs' `Mul<&Scalar> for &Scalar`: multiplication modulo R.
#[verifier::external_body]
pub fn scalar_mul(x: &Scalar, y: &Scalar) -> (r: Scalar)
    ensures
        scalar_value(r) == fmul(scalar_value(*x), scalar_value(*y)),
{
    x * y
}

/// Relies on blstrs' `Neg for &Scalar`: negation modulo R.
#[verifier::external_body]
pub fn scalar_neg(x: &Scalar) -> (r: Scalar)
    ensures
        scalar_value(r) == fneg(scalar_value(*x)),
{
    -x
}

/// Relies on ff's `Field::invert` for blstrs' Scalar: none for zero, else
/// the inverse modulo R.
#[verifier::external_body]
pub fn scalar_invert(x: &Scalar) -> (r: Option<Scalar>)
    ensures
        r is Some <==> scalar_value(*x) != 0,
        r is Some ==> scalar_value(r.unwrap()) == finv(scalar_value(*x)),
        r is Some ==> fmul(scalar_value(*x), scalar_value(r.unwrap())) == 1,
{
    Option::from(x.invert())
}

/// Relies on blstrs' `Scalar::to_bytes_le`: the canonical little-endian
/// encoding.
#[verifier::external_body]
pub fn scalar_to_bytes_le(x: &Scalar) -> (r: [u8; 32])
    ensures
        le_value(r@) == scalar_value(*x),
        le_value(r@) < modulus(),
{
    x.to_bytes_le()
}

/// Relies on blstrs' `Scalar::from_bytes_le`: accepts exactly the canonical
/// little-endian encodings.
#[verifier::external_body]
pub fn scalar_from_bytes_le(b: &[u8; 32]) -> (r: Option<Scalar>)
    ensures
        r is Some <==> le_value(b@) < modulus(),
        r is Some ==> scalar_value(r.unwrap()) == le_value(b@),
{
    Option::from(Scalar::from_bytes_le(b))
}

/// Relies on group's `Group::identity` for G1Projective.
#[verifier::external_body]
pub fn g1_identity() -> (r: G1Projective)
    ensures
        point_integer(r) % modulus() == 0,
        point_log(r) == 0,
{
    G1Projective::identity()
}

/// Relies on blstrs' `Add<&G1Projective> for &G1Projective`: the group law.
#[verifier::external_body]
pub fn g1_add(p: &G1Projective, q: &G1Projective) -> (r: G1Projective)
    ensures
        point_log(r) == fadd(point_log(*p), point_log(*q)),
{
    p + q
}

/// Relies on blstrs' `Mul<&Scalar> for &G1Projective`: scalar multiplication.
#[verifier::external_body]
pub fn g1_mul(p: &G1Projective, s: &Scalar) -> (r: G1Projective)
    ensures
        point_log(r) == fmul(point_log(*p), scalar_value(*s)),
{
    p * s
}

/// Relies on blstrs' `PartialEq for G1Projective`: equality of group elements.
#[verifier::external_body]
pub fn g1_eq(p: &G1Projective, q: &G1Projective) -> (r: bool)
    ensures
        r == (point_log(*p) == point_log(*q)),
{
    p == q
}

/// Relies on group's `Group::is_identity` for G1Projective.
#[verifier::external_body]
pub fn g1_is_identity(p: &G1Projective) -> (r: bool)
    ensures
        r == (point_log(*p) == 0),
{
    bool::from(p.is_identity())
}

/// Relies on blstrs' `G1Projective::to_compressed`: the encoding depends on
/// the group element alone.
#[verifier::external_body]
pub fn g1_to_compressed(p: &G1Projective) -> (r: [u8; 48])
    ensures
        r == g1_encoding(point_log(*p)),
{
    p.to_compressed()
}

/// Relies on blstrs' `G1Projective::from_compressed`: it accepts exactly the
/// compressed encodings of points of G1, and returns the one point so encoded.
#[verifier::external_body]
pub fn g1_from_compressed(b: &[u8; 48]) -> (r: Option<G1Projective>)
    ensures
        r is Some ==> in_field(point_log(r.unwrap())),
        r is Some ==> g1_encoding(point_log(r.unwrap()))@ == b@,
        r is Some ==> forall|x: int| in_field(x) && g1_encoding(x)@ == b@ ==> x == point_log(r.unwrap()),
        r is None ==> forall|x: int| in_field(x) ==> g1_encoding(x)@ != b@,
{
    Option::from(G1Projective::from_compressed(b))
}

} // verus!
