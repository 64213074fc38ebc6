//! The Fiat-Shamir transcript that binds prover and verifier.
//!
//! A merlin transcript is modelled by the sequence of operations applied to
//! it since it was made; the bytes of a challenge are a function of that
//! sequence, the challenge request included.
use crate::errors::ProofError;
use crate::field::{
    g1_encoding, g1_is_identity, g1_to_compressed, le_bytes, le_value, modulus, point_log, pow256,
    scalar_add, scalar_from_u64, scalar_mul, scalar_value, scalar_zero,
};
use blstrs::{G1Projective, Scalar};
use merlin::Transcript;
use vstd::prelude::*;

verus! {

#[verifier::external_type_specification]
#[verifier::external_body]
pub struct ExTranscript(merlin::Transcript);

/// A name for the internal state of a transcript.
pub uninterp spec fn transcript_state(t: Transcript) -> int;

/// The state of a transcript in state `st` after the operation `op`, an
/// appended message (`append_op`) or a challenge request (`challenge_op`).
pub uninterp spec fn absorb(st: int, op: Seq<u8>) -> int;

/// The bytes that a transcript in state `st` hands out for the challenge
/// request `op`.
pub uninterp spec fn challenge_of(st: int, op: Seq<u8>) -> Seq<u8>;

/// The bytes of an ASCII label.
pub open spec fn ascii(s: Seq<char>) -> Seq<u8> {
    s.map_values(|c: char| c as u8)
}

/// Whether every character of a label is ASCII.
pub open spec fn is_ascii_label(s: Seq<char>) -> bool {
    forall|i: int| 0 <= i < s.len() ==> (s[i] as u32) < 128
}

/// An appended message, as an operation on a transcript.
pub open spec fn append_op(label: Seq<u8>, msg: Seq<u8>) -> Seq<u8> {
    seq![0u8] + le_bytes(label.len(), 4) + label + msg
}

/// A request for `len` challenge bytes, as an operation on a transcript.
pub open spec fn challenge_op(label: Seq<u8>, len: nat) -> Seq<u8> {
    seq![1u8] + le_bytes(label.len(), 4) + label + le_bytes(len, 4)
}

/// The state after absorbing the domain separator of an argument of size `n`.
pub open spec fn domain_sep_state(st: int, n: nat) -> int {
    absorb(
        absorb(st, append_op(ascii("dom-sep"@), ascii("ipp v1"@))),
        append_op(ascii("n"@), le_bytes(n, 8)),
    )
}

/// The scalar that a transcript's challenge bytes give: the bytes read as a
/// little-endian integer, reduced modulo the field's order.
pub open spec fn challenge_value(b: Seq<u8>) -> int {
    (le_value(b) as int) % modulus()
}

/// Relies on merlin's `Transcript::append_message`: the message is absorbed
/// under its label.
#[verifier::external_body]
fn append_message(t: &mut Transcript, label: &'static str, msg: &[u8])
    requires
        is_ascii_label(label@),
        msg.len() <= u32::MAX,
    ensures
        transcript_state(*final(t)) == absorb(transcript_state(*old(t)), append_op(ascii(label@), msg@)),
{
    t.append_message(label.as_bytes(), msg)
}

/// Relies on merlin's `Transcript::append_u64`: the 8-byte little-endian
/// encoding of `x` is appended as a message.
#[verifier::external_body]
fn append_u64(t: &mut Transcript, label: &'static str, x: u64)
    requires
        is_ascii_label(label@),
    ensures
        transcript_state(*final(t)) == absorb(transcript_state(*old(t)), append_op(ascii(label@), le_bytes(x as nat, 8)),
        ),
{
    t.append_u64(label.as_bytes(), x)
}

/// Relies on merlin's `Transcript::challenge_bytes`: 64 bytes that depend on
/// the state and the request alone.
#[verifier::external_body]
fn challenge_bytes(t: &mut Transcript, label: &'static str) -> (r: [u8; 64])
    requires
        is_ascii_label(label@),
    ensures
        transcript_state(*final(t)) == absorb(transcript_state(*old(t)), challenge_op(ascii(label@), 64)),
        r@ == challenge_of(transcript_state(*old(t)), challenge_op(ascii(label@), 64)),
{
    let mut buf = [0u8; 64];
    t.challenge_bytes(label.as_bytes(), &mut buf);
    buf
}

/// Absorbs the domain separator of an argument of size `n`.
pub fn innerproduct_domain_sep(t: &mut Transcript, n: u64)
    ensures
        transcript_state(*final(t)) == domain_sep_state(transcript_state(*old(t)), n as nat),
{
    proof {
        reveal_strlit("dom-sep");
        reveal_strlit("n");
        reveal_strlit("ipp v1");
    }
    let msg: [u8; 6] = [105u8, 112u8, 112u8, 32u8, 118u8, 49u8];
    assert(msg@ =~= ascii("ipp v1"@));
    append_message(t, "dom-sep", &msg);
    append_u64(t, "n", n);
    
}

/// Absorbs the encoding of a point under a label.
pub fn append_point(t: &mut Transcript, label: &'static str, p: &G1Projective)
    requires
        is_ascii_label(label@),
    ensures
        transcript_state(*final(t)) == absorb(transcript_state(*old(t)), append_op(ascii(label@), g1_encoding(point_log(*p))@),
        ),
{
    let enc = g1_to_compressed(p);
    append_message(t, label, &enc);
}

/// Absorbs the encoding of a point under a label, refusing the identity.
pub fn validate_and_append_point(t: &mut Transcript, label: &'static str, p: &G1Projective) -> (r:
    Result<(), ProofError>)
    requires
        is_ascii_label(label@),
    ensures
        r is Err <==> point_log(*p) == 0,
        r is Err ==> r == Err::<(), ProofError>(ProofError::VerificationError) && *final(t) == *old(t),
        r is Ok ==> transcript_state(*final(t)) == absorb(transcript_state(*old(t)), append_op(ascii(label@), g1_encoding(point_log(*p))@),
        ),
{
    if g1_is_identity(p) {
        Err(ProofError::VerificationError)
    } else {
        append_point(t, label, p);
        Ok(())
    }
}

proof fn lemma_le_value_front(s: Seq<u8>)
    requires
        s.len() > 0,
    ensures
        le_value(s) == s[0] + 256 * le_value(s.drop_first()),
    decreases s.len(),
{
    if s.len() > 1 {
        let n = s.len();
        let init = s.drop_last();
        lemma_le_value_front(init);
        assert(s.drop_first().drop_last() =~= init.drop_first());
        assert(init[0] == s[0]);
        assert(s.drop_first().last() == s.last());
        assert(le_value(s) == le_value(init) + pow256((n - 1) as nat) * s.last());
        assert(le_value(s.drop_first()) == le_value(init.drop_first()) + pow256((n - 2) as nat)
            * s.last());
        assert(pow256((n - 1) as nat) == 256 * pow256((n - 2) as nat));
        assert(pow256((n - 1) as nat) * s.last() == 256 * (pow256((n - 2) as nat) * s.last()))
            by (nonlinear_arith)
            requires
                pow256((n - 1) as nat) == 256 * pow256((n - 2) as nat),
        ;
    } else {
        assert(s.drop_first().len() == 0);
        assert(s.drop_last().len() == 0);
        assert(pow256(0) == 1);
        assert(le_value(s) == le_value(s.drop_last()) + pow256(0) * s.last());
    }
}

/// Squeezes a challenge scalar under a label: 64 bytes reduced modulo the
/// field's order.
pub fn challenge_scalar(t: &mut Transcript, label: &'static str) -> (r: Scalar)
    requires
        is_ascii_label(label@),
    ensures
        transcript_state(*final(t)) == absorb(transcript_state(*old(t)), challenge_op(ascii(label@), 64)),
        scalar_value(r) == challenge_value(
            challenge_of(transcript_state(*old(t)), challenge_op(ascii(label@), 64)),
        ),
{
    let buf = challenge_bytes(t, label);
    let base = scalar_from_u64(256);
    let mut acc = scalar_zero();
    proof {
        vstd::arithmetic::div_mod::lemma_small_mod(256, modulus() as nat);
        assert(buf@.subrange(64, 64).len() == 0);
        assert(le_value(buf@.subrange(64, 64)) == 0);
        assert(0int % modulus() == 0);
    }
    let mut i: usize = 64;
    while i > 0
        invariant
            i <= 64,
            scalar_value(base) == 256,
            scalar_value(acc) == (le_value(buf@.subrange(i as int, 64)) as int) % modulus(),
        decreases i,
    {
        i = i - 1;
        let shifted = scalar_mul(&acc, &base);
        let byte = scalar_from_u64(buf[i] as u64);
        acc = scalar_add(&shifted, &byte);
        proof {
            let tail = buf@.subrange(i as int, 64);
            let x = le_value(tail.drop_first()) as int;
            lemma_le_value_front(tail);
            assert(tail.drop_first() =~= buf@.subrange(i + 1, 64));
            let m = modulus();
            vstd::arithmetic::div_mod::lemma_mul_mod_noop_left(x as int, 256, m);
            vstd::arithmetic::div_mod::lemma_add_mod_noop(x * 256, buf@[i as int] as int, m);
            vstd::arithmetic::div_mod::lemma_mod_twice(x * 256, m);
            vstd::arithmetic::div_mod::lemma_small_mod(buf@[i as int] as nat, m as nat);
        }
    }
    assert(buf@.subrange(0, 64) =~= buf@);
    acc
}

} // verus!
