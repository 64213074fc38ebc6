use blstrs::{G1Projective, Scalar};
use group::ff::Field;
use group::Group;
use ipa_bls::{inner_product, InnerProductProof, ProofError};
use merlin::Transcript;

fn bases(n: usize, tag: &[u8]) -> Vec<G1Projective> {
    (0..n)
        .map(|i| G1Projective::hash_to_curve(&(i as u64).to_le_bytes(), tag, &[]))
        .collect()
}

fn powers(y: Scalar, n: usize) -> Vec<Scalar> {
    let mut out = Vec::with_capacity(n);
    let mut x = Scalar::one();
    for _ in 0..n {
        out.push(x);
        x *= y;
    }
    out
}

struct Setup {
    n: usize,
    g: Vec<G1Projective>,
    h: Vec<G1Projective>,
    q: G1Projective,
    g_factors: Vec<Scalar>,
    h_factors: Vec<Scalar>,
    p: G1Projective,
    a: Vec<Scalar>,
    b: Vec<Scalar>,
}

fn setup(a: Vec<Scalar>, b: Vec<Scalar>, y_inv: Scalar) -> Setup {
    let n = a.len();
    let g = bases(n, b"G generators");
    let h = bases(n, b"H generators");
    let q = G1Projective::hash_to_curve(b"test point", b"tests", &[]);
    let c = inner_product(&a, &b);
    let g_factors = vec![Scalar::one(); n];
    let h_factors = powers(y_inv, n);
    let mut p = q * c;
    for i in 0..n {
        p += g[i] * a[i];
        p += h[i] * (b[i] * h_factors[i]);
    }
    Setup { n, g, h, q, g_factors, h_factors, p, a, b }
}

fn random_setup(n: usize) -> Setup {
    let mut rng = rand::thread_rng();
    let a: Vec<Scalar> = (0..n).map(|_| Scalar::random(&mut rng)).collect();
    let b: Vec<Scalar> = (0..n).map(|_| Scalar::random(&mut rng)).collect();
    let y_inv = Scalar::random(&mut rng);
    setup(a, b, y_inv)
}

fn prove(s: &Setup) -> InnerProductProof {
    let mut transcript = Transcript::new(b"innerproducttest");
    InnerProductProof::create(
        &mut transcript,
        &s.q,
        &s.g_factors,
        &s.h_factors,
        s.g.clone(),
        s.h.clone(),
        s.a.clone(),
        s.b.clone(),
    )
    .unwrap()
}

fn check(s: &Setup, proof: &InnerProductProof, n: usize) -> Result<(), ProofError> {
    let mut transcript = Transcript::new(b"innerproducttest");
    proof.verify(
        n,
        &mut transcript,
        &s.g_factors,
        &s.h_factors,
        &s.p,
        &s.q,
        &s.g,
        &s.h,
    )
}

fn test_helper_create(n: usize) {
    let s = random_setup(n);
    let proof = prove(&s);
    assert!(check(&s, &proof, n).is_ok());
    let proof = InnerProductProof::from_bytes(proof.to_bytes().as_slice()).unwrap();
    assert!(check(&s, &proof, n).is_ok());
}

#[test]
fn make_ipp_1() {
    test_helper_create(1);
}

#[test]
fn make_ipp_2() {
    test_helper_create(2);
}

#[test]
fn make_ipp_4() {
    test_helper_create(4);
}

#[test]
fn make_ipp_32() {
    test_helper_create(32);
}

#[test]
fn make_ipp_64() {
    test_helper_create(64);
}

#[test]
fn test_inner_product() {
    let a = vec![
        Scalar::from(1u64),
        Scalar::from(2u64),
        Scalar::from(3u64),
        Scalar::from(4u64),
    ];
    let b = vec![
        Scalar::from(2u64),
        Scalar::from(3u64),
        Scalar::from(4u64),
        Scalar::from(5u64),
    ];
    assert_eq!(Scalar::from(40u64), inner_product(&a, &b));
}

#[test]
fn inner_product_of_empty_vectors_is_zero() {
    assert_eq!(Scalar::zero(), inner_product(&[], &[]));
}

#[test]
fn single_element_proof_carries_the_scalars() {
    let s = setup(vec![Scalar::from(7u64)], vec![Scalar::from(11u64)], Scalar::from(5u64));
    let proof = prove(&s);
    assert!(proof.L_vec.is_empty());
    assert!(proof.R_vec.is_empty());
    assert_eq!(proof.a, Scalar::from(7u64));
    assert_eq!(proof.b, Scalar::from(11u64));
    assert!(check(&s, &proof, 1).is_ok());
    assert_eq!(proof.to_bytes().len(), 64);
}

#[test]
fn serialized_size_matches_rounds() {
    for (n, k) in [(1usize, 0usize), (2, 1), (4, 2), (32, 5)] {
        let s = random_setup(n);
        let proof = prove(&s);
        assert_eq!(proof.L_vec.len(), k);
        assert_eq!(proof.to_bytes().len(), 96 * k + 64);
        assert_eq!(proof.serialized_size(), 96 * k + 64);
    }
}

#[test]
fn bytes_round_trip_keeps_the_proof() {
    let s = random_setup(8);
    let proof = prove(&s);
    let bytes = proof.to_bytes();
    let back = InnerProductProof::from_bytes(&bytes).unwrap();
    assert_eq!(back, proof);
    assert_eq!(back.to_bytes(), bytes);
}

#[test]
fn bytes_hold_points_then_scalars() {
    let s = random_setup(2);
    let proof = prove(&s);
    let bytes = proof.to_bytes();
    assert_eq!(&bytes[0..48], &proof.L_vec[0].to_compressed()[..]);
    assert_eq!(&bytes[48..96], &proof.R_vec[0].to_compressed()[..]);
    assert_eq!(&bytes[96..128], &proof.a.to_bytes_le()[..]);
    assert_eq!(&bytes[128..160], &proof.b.to_bytes_le()[..]);
}

#[test]
fn negated_scalar_is_rejected() {
    let s = random_setup(32);
    let mut proof = prove(&s);
    assert!(check(&s, &proof, 32).is_ok());
    proof.a = -proof.a;
    assert_eq!(check(&s, &proof, 32), Err(ProofError::VerificationError));
}

#[test]
fn flipped_bits_are_rejected() {
    let s = random_setup(4);
    let proof = prove(&s);
    let bytes = proof.to_bytes();
    for pos in [0usize, 47, 48, 100, 191, 192, 200, 224, 250] {
        let mut bad = bytes.clone();
        bad[pos] ^= 1;
        match InnerProductProof::from_bytes(&bad) {
            Err(e) => assert_eq!(e, ProofError::FormatError),
            Ok(p) => assert_eq!(check(&s, &p, 4), Err(ProofError::VerificationError)),
        }
    }
}

#[test]
fn truncated_bytes_are_a_format_error() {
    let s = random_setup(4);
    let bytes = prove(&s).to_bytes();
    let r = InnerProductProof::from_bytes(&bytes[..bytes.len() - 1]);
    assert_eq!(r.unwrap_err(), ProofError::FormatError);
}

#[test]
fn short_or_odd_lengths_are_a_format_error() {
    assert_eq!(InnerProductProof::from_bytes(&[0u8; 63]).unwrap_err(), ProofError::FormatError);
    assert_eq!(InnerProductProof::from_bytes(&[0u8; 112]).unwrap_err(), ProofError::FormatError);
    assert_eq!(
        InnerProductProof::from_bytes(&vec![0u8; 96 * 32 + 64]).unwrap_err(),
        ProofError::FormatError
    );
}

#[test]
fn zeroed_point_is_a_format_error() {
    let s = random_setup(4);
    let mut bytes = prove(&s).to_bytes();
    for x in bytes[0..48].iter_mut() {
        *x = 0;
    }
    assert_eq!(InnerProductProof::from_bytes(&bytes).unwrap_err(), ProofError::FormatError);
}

#[test]
fn non_canonical_scalar_is_a_format_error() {
    let s = random_setup(2);
    let mut bytes = prove(&s).to_bytes();
    for x in bytes[96..128].iter_mut() {
        *x = 0xff;
    }
    assert_eq!(InnerProductProof::from_bytes(&bytes).unwrap_err(), ProofError::FormatError);
}

#[test]
fn size_mismatch_is_a_verification_error() {
    let big = random_setup(64);
    let proof = prove(&big);
    let small = random_setup(16);
    assert_eq!(check(&small, &proof, 16), Err(ProofError::VerificationError));
}

#[test]
fn identity_round_point_is_a_verification_error() {
    let s = random_setup(4);
    let mut proof = prove(&s);
    proof.R_vec[1] = G1Projective::identity();
    assert_eq!(check(&s, &proof, 4), Err(ProofError::VerificationError));
}

#[test]
fn factors_match_pretwisted_bases() {
    let s = random_setup(8);
    let proof = prove(&s);
    let g2: Vec<G1Projective> = (0..s.n).map(|i| s.g[i] * s.g_factors[i]).collect();
    let h2: Vec<G1Projective> = (0..s.n).map(|i| s.h[i] * s.h_factors[i]).collect();
    let ones = vec![Scalar::one(); s.n];
    let mut transcript = Transcript::new(b"innerproducttest");
    let proof2 = InnerProductProof::create(
        &mut transcript,
        &s.q,
        &ones,
        &ones,
        g2,
        h2,
        s.a.clone(),
        s.b.clone(),
    )
    .unwrap();
    assert_eq!(proof.to_bytes(), proof2.to_bytes());
}

#[test]
fn s_vector_entries_pair_to_one_and_follow_the_bits() {
    let n = 8usize;
    let k = 3usize;
    let s = random_setup(n);
    let proof = prove(&s);
    let mut transcript = Transcript::new(b"innerproducttest");
    let (u_sq, u_inv_sq, sv) = proof.verification_scalars(n, &mut transcript).unwrap();
    assert_eq!(sv.len(), n);
    for j in 0..k {
        assert_eq!(u_sq[j] * u_inv_sq[j], Scalar::one());
    }
    for i in 0..n {
        assert_eq!(sv[i] * sv[n - 1 - i], Scalar::one());
        let mut want = Scalar::one();
        for j in 0..k {
            if (i >> (k - 1 - j)) & 1 == 1 {
                want *= u_sq[j];
            } else {
                want *= u_inv_sq[j];
            }
        }
        assert_eq!(sv[i] * sv[i], want);
    }
}

#[test]
fn verification_scalars_rejects_wrong_size() {
    let s = random_setup(4);
    let proof = prove(&s);
    let mut transcript = Transcript::new(b"innerproducttest");
    assert_eq!(
        proof.verification_scalars(8, &mut transcript).unwrap_err(),
        ProofError::VerificationError
    );
}

#[test]
fn different_transcript_label_fails() {
    let s = random_setup(4);
    let proof = prove(&s);
    let mut transcript = Transcript::new(b"another protocol");
    let r = proof.verify(4, &mut transcript, &s.g_factors, &s.h_factors, &s.p, &s.q, &s.g, &s.h);
    assert_eq!(r, Err(ProofError::VerificationError));
}

#[test]
fn shifted_commitment_is_rejected() {
    let mut s = random_setup(8);
    let proof = prove(&s);
    assert!(check(&s, &proof, 8).is_ok());
    s.p += G1Projective::hash_to_curve(b"extra", b"tests", &[]);
    assert_eq!(check(&s, &proof, 8), Err(ProofError::VerificationError));
}

#[test]
fn proofs_are_deterministic_for_a_transcript() {
    let s = random_setup(4);
    assert_eq!(prove(&s), prove(&s));
}
