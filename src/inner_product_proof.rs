//! The inner-product argument: prover, verifier and byte codec.
use crate::errors::ProofError;
use crate::field::{
    fadd, finv, fmul, g1_add, g1_encoding, g1_identity, g1_mul, modulus, point_log, point_logs,
    scalar_add, scalar_invert, scalar_mul, scalar_value, scalar_values, scalar_zero,
};
use crate::transcript::{
    absorb, append_op, append_point, ascii, challenge_of, challenge_op, challenge_scalar, challenge_value,
    domain_sep_state, innerproduct_domain_sep, is_ascii_label, transcript_state,
};
use blstrs::{G1Projective, Scalar};
use merlin::Transcript;
use vstd::prelude::*;

verus! {

/// A proof that two secret vectors `a`, `b` open a commitment and have a
/// given inner product: one pair of points per folding round, and the two
/// scalars left once the vectors have length one.
#[derive(Clone, Debug, PartialEq, Eq)]
pub struct InnerProductProof {
    pub L_vec: Vec<G1Projective>,
    pub R_vec: Vec<G1Projective>,
    pub a: Scalar,
    pub b: Scalar,
}

impl InnerProductProof {
    /// The logarithms of the left round commitments.
    pub open spec fn ls(&self) -> Seq<int> {
        point_logs(self.L_vec@)
    }

    /// The logarithms of the right round commitments.
    pub open spec fn rs(&self) -> Seq<int> {
        point_logs(self.R_vec@)
    }

    /// Whether the proof holds what a prover run produced.
    pub open spec fn is_run(&self, run: ProverRun) -> bool {
        &&& self.ls() == run.ls
        &&& self.rs() == run.rs
        &&& scalar_value(self.a) == run.a
        &&& scalar_value(self.b) == run.b
    }
}

/// The inner product of two sequences of field elements.
pub open spec fn ip(a: Seq<int>, b: Seq<int>) -> int
    decreases a.len(),
{
    if a.len() == 0 || b.len() == 0 {
        0
    } else {
        fadd(ip(a.drop_last(), b.drop_last()), fmul(a.last(), b.last()))
    }
}

/// The logarithm of `sum_i s[i] * p[i]`, for scalars `s` and points of
/// logarithms `p`.
pub open spec fn msm(s: Seq<int>, p: Seq<int>) -> int
    decreases s.len(),
{
    if s.len() == 0 || p.len() == 0 {
        0
    } else {
        fadd(msm(s.drop_last(), p.drop_last()), fmul(p.last(), s.last()))
    }
}

/// Copies `v[lo..hi]` to the end of `out`.
fn push_scalars(out: &mut Vec<Scalar>, v: &Vec<Scalar>, lo: usize, hi: usize)
    requires
        lo <= hi <= v.len(),
    ensures
        scalar_values(final(out)@) == scalar_values(old(out)@) + scalar_values(v@).subrange(
            lo as int,
            hi as int,
        ),
{
    let mut i: usize = lo;
    while i < hi
        invariant
            lo <= i <= hi <= v.len(),
            scalar_values(out@) == scalar_values(old(out)@) + scalar_values(v@).subrange(
                lo as int,
                i as int,
            ),
        decreases hi - i,
    {
        let ghost prev = scalar_values(out@);
        out.push(v[i]);
        assert(scalar_values(out@) =~= prev.push(scalar_value(v@[i as int])));
        i = i + 1;
        assert(scalar_values(out@) =~= scalar_values(old(out)@) + scalar_values(v@).subrange(
            lo as int,
            i as int,
        ));
    }
}

/// Copies `v[lo..hi]` to the end of `out`.
pub(crate) fn push_points(out: &mut Vec<G1Projective>, v: &[G1Projective], lo: usize, hi: usize)
    requires
        lo <= hi <= v.len(),
    ensures
        point_logs(final(out)@) == point_logs(old(out)@) + point_logs(v@).subrange(
            lo as int,
            hi as int,
        ),
{
    let mut i: usize = lo;
    while i < hi
        invariant
            lo <= i <= hi <= v.len(),
            point_logs(out@) == point_logs(old(out)@) + point_logs(v@).subrange(lo as int, i as int),
        decreases hi - i,
    {
        let ghost prev = point_logs(out@);
        out.push(v[i]);
        assert(point_logs(out@) =~= prev.push(point_log(v@[i as int])));
        i = i + 1;
        assert(point_logs(out@) =~= point_logs(old(out)@) + point_logs(v@).subrange(
            lo as int,
            i as int,
        ));
    }
}

/// Computes `sum_i scalars[i] * points[i]`.
pub(crate) fn multiscalar_mul(scalars: &Vec<Scalar>, points: &Vec<G1Projective>) -> (r: G1Projective)
    requires
        scalars.len() == points.len(),
    ensures
        point_log(r) == msm(scalar_values(scalars@), point_logs(points@)),
{
    let mut acc = g1_identity();
    let mut i: usize = 0;
    while i < scalars.len()
        invariant
            i <= scalars.len() == points.len(),
            point_log(acc) == msm(
                scalar_values(scalars@).take(i as int),
                point_logs(points@).take(i as int),
            ),
        decreases scalars.len() - i,
    {
        let term = g1_mul(&points[i], &scalars[i]);
        acc = g1_add(&acc, &term);
        proof {
            let s = scalar_values(scalars@);
            let p = point_logs(points@);
            assert(s.take(i + 1).drop_last() =~= s.take(i as int));
            assert(p.take(i + 1).drop_last() =~= p.take(i as int));
        }
        i = i + 1;
    }
    proof {
        assert(scalar_values(scalars@).take(i as int) =~= scalar_values(scalars@));
        assert(point_logs(points@).take(i as int) =~= point_logs(points@));
    }
    acc
}

/// Computes the inner product `sum_i a[i] * b[i]` of two vectors of scalars
/// of the same length; zero for empty vectors.
pub fn inner_product(a: &[Scalar], b: &[Scalar]) -> (r: Scalar)
    requires
        a.len() == b.len(),
    ensures
        scalar_value(r) == ip(scalar_values(a@), scalar_values(b@)),
{
    let mut out = scalar_zero();
    let mut i: usize = 0;
    while i < a.len()
        invariant
            i <= a.len() == b.len(),
            scalar_value(out) == ip(
                scalar_values(a@).take(i as int),
                scalar_values(b@).take(i as int),
            ),
        decreases a.len() - i,
    {
        let term = scalar_mul(&a[i], &b[i]);
        out = scalar_add(&out, &term);
        proof {
            let x = scalar_values(a@);
            let y = scalar_values(b@);
            assert(x.take(i + 1).drop_last() =~= x.take(i as int));
            assert(y.take(i + 1).drop_last() =~= y.take(i as int));
        }
        i = i + 1;
    }
    proof {
        assert(scalar_values(a@).take(i as int) =~= scalar_values(a@));
        assert(scalar_values(b@).take(i as int) =~= scalar_values(b@));
    }
    out
}

/// Whether `n` is a power of two.
pub open spec fn is_pow2(n: nat) -> bool
    decreases n,
{
    if n <= 1 {
        n == 1
    } else {
        n % 2 == 0 && is_pow2(n / 2)
    }
}

/// The base `g[i] * G[i]` for each `i`, as logarithms.
pub open spec fn twist(p: Seq<int>, f: Seq<int>) -> Seq<int> {
    Seq::new(p.len(), |i: int| fmul(p[i], f[i]))
}

/// One fold of a vector of even length: `l * x[i] + r * x[m + i]` for `i < m`,
/// `m` half the length.
pub open spec fn fold(x: Seq<int>, l: int, r: int) -> Seq<int> {
    Seq::new(x.len() / 2, |i: int| fadd(fmul(x[i], l), fmul(x[i + x.len() / 2], r)))
}

/// A round commitment: `<al, gr> + <br, hl> + <al, br> * Q`.
pub open spec fn round_point(al: Seq<int>, br: Seq<int>, gr: Seq<int>, hl: Seq<int>, q: int) -> int {
    msm(al + br + seq![ip(al, br)], gr + hl + seq![q])
}

/// What the prover produces, and the transcript state it leaves; `ok` is
/// false where a challenge was zero.
pub struct ProverRun {
    pub ok: bool,
    pub ls: Seq<int>,
    pub rs: Seq<int>,
    pub a: int,
    pub b: int,
    pub ops: int,
}

/// The state after one round that sends `l` and `r` and draws a challenge.
pub open spec fn round_ops(ops: int, l: int, r: int) -> int {
    absorb(round_sent(ops, l, r), challenge_op(ascii("u"@), 64))
}

/// The state after a round has sent `l` and `r`, before its challenge.
pub open spec fn round_sent(ops: int, l: int, r: int) -> int {
    absorb(
        absorb(ops, append_op(ascii("L"@), crate::field::g1_encoding(l)@)),
        append_op(ascii("R"@), crate::field::g1_encoding(r)@),
    )
}

/// The challenge of a round that sends `l` and `r` from state `ops`.
pub open spec fn round_challenge(ops: int, l: int, r: int) -> int {
    challenge_value(challenge_of(round_sent(ops, l, r), challenge_op(ascii("u"@), 64)))
}

/// The folding rounds of the prover on bases `G`, `H` (already twisted by
/// their factors), `Q` and vectors `a`, `b`, from transcript state `ops`.
pub open spec fn prove_rounds(
    ops: int,
    q: int,
    G: Seq<int>,
    H: Seq<int>,
    a: Seq<int>,
    b: Seq<int>,
) -> ProverRun
    decreases a.len(),
{
    if a.len() <= 1 {
        ProverRun { ok: true, ls: seq![], rs: seq![], a: a[0], b: b[0], ops }
    } else {
        let m = (a.len() / 2) as int;
        let l = round_point(a.take(m), b.skip(m), G.skip(m), H.take(m), q);
        let r = round_point(a.skip(m), b.take(m), G.take(m), H.skip(m), q);
        let ops1 = round_ops(ops, l, r);
        let u = round_challenge(ops, l, r);
        if u == 0 {
            ProverRun { ok: false, ls: seq![l], rs: seq![r], a: 0, b: 0, ops: ops1 }
        } else {
            let ui = finv(u);
            let rest = prove_rounds(
                ops1,
                q,
                fold(G, ui, u),
                fold(H, u, ui),
                fold(a, u, ui),
                fold(b, ui, u),
            );
            ProverRun { ls: seq![l] + rest.ls, rs: seq![r] + rest.rs, ..rest }
        }
    }
}

/// `l * x[i] + r * x[m + i]` for `i < m`, `m` half the length of `x`.
fn fold_scalars(x: &Vec<Scalar>, l: &Scalar, r: &Scalar) -> (out: Vec<Scalar>)
    ensures
        scalar_values(out@) == fold(scalar_values(x@), scalar_value(*l), scalar_value(*r)),
{
    let m = x.len() / 2;
    let mut out: Vec<Scalar> = Vec::new();
    let mut i: usize = 0;
    while i < m
        invariant
            i <= m == x.len() / 2,
            scalar_values(out@) =~= fold(scalar_values(x@), scalar_value(*l), scalar_value(*r)).take(
                i as int,
            ),
        decreases m - i,
    {
        let left = scalar_mul(&x[i], l);
        let right = scalar_mul(&x[m + i], r);
        let ghost prev = scalar_values(out@);
        let sum = scalar_add(&left, &right);
        out.push(sum);
        assert(scalar_values(out@) =~= prev.push(scalar_value(sum)));
        i = i + 1;
    }
    out
}

/// `x[i] * l + x[m + i] * r` for `i < m`, `m` half the length of `x`.
fn fold_points(x: &Vec<G1Projective>, l: &Scalar, r: &Scalar) -> (out: Vec<G1Projective>)
    ensures
        point_logs(out@) == fold(point_logs(x@), scalar_value(*l), scalar_value(*r)),
{
    let m = x.len() / 2;
    let mut out: Vec<G1Projective> = Vec::new();
    let mut i: usize = 0;
    while i < m
        invariant
            i <= m == x.len() / 2,
            point_logs(out@) =~= fold(point_logs(x@), scalar_value(*l), scalar_value(*r)).take(
                i as int,
            ),
        decreases m - i,
    {
        let left = g1_mul(&x[i], l);
        let right = g1_mul(&x[m + i], r);
        let ghost prev = point_logs(out@);
        let sum = g1_add(&left, &right);
        out.push(sum);
        assert(point_logs(out@) =~= prev.push(point_log(sum)));
        i = i + 1;
    }
    out
}

proof fn lemma_mul_assoc_swap(x: int, y: int, z: int)
    ensures
        fmul(x, fmul(y, z)) == fmul(fmul(x, z), y),
{
    let m = crate::field::modulus();
    vstd::arithmetic::div_mod::lemma_mul_mod_noop_right(x, y * z, m);
    vstd::arithmetic::div_mod::lemma_mul_mod_noop_left(x * z, y, m);
    assert(x * (y * z) == (x * z) * y) by (nonlinear_arith);
}

/// Two multi-scalar sums with the same terms, pairwise, are equal.
proof fn lemma_msm_termwise(s1: Seq<int>, p1: Seq<int>, s2: Seq<int>, p2: Seq<int>)
    requires
        s1.len() == p1.len(),
        s2.len() == s1.len(),
        p2.len() == s1.len(),
        forall|i: int| 0 <= i < s1.len() ==> fmul(p1[i], s1[i]) == fmul(p2[i], s2[i]),
    ensures
        msm(s1, p1) == msm(s2, p2),
    decreases s1.len(),
{
    if s1.len() > 0 {
        lemma_msm_termwise(s1.drop_last(), p1.drop_last(), s2.drop_last(), p2.drop_last());
    }
}

/// Appends `x[xlo + i] * f[flo + i]` for `i < m` to `out`.
fn push_products(out: &mut Vec<Scalar>, x: &Vec<Scalar>, xlo: usize, f: &[Scalar], flo: usize, m: usize)
    requires
        xlo + m <= x.len(),
        flo + m <= f.len(),
    ensures
        scalar_values(final(out)@) == scalar_values(old(out)@) + Seq::new(
            m as nat,
            |i: int| fmul(scalar_values(x@)[xlo + i], scalar_values(f@)[flo + i]),
        ),
{
    let mut i: usize = 0;
    while i < m
        invariant
            i <= m,
            xlo + m <= x.len(),
            flo + m <= f.len(),
            scalar_values(out@) =~= scalar_values(old(out)@) + Seq::new(
                i as nat,
                |t: int| fmul(scalar_values(x@)[xlo + t], scalar_values(f@)[flo + t]),
            ),
        decreases m - i,
    {
        let y = scalar_mul(&x[xlo + i], &f[flo + i]);
        let ghost prev = scalar_values(out@);
        out.push(y);
        assert(scalar_values(out@) =~= prev.push(scalar_value(y)));
        i = i + 1;
    }
}

/// The first round commitment, with the factors of the bases folded into the
/// scalars: from `a[alo..alo+m]`, `b[blo..blo+m]`, `G[glo..glo+m]` scaled by
/// `gf[glo..glo+m]`, `H[hlo..hlo+m]` scaled by `hf[hlo..hlo+m]`, and `Q`.
#[verifier::loop_isolation(false)]
fn fused_round_commitment(
    a: &Vec<Scalar>,
    alo: usize,
    b: &Vec<Scalar>,
    blo: usize,
    G: &Vec<G1Projective>,
    gf: &[Scalar],
    glo: usize,
    H: &Vec<G1Projective>,
    hf: &[Scalar],
    hlo: usize,
    m: usize,
    Q: &G1Projective,
) -> (r: G1Projective)
    requires
        alo + m <= a.len(),
        blo + m <= b.len(),
        glo + m <= G.len() == gf.len(),
        hlo + m <= H.len() == hf.len(),
    ensures
        point_log(r) == round_point(
            scalar_values(a@).subrange(alo as int, alo + m),
            scalar_values(b@).subrange(blo as int, blo + m),
            twist(point_logs(G@), scalar_values(gf@)).subrange(glo as int, glo + m),
            twist(point_logs(H@), scalar_values(hf@)).subrange(hlo as int, hlo + m),
            point_log(*Q),
        ),
{
    let mut al: Vec<Scalar> = Vec::new();
    push_scalars(&mut al, a, alo, alo + m);
    let mut br: Vec<Scalar> = Vec::new();
    push_scalars(&mut br, b, blo, blo + m);
    let c = inner_product(al.as_slice(), br.as_slice());
    let mut scalars: Vec<Scalar> = Vec::new();
    push_products(&mut scalars, a, alo, gf, glo, m);
    push_products(&mut scalars, b, blo, hf, hlo, m);
    let ghost before = scalar_values(scalars@);
    scalars.push(c);
    let mut points: Vec<G1Projective> = Vec::new();
    push_points(&mut points, G.as_slice(), glo, glo + m);
    push_points(&mut points, H.as_slice(), hlo, hlo + m);
    let ghost pbefore = point_logs(points@);
    points.push(*Q);
    proof {
        let av = scalar_values(a@).subrange(alo as int, alo + m);
        let bv = scalar_values(b@).subrange(blo as int, blo + m);
        let tg = twist(point_logs(G@), scalar_values(gf@)).subrange(glo as int, glo + m);
        let th = twist(point_logs(H@), scalar_values(hf@)).subrange(hlo as int, hlo + m);
        assert(scalar_values(al@) =~= av);
        assert(scalar_values(br@) =~= bv);
        let s1 = scalar_values(scalars@);
        let p1 = point_logs(points@);
        let s2 = av + bv + seq![scalar_value(c)];
        let p2 = tg + th + seq![point_log(*Q)];
        assert(s1 =~= before.push(scalar_value(c)));
        assert(p1 =~= pbefore.push(point_log(*Q)));
        assert forall|i: int| 0 <= i < s1.len() implies fmul(p1[i], s1[i]) == fmul(p2[i], s2[i]) by {
            if i < m {
                lemma_mul_assoc_swap(point_logs(G@)[glo + i], scalar_values(a@)[alo + i], scalar_values(gf@)[glo + i]);
            } else if i < 2 * m {
                let t = i - m;
                lemma_mul_assoc_swap(point_logs(H@)[hlo + t], scalar_values(b@)[blo + t], scalar_values(hf@)[hlo + t]);
            }
        }
        lemma_msm_termwise(s1, p1, s2, p2);
    }
    multiscalar_mul(&scalars, &points)
}

/// `x[i] * (l * f[i]) + x[m + i] * (r * f[m + i])` for `i < m`, `m` half the
/// length of `x`: one fold of the bases `f[i] * x[i]`.
fn fold_points_with_factors(x: &Vec<G1Projective>, f: &[Scalar], l: &Scalar, r: &Scalar) -> (out: Vec<
    G1Projective,
>)
    requires
        f.len() == x.len(),
    ensures
        point_logs(out@) == fold(
            twist(point_logs(x@), scalar_values(f@)),
            scalar_value(*l),
            scalar_value(*r),
        ),
{
    let m = x.len() / 2;
    let ghost want = fold(twist(point_logs(x@), scalar_values(f@)), scalar_value(*l), scalar_value(*r));
    let mut out: Vec<G1Projective> = Vec::new();
    let mut i: usize = 0;
    while i < m
        invariant
            i <= m == x.len() / 2,
            f.len() == x.len(),
            want == fold(twist(point_logs(x@), scalar_values(f@)), scalar_value(*l), scalar_value(*r)),
            point_logs(out@) =~= want.take(i as int),
        decreases m - i,
    {
        let lf = scalar_mul(l, &f[i]);
        let rf = scalar_mul(r, &f[m + i]);
        let left = g1_mul(&x[i], &lf);
        let right = g1_mul(&x[m + i], &rf);
        let ghost prev = point_logs(out@);
        let sum = g1_add(&left, &right);
        out.push(sum);
        proof {
            lemma_mul_assoc_swap(point_logs(x@)[i as int], scalar_value(*l), scalar_values(f@)[i as int]);
            lemma_mul_assoc_swap(point_logs(x@)[m + i], scalar_value(*r), scalar_values(f@)[m + i]);
            assert(point_logs(out@) =~= prev.push(point_log(sum)));
        }
        i = i + 1;
    }
    out
}

/// A round commitment from `a[alo..alo+m]`, `b[blo..blo+m]`,
/// `G[glo..glo+m]`, `H[hlo..hlo+m]` and `Q`.
fn round_commitment(
    a: &Vec<Scalar>,
    alo: usize,
    b: &Vec<Scalar>,
    blo: usize,
    G: &Vec<G1Projective>,
    glo: usize,
    H: &Vec<G1Projective>,
    hlo: usize,
    m: usize,
    Q: &G1Projective,
) -> (r: G1Projective)
    requires
        alo + m <= a.len(),
        blo + m <= b.len(),
        glo + m <= G.len(),
        hlo + m <= H.len(),
    ensures
        point_log(r) == round_point(
            scalar_values(a@).subrange(alo as int, alo + m),
            scalar_values(b@).subrange(blo as int, blo + m),
            point_logs(G@).subrange(glo as int, glo + m),
            point_logs(H@).subrange(hlo as int, hlo + m),
            point_log(*Q),
        ),
{
    let mut al: Vec<Scalar> = Vec::new();
    push_scalars(&mut al, a, alo, alo + m);
    let mut br: Vec<Scalar> = Vec::new();
    push_scalars(&mut br, b, blo, blo + m);
    let c = inner_product(al.as_slice(), br.as_slice());
    let mut scalars: Vec<Scalar> = Vec::new();
    push_scalars(&mut scalars, &al, 0, m);
    push_scalars(&mut scalars, &br, 0, m);
    let ghost before = scalar_values(scalars@);
    scalars.push(c);
    let mut points: Vec<G1Projective> = Vec::new();
    push_points(&mut points, G.as_slice(), glo, glo + m);
    push_points(&mut points, H.as_slice(), hlo, hlo + m);
    let ghost pbefore = point_logs(points@);
    points.push(*Q);
    proof {
        assert(scalar_values(al@) =~= scalar_values(a@).subrange(alo as int, alo + m));
        assert(scalar_values(br@) =~= scalar_values(b@).subrange(blo as int, blo + m));
        assert(pbefore =~= point_logs(G@).subrange(glo as int, glo + m) + point_logs(H@).subrange(
            hlo as int,
            hlo + m,
        ));
        assert(scalar_values(al@).subrange(0, m as int) =~= scalar_values(al@));
        assert(scalar_values(br@).subrange(0, m as int) =~= scalar_values(br@));
        assert(scalar_values(scalars@) =~= before.push(scalar_value(c)));
        assert(point_logs(points@) =~= pbefore.push(point_log(*Q)));
        assert(scalar_values(scalars@) =~= scalar_values(al@) + scalar_values(br@) + seq![
            scalar_value(c),
        ]);
        assert(scalar_value(c) == ip(scalar_values(al@), scalar_values(br@)));
        assert(point_logs(points@) =~= point_logs(G@).subrange(glo as int, glo + m) + point_logs(
            H@,
        ).subrange(hlo as int, hlo + m) + seq![point_log(*Q)]);
    }
    multiscalar_mul(&scalars, &points)
}

/// The prover run that `create` performs on its arguments.
pub open spec fn prover_outcome(
    ops: int,
    Q: G1Projective,
    g: Seq<Scalar>,
    h: Seq<Scalar>,
    G: Seq<G1Projective>,
    H: Seq<G1Projective>,
    a: Seq<Scalar>,
    b: Seq<Scalar>,
) -> ProverRun {
    prove_rounds(
        domain_sep_state(ops, a.len()),
        point_log(Q),
        twist(point_logs(G), scalar_values(g)),
        twist(point_logs(H), scalar_values(h)),
        scalar_values(a),
        scalar_values(b),
    )
}

/// `full` is the run `cur` preceded by rounds that sent `ls` and `rs`.
pub open spec fn continues(full: ProverRun, ls: Seq<int>, rs: Seq<int>, cur: ProverRun) -> bool {
    &&& full.ok == cur.ok
    &&& full.ls == ls + cur.ls
    &&& full.rs == rs + cur.rs
    &&& full.a == cur.a
    &&& full.b == cur.b
    &&& full.ops == cur.ops
}

impl InnerProductProof {
    /// Creates an inner-product proof of `a`, `b` with respect to the bases
    /// `G_factors[i] * G_vec[i]`, `H_factors[i] * H_vec[i]` and `Q`, drawing
    /// the challenges from `transcript`. All vectors have the same length, a
    /// power of two. Fails with `FormatError` exactly where a challenge is zero.
    #[verifier::loop_isolation(false)]
    #[verifier::rlimit(50)]
    pub fn create(
        transcript: &mut Transcript,
        Q: &G1Projective,
        G_factors: &[Scalar],
        H_factors: &[Scalar],
        G_vec: Vec<G1Projective>,
        H_vec: Vec<G1Projective>,
        a_vec: Vec<Scalar>,
        b_vec: Vec<Scalar>,
    ) -> (r: Result<InnerProductProof, ProofError>)
        requires
            G_vec.len() == a_vec.len(),
            H_vec.len() == a_vec.len(),
            b_vec.len() == a_vec.len(),
            G_factors.len() == a_vec.len(),
            H_factors.len() == a_vec.len(),
            is_pow2(a_vec.len() as nat),
        ensures
            transcript_state(*final(transcript)) == prover_outcome(
                transcript_state(*old(transcript)),
                *Q,
                G_factors@,
                H_factors@,
                G_vec@,
                H_vec@,
                a_vec@,
                b_vec@,
            ).ops,
            r is Ok <==> prover_outcome(
                transcript_state(*old(transcript)),
                *Q,
                G_factors@,
                H_factors@,
                G_vec@,
                H_vec@,
                a_vec@,
                b_vec@,
            ).ok,
            r is Err ==> r == Err::<InnerProductProof, ProofError>(ProofError::FormatError),
            r is Ok ==> r.unwrap().is_run(
                prover_outcome(
                    transcript_state(*old(transcript)),
                    *Q,
                    G_factors@,
                    H_factors@,
                    G_vec@,
                    H_vec@,
                    a_vec@,
                    b_vec@,
                ),
            ),
    {
        let ghost full = prover_outcome(
            transcript_state(*transcript),
            *Q,
            G_factors@,
            H_factors@,
            G_vec@,
            H_vec@,
            a_vec@,
            b_vec@,
        );
        let ghost a_in = a_vec@;
        let ghost b_in = b_vec@;
        let n = a_vec.len();
        innerproduct_domain_sep(transcript, n as u64);
        let ghost G_in = G_vec@;
        let ghost H_in = H_vec@;
        let mut a = a_vec;
        let mut b = b_vec;
        let mut L_vec: Vec<G1Projective> = Vec::new();
        let mut R_vec: Vec<G1Projective> = Vec::new();
        proof {
            reveal_strlit("L");
            reveal_strlit("R");
            reveal_strlit("u");
        }
        let ghost ops_start = transcript_state(*transcript);
        let mut G: Vec<G1Projective>;
        let mut H: Vec<G1Projective>;
        // The first round folds the factors of the bases into its scalars.
        if n != 1 {
            let m = n / 2;
            let L = fused_round_commitment(
                &a,
                0,
                &b,
                m,
                &G_vec,
                G_factors,
                m,
                &H_vec,
                H_factors,
                0,
                m,
                Q,
            );
            let R = fused_round_commitment(
                &a,
                m,
                &b,
                0,
                &G_vec,
                G_factors,
                0,
                &H_vec,
                H_factors,
                m,
                m,
                Q,
            );
            proof {
                let mi = m as int;
                let tg = twist(point_logs(G_vec@), scalar_values(G_factors@));
                let th = twist(point_logs(H_vec@), scalar_values(H_factors@));
                assert(scalar_values(a@).take(mi) =~= scalar_values(a@).subrange(0, mi));
                assert(scalar_values(a@).skip(mi) =~= scalar_values(a@).subrange(mi, 2 * mi));
                assert(scalar_values(b@).take(mi) =~= scalar_values(b@).subrange(0, mi));
                assert(scalar_values(b@).skip(mi) =~= scalar_values(b@).subrange(mi, 2 * mi));
                assert(tg.take(mi) =~= tg.subrange(0, mi));
                assert(tg.skip(mi) =~= tg.subrange(mi, 2 * mi));
                assert(th.take(mi) =~= th.subrange(0, mi));
                assert(th.skip(mi) =~= th.subrange(mi, 2 * mi));
            }
            L_vec.push(L);
            R_vec.push(R);
            append_point(transcript, "L", &L);
            append_point(transcript, "R", &R);
            let u = challenge_scalar(transcript, "u");
            proof {
                assert(transcript_state(*transcript) == round_ops(
                    ops_start,
                    point_log(L),
                    point_log(R),
                ));
                assert(point_logs(L_vec@) =~= seq![point_log(L)]);
                assert(point_logs(R_vec@) =~= seq![point_log(R)]);
            }
            let u_inv = match scalar_invert(&u) {
                Some(x) => x,
                None => {
                    return Err(ProofError::FormatError);
                },
            };
            a = fold_scalars(&a, &u, &u_inv);
            b = fold_scalars(&b, &u_inv, &u);
            G = fold_points_with_factors(&G_vec, G_factors, &u_inv, &u);
            H = fold_points_with_factors(&H_vec, H_factors, &u, &u_inv);
        } else {
            G = G_vec;
            H = H_vec;
        }
        proof {
            let cur = prove_rounds(
                transcript_state(*transcript),
                point_log(*Q),
                point_logs(G@),
                point_logs(H@),
                scalar_values(a@),
                scalar_values(b@),
            );
            assert(point_logs(L_vec@) + cur.ls =~= full.ls);
            assert(point_logs(R_vec@) + cur.rs =~= full.rs);
        }
        while a.len() > 1
            invariant
                G.len() == a.len(),
                H.len() == a.len(),
                b.len() == a.len(),
                is_pow2(a.len() as nat),
                full == prover_outcome(
                    transcript_state(*old(transcript)),
                    *Q,
                    G_factors@,
                    H_factors@,
                    G_in,
                    H_in,
                    a_in,
                    b_in,
                ),
                continues(
                    full,
                    point_logs(L_vec@),
                    point_logs(R_vec@),
                    prove_rounds(
                        transcript_state(*transcript),
                        point_log(*Q),
                        point_logs(G@),
                        point_logs(H@),
                        scalar_values(a@),
                        scalar_values(b@),
                    ),
                ),
                is_ascii_label("L"@),
                is_ascii_label("R"@),
                is_ascii_label("u"@),
            decreases a.len(),
        {
            let ghost ops0 = transcript_state(*transcript);
            let ghost cur = prove_rounds(
                ops0,
                point_log(*Q),
                point_logs(G@),
                point_logs(H@),
                scalar_values(a@),
                scalar_values(b@),
            );
            let m = a.len() / 2;
            let L = round_commitment(&a, 0, &b, m, &G, m, &H, 0, m, Q);
            let R = round_commitment(&a, m, &b, 0, &G, 0, &H, m, m, Q);
            proof {
                let mi = m as int;
                assert(scalar_values(a@).take(mi) =~= scalar_values(a@).subrange(0, mi));
                assert(scalar_values(a@).skip(mi) =~= scalar_values(a@).subrange(mi, 2 * mi));
                assert(scalar_values(b@).take(mi) =~= scalar_values(b@).subrange(0, mi));
                assert(scalar_values(b@).skip(mi) =~= scalar_values(b@).subrange(mi, 2 * mi));
                assert(point_logs(G@).take(mi) =~= point_logs(G@).subrange(0, mi));
                assert(point_logs(G@).skip(mi) =~= point_logs(G@).subrange(mi, 2 * mi));
                assert(point_logs(H@).take(mi) =~= point_logs(H@).subrange(0, mi));
                assert(point_logs(H@).skip(mi) =~= point_logs(H@).subrange(mi, 2 * mi));
            }
            let ghost lsp = point_logs(L_vec@);
            let ghost rsp = point_logs(R_vec@);
            L_vec.push(L);
            R_vec.push(R);
            append_point(transcript, "L", &L);
            append_point(transcript, "R", &R);
            let u = challenge_scalar(transcript, "u");
            proof {
                assert(transcript_state(*transcript) == round_ops(ops0, point_log(L), point_log(R)));
                assert(point_logs(L_vec@) =~= lsp.push(point_log(L)));
                assert(point_logs(R_vec@) =~= rsp.push(point_log(R)));
            }
            let u_inv = match scalar_invert(&u) {
                Some(x) => x,
                None => {
                    return Err(ProofError::FormatError);
                },
            };
            a = fold_scalars(&a, &u, &u_inv);
            b = fold_scalars(&b, &u_inv, &u);
            G = fold_points(&G, &u_inv, &u);
            H = fold_points(&H, &u, &u_inv);
            proof {
                let rest = prove_rounds(
                    transcript_state(*transcript),
                    point_log(*Q),
                    point_logs(G@),
                    point_logs(H@),
                    scalar_values(a@),
                    scalar_values(b@),
                );
                assert(cur.ls == seq![point_log(L)] + rest.ls);
                assert(lsp + cur.ls =~= point_logs(L_vec@) + rest.ls);
                assert(rsp + cur.rs =~= point_logs(R_vec@) + rest.rs);
            }
        }
        let a0 = a[0];
        let b0 = b[0];
        Ok(InnerProductProof { L_vec, R_vec, a: a0, b: b0 })
    }
}

} // verus!
