//! The verifier: replaying the transcript, the verification scalars, and the
//! single-proof check.
use crate::errors::ProofError;
use crate::field::{
    finv, fmul, fneg, g1_eq, point_log, point_logs, scalar_invert, scalar_mul, scalar_neg,
    scalar_one, scalar_value, scalar_values,
};
use crate::inner_product_proof::{
    msm, multiscalar_mul, push_points, round_challenge, round_ops, InnerProductProof,
};
use crate::transcript::{
    absorb, append_op, ascii, challenge_of, challenge_scalar, challenge_value, domain_sep_state,
    innerproduct_domain_sep, is_ascii_label, transcript_state, validate_and_append_point,
};
use blstrs::{G1Projective, Scalar};
use merlin::Transcript;
use vstd::prelude::*;

verus! {

/// `2` to the power `e`.
pub open spec fn pow2(e: nat) -> nat
    decreases e,
{
    if e == 0 {
        1
    } else {
        2 * pow2((e - 1) as nat)
    }
}

/// The position of the highest set bit of `i`, for `i >= 1`.
pub open spec fn lg(i: nat) -> nat
    decreases i,
{
    if i <= 1 {
        0
    } else {
        1 + lg(i / 2)
    }
}

/// The product of a sequence of field elements, from the left.
pub open spec fn prod(xs: Seq<int>) -> int
    decreases xs.len(),
{
    if xs.len() == 0 {
        1
    } else {
        fmul(prod(xs.drop_last()), xs.last())
    }
}

/// Each element squared.
pub open spec fn squares(xs: Seq<int>) -> Seq<int> {
    Seq::new(xs.len(), |j: int| fmul(xs[j], xs[j]))
}

/// Each element inverted.
pub open spec fn inverses(xs: Seq<int>) -> Seq<int> {
    Seq::new(xs.len(), |j: int| finv(xs[j]))
}

/// The `i`-th entry of the s-vector built inductively from the squared
/// challenges `usq` of a `k`-round proof: `s[0]` is the product of the
/// inverted challenges, and `s[i] = s[i - 2^l] * usq[k - 1 - l]` for `l` the
/// highest set bit of `i`.
pub open spec fn s_at(usq: Seq<int>, allinv: int, k: nat, i: nat) -> int
    decreases i,
{
    if i == 0 {
        allinv
    } else {
        let j = i - pow2(lg(i));
        if 0 <= j < i {
            fmul(s_at(usq, allinv, k, j as nat), usq[k - 1 - lg(i)])
        } else {
            0
        }
    }
}

/// The s-vector of length `n` for challenges `us`.
pub open spec fn s_vector(us: Seq<int>, n: nat) -> Seq<int> {
    Seq::new(n, |i: int| s_at(squares(us), prod(inverses(us)), us.len(), i as nat))
}

/// What the verifier's transcript replay yields: whether every point was
/// accepted, the challenges drawn, and the state left.
pub struct VerifierRun {
    pub ok: bool,
    pub us: Seq<int>,
    pub ops: int,
}

/// The replay of the rounds of `ls`, `rs` on transcript state `ops`; stops at the
/// first point that is the identity.
pub open spec fn replay_rounds(ops: int, ls: Seq<int>, rs: Seq<int>) -> VerifierRun
    decreases ls.len(),
{
    if ls.len() == 0 || rs.len() == 0 {
        VerifierRun { ok: true, us: seq![], ops }
    } else if ls[0] == 0 {
        VerifierRun { ok: false, us: seq![], ops }
    } else if rs[0] == 0 {
        VerifierRun {
            ok: false,
            us: seq![],
            ops: absorb(ops, append_op(ascii("L"@), crate::field::g1_encoding(ls[0])@)),
        }
    } else {
        let ops1 = round_ops(ops, ls[0], rs[0]);
        let rest = replay_rounds(ops1, ls.drop_first(), rs.drop_first());
        VerifierRun { us: seq![round_challenge(ops, ls[0], rs[0])] + rest.us, ..rest }
    }
}

/// Whether `k` rounds fit an argument of size `n`.
pub open spec fn size_ok(k: nat, n: nat) -> bool {
    k < 32 && n == pow2(k)
}

/// Whether a challenge is zero.
pub open spec fn has_zero(us: Seq<int>) -> bool {
    exists|j: int| 0 <= j < us.len() && us[j] == 0
}

impl InnerProductProof {
    /// Whether the proof has as many left as right round commitments.
    pub open spec fn wf(&self) -> bool {
        self.L_vec.len() == self.R_vec.len()
    }

    /// The replay that `verification_scalars` performs for size `n` on
    /// transcript state `ops`.
    pub open spec fn replay(&self, n: nat, ops: int) -> VerifierRun {
        replay_rounds(domain_sep_state(ops, n), self.ls(), self.rs())
    }

    /// Computes the squared challenges, their inverses and the s-vector for
    /// an argument of size `n`, replaying the rounds on `transcript`. Fails
    /// with `VerificationError` where the number of rounds does not match `n`
    /// or a round commitment is the identity, and with `FormatError` where a
    /// challenge is zero.
    #[verifier::loop_isolation(false)]
    #[verifier::rlimit(50)]
    pub fn verification_scalars(&self, n: usize, transcript: &mut Transcript) -> (r: Result<
        (Vec<Scalar>, Vec<Scalar>, Vec<Scalar>),
        ProofError,
    >)
        requires
            self.wf(),
        ensures
            !size_ok(self.L_vec.len() as nat, n as nat) ==> r == Err::<
                (Vec<Scalar>, Vec<Scalar>, Vec<Scalar>),
                ProofError,
            >(ProofError::VerificationError) && *final(transcript) == *old(transcript),
            size_ok(self.L_vec.len() as nat, n as nat) ==> transcript_state(*final(transcript))
                == self.replay(n as nat, transcript_state(*old(transcript))).ops,
            size_ok(self.L_vec.len() as nat, n as nat) && !self.replay(
                n as nat,
                transcript_state(*old(transcript)),
            ).ok ==> r == Err::<(Vec<Scalar>, Vec<Scalar>, Vec<Scalar>), ProofError>(
                ProofError::VerificationError,
            ),
            size_ok(self.L_vec.len() as nat, n as nat) && self.replay(
                n as nat,
                transcript_state(*old(transcript)),
            ).ok && has_zero(self.replay(n as nat, transcript_state(*old(transcript))).us) ==> r
                == Err::<(Vec<Scalar>, Vec<Scalar>, Vec<Scalar>), ProofError>(
                ProofError::FormatError,
            ),
            r is Ok <==> size_ok(self.L_vec.len() as nat, n as nat) && self.replay(
                n as nat,
                transcript_state(*old(transcript)),
            ).ok && !has_zero(self.replay(n as nat, transcript_state(*old(transcript))).us),
            r is Ok ==> forall|j: int|
                0 <= j < self.L_vec.len() ==> #[trigger] fmul(
                    self.replay(n as nat, transcript_state(*old(transcript))).us[j],
                    finv(self.replay(n as nat, transcript_state(*old(transcript))).us[j]),
                ) == 1,
            r is Ok ==> self.replay(n as nat, transcript_state(*old(transcript))).us.len()
                == self.L_vec.len(),
            r is Ok ==> scalar_values(r.unwrap().0@) == squares(
                self.replay(n as nat, transcript_state(*old(transcript))).us,
            ),
            r is Ok ==> scalar_values(r.unwrap().1@) == squares(
                inverses(self.replay(n as nat, transcript_state(*old(transcript))).us),
            ),
            r is Ok ==> scalar_values(r.unwrap().2@) == s_vector(
                self.replay(n as nat, transcript_state(*old(transcript))).us,
                n as nat,
            ),
    {
        let lg_n = self.L_vec.len();
        if lg_n >= 32 {
            return Err(ProofError::VerificationError);
        }
        let mut p: usize = 1;
        let mut e: usize = 0;
        while e < lg_n
            invariant
                e <= lg_n < 32,
                p == pow2(e as nat),
            decreases lg_n - e,
        {
            proof {
                lemma_pow2_bound(e as nat, 30);
                reveal_with_fuel(pow2, 31);
                assert(pow2(30) == 0x4000_0000);
            }
            p = p * 2;
            e = e + 1;
        }
        if n != p {
            return Err(ProofError::VerificationError);
        }
        let ghost ops_in = transcript_state(*transcript);
        innerproduct_domain_sep(transcript, n as u64);
        let ghost full = self.replay(n as nat, ops_in);
        proof {
            assert(self.ls().skip(0) =~= self.ls());
            assert(self.rs().skip(0) =~= self.rs());
            assert(transcript_state(*transcript) == domain_sep_state(ops_in, n as nat));
            assert(Seq::<int>::empty() + full.us =~= full.us);
            reveal_strlit("L");
            reveal_strlit("R");
            reveal_strlit("u");
        }
        let mut challenges: Vec<Scalar> = Vec::new();
        assert(scalar_values(challenges@) =~= Seq::<int>::empty());
        let mut j: usize = 0;
        while j < lg_n
            invariant
                j <= lg_n == self.L_vec.len() == self.R_vec.len(),
                challenges.len() == j,
                is_ascii_label("L"@),
                is_ascii_label("R"@),
                is_ascii_label("u"@),
                ({
                    let cur = replay_rounds(
                        transcript_state(*transcript),
                        self.ls().skip(j as int),
                        self.rs().skip(j as int),
                    );
                    &&& full.ok == cur.ok
                    &&& full.ops == cur.ops
                    &&& full.us == scalar_values(challenges@) + cur.us
                }),
            decreases lg_n - j,
        {
            let ghost ops0 = transcript_state(*transcript);
            let ghost ls = self.ls().skip(j as int);
            let ghost rs = self.rs().skip(j as int);
            assert(ls[0] == point_log(self.L_vec@[j as int]));
            assert(rs[0] == point_log(self.R_vec@[j as int]));
            assert(ls.drop_first() =~= self.ls().skip(j + 1));
            assert(rs.drop_first() =~= self.rs().skip(j + 1));
            let okl = validate_and_append_point(transcript, "L", &self.L_vec[j]);
            if okl.is_err() {
                return Err(ProofError::VerificationError);
            }
            let okr = validate_and_append_point(transcript, "R", &self.R_vec[j]);
            if okr.is_err() {
                return Err(ProofError::VerificationError);
            }
            let u = challenge_scalar(transcript, "u");
            let ghost prev = scalar_values(challenges@);
            challenges.push(u);
            assert(scalar_values(challenges@) =~= prev.push(scalar_value(u)));
            assert(transcript_state(*transcript) == round_ops(ops0, ls[0], rs[0]));
            assert(prev + (seq![scalar_value(u)] + replay_rounds(
                transcript_state(*transcript),
                self.ls().skip(j + 1),
                self.rs().skip(j + 1),
            ).us) =~= scalar_values(challenges@) + replay_rounds(
                transcript_state(*transcript),
                self.ls().skip(j + 1),
                self.rs().skip(j + 1),
            ).us);
            j = j + 1;
        }
        proof {
            assert(self.ls().skip(j as int).len() == 0);
            assert(scalar_values(challenges@) + seq![] =~= scalar_values(challenges@));
        }
        let ghost us = scalar_values(challenges@);
        // Invert each challenge and multiply the inverses together.
        let mut inv: Vec<Scalar> = Vec::new();
        let mut allinv = scalar_one();
        let mut j: usize = 0;
        while j < lg_n
            invariant
                j <= lg_n == challenges.len(),
                us == scalar_values(challenges@),
                scalar_values(inv@) =~= inverses(us).take(j as int),
                scalar_value(allinv) == prod(inverses(us).take(j as int)),
                forall|t: int| 0 <= t < j ==> us[t] != 0,
                forall|t: int| 0 <= t < j ==> fmul(us[t], finv(us[t])) == 1,
            decreases lg_n - j,
        {
            let x = match scalar_invert(&challenges[j]) {
                Some(x) => x,
                None => {
                    assert(us[j as int] == 0);
                    assert(has_zero(us));
                    return Err(ProofError::FormatError);
                },
            };
            let ghost prev = scalar_values(inv@);
            inv.push(x);
            assert(scalar_values(inv@) =~= prev.push(scalar_value(x)));
            assert(inverses(us).take(j + 1).drop_last() =~= inverses(us).take(j as int));
            allinv = scalar_mul(&allinv, &x);
            j = j + 1;
        }
        proof {
            assert(inverses(us).take(j as int) =~= inverses(us));
            assert(!has_zero(us));
        }
        // Square the challenges and their inverses.
        let mut u_sq: Vec<Scalar> = Vec::new();
        let mut u_inv_sq: Vec<Scalar> = Vec::new();
        let mut j: usize = 0;
        while j < lg_n
            invariant
                j <= lg_n == challenges.len() == inv.len(),
                us == scalar_values(challenges@),
                scalar_values(inv@) == inverses(us),
                scalar_values(u_sq@) =~= squares(us).take(j as int),
                scalar_values(u_inv_sq@) =~= squares(inverses(us)).take(j as int),
            decreases lg_n - j,
        {
            let x = scalar_mul(&challenges[j], &challenges[j]);
            let y = scalar_mul(&inv[j], &inv[j]);
            let ghost p1 = scalar_values(u_sq@);
            let ghost p2 = scalar_values(u_inv_sq@);
            u_sq.push(x);
            u_inv_sq.push(y);
            assert(scalar_values(u_sq@) =~= p1.push(scalar_value(x)));
            assert(scalar_values(u_inv_sq@) =~= p2.push(scalar_value(y)));
            j = j + 1;
        }
        proof {
            assert(squares(us).take(j as int) =~= squares(us));
            assert(squares(inverses(us)).take(j as int) =~= squares(inverses(us)));
        }
        let s = build_s(&u_sq, &allinv, n);
        Ok((u_sq, u_inv_sq, s))
    }
}

proof fn lemma_replay_len(ops: int, ls: Seq<int>, rs: Seq<int>)
    requires
        ls.len() == rs.len(),
        replay_rounds(ops, ls, rs).ok,
    ensures
        replay_rounds(ops, ls, rs).us.len() == ls.len(),
    decreases ls.len(),
{
    if ls.len() > 0 {
        lemma_replay_len(round_ops(ops, ls[0], rs[0]), ls.drop_first(), rs.drop_first());
    }
}

proof fn lemma_lg(i: nat, l: nat)
    requires
        pow2(l) <= i < 2 * pow2(l),
    ensures
        lg(i) == l,
    decreases l,
{
    if l > 0 {
        lemma_pow2_bound((l - 1) as nat, (l - 1) as nat);
        lemma_lg(i / 2, (l - 1) as nat);
    }
}

/// Builds the s-vector of length `n = 2^k` from the `k` squared challenges and
/// the product of the inverted challenges.
#[verifier::loop_isolation(false)]
fn build_s(u_sq: &Vec<Scalar>, allinv: &Scalar, n: usize) -> (s: Vec<Scalar>)
    requires
        u_sq.len() < 32,
        n == pow2(u_sq.len() as nat),
    ensures
        scalar_values(s@) == Seq::new(
            n as nat,
            |i: int| s_at(scalar_values(u_sq@), scalar_value(*allinv), u_sq.len() as nat, i as nat),
        ),
{
    let ghost usq = scalar_values(u_sq@);
    let ghost k = u_sq.len() as nat;
    let ghost target = Seq::new(
        n as nat,
        |i: int| s_at(usq, scalar_value(*allinv), k, i as nat),
    );
    proof {
        lemma_pow2_bound(0, k);
    }
    let mut s: Vec<Scalar> = Vec::new();
    s.push(*allinv);
    assert(scalar_values(s@) =~= target.take(1));
    let mut i: usize = 1;
    let mut lg_i: usize = 0;
    let mut kp: usize = 1;
    while i < n
        invariant
            1 <= i <= n == pow2(k),
            k == u_sq.len() < 32,
            usq == scalar_values(u_sq@),
            kp == pow2(lg_i as nat),
            kp <= i <= 2 * kp,
            lg_i <= k,
            s.len() == i,
            scalar_values(s@) =~= target.take(i as int),
        decreases n - i,
    {
        if i - kp == kp {
            proof {
                if lg_i >= k {
                    lemma_pow2_bound(k, lg_i as nat);
                }
            }
            kp = i;
            lg_i = lg_i + 1;
        }
        proof {
            lemma_pow2_bound(lg_i as nat, lg_i as nat);
            lemma_lg(i as nat, lg_i as nat);
            if lg_i >= k {
                lemma_pow2_bound(k, lg_i as nat);
            }
        }
        let x = scalar_mul(&s[i - kp], &u_sq[u_sq.len() - 1 - lg_i]);
        let ghost prev = scalar_values(s@);
        assert(prev[i - kp] == target[i - kp]);
        assert(scalar_value(x) == target[i as int]);
        s.push(x);
        assert(scalar_values(s@) =~= prev.push(scalar_value(x)));
        i = i + 1;
    }
    s
}

pub(crate) proof fn lemma_pow2_bound(e: nat, m: nat)
    requires
        e <= m,
    ensures
        1 <= pow2(e) <= pow2(m),
    decreases m,
{
    if e < m {
        lemma_pow2_bound(e, (m - 1) as nat);
    } else if e > 0 {
        lemma_pow2_bound((e - 1) as nat, (e - 1) as nat);
    }
}

/// The scalars of the verification equation, paired with the points of
/// `check_points`.
pub open spec fn check_scalars(
    a: int,
    b: int,
    us: Seq<int>,
    n: nat,
    g: Seq<int>,
    h: Seq<int>,
) -> Seq<int> {
    let s = s_vector(us, n);
    let k = us.len();
    seq![fmul(a, b)] + Seq::new(n, |i: int| fmul(fmul(a, s[i]), g[i])) + Seq::new(
        n,
        |i: int| fmul(fmul(b, s[n - 1 - i]), h[i]),
    ) + Seq::new(k, |j: int| fneg(squares(us)[j])) + Seq::new(
        k,
        |j: int| fneg(squares(inverses(us))[j]),
    )
}

/// The points of the verification equation: `Q`, `G`, `H`, then the round
/// commitments.
pub open spec fn check_points(q: int, G: Seq<int>, H: Seq<int>, ls: Seq<int>, rs: Seq<int>) -> Seq<
    int,
> {
    seq![q] + G + H + ls + rs
}

impl InnerProductProof {
    /// What `verify` returns for these arguments, on transcript state `ops`.
    pub open spec fn verify_outcome(
        &self,
        n: nat,
        ops: int,
        g: Seq<Scalar>,
        h: Seq<Scalar>,
        P: G1Projective,
        Q: G1Projective,
        G: Seq<G1Projective>,
        H: Seq<G1Projective>,
    ) -> Result<(), ProofError> {
        let run = self.replay(n, ops);
        if !size_ok(self.L_vec.len() as nat, n) || !run.ok {
            Err(ProofError::VerificationError)
        } else if has_zero(run.us) {
            Err(ProofError::FormatError)
        } else if msm(
            check_scalars(
                scalar_value(self.a),
                scalar_value(self.b),
                run.us,
                n,
                scalar_values(g),
                scalar_values(h),
            ),
            check_points(point_log(Q), point_logs(G), point_logs(H), self.ls(), self.rs()),
        ) == point_log(P) {
            Ok(())
        } else {
            Err(ProofError::VerificationError)
        }
    }

    /// Checks the proof against commitment `P` for an argument of size `n`,
    /// bases `G_factors[i] * G[i]`, `H_factors[i] * H[i]` and `Q`, replaying
    /// the rounds on `transcript`.
    #[verifier::loop_isolation(false)]
    pub fn verify(
        &self,
        n: usize,
        transcript: &mut Transcript,
        G_factors: &[Scalar],
        H_factors: &[Scalar],
        P: &G1Projective,
        Q: &G1Projective,
        G: &[G1Projective],
        H: &[G1Projective],
    ) -> (r: Result<(), ProofError>)
        requires
            self.wf(),
            G_factors.len() == n,
            H_factors.len() == n,
            G.len() == n,
            H.len() == n,
        ensures
            r == self.verify_outcome(
                n as nat,
                transcript_state(*old(transcript)),
                G_factors@,
                H_factors@,
                *P,
                *Q,
                G@,
                H@,
            ),
            size_ok(self.L_vec.len() as nat, n as nat) ==> transcript_state(*final(transcript))
                == self.replay(n as nat, transcript_state(*old(transcript))).ops,
    {
        let (u_sq, u_inv_sq, s) = match self.verification_scalars(n, transcript) {
            Ok(t) => t,
            Err(e) => {
                return Err(e);
            },
        };
        let ghost us = self.replay(n as nat, transcript_state(*old(transcript))).us;
        proof {
            lemma_replay_len(
                domain_sep_state(transcript_state(*old(transcript)), n as nat),
                self.ls(),
                self.rs(),
            );
            assert(us.len() == self.L_vec.len());
            assert(scalar_values(u_sq@).len() == us.len());
            assert(scalar_values(u_inv_sq@).len() == us.len());
            assert(u_inv_sq.len() == us.len());
            assert(scalar_values(s@).len() == n);
            assert(s.len() == n);
        }
        let ghost want = check_scalars(
            scalar_value(self.a),
            scalar_value(self.b),
            us,
            n as nat,
            scalar_values(G_factors@),
            scalar_values(H_factors@),
        );
        let ghost sv = s_vector(us, n as nat);
        let k = u_sq.len();
        let mut scalars: Vec<Scalar> = Vec::new();
        scalars.push(scalar_mul(&self.a, &self.b));
        let mut i: usize = 0;
        while i < n
            invariant
                i <= n,
                scalar_values(scalars@) =~= want.take(1 + i),
            decreases n - i,
        {
            let t = scalar_mul(&self.a, &s[i]);
            let x = scalar_mul(&t, &G_factors[i]);
            let ghost prev = scalar_values(scalars@);
            scalars.push(x);
            assert(scalar_values(scalars@) =~= prev.push(scalar_value(x)));
            i = i + 1;
        }
        let mut i: usize = 0;
        while i < n
            invariant
                i <= n,
                scalar_values(scalars@) =~= want.take(1 + n + i),
            decreases n - i,
        {
            let t = scalar_mul(&self.b, &s[n - 1 - i]);
            let x = scalar_mul(&t, &H_factors[i]);
            let ghost prev = scalar_values(scalars@);
            scalars.push(x);
            assert(scalar_values(scalars@) =~= prev.push(scalar_value(x)));
            i = i + 1;
        }
        let mut j: usize = 0;
        while j < k
            invariant
                j <= k,
                scalar_values(scalars@) =~= want.take(1 + 2 * n + j),
            decreases k - j,
        {
            let x = scalar_neg(&u_sq[j]);
            let ghost prev = scalar_values(scalars@);
            scalars.push(x);
            assert(scalar_values(scalars@) =~= prev.push(scalar_value(x)));
            j = j + 1;
        }
        let mut j: usize = 0;
        while j < k
            invariant
                j <= k,
                scalar_values(scalars@) =~= want.take(1 + 2 * n + k + j),
            decreases k - j,
        {
            let x = scalar_neg(&u_inv_sq[j]);
            let ghost prev = scalar_values(scalars@);
            scalars.push(x);
            assert(scalar_values(scalars@) =~= prev.push(scalar_value(x)));
            j = j + 1;
        }
        let mut points: Vec<G1Projective> = Vec::new();
        points.push(*Q);
        let ghost p0 = point_logs(points@);
        push_points(&mut points, G, 0, n);
        push_points(&mut points, H, 0, n);
        push_points(&mut points, self.L_vec.as_slice(), 0, k);
        push_points(&mut points, self.R_vec.as_slice(), 0, k);
        proof {
            assert(p0 =~= seq![point_log(*Q)]);
            assert(point_logs(G@).subrange(0, n as int) =~= point_logs(G@));
            assert(point_logs(H@).subrange(0, n as int) =~= point_logs(H@));
            assert(self.ls().subrange(0, k as int) =~= self.ls());
            assert(self.rs().subrange(0, k as int) =~= self.rs());
            assert(want.take(1 + 2 * n + 2 * k) =~= want);
        }
        let expect_P = multiscalar_mul(&scalars, &points);
        if g1_eq(&expect_P, P) {
            Ok(())
        } else {
            Err(ProofError::VerificationError)
        }
    }
}

} // verus!
