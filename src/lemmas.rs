//! Properties that relate several operations of the argument.
use crate::field::{
    finv, fmul, g1_encoding, in_field, modulus, point_logs, scalar_value, scalar_values,
};
use crate::codec::{chunk48, decodable, layout_ok, parse_ok, points_bytes, rounds_of};
use crate::inner_product_proof::{
    fold, is_pow2, prove_rounds, prover_outcome, twist, InnerProductProof,
};
use crate::verification::{inverses, lemma_pow2_bound, lg, pow2, prod, s_at, squares};
use blstrs::{G1Projective, Scalar};
use vstd::prelude::*;

verus! {

/// The points of `ls`, `rs` encode to 96 bytes per round, and the `2j`-th and
/// `2j+1`-th 48-byte chunks are the encodings of `ls[j]` and `rs[j]`.
proof fn lemma_points_bytes(ls: Seq<int>, rs: Seq<int>)
    requires
        ls.len() == rs.len(),
    ensures
        points_bytes(ls, rs).len() == 96 * ls.len(),
        forall|j: int|
            0 <= j < ls.len() ==> #[trigger] chunk48(points_bytes(ls, rs), 2 * j) == g1_encoding(
                ls[j],
            )@ && chunk48(points_bytes(ls, rs), 2 * j + 1) == g1_encoding(rs[j])@,
    decreases ls.len(),
{
    if ls.len() > 0 {
        let k = ls.len() - 1;
        let pl = ls.drop_last();
        let pr = rs.drop_last();
        lemma_points_bytes(pl, pr);
        let pre = points_bytes(pl, pr);
        let all = points_bytes(ls, rs);
        assert(all == pre + g1_encoding(ls.last())@ + g1_encoding(rs.last())@);
        assert forall|j: int| 0 <= j < ls.len() implies #[trigger] chunk48(all, 2 * j)
            == g1_encoding(ls[j])@ && chunk48(all, 2 * j + 1) == g1_encoding(rs[j])@ by {
            if j < k {
                assert(chunk48(all, 2 * j) =~= chunk48(pre, 2 * j));
                assert(chunk48(all, 2 * j + 1) =~= chunk48(pre, 2 * j + 1));
                assert(pl[j] == ls[j]);
                assert(pr[j] == rs[j]);
            } else {
                assert(chunk48(all, 2 * j) =~= g1_encoding(ls.last())@);
                assert(chunk48(all, 2 * j + 1) =~= g1_encoding(rs.last())@);
            }
        }
    }
}

/// Serialising a proof and reading the bytes back gives the same proof: the
/// bytes of a well-formed proof of fewer than 32 rounds are accepted, and whatever they decode to has the same
/// round commitments and scalars.
pub proof fn lemma_round_trip(p: InnerProductProof, bytes: Seq<u8>, q: InnerProductProof)
    requires
        p.wf(),
        p.L_vec.len() < 32,
        p.encoded_as(bytes),
    ensures
        parse_ok(bytes),
        q.parsed_as(bytes) ==> q.ls() == p.ls() && q.rs() == p.rs() && scalar_value(q.a)
            == scalar_value(p.a) && scalar_value(q.b) == scalar_value(p.b),
{
    let k = p.L_vec.len() as int;
    crate::field::lemma_scalar_canonical(p.a);
    crate::field::lemma_scalar_canonical(p.b);
    assert forall|j: int| 0 <= j < k implies in_field(#[trigger] p.ls()[j]) && in_field(
        p.rs()[j],
    ) by {
        crate::field::lemma_point_canonical(p.L_vec@[j]);
        crate::field::lemma_point_canonical(p.R_vec@[j]);
    }
    lemma_points_bytes(p.ls(), p.rs());
    let pb = points_bytes(p.ls(), p.rs());
    assert(bytes.len() - 64 == 96 * k);
    assert((96 * k) % 48 == 0 && (96 * k) / 48 == 2 * k) by (nonlinear_arith)
        requires
            k >= 0,
    ;
    assert(rounds_of(bytes.len()) == k);
    assert(layout_ok(bytes.len()));
    assert forall|t: int| 0 <= t < 2 * k implies #[trigger] chunk48(bytes, t) == chunk48(pb, t) by {
        assert(chunk48(bytes, t) =~= chunk48(pb, t));
    }
    assert forall|t: int| 0 <= t < 2 * k implies decodable(#[trigger] chunk48(bytes, t)) by {
        let j = t / 2;
        if t % 2 == 0 {
            assert(chunk48(pb, 2 * j) == g1_encoding(p.ls()[j])@);
            assert(t == 2 * j);
        } else {
            assert(chunk48(pb, 2 * j) == g1_encoding(p.ls()[j])@);
            assert(chunk48(pb, 2 * j + 1) == g1_encoding(p.rs()[j])@);
            assert(t == 2 * j + 1);
        }
    }
    if q.parsed_as(bytes) {
        assert forall|j: int| 0 <= j < k implies q.ls()[j] == p.ls()[j] && q.rs()[j] == p.rs()[j] by {
            assert(chunk48(bytes, 2 * j) == chunk48(pb, 2 * j));
            assert(chunk48(bytes, 2 * j + 1) == chunk48(pb, 2 * j + 1));
        }
        assert(q.ls() =~= p.ls());
        assert(q.rs() =~= p.rs());
    }
}

proof fn lemma_rounds_len(
    ops: int,
    q: int,
    G: Seq<int>,
    H: Seq<int>,
    a: Seq<int>,
    b: Seq<int>,
)
    requires
        is_pow2(a.len()),
        prove_rounds(ops, q, G, H, a, b).ok,
    ensures
        pow2(prove_rounds(ops, q, G, H, a, b).ls.len()) == a.len(),
        prove_rounds(ops, q, G, H, a, b).rs.len() == prove_rounds(ops, q, G, H, a, b).ls.len(),
    decreases a.len(),
{
    let run = prove_rounds(ops, q, G, H, a, b);
    if a.len() > 1 {
        let m = (a.len() / 2) as int;
        let l = crate::inner_product_proof::round_point(a.take(m), b.skip(m), G.skip(m), H.take(m), q);
        let r = crate::inner_product_proof::round_point(a.skip(m), b.take(m), G.take(m), H.skip(m), q);
        let ops1 = crate::inner_product_proof::round_ops(ops, l, r);
        let u = crate::inner_product_proof::round_challenge(ops, l, r);
        let ui = crate::field::finv(u);
        lemma_rounds_len(ops1, q, fold(G, ui, u), fold(H, u, ui), fold(a, u, ui), fold(b, ui, u));
    }
}

/// A proof made from `n` pairs of vectors has `log2(n)` pairs of round
/// commitments, fewer than 32 where `n < 2^32`, so its serialisation takes
/// `96 * log2(n) + 64` bytes.
pub proof fn lemma_proof_size(
    ops: int,
    Q: G1Projective,
    g: Seq<Scalar>,
    h: Seq<Scalar>,
    G: Seq<G1Projective>,
    H: Seq<G1Projective>,
    a: Seq<Scalar>,
    b: Seq<Scalar>,
)
    requires
        g.len() == a.len(),
        h.len() == a.len(),
        G.len() == a.len(),
        H.len() == a.len(),
        b.len() == a.len(),
        is_pow2(a.len()),
        prover_outcome(ops, Q, g, h, G, H, a, b).ok,
    ensures
        pow2(prover_outcome(ops, Q, g, h, G, H, a, b).ls.len()) == a.len(),
        prover_outcome(ops, Q, g, h, G, H, a, b).rs.len() == prover_outcome(
            ops,
            Q,
            g,
            h,
            G,
            H,
            a,
            b,
        ).ls.len(),
        a.len() < pow2(32) ==> prover_outcome(ops, Q, g, h, G, H, a, b).ls.len() < 32,
{
    lemma_rounds_len(
        crate::transcript::domain_sep_state(ops, a.len()),
        crate::field::point_log(Q),
        twist(point_logs(G), scalar_values(g)),
        twist(point_logs(H), scalar_values(h)),
        scalar_values(a),
        scalar_values(b),
    );
    let k = prover_outcome(ops, Q, g, h, G, H, a, b).ls.len();
    if k >= 32 {
        lemma_pow2_bound(32, k);
    }
}

/// Twisting an already twisted base by factors of one leaves it unchanged.
proof fn lemma_twist_by_one(p: Seq<int>, f: Seq<int>, ones: Seq<int>)
    requires
        f.len() == p.len(),
        ones.len() == p.len(),
        forall|i: int| 0 <= i < ones.len() ==> #[trigger] ones[i] == 1,
    ensures
        twist(twist(p, f), ones) == twist(p, f),
{
    let t = twist(p, f);
    assert forall|i: int| 0 <= i < p.len() implies #[trigger] fmul(t[i], ones[i]) == t[i] by {
        vstd::arithmetic::div_mod::lemma_mod_twice(p[i] * f[i], crate::field::modulus());
    }
    assert(twist(t, ones) =~= t);
}

/// Proving with factors `g`, `h` gives the same proof, and leaves the same
/// transcript, as proving on the bases `g[i] * G[i]`, `h[i] * H[i]` with
/// factors of one.
pub proof fn lemma_factor_equivalence(
    ops: int,
    Q: G1Projective,
    g: Seq<Scalar>,
    h: Seq<Scalar>,
    G: Seq<G1Projective>,
    H: Seq<G1Projective>,
    G2: Seq<G1Projective>,
    H2: Seq<G1Projective>,
    ones: Seq<Scalar>,
    a: Seq<Scalar>,
    b: Seq<Scalar>,
)
    requires
        g.len() == a.len(),
        h.len() == a.len(),
        G.len() == a.len(),
        H.len() == a.len(),
        ones.len() == a.len(),
        point_logs(G2) == twist(point_logs(G), scalar_values(g)),
        point_logs(H2) == twist(point_logs(H), scalar_values(h)),
        forall|i: int| 0 <= i < ones.len() ==> scalar_value(#[trigger] ones[i]) == 1,
    ensures
        prover_outcome(ops, Q, g, h, G, H, a, b) == prover_outcome(ops, Q, ones, ones, G2, H2, a, b),
{
    let o = scalar_values(ones);
    assert forall|i: int| 0 <= i < o.len() implies #[trigger] o[i] == 1 by {
        assert(o[i] == scalar_value(ones[i]));
    }
    lemma_twist_by_one(point_logs(G), scalar_values(g), o);
    lemma_twist_by_one(point_logs(H), scalar_values(h), o);
}

/// Bit `b` of `i`.
pub open spec fn bit(i: nat, b: nat) -> bool
    decreases b,
{
    if b == 0 {
        i % 2 == 1
    } else {
        bit(i / 2, (b - 1) as nat)
    }
}

/// The product over the first `j` challenges of `u` where bit `k - 1 - t` of
/// `i` is set and of `u^-1` where it is clear, `k` the number of challenges.
pub open spec fn signed_prod(us: Seq<int>, i: nat, j: nat) -> int
    decreases j,
{
    if j == 0 {
        1
    } else {
        let t = j - 1;
        fmul(
            signed_prod(us, i, t as nat),
            if bit(i, (us.len() - j) as nat) {
                us[t]
            } else {
                finv(us[t])
            },
        )
    }
}

proof fn lemma_bit_high(i: nat, b: nat)
    requires
        i < pow2(b),
    ensures
        !bit(i, b),
    decreases b,
{
    if b > 0 {
        lemma_bit_high(i / 2, (b - 1) as nat);
    }
}

proof fn lemma_bit_top(i: nat, l: nat)
    requires
        pow2(l) <= i < 2 * pow2(l),
    ensures
        bit(i, l),
    decreases l,
{
    if l > 0 {
        lemma_bit_top(i / 2, (l - 1) as nat);
    }
}

proof fn lemma_bit_sub(i: nat, l: nat, b: nat)
    requires
        pow2(l) <= i,
        b < l,
    ensures
        bit((i - pow2(l)) as nat, b) == bit(i, b),
    decreases b,
{
    if b > 0 {
        let half = pow2((l - 1) as nat);
        assert(((i - pow2(l)) as nat) / 2 == (i / 2 - half) as nat);
        lemma_bit_sub(i / 2, (l - 1) as nat, (b - 1) as nat);
    }
}

proof fn lemma_lg_bounds(i: nat)
    requires
        i >= 1,
    ensures
        pow2(lg(i)) <= i < 2 * pow2(lg(i)),
    decreases i,
{
    if i >= 2 {
        lemma_lg_bounds(i / 2);
    }
}

proof fn lemma_mul_swap(x: int, f: int, g: int)
    ensures
        fmul(fmul(x, f), g) == fmul(fmul(x, g), f),
{
    let m = modulus();
    vstd::arithmetic::div_mod::lemma_mul_mod_noop_left(x * f, g, m);
    vstd::arithmetic::div_mod::lemma_mul_mod_noop_left(x * g, f, m);
    assert(x * f * g == x * g * f) by (nonlinear_arith);
}

proof fn lemma_flip_sign(c: int, u: int)
    requires
        fmul(u, finv(u)) == 1,
    ensures
        fmul(c, u) == fmul(fmul(c, finv(u)), fmul(u, u)),
{
    let m = modulus();
    let v = finv(u);
    vstd::arithmetic::div_mod::lemma_mul_mod_noop(c * v, u * u, m);
    vstd::arithmetic::div_mod::lemma_mul_mod_noop_right(c * u, u * v, m);
    assert(c * v * (u * u) == (c * u) * (u * v)) by (nonlinear_arith);
    assert((c * u) * 1 == c * u);
    vstd::arithmetic::div_mod::lemma_mod_twice(c * v, m);
    vstd::arithmetic::div_mod::lemma_mod_twice(u * u, m);
}

proof fn lemma_signed_prod_zero(us: Seq<int>, j: nat)
    requires
        j <= us.len(),
    ensures
        signed_prod(us, 0, j) == prod(inverses(us).take(j as int)),
    decreases j,
{
    if j > 0 {
        lemma_signed_prod_zero(us, (j - 1) as nat);
        lemma_pow2_bound(0, (us.len() - j) as nat);
        lemma_bit_high(0, (us.len() - j) as nat);
        assert(inverses(us).take(j as int).drop_last() =~= inverses(us).take(j - 1));
    }
}

/// Setting bit `l` of `i2 = i - 2^l` multiplies the signed product by the
/// square of the challenge at that bit.
proof fn lemma_signed_prod_step(us: Seq<int>, i: nat, l: nat, j: nat)
    requires
        pow2(l) <= i < 2 * pow2(l),
        l < us.len(),
        j <= us.len(),
        forall|t: int| 0 <= t < us.len() ==> fmul(us[t], finv(us[t])) == 1,
    ensures
        j < us.len() - l ==> signed_prod(us, i, j) == signed_prod(us, (i - pow2(l)) as nat, j),
        j >= us.len() - l ==> signed_prod(us, i, j) == fmul(
            signed_prod(us, (i - pow2(l)) as nat, j),
            fmul(us[us.len() - 1 - l], us[us.len() - 1 - l]),
        ),
    decreases j,
{
    let k = us.len();
    let i2 = (i - pow2(l)) as nat;
    if j > 0 {
        let t = j - 1;
        let b = (k - j) as nat;
        lemma_signed_prod_step(us, i, l, (j - 1) as nat);
        if b > l {
            lemma_pow2_bound(l + 1, b);
            lemma_bit_high(i, b);
            lemma_bit_high(i2, b);
        } else if b == l {
            lemma_bit_top(i, l);
            lemma_bit_high(i2, l);
            lemma_flip_sign(signed_prod(us, i2, t as nat), us[t]);
        } else {
            lemma_bit_sub(i, l, b);
            let f = if bit(i, b) {
                us[t]
            } else {
                finv(us[t])
            };
            lemma_mul_swap(signed_prod(us, i2, t as nat), fmul(us[k - 1 - l], us[k - 1 - l]), f);
        }
    }
}

/// The s-vector in closed form: for a `k`-round proof and `i < 2^k`, entry
/// `i` of the inductively built s-vector is the product over the challenges
/// `u_j` of `u_j` where bit `k - 1 - j` of `i` is set and `u_j^-1` where it
/// is clear.
pub proof fn lemma_s_closed_form(us: Seq<int>, i: nat)
    requires
        i < pow2(us.len()),
        forall|t: int| 0 <= t < us.len() ==> fmul(us[t], finv(us[t])) == 1,
    ensures
        s_at(squares(us), prod(inverses(us)), us.len(), i) == signed_prod(us, i, us.len()),
    decreases i,
{
    let k = us.len();
    if i == 0 {
        lemma_signed_prod_zero(us, k);
        assert(inverses(us).take(k as int) =~= inverses(us));
    } else {
        let l = lg(i);
        lemma_lg_bounds(i);
        if l >= k {
            lemma_pow2_bound(k, l);
        }
        let i2 = (i - pow2(l)) as nat;
        lemma_s_closed_form(us, i2);
        lemma_signed_prod_step(us, i, l, k);
    }
}

proof fn lemma_bit_complement(i: nat, k: nat, b: nat)
    requires
        i < pow2(k),
        b < k,
    ensures
        bit((pow2(k) - 1 - i) as nat, b) == !bit(i, b),
    decreases b,
{
    let half = pow2((k - 1) as nat);
    assert(((pow2(k) - 1 - i) as nat) / 2 == (half - 1 - i / 2) as nat);
    if b > 0 {
        lemma_bit_complement(i / 2, (k - 1) as nat, (b - 1) as nat);
    }
}

proof fn lemma_mul_pairs(a: int, f: int, b: int, g: int)
    ensures
        fmul(fmul(a, f), fmul(b, g)) == fmul(fmul(a, b), fmul(f, g)),
{
    let m = modulus();
    vstd::arithmetic::div_mod::lemma_mul_mod_noop(a * f, b * g, m);
    vstd::arithmetic::div_mod::lemma_mul_mod_noop(a * b, f * g, m);
    vstd::arithmetic::div_mod::lemma_mod_twice(a * f, m);
    vstd::arithmetic::div_mod::lemma_mod_twice(b * g, m);
    vstd::arithmetic::div_mod::lemma_mod_twice(a * b, m);
    vstd::arithmetic::div_mod::lemma_mod_twice(f * g, m);
    assert((a * f) * (b * g) == (a * b) * (f * g)) by (nonlinear_arith);
}

proof fn lemma_signed_prod_pair(us: Seq<int>, i: nat, j: nat)
    requires
        i < pow2(us.len()),
        j <= us.len(),
        forall|t: int| 0 <= t < us.len() ==> fmul(us[t], finv(us[t])) == 1,
    ensures
        fmul(signed_prod(us, i, j), signed_prod(us, (pow2(us.len()) - 1 - i) as nat, j)) == 1,
    decreases j,
{
    let k = us.len();
    let i2 = (pow2(k) - 1 - i) as nat;
    vstd::arithmetic::div_mod::lemma_small_mod(1, modulus() as nat);
    if j == 0 {
        assert(fmul(1, 1) == 1);
    } else {
        let t = j - 1;
        let b = (k - j) as nat;
        lemma_signed_prod_pair(us, i, (j - 1) as nat);
        lemma_bit_complement(i, k, b);
        let u = us[t];
        let v = finv(us[t]);
        assert(fmul(v, u) == fmul(u, v)) by {
            assert(v * u == u * v) by (nonlinear_arith);
        }
        let (f, g) = if bit(i, b) {
            (u, v)
        } else {
            (v, u)
        };
        lemma_mul_pairs(signed_prod(us, i, t as nat), f, signed_prod(us, i2, t as nat), g);
    }
}

/// Entries `i` and `n - 1 - i` of the s-vector of a `k`-round proof,
/// `n = 2^k`, multiply to one.
pub proof fn lemma_s_inverse_symmetry(us: Seq<int>, i: nat)
    requires
        i < pow2(us.len()),
        forall|t: int| 0 <= t < us.len() ==> fmul(us[t], finv(us[t])) == 1,
    ensures
        fmul(
            s_at(squares(us), prod(inverses(us)), us.len(), i),
            s_at(squares(us), prod(inverses(us)), us.len(), (pow2(us.len()) - 1 - i) as nat),
        ) == 1,
{
    let k = us.len();
    lemma_s_closed_form(us, i);
    lemma_s_closed_form(us, (pow2(k) - 1 - i) as nat);
    lemma_signed_prod_pair(us, i, k);
}

/// The commitment `sum_i (a[i] g[i]) G[i] + sum_i (b[i] h[i]) H[i] + <a, b> Q`,
/// as a logarithm.
pub open spec fn commitment(
    q: int,
    g: Seq<int>,
    h: Seq<int>,
    G: Seq<int>,
    H: Seq<int>,
    a: Seq<int>,
    b: Seq<int>,
) -> int {
    crate::inner_product_proof::msm(
        Seq::new(a.len(), |i: int| fmul(a[i], g[i])) + Seq::new(a.len(), |i: int| fmul(b[i], h[i]))
            + seq![crate::inner_product_proof::ip(a, b)],
        G + H + seq![q],
    )
}

proof fn lemma_sum3(x: int, y: int, z: int)
    requires
        in_field(x),
        in_field(y),
        in_field(z),
    ensures
        crate::field::fadd(crate::field::fadd(crate::field::fadd(0, x), y), z) == (x + y + z)
            % modulus(),
{
    let m = modulus();
    vstd::arithmetic::div_mod::lemma_small_mod(x as nat, m as nat);
    vstd::arithmetic::div_mod::lemma_add_mod_noop(x + y, z, m);
    vstd::arithmetic::div_mod::lemma_add_mod_noop(x, y, m);
    vstd::arithmetic::div_mod::lemma_mod_twice(x + y, m);
    vstd::arithmetic::div_mod::lemma_small_mod(z as nat, m as nat);
    vstd::arithmetic::div_mod::lemma_small_mod(y as nat, m as nat);
}

/// A proof of one pair of scalars, made honestly, is accepted by `verify` on
/// the commitment to those scalars.
pub proof fn lemma_single_completeness(
    p: InnerProductProof,
    ops: int,
    P: G1Projective,
    Q: G1Projective,
    g: Seq<Scalar>,
    h: Seq<Scalar>,
    G: Seq<G1Projective>,
    H: Seq<G1Projective>,
    a: Seq<Scalar>,
    b: Seq<Scalar>,
)
    requires
        a.len() == 1,
        b.len() == 1,
        g.len() == 1,
        h.len() == 1,
        G.len() == 1,
        H.len() == 1,
        p.wf(),
        p.is_run(prover_outcome(ops, Q, g, h, G, H, a, b)),
        crate::field::point_log(P) == commitment(
            crate::field::point_log(Q),
            scalar_values(g),
            scalar_values(h),
            point_logs(G),
            point_logs(H),
            scalar_values(a),
            scalar_values(b),
        ),
    ensures
        p.verify_outcome(1, ops, g, h, P, Q, G, H) == Ok::<(), crate::errors::ProofError>(()),
{
    let m = modulus();
    let va = scalar_values(a)[0];
    let vb = scalar_values(b)[0];
    let g0 = scalar_values(g)[0];
    let h0 = scalar_values(h)[0];
    let G0 = point_logs(G)[0];
    let H0 = point_logs(H)[0];
    let q = crate::field::point_log(Q);
    crate::field::lemma_scalar_canonical(a[0]);
    crate::field::lemma_scalar_canonical(b[0]);
    assert(p.L_vec.len() == 0);
    assert(pow2(0) == 1);
    let run = p.replay(1, ops);
    assert(run.us.len() == 0);
    let us = run.us;
    assert(prod(inverses(us)) == 1) by {
        assert(inverses(us).len() == 0);
    }
    let sv = crate::verification::s_vector(us, 1);
    assert(sv[0] == 1);
    assert(!crate::verification::has_zero(us));
    vstd::arithmetic::div_mod::lemma_small_mod(va as nat, m as nat);
    vstd::arithmetic::div_mod::lemma_small_mod(vb as nat, m as nat);
    assert(fmul(va, 1) == va);
    assert(fmul(vb, 1) == vb);
    let ab = fmul(va, vb);
    let x = fmul(q, ab);
    let y = fmul(G0, fmul(va, g0));
    let z = fmul(H0, fmul(vb, h0));
    let cs = crate::verification::check_scalars(va, vb, us, 1, scalar_values(g), scalar_values(h));
    let cp = crate::verification::check_points(q, point_logs(G), point_logs(H), p.ls(), p.rs());
    assert(cs =~= seq![ab, fmul(va, g0), fmul(vb, h0)]);
    assert(p.ls() =~= Seq::<int>::empty());
    assert(p.rs() =~= Seq::<int>::empty());
    assert(cp =~= seq![q, G0, H0]);
    let es = seq![fmul(va, g0), fmul(vb, h0), crate::inner_product_proof::ip(seq![va], seq![vb])];
    let ep = seq![G0, H0, q];
    assert(scalar_values(a) =~= seq![va]);
    assert(scalar_values(b) =~= seq![vb]);
    assert(crate::inner_product_proof::ip(seq![va], seq![vb]) == ab) by {
        assert(seq![va].drop_last() =~= Seq::<int>::empty());
        assert(seq![vb].drop_last() =~= Seq::<int>::empty());
        assert(crate::inner_product_proof::ip(Seq::<int>::empty(), Seq::<int>::empty()) == 0);
        vstd::arithmetic::div_mod::lemma_mod_twice(va * vb, m);
        assert((0 + ab) % m == ab);
    }
    assert(Seq::new(1, |i: int| fmul(scalar_values(a)[i], scalar_values(g)[i])) + Seq::new(
        1,
        |i: int| fmul(scalar_values(b)[i], scalar_values(h)[i]),
    ) + seq![crate::inner_product_proof::ip(scalar_values(a), scalar_values(b))] =~= es);
    assert(point_logs(G) + point_logs(H) + seq![q] =~= ep);
    assert(cs.drop_last().drop_last().drop_last() =~= Seq::<int>::empty());
    assert(es.drop_last().drop_last().drop_last() =~= Seq::<int>::empty());
    assert(cs.drop_last() =~= seq![ab, fmul(va, g0)]);
    assert(cs.drop_last().drop_last() =~= seq![ab]);
    assert(cp.drop_last() =~= seq![q, G0]);
    assert(cp.drop_last().drop_last() =~= seq![q]);
    assert(es.drop_last() =~= seq![fmul(va, g0), fmul(vb, h0)]);
    assert(es.drop_last().drop_last() =~= seq![fmul(va, g0)]);
    assert(ep.drop_last() =~= seq![G0, H0]);
    assert(ep.drop_last().drop_last() =~= seq![G0]);
    reveal_with_fuel(crate::inner_product_proof::msm, 4);
    assert(crate::inner_product_proof::msm(cs, cp) == crate::field::fadd(
        crate::field::fadd(crate::field::fadd(0, x), y),
        z,
    ));
    assert(crate::inner_product_proof::msm(es, ep) == crate::field::fadd(
        crate::field::fadd(crate::field::fadd(0, y), z),
        x,
    ));
    assert(in_field(x) && in_field(y) && in_field(z));
    lemma_sum3(x, y, z);
    lemma_sum3(y, z, x);
    assert(x + y + z == y + z + x);
    assert(run.ok);
    assert(crate::verification::size_ok(0, 1));
}

} // verus!
