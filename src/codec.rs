//! The byte encoding of a proof: each round's two compressed points, then the
//! two scalars as 32-byte little-endian integers.
use crate::errors::ProofError;
use crate::field::{
    g1_encoding, g1_from_compressed, g1_to_compressed, in_field, le_value, modulus, point_log,
    point_logs, scalar_from_bytes_le, scalar_to_bytes_le, scalar_value,
};
use crate::inner_product_proof::InnerProductProof;
use blstrs::G1Projective;
use vstd::prelude::*;

verus! {

/// The encodings of the round commitments, `L_0, R_0, L_1, R_1, ...`.
pub open spec fn points_bytes(ls: Seq<int>, rs: Seq<int>) -> Seq<u8>
    decreases ls.len(),
{
    if ls.len() == 0 || rs.len() == 0 {
        seq![]
    } else {
        points_bytes(ls.drop_last(), rs.drop_last()) + g1_encoding(ls.last())@ + g1_encoding(
            rs.last(),
        )@
    }
}

/// The `j`-th 48-byte chunk of a byte string.
pub open spec fn chunk48(bytes: Seq<u8>, j: int) -> Seq<u8> {
    bytes.subrange(48 * j, 48 * j + 48)
}

/// The number of rounds that a serialised proof of `len` bytes holds.
pub open spec fn rounds_of(len: nat) -> int {
    (len - 64) / 48 / 2
}

/// Whether a byte length has the shape of a serialised proof.
pub open spec fn layout_ok(len: nat) -> bool {
    &&& len >= 64
    &&& (len - 64) % 48 == 0
    &&& ((len - 64) / 48) % 2 == 0
    &&& rounds_of(len) < 32
}

/// Whether a 48-byte string encodes a point of G1.
pub open spec fn decodable(c: Seq<u8>) -> bool {
    exists|x: int| in_field(x) && g1_encoding(x)@ == c
}

/// Whether `x` is the one point of G1 that `c` encodes.
pub open spec fn decodes_to(c: Seq<u8>, x: int) -> bool {
    &&& g1_encoding(x)@ == c
    &&& forall|y: int| in_field(y) && g1_encoding(y)@ == c ==> y == x
}

/// The 32 bytes of the scalar `a` in a serialised proof of `k` rounds.
pub open spec fn a_bytes(bytes: Seq<u8>, k: int) -> Seq<u8> {
    bytes.subrange(96 * k, 96 * k + 32)
}

/// The 32 bytes of the scalar `b` in a serialised proof of `k` rounds.
pub open spec fn b_bytes(bytes: Seq<u8>, k: int) -> Seq<u8> {
    bytes.subrange(96 * k + 32, 96 * k + 64)
}

/// Whether `from_bytes` accepts a byte string.
pub open spec fn parse_ok(bytes: Seq<u8>) -> bool {
    let k = rounds_of(bytes.len());
    &&& layout_ok(bytes.len())
    &&& forall|j: int| 0 <= j < 2 * k ==> decodable(#[trigger] chunk48(bytes, j))
    &&& le_value(a_bytes(bytes, k)) < modulus()
    &&& le_value(b_bytes(bytes, k)) < modulus()
}

impl InnerProductProof {
    /// Whether `bytes` is the serialisation of this proof.
    pub open spec fn encoded_as(&self, bytes: Seq<u8>) -> bool {
        let k = self.L_vec.len() as int;
        &&& bytes.len() == 96 * k + 64
        &&& bytes.subrange(0, 96 * k) == points_bytes(self.ls(), self.rs())
        &&& le_value(a_bytes(bytes, k)) == scalar_value(self.a)
        &&& le_value(b_bytes(bytes, k)) == scalar_value(self.b)
    }

    /// Whether this proof is what `bytes` decodes to.
    pub open spec fn parsed_as(&self, bytes: Seq<u8>) -> bool {
        let k = rounds_of(bytes.len());
        &&& self.wf()
        &&& self.L_vec.len() == k
        &&& forall|j: int|
            0 <= j < k ==> decodes_to(#[trigger] chunk48(bytes, 2 * j), self.ls()[j]) && decodes_to(
                chunk48(bytes, 2 * j + 1),
                self.rs()[j],
            )
        &&& scalar_value(self.a) == le_value(a_bytes(bytes, k))
        &&& scalar_value(self.b) == le_value(b_bytes(bytes, k))
    }
}

/// Copies `src` to the end of `out`.
fn push_bytes(out: &mut Vec<u8>, src: &[u8])
    ensures
        final(out)@ == old(out)@ + src@,
{
    let mut i: usize = 0;
    while i < src.len()
        invariant
            i <= src.len(),
            out@ == old(out)@ + src@.take(i as int),
        decreases src.len() - i,
    {
        out.push(src[i]);
        i = i + 1;
        assert(out@ =~= old(out)@ + src@.take(i as int));
    }
    assert(src@.take(i as int) =~= src@);
}

/// The 48 bytes of `s` from `pos`.
fn read48(s: &[u8], pos: usize) -> (r: [u8; 48])
    requires
        pos + 48 <= s.len(),
    ensures
        r@ == s@.subrange(pos as int, pos + 48),
{
    let mut r = [0u8; 48];
    let mut i: usize = 0;
    while i < 48
        invariant
            i <= 48,
            pos + 48 <= s.len(),
            forall|t: int| 0 <= t < i ==> r@[t] == s@[pos + t],
        decreases 48 - i,
    {
        r[i] = s[pos + i];
        i = i + 1;
    }
    assert(r@ =~= s@.subrange(pos as int, pos + 48));
    r
}

/// The 32 bytes of `s` from `pos`.
fn read32(s: &[u8], pos: usize) -> (r: [u8; 32])
    requires
        pos + 32 <= s.len(),
    ensures
        r@ == s@.subrange(pos as int, pos + 32),
{
    let mut r = [0u8; 32];
    let mut i: usize = 0;
    while i < 32
        invariant
            i <= 32,
            pos + 32 <= s.len(),
            forall|t: int| 0 <= t < i ==> r@[t] == s@[pos + t],
        decreases 32 - i,
    {
        r[i] = s[pos + i];
        i = i + 1;
    }
    assert(r@ =~= s@.subrange(pos as int, pos + 32));
    r
}

impl InnerProductProof {
    /// The number of bytes that `to_bytes` produces: 48 for each point and 32
    /// for each scalar.
    pub fn serialized_size(&self) -> (r: usize)
        requires
            self.L_vec.len() < 32,
        ensures
            r == 96 * self.L_vec.len() + 64,
    {
        (self.L_vec.len() * 2) * 48 + 2 * 32
    }

    /// Serialises the proof: `L_0, R_0, ..., L_{k-1}, R_{k-1}` compressed,
    /// then `a` and `b` as 32-byte little-endian integers.
    pub fn to_bytes(&self) -> (r: Vec<u8>)
        requires
            self.wf(),
            self.L_vec.len() < 32,
        ensures
            self.encoded_as(r@),
    {
        let k = self.L_vec.len();
        let mut buf: Vec<u8> = Vec::new();
        let mut j: usize = 0;
        while j < k
            invariant
                j <= k == self.L_vec.len() == self.R_vec.len() < 32,
                buf@ == points_bytes(self.ls().take(j as int), self.rs().take(j as int)),
                buf@.len() == 96 * j,
            decreases k - j,
        {
            let l = g1_to_compressed(&self.L_vec[j]);
            let r = g1_to_compressed(&self.R_vec[j]);
            push_bytes(&mut buf, &l);
            push_bytes(&mut buf, &r);
            proof {
                let ls = self.ls().take(j + 1);
                let rs = self.rs().take(j + 1);
                assert(ls.drop_last() =~= self.ls().take(j as int));
                assert(rs.drop_last() =~= self.rs().take(j as int));
            }
            j = j + 1;
        }
        proof {
            assert(self.ls().take(j as int) =~= self.ls());
            assert(self.rs().take(j as int) =~= self.rs());
        }
        let ghost prefix = buf@;
        let ab = scalar_to_bytes_le(&self.a);
        push_bytes(&mut buf, &ab);
        let bb = scalar_to_bytes_le(&self.b);
        push_bytes(&mut buf, &bb);
        proof {
            assert(buf@.subrange(0, 96 * k) =~= prefix);
            assert(a_bytes(buf@, k as int) =~= ab@);
            assert(b_bytes(buf@, k as int) =~= bb@);
        }
        buf
    }

    /// Reads a proof serialised by `to_bytes`. Fails with `FormatError` where
    /// the length does not fit `k < 32` rounds, a point does not decode, or a
    /// scalar is not canonical.
    pub fn from_bytes(slice: &[u8]) -> (r: Result<InnerProductProof, ProofError>)
        ensures
            r is Ok <==> parse_ok(slice@),
            r is Err ==> r == Err::<InnerProductProof, ProofError>(ProofError::FormatError),
            r is Ok ==> r.unwrap().parsed_as(slice@),
    {
        let b = slice.len();
        if b < 2 * 32 {
            return Err(ProofError::FormatError);
        }
        if (b - 32 * 2) % 48 != 0 {
            return Err(ProofError::FormatError);
        }
        let num_points = (b - 32 * 2) / 48;
        if num_points % 2 != 0 {
            return Err(ProofError::FormatError);
        }
        let lg_n = num_points / 2;
        if lg_n >= 32 {
            return Err(ProofError::FormatError);
        }
        assert(b == 96 * lg_n + 64);
        let mut L_vec: Vec<G1Projective> = Vec::new();
        let mut R_vec: Vec<G1Projective> = Vec::new();
        let mut i: usize = 0;
        while i < lg_n
            invariant
                i <= lg_n < 32,
                b == slice.len() == 96 * lg_n + 64,
                lg_n == rounds_of(b as nat),
                L_vec.len() == i,
                R_vec.len() == i,
                forall|t: int| 0 <= t < 2 * i ==> decodable(#[trigger] chunk48(slice@, t)),
                forall|j: int|
                    0 <= j < i ==> decodes_to(
                        #[trigger] chunk48(slice@, 2 * j),
                        point_logs(L_vec@)[j],
                    ) && decodes_to(chunk48(slice@, 2 * j + 1), point_logs(R_vec@)[j]),
            decreases lg_n - i,
        {
            let pos = 2 * i * 48;
            let lb = read48(slice, pos);
            let lp = match g1_from_compressed(&lb) {
                Some(p) => p,
                None => {
                    assert(chunk48(slice@, 2 * i) =~= lb@);
                    assert(!decodable(chunk48(slice@, 2 * i)));
                    return Err(ProofError::FormatError);
                },
            };
            let rb = read48(slice, pos + 48);
            let rp = match g1_from_compressed(&rb) {
                Some(p) => p,
                None => {
                    assert(chunk48(slice@, 2 * i + 1) =~= rb@);
                    assert(!decodable(chunk48(slice@, 2 * i + 1)));
                    return Err(ProofError::FormatError);
                },
            };
            let ghost pl = point_logs(L_vec@);
            let ghost pr = point_logs(R_vec@);
            L_vec.push(lp);
            R_vec.push(rp);
            proof {
                assert(point_logs(L_vec@) =~= pl.push(point_log(lp)));
                assert(point_logs(R_vec@) =~= pr.push(point_log(rp)));
                assert(chunk48(slice@, 2 * i) =~= lb@);
                assert(chunk48(slice@, 2 * i + 1) =~= rb@);
                assert(decodable(chunk48(slice@, 2 * i)));
                assert(decodable(chunk48(slice@, 2 * i + 1)));
                assert forall|j: int| 0 <= j < i + 1 implies decodes_to(
                    #[trigger] chunk48(slice@, 2 * j),
                    point_logs(L_vec@)[j],
                ) && decodes_to(chunk48(slice@, 2 * j + 1), point_logs(R_vec@)[j]) by {
                    if j < i {
                        assert(point_logs(L_vec@)[j] == pl[j]);
                        assert(point_logs(R_vec@)[j] == pr[j]);
                        assert(decodes_to(chunk48(slice@, 2 * j), pl[j]));
                        assert(decodes_to(chunk48(slice@, 2 * j + 1), pr[j]));
                    } else {
                        assert(point_logs(L_vec@)[j] == point_log(lp));
                        assert(point_logs(R_vec@)[j] == point_log(rp));
                        assert(decodes_to(chunk48(slice@, 2 * j), point_log(lp)));
                        assert(decodes_to(chunk48(slice@, 2 * j + 1), point_log(rp)));
                    }
                }
            }
            i = i + 1;
        }
        let pos = 2 * lg_n * 48;
        let ab = read32(slice, pos);
        let a = match scalar_from_bytes_le(&ab) {
            Some(x) => x,
            None => {
                return Err(ProofError::FormatError);
            },
        };
        let bb = read32(slice, pos + 32);
        let bs = match scalar_from_bytes_le(&bb) {
            Some(x) => x,
            None => {
                return Err(ProofError::FormatError);
            },
        };
        Ok(InnerProductProof { L_vec, R_vec, a, b: bs })
    }
}

} // verus!
