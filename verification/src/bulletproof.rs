//! Range proofs that a committed amount is positive: a 64-bit Bulletproof (by the
//! `bulletproofs` crate, over the generators G1, G2) that C - G1 commits to v - 1.
use vstd::prelude::*;
use crate::constants::{BULLETPROOF_N_BITS, TRANSCRIPT_TAG};
use crate::encoding::le_nat;
use crate::group::{
    Point, Scalar, is_canonical_scalar, ristretto_add, ristretto_decodes, ristretto_group_laws,
    ristretto_mul, ristretto_sub,
};
use crate::helpers::{bytes_to_hex, has_prefix, hex_encode, hex_error, hex_to_bytes, hex_to_bytes_spec};
use crate::output::{commitment_of, g1, g2, setup_generators};
use vstd::arithmetic::power2::pow2;
use bulletproofs::{BulletproofGens, PedersenGens, RangeProof as ProofOfRange};
use curve25519_dalek::ristretto::CompressedRistretto;
use curve25519_dalek::scalar::Scalar as DalekScalar;

verus! {

/// Whether `RangeProof::from_bytes` accepts `b`: a whole number k of 32-byte blocks, at
/// least 7 of them (A, S, T1, T2 and the canonical scalars t_x, t_x_blinding,
/// e_blinding), followed by an inner-product proof of 2 + 2·lg_n blocks with lg_n < 32
/// (the L and R points, then the canonical scalars a and b, its last two blocks).  The
/// points are not decoded here.
pub open spec fn range_proof_parses(b: Seq<u8>) -> bool {
    let k = b.len() / 32;
    &&& b.len() % 32 == 0
    &&& k >= 9
    &&& (k - 9) % 2 == 0
    &&& (k - 9) / 2 < 32
    &&& is_canonical_scalar(b.subrange(128, 160))
    &&& is_canonical_scalar(b.subrange(160, 192))
    &&& is_canonical_scalar(b.subrange(192, 224))
    &&& is_canonical_scalar(b.subrange(b.len() - 64, b.len() - 32))
    &&& is_canonical_scalar(b.subrange(b.len() - 32, b.len() as int))
}

/// Whether the proof encoded by `proof` passes the range-proof verification equations
/// of `RangeProof::verify_single` for every batching weight, for the statement "the
/// compressed `commitment` commits, over Pedersen generators B = `g1` and
/// B_blinding = `g2`, to a value below 2^n", with a transcript started from `label` and
/// the bulletproof generators `BulletproofGens::new(n, 1)`.
pub uninterp spec fn range_proof_valid(
    proof: Seq<u8>,
    g1: Seq<u8>,
    g2: Seq<u8>,
    commitment: Seq<u8>,
    label: Seq<u8>,
    n: nat,
) -> bool;

/// Calls `RangeProof::prove_single` for the value `v` and blinding `r`, with Pedersen
/// generators B = `g1`, B_blinding = `g2`, generators `BulletproofGens::new(n, 1)` and a
/// transcript started from `label`, and serialises the proof and the commitment.  Claims,
/// when it succeeds, that the commitment is v·B + r·B_blinding (`PedersenGens::commit`),
/// that the proof's bytes parse again, and, for v < 2^n, that the proof is valid for that
/// commitment (an honest prover's proof passes the verification equations).  The error is
/// the `Debug` text of the `ProofError`: for a bit size of 8, 16, 32 or 64 (with these
/// generators and one party every size check passes) the only failure left is the party
/// refusing a zero challenge, `ProvingError(MaliciousDealer)`; for any other bit size it
/// is `InvalidBitsize`.  The proof itself is randomised and is not named.
#[verifier::external_body]
fn range_prove_single(
    g1: &[u8; 32],
    g2: &[u8; 32],
    label: &'static [u8],
    v: u64,
    r: &[u8; 32],
    n: usize,
) -> (res: Result<(Vec<u8>, [u8; 32]), String>)
    requires
        ristretto_decodes(g1@),
        ristretto_decodes(g2@),
        is_canonical_scalar(r@),
    ensures
        res matches Ok((p, c)) ==> c@ == ristretto_add(ristretto_mul(v as nat, g1@), ristretto_mul(
            le_nat(r@),
            g2@,
        )) && range_proof_parses(p@) && ((v as nat) < pow2(n as nat) ==> range_proof_valid(
            p@,
            g1@,
            g2@,
            c@,
            label@,
            n as nat,
        )),
        res is Ok ==> (n == 8 || n == 16 || n == 32 || n == 64),
        res matches Err(e) ==> e@ == (if n == 8 || n == 16 || n == 32 || n == 64 {
            "ProvingError(MaliciousDealer)"@
        } else {
            "InvalidBitsize"@
        }),
{
    let pc = PedersenGens { B: CompressedRistretto(*g1).decompress().unwrap(),
        B_blinding: CompressedRistretto(*g2).decompress().unwrap() };
    let r = DalekScalar::from_canonical_bytes(*r).unwrap();
    let mut t = merlin::Transcript::new(label);
    match ProofOfRange::prove_single(&BulletproofGens::new(n, 1), &pc, &mut t, v, &r, n) {
        Ok((proof, c)) => Ok((proof.to_bytes(), c.to_bytes())),
        Err(e) => Err(format!("{:?}", e)),
    }
}

/// Calls `RangeProof::from_bytes` and reports whether it succeeded: claims `Ok` exactly
/// when `range_proof_parses` holds (the function's length and canonical-scalar checks);
/// the error is the `Debug` text of the `ProofError`.
#[verifier::external_body]
fn range_proof_check(b: &[u8]) -> (res: Result<(), String>)
    ensures
        res is Ok <==> range_proof_parses(b@),
{
    match ProofOfRange::from_bytes(b) {
        Ok(_) => Ok(()),
        Err(e) => Err(format!("{:?}", e)),
    }
}

/// Calls `RangeProof::verify_single` on the proof that `proof` encodes, with Pedersen
/// generators B = `g1`, B_blinding = `g2`, generators `BulletproofGens::new(n, 1)` and a
/// transcript started from `label`, against the compressed commitment.  Claims that a
/// valid proof is accepted (for such a proof the batched check is the identity whatever
/// weight the verifier draws); of other proofs nothing is claimed, as the verdict then
/// rests on the random weight.  The error is the `Debug` text of the `ProofError`.
#[verifier::external_body]
fn range_verify_single(
    proof: &[u8],
    g1: &[u8; 32],
    g2: &[u8; 32],
    label: &'static [u8],
    commitment: &[u8; 32],
    n: usize,
) -> (res: Result<(), String>)
    requires
        range_proof_parses(proof@),
        ristretto_decodes(g1@),
        ristretto_decodes(g2@),
    ensures
        range_proof_valid(proof@, g1@, g2@, commitment@, label@, n as nat) ==> res is Ok,
{
    let proof = ProofOfRange::from_bytes(proof).unwrap();
    let pc = PedersenGens { B: CompressedRistretto(*g1).decompress().unwrap(),
        B_blinding: CompressedRistretto(*g2).decompress().unwrap() };
    let mut t = merlin::Transcript::new(label);
    let c = CompressedRistretto(*commitment);
    match proof.verify_single(&BulletproofGens::new(n, 1), &pc, &mut t, &c, n) {
        Ok(()) => Ok(()),
        Err(e) => Err(format!("{:?}", e)),
    }
}

/// A range proof, held by its serialised bytes (which always parse).
#[derive(Debug)]
pub struct RangeProof {
    pub(crate) bytes: Vec<u8>,
}

impl View for RangeProof {
    type V = Seq<u8>;

    closed spec fn view(&self) -> Seq<u8> {
        self.bytes@
    }
}

impl RangeProof {
    #[verifier::type_invariant]
    pub open(crate) spec fn wf(self) -> bool {
        range_proof_parses(self.bytes@)
    }

    /// The serialised proof.
    pub fn to_bytes(&self) -> (r: &Vec<u8>)
        ensures
            r@ == self@,
            range_proof_parses(r@),
    {
        proof { use_type_invariant(self); }
        &self.bytes
    }
}

/// What follows the prover: the proof is kept when the commitment the prover computed is
/// `c_prime`; otherwise the prover's error, or a commitment mismatch, is reported.
pub fn finish_range_proof(prover: Result<(Vec<u8>, [u8; 32]), String>, c_prime: &Point) -> (res:
    Result<RangeProof, String>)
    requires
        prover matches Ok((p, _)) ==> range_proof_parses(p@),
    ensures
        res is Ok <==> (prover matches Ok((_, c)) && c@ == c_prime@),
        res matches Ok(rp) ==> (prover matches Ok((p, _)) && rp@ == p@),
        res matches Err(e) ==> match prover {
            Err(pe) => e@ == "prove_single failed: "@ + pe@,
            Ok(_) => e@ == "commitment mismatch: your C != v*G1 + r*G2 (or G1/G2 differ)"@,
        },
{
    match prover {
        Ok((proof_bytes, committed)) => {
            if crate::group::bytes32_eq(&committed, c_prime.as_bytes()) {
                Ok(RangeProof { bytes: proof_bytes })
            } else {
                Err(String::from_str("commitment mismatch: your C != v*G1 + r*G2 (or G1/G2 differ)"))
            }
        },
        Err(e) => Err(String::from_str("prove_single failed: ").concat(e.as_str())),
    }
}

/// Proves that `commitment_c` commits to a positive amount: a 64-bit range proof, with
/// transcript label TRANSCRIPT_TAG over G1 and G2, that C - G1 commits to v - 1 with
/// blinding r.  Fails when v is 0, when the prover fails, or when C is not v·G1 + r·G2.
pub fn create_bulletproof(commitment_c: Point, v: u64, r: Scalar) -> (res: Result<RangeProof, String>)
    ensures
        v == 0 ==> (res matches Err(e) && e@ == "cannot prove v>0 if v=0"@),
        res matches Ok(p) ==> v > 0 && commitment_of((v - 1) as nat, r.value()) == ristretto_sub(
            commitment_c@,
            g1(),
        ) && range_proof_valid(
            p@,
            g1(),
            g2(),
            ristretto_sub(commitment_c@, g1()),
            TRANSCRIPT_TAG@,
            BULLETPROOF_N_BITS as nat,
        ),
        v > 0 ==> (res matches Err(e) ==> e@ == "prove_single failed: ProvingError(MaliciousDealer)"@
            || (e@ == "commitment mismatch: your C != v*G1 + r*G2 (or G1/G2 differ)"@ && commitment_of(
            (v - 1) as nat,
            r.value(),
        ) != ristretto_sub(commitment_c@, g1()))),
        ristretto_group_laws() && v > 0 && commitment_c@ == commitment_of(v as nat, r.value()) ==> (
        res matches Err(e) ==> e@ == "prove_single failed: ProvingError(MaliciousDealer)"@),
{
    if v == 0 {
        return Err(String::from_str("cannot prove v>0 if v=0"));
    }
    if !(BULLETPROOF_N_BITS == 8 || BULLETPROOF_N_BITS == 16 || BULLETPROOF_N_BITS == 32
        || BULLETPROOF_N_BITS == 64) {
        return Err(String::from_str("n_bits must be one of {8,16,32,64}"));
    }
    let (g1p, g2p, _g_pay, _g_vrf) = setup_generators();
    let v_minus_1 = v - 1;
    let c_prime = commitment_c.sub(&g1p);
    g1p.lemma_decodes();
    g2p.lemma_decodes();
    r.lemma_canonical();
    proof {
        Scalar::lemma_value_is_le(r);
        vstd::arithmetic::power2::lemma2_to64();
        vstd::arithmetic::power2::lemma2_to64_rest();
    }
    let prover = range_prove_single(
        &g1p.to_bytes(),
        &g2p.to_bytes(),
        &TRANSCRIPT_TAG,
        v_minus_1,
        &r.to_bytes(),
        BULLETPROOF_N_BITS,
    );
    let res = finish_range_proof(prover, &c_prime);
    proof {
        reveal_strlit("prove_single failed: ");
        reveal_strlit("ProvingError(MaliciousDealer)");
        reveal_strlit("prove_single failed: ProvingError(MaliciousDealer)");
        if res is Err && prover is Err {
            let e = res->Err_0;
            assert(e@ =~= "prove_single failed: ProvingError(MaliciousDealer)"@);
        }
        if ristretto_group_laws() && commitment_c@ == commitment_of(v as nat, r.value()) {
            crate::output::lemma_commitment_minus_g1(v, r.value());
        }
    }
    res
}

/// The hex of a proof's bytes.
pub fn bulletproof_to_hex(proof: &RangeProof) -> (r: String)
    ensures
        r@ == hex_encode(proof@),
{
    bytes_to_hex(proof.to_bytes().as_slice())
}

/// The proof bytes that `bulletproof_from_hex` reads from `h`, if any.
pub open spec fn range_proof_of_hex(h: Seq<char>) -> Option<Seq<u8>> {
    match hex_to_bytes_spec(h) {
        Some(b) => if range_proof_parses(b) { Some(b) } else { None },
        None => None,
    }
}

/// `e` is the message with which `bulletproof_from_hex` rejects `h`.
pub open spec fn range_proof_hex_error(h: Seq<char>, e: Seq<char>) -> bool {
    match hex_to_bytes_spec(h) {
        Some(b) => has_prefix(e, "RangeProof::from_bytes failed: "@),
        None => hex_error(e),
    }
}

/// Reads a proof from hex (surrounding white space and one `0x` prefix are accepted);
/// fails unless the bytes parse as a range proof.
pub fn bulletproof_from_hex(proof_hex: &str) -> (r: Result<RangeProof, String>)
    ensures
        r is Ok <==> range_proof_of_hex(proof_hex@) is Some,
        r matches Ok(p) ==> range_proof_of_hex(proof_hex@) == Some(p@),
        r matches Err(e) ==> range_proof_hex_error(proof_hex@, e@),
{
    let bytes = match hex_to_bytes(proof_hex) {
        Ok(b) => b,
        Err(e) => {
            return Err(e);
        },
    };
    match range_proof_check(bytes.as_slice()) {
        Ok(()) => Ok(RangeProof { bytes }),
        Err(e) => {
            let m = String::from_str("RangeProof::from_bytes failed: ").concat(e.as_str());
            proof {
                reveal_strlit("RangeProof::from_bytes failed: ");
                assert(m@.subrange(0, "RangeProof::from_bytes failed: "@.len() as int)
                    =~= "RangeProof::from_bytes failed: "@);
            }
            Err(m)
        },
    }
}

/// Verifies the hex proof that C - G1 lies in [0, 2^64) for C = `c_diff` (64 bits, label
/// TRANSCRIPT_TAG, generators G1 and G2): fails when the hex does not decode to a proof;
/// accepts every valid proof; on other proofs the verifier's verdict is returned.
pub fn verify_bulletproof(range_proof_hex: &str, c_diff: &Point) -> (r: Result<(), String>)
    ensures
        r is Ok ==> range_proof_of_hex(range_proof_hex@) is Some,
        (range_proof_of_hex(range_proof_hex@) matches Some(p) && range_proof_valid(
            p,
            g1(),
            g2(),
            ristretto_sub(c_diff@, g1()),
            TRANSCRIPT_TAG@,
            BULLETPROOF_N_BITS as nat,
        )) ==> r is Ok,
        r matches Err(e) ==> match range_proof_of_hex(range_proof_hex@) {
            Some(_) => has_prefix(e@, "verify_single failed: "@),
            None => range_proof_hex_error(range_proof_hex@, e@),
        },
{
    let proof = match bulletproof_from_hex(range_proof_hex) {
        Ok(p) => p,
        Err(e) => {
            return Err(e);
        },
    };
    let (g1p, g2p, _g_pay, _g_vrf) = setup_generators();
    let c_prime = c_diff.sub(&g1p);
    g1p.lemma_decodes();
    g2p.lemma_decodes();
    match range_verify_single(
        proof.to_bytes().as_slice(),
        &g1p.to_bytes(),
        &g2p.to_bytes(),
        &TRANSCRIPT_TAG,
        &c_prime.to_bytes(),
        BULLETPROOF_N_BITS,
    ) {
        Ok(()) => Ok(()),
        Err(e) => {
            let m = String::from_str("verify_single failed: ").concat(e.as_str());
            proof {
                reveal_strlit("verify_single failed: ");
                assert(m@.subrange(0, "verify_single failed: "@.len() as int) =~= "verify_single failed: "@);
            }
            Err(m)
        },
    }
}

} // verus!
