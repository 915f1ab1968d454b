//! The computing steps of one leader-election round: building the ring, deriving the
//! VRF key from the payment key, producing the signed block once eligible, and
//! checking a block's VRF proof.  Timing, printing and the eligibility arithmetic
//! (multi-precision floating point) are left to the caller.
use vstd::prelude::*;
use vstd::utf8::encode_utf8;
use rand_core::RngCore;
use crate::bulletproof::{
    bulletproof_to_hex, create_bulletproof, range_proof_of_hex, range_proof_parses,
    range_proof_valid,
};
use crate::clsag::{clsag_sign, clsag_signed, clsag_verify_spec, hash_to_point_spec, is_first_match,
    key_image_from_sk, lemma_clsag_sign_verifies};
use crate::constants::{
    BLOCK_PAYLOAD, BULLETPROOF_N_BITS, DECOY_AMOUNT, EPOCH_NUMBER, RING_SIZE, TRANSCRIPT_TAG,
};
use crate::encoding::append_bytes;
use crate::group::{
    Point, Scalar, group_order, identity_encoding, ristretto_group_laws, ristretto_mul,
    ristretto_sub,
};
use crate::helpers::{bytes_to_hex, has_prefix, hex_decode, hex_encode, lemma_hex_roundtrip, lemma_trim_hex,
    trim, strip_0x, hex_to_bytes_spec};
use crate::output::{
    amount_commitment, commitment_of, create_output, g1, g2, gpay, gvrf, lemma_commitment_minus_g1,
    output_consistent,
};
use crate::structs::{Block, BlockMsg, BlockMsgView, Output, OutputPublic, OutputPublicView, VRFKey, ring_view};
use crate::vrf::{
    VrfProof, create_vrf_keypair_from_hex, proof_from_slice, secret_key_of_hex, valid_vrf_proof,
    valid_vrf_secret,
    vk_point_from_scalar, vrf_public_of, vrf_pubkey_from_point, vrf_verify,
};

verus! {

/// Calls `RngCore::next_u32` on the operating-system generator; nothing is claimed.
#[verifier::external_body]
fn random_u32() -> u32 {
    rand_core::OsRng.next_u32()
}

/// The public part of some consistent output of the given amount.
pub open spec fn is_output_public_of(o: OutputPublicView, amount: u64) -> bool {
    exists|sk: nat, r: nat|
        o.vk_pay == ristretto_mul(sk, gpay()) && #[trigger] o.commitment == commitment_of(
            amount as nat,
            r,
        )
}

/// A copy of an output's public part.
fn clone_output_public(o: &OutputPublic) -> (r: OutputPublic)
    ensures
        r@ == o@,
{
    OutputPublic { vk_pay: o.vk_pay.clone(), commitment: o.commitment.clone() }
}

/// A ring of RING_SIZE outputs: fresh decoy outputs of DECOY_AMOUNT, with `own` inserted
/// at a random position.
pub fn create_ring(own: &OutputPublic) -> (ring: Vec<OutputPublic>)
    ensures
        ring@.len() == RING_SIZE,
        exists|k: int|
            0 <= k < RING_SIZE && (#[trigger] ring@[k])@ == own@ && forall|i: int|
                0 <= i < RING_SIZE && i != k ==> is_output_public_of(#[trigger] ring@[i]@, DECOY_AMOUNT),
{
    let mut ring: Vec<OutputPublic> = Vec::new();
    let mut i: usize = 0;
    while i < RING_SIZE - 1
        invariant
            i <= RING_SIZE - 1,
            ring@.len() == i,
            forall|j: int| 0 <= j < i ==> is_output_public_of(#[trigger] ring@[j]@, DECOY_AMOUNT),
        decreases RING_SIZE - 1 - i,
    {
        let decoy = create_output(DECOY_AMOUNT);
        assert(is_output_public_of(decoy.public@, DECOY_AMOUNT)) by {
            assert(decoy.public@.commitment == commitment_of(DECOY_AMOUNT as nat, decoy.secret.r.value()));
        }
        ring.push(decoy.public);
        i = i + 1;
    }
    let k = (random_u32() as usize) % RING_SIZE;
    let ghost before = ring@;
    ring.insert(k, clone_output_public(own));
    assert forall|q: int| 0 <= q < RING_SIZE && q != k implies is_output_public_of(
        #[trigger] ring@[q]@,
        DECOY_AMOUNT,
    ) by {
        if q < k {
            assert(ring@[q] == before[q]);
        } else {
            assert(ring@[q] == before[q - 1]);
        }
    }
    assert(ring@[k as int]@ == own@);
    ring
}

/// The VRF key pair whose secret key is the output's payment key (read back from its
/// hex): fails only when that key is not a valid VRF secret key.
pub fn vrf_key_of_output(out: &Output) -> (r: Result<VRFKey, String>)
    ensures
        r is Ok <==> valid_vrf_secret(out.secret.sk_pay@),
        r matches Ok(k) ==> k.sk@ == out.secret.sk_pay@ && k.vk@ == vrf_public_of(
            out.secret.sk_pay@,
        ),
        r matches Err(e) ==> e@ == "invalid secret key encoding"@,
{
    let sk_bytes = out.secret.sk_pay.to_bytes();
    let sk_hex = bytes_to_hex(sk_bytes.as_slice());
    proof {
        let b = sk_bytes@;
        lemma_trim_hex(b);
        lemma_hex_roundtrip(b);
        assert(hex_decode(encode_utf8(strip_0x(hex_encode(b)))) == Some(b));
    }
    create_vrf_keypair_from_hex(sk_hex.as_str())
}

/// The bytes of a VRF proof.
fn vrf_proof_bytes(p: &VrfProof) -> (r: Vec<u8>)
    ensures
        r@ == p@,
{
    let a = p.to_bytes();
    let mut v: Vec<u8> = Vec::new();
    append_bytes(&mut v, a.as_slice());
    v
}

/// `h` is the hex of a range proof that parses and is valid, over 64 bits with label
/// TRANSCRIPT_TAG and generators G1, G2, for C - G1 with C = `c`: the proof that the
/// amount committed in C is positive.
pub open spec fn range_proof_for(h: Seq<char>, c: Seq<u8>) -> bool {
    exists|p: Seq<u8>|
        range_proof_parses(p) && #[trigger] hex_encode(p) == h && range_proof_valid(
            p,
            g1(),
            g2(),
            ristretto_sub(c, g1()),
            TRANSCRIPT_TAG@,
            BULLETPROOF_N_BITS as nat,
        )
}

/// What `produce_block` produces for a signer output `out` (payment key sk, amount v,
/// blinding r) at `slot` with VRF output `y`, proof `pi` and threshold `t`, given the
/// ring: the message fields, an unchanged ring, a range proof for the commitment C of the
/// signature (C - G1 = (v - T - 1)·G1 + ro·G2), and a signature made at the signer's
/// first ring position with the fresh blinding ro.
pub open spec fn block_produced(
    b: Block,
    out: Output,
    ring: Seq<OutputPublicView>,
    slot: u64,
    y: Seq<char>,
    pi: Seq<u8>,
    t: u64,
) -> bool {
    let sk = out.secret.sk_pay.value();
    let v = out.secret.amount;
    &&& b.msg@.payload_b == BLOCK_PAYLOAD@
    &&& b.msg@.epoch == EPOCH_NUMBER
    &&& b.msg@.slot == slot
    &&& b.msg@.vk_vrf_o == ristretto_mul(sk, gvrf())
    &&& b.msg@.y_o == y
    &&& b.msg@.pi_y == pi
    &&& b.msg@.t == t
    &&& b.msg@.key_image == ristretto_mul(sk, hash_to_point_spec(out.public.vk_pay@))
    &&& ring_view(b.ring@) == ring
    &&& range_proof_for(b.msg@.range_proof, b.sig@.c_diff)
    &&& exists|ro: nat, k: int|
        #![trigger clsag_signed(b.msg@, ring, k, sk, v, out.secret.r.value(), ro, b.sig@)]
        ro < group_order() && is_first_match(ring, out.public@, k) && clsag_signed(
            b.msg@,
            ring,
            k,
            sk,
            v,
            out.secret.r.value(),
            ro,
            b.sig@,
        ) && commitment_of((v - t - 1) as nat, ro) == ristretto_sub(b.sig@.c_diff, g1())
}

/// The range proof for an eligible slot: commits to v - T with a fresh blinding ro,
/// C = (v - T)·G1 + ro·G2, and proves that C - G1 commits to v - T - 1 (so v - T > 0).
/// Returns ro and the proof's hex.  Fails when v = T or when the prover fails.
pub fn prove_stake_difference(amount: u64, t_val: u64) -> (res: Result<(Scalar, String), String>)
    requires
        t_val <= amount,
    ensures
        t_val == amount ==> (res matches Err(e) && e@ == "cannot prove v>0 if v=0"@),
        res matches Ok((ro, h)) ==> range_proof_for(h@, commitment_of(
            (amount - t_val) as nat,
            ro.value(),
        )) && commitment_of(
            (amount - t_val - 1) as nat,
            ro.value(),
        ) == ristretto_sub(commitment_of((amount - t_val) as nat, ro.value()), g1()),
        ristretto_group_laws() && t_val < amount ==> (res matches Err(e) ==> e@
            == "prove_single failed: ProvingError(MaliciousDealer)"@),
{
    let val_t_diff = amount - t_val;
    let (t_val_commitment, ro) = amount_commitment(val_t_diff);
    let bulletproof = match create_bulletproof(t_val_commitment, val_t_diff, ro.clone()) {
        Ok(p) => p,
        Err(e) => {
            proof {
                if ristretto_group_laws() && t_val < amount {
                    lemma_commitment_minus_g1(val_t_diff, ro.value());
                }
            }
            return Err(e);
        },
    };
    let hex_proof = bulletproof_to_hex(&bulletproof);
    let proof_bytes = bulletproof.to_bytes();
    assert(range_proof_parses(proof_bytes@) && hex_encode(proof_bytes@) == hex_proof@);
    assert(range_proof_for(hex_proof@, t_val_commitment@));
    Ok((ro, hex_proof))
}

/// The signed block for an eligible slot: forms M (payload, epoch, slot, sk·GVRF, the VRF
/// output and proof, T, the key image sk·H(vk) and the range proof) and signs it over
/// the ring with the blinding ro.  Fails when the output is not in the ring or its amount
/// is below T.  With the group laws, the signature of a consistent output verifies.
pub fn sign_block(
    out: &Output,
    ring: Vec<OutputPublic>,
    slot: u64,
    vrf_output_hex: String,
    vrf_proof: &VrfProof,
    t_val: u64,
    ro: Scalar,
    range_proof_hex: String,
) -> (res: Result<Block, String>)
    ensures
        res is Ok <==> (exists|k: int| #[trigger] is_first_match(ring_view(ring@), out.public@, k))
            && out.secret.amount >= t_val,
        res matches Err(e) ==> e@ == (if ring@.len() == 0 {
            "empty ring"@
        } else if forall|k: int| !#[trigger] is_first_match(ring_view(ring@), out.public@, k) {
            "signer output not found in ring"@
        } else {
            "amount < T"@
        }),
        res matches Ok(b) ==> {
            let sk = out.secret.sk_pay.value();
            &&& b.msg@ == (BlockMsgView {
                payload_b: BLOCK_PAYLOAD@,
                epoch: EPOCH_NUMBER,
                slot,
                vk_vrf_o: ristretto_mul(sk, gvrf()),
                y_o: vrf_output_hex@,
                pi_y: vrf_proof@,
                t: t_val,
                key_image: ristretto_mul(sk, hash_to_point_spec(out.public.vk_pay@)),
                range_proof: range_proof_hex@,
            })
            &&& ring_view(b.ring@) == ring_view(ring@)
            &&& exists|k: int|
                #[trigger] is_first_match(ring_view(ring@), out.public@, k) && clsag_signed(
                    b.msg@,
                    ring_view(ring@),
                    k,
                    sk,
                    out.secret.amount,
                    out.secret.r.value(),
                    ro.value(),
                    b.sig@,
                )
            &&& output_consistent(*out) && ristretto_group_laws() ==> clsag_verify_spec(
                b.msg@,
                ring_view(b.ring@),
                b.sig@,
            )
        },
{
    let ghost rv = ring_view(ring@);
    let vk_vrf_o = vk_point_from_scalar(out.secret.sk_pay.clone());
    let key_image = key_image_from_sk(&out.secret.sk_pay, &out.public.vk_pay);
    let mut payload_b: Vec<u8> = Vec::new();
    append_bytes(&mut payload_b, BLOCK_PAYLOAD.as_slice());
    let m = BlockMsg {
        payload_b,
        epoch: EPOCH_NUMBER,
        slot,
        vk_vrf_o,
        y_o: vrf_output_hex,
        pi_y: vrf_proof_bytes(vrf_proof),
        t: t_val,
        key_image,
        range_proof: range_proof_hex,
    };
    ro.lemma_canonical();
    out.secret.sk_pay.lemma_canonical();
    out.secret.r.lemma_canonical();
    let ghost rov = ro.value();
    let sig = match clsag_sign(&m, ring.as_slice(), out, ro) {
        Ok(sig) => sig,
        Err(e) => {
            return Err(e);
        },
    };
    let b = Block { msg: m, ring, sig };
    proof {
        let sk = out.secret.sk_pay.value();
        let v = out.secret.amount;
        let k = choose|k: int| #[trigger] is_first_match(rv, out.public@, k) && clsag_signed(
            b.msg@, rv, k, sk, v, out.secret.r.value(), rov, b.sig@);
        if output_consistent(*out) && ristretto_group_laws() {
            assert(rv[k] == out.public@);
            lemma_clsag_sign_verifies(b.msg@, rv, k, sk, v, out.secret.r.value(), rov, b.sig@);
        }
    }
    Ok(b)
}

/// The block for an eligible slot: `prove_stake_difference` then `sign_block`.
pub fn produce_block(
    out: &Output,
    ring: Vec<OutputPublic>,
    slot: u64,
    vrf_output_hex: String,
    vrf_proof: &VrfProof,
    t_val: u64,
) -> (res: Result<Block, String>)
    requires
        t_val <= out.secret.amount,
    ensures
        t_val == out.secret.amount ==> (res matches Err(e) && e@ == "cannot prove v>0 if v=0"@),
        (forall|k: int| !#[trigger] is_first_match(ring_view(ring@), out.public@, k)) ==> res is Err,
        res matches Ok(b) ==> block_produced(b, *out, ring_view(ring@), slot, vrf_output_hex@,
            vrf_proof@, t_val),
        res matches Ok(b) ==> (output_consistent(*out) && ristretto_group_laws() ==> clsag_verify_spec(
            b.msg@,
            ring_view(b.ring@),
            b.sig@,
        )),
        ristretto_group_laws() && t_val < out.secret.amount && (exists|k: int|
            #[trigger] is_first_match(ring_view(ring@), out.public@, k)) ==> (res matches Err(e)
            ==> e@ == "prove_single failed: ProvingError(MaliciousDealer)"@),
{
    let ghost rv = ring_view(ring@);
    let ghost y = vrf_output_hex@;
    let (ro, hex_proof) = match prove_stake_difference(out.secret.amount, t_val) {
        Ok(x) => x,
        Err(e) => {
            return Err(e);
        },
    };
    let ghost rov = ro.value();
    ro.lemma_canonical();
    let b = match sign_block(out, ring, slot, vrf_output_hex, vrf_proof, t_val, ro, hex_proof) {
        Ok(b) => b,
        Err(e) => {
            return Err(e);
        },
    };
    proof {
        let sk = out.secret.sk_pay.value();
        let v = out.secret.amount;
        let k = choose|k: int| #[trigger] is_first_match(rv, out.public@, k) && clsag_signed(
            b.msg@, rv, k, sk, v, out.secret.r.value(), rov, b.sig@);
        assert(is_first_match(rv, out.public@, k) && clsag_signed(b.msg@, rv, k, sk, v,
            out.secret.r.value(), rov, b.sig@) && commitment_of((v - t_val - 1) as nat, rov)
            == ristretto_sub(b.sig@.c_diff, g1()));
        assert(block_produced(b, *out, rv, slot, y, vrf_proof@, t_val));
    }
    Ok(b)
}

/// What checking a block's VRF proof for the input `alpha` gives: nothing when the
/// message's VRF key is the identity, its proof bytes do not parse, or the proof is
/// rejected; otherwise whether the hex of the VRF output is the message's y_o.
pub open spec fn block_vrf_check(msg: BlockMsgView, alpha: Seq<u8>) -> Option<bool> {
    if msg.vk_vrf_o != identity_encoding() && valid_vrf_proof(msg.pi_y) {
        match vrf_verify(msg.vk_vrf_o, alpha, msg.pi_y) {
            Some(beta) => Some(hex_encode(beta) == msg.y_o),
            None => None,
        }
    } else {
        None
    }
}

/// Checks a block's VRF proof for the VRF input `vrf_input`: fails when the message's VRF
/// key is the identity, when its proof bytes do not parse, or when the proof does not
/// verify; otherwise tells whether the hex of the VRF output is the message's y_o.
pub fn check_block_vrf(msg: &BlockMsg, vrf_input: &[u8]) -> (r: Result<bool, String>)
    ensures
        r is Ok <==> block_vrf_check(msg@, vrf_input@) is Some,
        r matches Ok(same) ==> block_vrf_check(msg@, vrf_input@) == Some(same),
        r matches Err(e) ==> if msg@.vk_vrf_o == identity_encoding() {
            e@ == "invalid VRF public key"@
        } else if !valid_vrf_proof(msg@.pi_y) {
            e@ == "VRF proof reconstruction failed"@
        } else {
            e@ == "VRF proof did not verify"@
        },
{
    let vk_pubkey = match vrf_pubkey_from_point(&msg.vk_vrf_o) {
        Some(k) => k,
        None => {
            return Err(String::from_str("invalid VRF public key"));
        },
    };
    let vrf_proof = match proof_from_slice(msg.pi_y.as_slice()) {
        Some(p) => p,
        None => {
            return Err(String::from_str("VRF proof reconstruction failed"));
        },
    };
    match vk_pubkey.verify(vrf_input, &vrf_proof) {
        Some(beta) => {
            let beta_hex = bytes_to_hex(beta.as_slice());
            let same = beta_hex == msg.y_o;
            Ok(same)
        },
        None => Err(String::from_str("VRF proof did not verify")),
    }
}

/// A round's block passes its VRF check: when the VRF key is the payment key sk (a valid
/// VRF secret key) and the block was produced with the output and proof that
/// `compute_vrf` returned for the input, checking the block's VRF proof for that input
/// succeeds and finds the published output.
pub proof fn lemma_round_vrf_checks(
    out: Output,
    alpha: Seq<u8>,
    y: Seq<char>,
    pi: Seq<u8>,
    b: Block,
    ring: Seq<OutputPublicView>,
    slot: u64,
    t: u64,
)
    requires
        valid_vrf_secret(out.secret.sk_pay@),
        valid_vrf_proof(pi),
        vrf_verify(vrf_public_of(out.secret.sk_pay@), alpha, pi) is Some,
        y == hex_encode(vrf_verify(vrf_public_of(out.secret.sk_pay@), alpha, pi).unwrap()),
        block_produced(b, out, ring, slot, y, pi, t),
    ensures
        block_vrf_check(b.msg@, alpha) == Some(true),
{
    Scalar::lemma_value_is_le(out.secret.sk_pay);
}

/// A round's block passes its range-proof check: the range proof in a produced block
/// reads back from its hex and is valid for C - G1, where C is the signature's difference
/// commitment, which is what `verify_bulletproof` accepts.
pub proof fn lemma_round_range_proof_checks(
    out: Output,
    b: Block,
    ring: Seq<OutputPublicView>,
    slot: u64,
    y: Seq<char>,
    pi: Seq<u8>,
    t: u64,
)
    requires
        block_produced(b, out, ring, slot, y, pi, t),
    ensures
        range_proof_of_hex(b.msg@.range_proof) matches Some(p) && range_proof_valid(
            p,
            g1(),
            g2(),
            ristretto_sub(b.sig@.c_diff, g1()),
            TRANSCRIPT_TAG@,
            BULLETPROOF_N_BITS as nat,
        ),
{
    let p = choose|p: Seq<u8>|
        range_proof_parses(p) && #[trigger] hex_encode(p) == b.msg@.range_proof && range_proof_valid(
            p,
            g1(),
            g2(),
            ristretto_sub(b.sig@.c_diff, g1()),
            TRANSCRIPT_TAG@,
            BULLETPROOF_N_BITS as nat,
        );
    lemma_hex_roundtrip(p);
}

/// The first 32 bytes of a 64-byte VRF output given in hex (the value compared against
/// the eligibility threshold); fails unless the hex decodes to exactly 64 bytes.
pub fn vrf_output_y_bytes(beta_hex: &str) -> (r: Result<[u8; 32], String>)
    ensures
        r is Ok <==> (hex_decode(encode_utf8(beta_hex@)) matches Some(b) && b.len() == 64),
        r matches Ok(y) ==> y@ == hex_decode(encode_utf8(beta_hex@)).unwrap().subrange(0, 32),
        r matches Err(e) ==> e@ == (if hex_decode(encode_utf8(beta_hex@)) is None {
            "bad hex"@
        } else {
            "expected 64 bytes"@
        }),
{
    let beta = match crate::vrf::hex_decode_plain(beta_hex) {
        Some(b) => b,
        None => {
            return Err(String::from_str("bad hex"));
        },
    };
    if beta.len() != 64 {
        return Err(String::from_str("expected 64 bytes"));
    }
    Ok(crate::encoding::array32_at(beta.as_slice(), 0))
}

} // verus!
