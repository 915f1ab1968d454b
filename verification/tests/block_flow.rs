use stakenote::bulletproof::{bulletproof_from_hex, bulletproof_to_hex, create_bulletproof, finish_range_proof, verify_bulletproof};
use stakenote::clsag::clsag_verify;
use stakenote::constants::{EPOCH_NONCE, RING_SIZE};
use stakenote::execution::{check_block_vrf, create_ring, produce_block, vrf_key_of_output, vrf_output_y_bytes};
use stakenote::group::Scalar;
use stakenote::output::{amount_commitment, create_output};
use stakenote::structs::{block_from_json, block_to_json, BlockMsg, BlockMsgJson, ClsagSig, ClsagSigJson, OutputPubJson, OutputPublic};
use stakenote::vrf::{compute_vrf, create_vrf_message};

#[test]
fn range_proof_for_positive_amount() {
    let (c, r) = amount_commitment(10);
    let p = create_bulletproof(c.clone(), 10, r.clone()).unwrap();
    let h = bulletproof_to_hex(&p);
    assert!(bulletproof_from_hex(&h).is_ok());
    assert!(verify_bulletproof(&h, &c).is_ok());
    // a different commitment is rejected
    let (c2, _) = amount_commitment(10);
    assert!(verify_bulletproof(&h, &c2).unwrap_err().starts_with("verify_single failed: "));
}

#[test]
fn range_proof_errors() {
    let (c, r) = amount_commitment(0);
    assert_eq!(create_bulletproof(c, 0, r).unwrap_err(), "cannot prove v>0 if v=0");
    let (c, _) = amount_commitment(5);
    let e = create_bulletproof(c, 5, Scalar::random()).unwrap_err();
    assert_eq!(e, "commitment mismatch: your C != v*G1 + r*G2 (or G1/G2 differ)");
    assert!(bulletproof_from_hex("00").unwrap_err().starts_with("RangeProof::from_bytes failed: "));
    assert!(bulletproof_from_hex("0").unwrap_err().starts_with("hex decode failed: "));
    let (c, _) = amount_commitment(5);
    assert!(verify_bulletproof("zz", &c).unwrap_err().starts_with("hex decode failed: "));
    assert!(verify_bulletproof("00", &c).unwrap_err().starts_with("RangeProof::from_bytes failed: "));
}

#[test]
fn ring_holds_own_output() {
    let out = create_output(100);
    let ring = create_ring(&out.public);
    assert_eq!(ring.len(), RING_SIZE);
    let hits = ring
        .iter()
        .filter(|o| o.vk_pay.eq_point(&out.public.vk_pay) && o.commitment.eq_point(&out.public.commitment))
        .count();
    assert_eq!(hits, 1);
}

#[test]
fn block_round_trip() {
    let v_o = 3_750_000_000u64;
    let out = create_output(v_o);
    let key = vrf_key_of_output(&out).unwrap();
    assert_eq!(key.sk.to_bytes(), out.secret.sk_pay.to_bytes());
    let ring = create_ring(&out.public);
    let msg = create_vrf_message(EPOCH_NONCE, 1);
    let (y, proof) = compute_vrf(key.sk.clone(), &msg).unwrap();
    let t = v_o / 3;
    let block = produce_block(&out, ring, 1, y.clone(), &proof, t).unwrap();
    assert_eq!(block.msg.t, t);
    assert_eq!(block.msg.slot, 1);
    assert_eq!(block.msg.y_o, y);
    assert!(clsag_verify(&block.msg, &block.ring, &block.sig));
    assert!(verify_bulletproof(&block.msg.range_proof, &block.sig.c_diff).is_ok());
    assert_eq!(check_block_vrf(&block.msg, &msg), Ok(true));
    assert_eq!(
        check_block_vrf(&block.msg, &create_vrf_message(EPOCH_NONCE, 2)).unwrap_err(),
        "VRF proof did not verify"
    );
    let mut bad_proof = block.msg.clone();
    bad_proof.pi_y.pop();
    assert_eq!(check_block_vrf(&bad_proof, &msg).unwrap_err(), "VRF proof reconstruction failed");
    let mut other_y = block.msg.clone();
    other_y.y_o = "00".repeat(64);
    assert_eq!(check_block_vrf(&other_y, &msg), Ok(false));

    let j = block_to_json(&block);
    let back = block_from_json(j.clone()).unwrap();
    assert_eq!(block_to_json(&back), j);
    assert!(clsag_verify(&back.msg, &back.ring, &back.sig));
}

#[test]
fn block_needs_positive_difference() {
    let out = create_output(500);
    let key = vrf_key_of_output(&out).unwrap();
    let ring = create_ring(&out.public);
    let msg = create_vrf_message(EPOCH_NONCE, 9);
    let (y, proof) = compute_vrf(key.sk, &msg).unwrap();
    assert_eq!(produce_block(&out, ring, 9, y, &proof, 500).unwrap_err(), "cannot prove v>0 if v=0");
}

#[test]
fn json_conversion_errors() {
    let bad = OutputPubJson { pubkey: "00".repeat(32), stake_commitment: "zz".to_string() };
    assert!(OutputPublic::try_from(bad).unwrap_err().starts_with("hex decode failed: "));
    let both_bad = OutputPubJson { pubkey: "ff".repeat(32), stake_commitment: "00".to_string() };
    assert_eq!(OutputPublic::try_from(both_bad).unwrap_err(), "invalid Ristretto point encoding");
    let short = OutputPubJson { pubkey: "00".repeat(32), stake_commitment: "0000".to_string() };
    assert_eq!(OutputPublic::try_from(short).unwrap_err(), "expected 32 bytes for point, got 2");
    let ok = OutputPubJson { pubkey: "00".repeat(32), stake_commitment: "00".repeat(32) };
    let o = OutputPublic::try_from(ok.clone()).unwrap();
    assert_eq!(OutputPubJson::from(&o), ok);
    let sig = ClsagSigJson {
        diff_commitment: "00".repeat(32),
        c0: "00".repeat(32),
        s_x: vec!["00".repeat(32)],
        s_r: vec!["ff".repeat(32)],
    };
    assert_eq!(ClsagSig::try_from(sig.clone()).unwrap_err(), "invalid scalar encoding");
    // the lists are read before C: a bad C is reported only once the lists parse
    let sig_bad_c = ClsagSigJson { diff_commitment: "ff".repeat(32), s_r: vec!["00".repeat(32)], ..sig.clone() };
    assert_eq!(ClsagSig::try_from(sig_bad_c).unwrap_err(), "invalid Ristretto point encoding");
    let sig_bad_both = ClsagSigJson { diff_commitment: "ff".repeat(32), s_x: vec!["01".to_string()], ..sig };
    assert_eq!(ClsagSig::try_from(sig_bad_both).unwrap_err(), "expected 32 bytes for scalar, got 1");
    let m = BlockMsgJson {
        payload: "0102".to_string(),
        epoch: 1,
        slot: 2,
        vrf_pubkey: "00".repeat(32),
        vrf_output: "y".to_string(),
        vrf_proof: "0".to_string(),
        t: 3,
        key_image: "00".repeat(32),
        range_proof: "r".to_string(),
    };
    assert!(BlockMsg::try_from(m.clone()).unwrap_err().starts_with("hex decode failed: "));
    let m_bad_key = BlockMsgJson { vrf_pubkey: "ff".repeat(32), ..m.clone() };
    assert_eq!(BlockMsg::try_from(m_bad_key).unwrap_err(), "invalid Ristretto point encoding");
    let m_ok = BlockMsgJson { vrf_proof: "aa".to_string(), ..m };
    let parsed = BlockMsg::try_from(m_ok.clone()).unwrap();
    assert_eq!(parsed.payload_b, vec![1, 2]);
    assert_eq!(BlockMsgJson::from(&parsed), m_ok);
}

#[test]
fn vrf_output_prefix() {
    let h = format!("{}{}", "11".repeat(32), "22".repeat(32));
    assert_eq!(vrf_output_y_bytes(&h).unwrap(), [0x11u8; 32]);
    assert_eq!(vrf_output_y_bytes(&"11".repeat(32)).unwrap_err(), "expected 64 bytes");
    assert_eq!(vrf_output_y_bytes("zz").unwrap_err(), "bad hex");
}

#[test]
fn after_the_prover() {
    let (c, r) = amount_commitment(9);
    let p = create_bulletproof(c.clone(), 9, r).unwrap();
    let bytes = p.to_bytes().clone();
    let (g1, _, _, _) = stakenote::output::setup_generators();
    let c_prime = c.sub(&g1);
    let kept = finish_range_proof(Ok((bytes.clone(), c_prime.to_bytes())), &c_prime).unwrap();
    assert_eq!(kept.to_bytes(), &bytes);
    assert_eq!(
        finish_range_proof(Ok((bytes, c.to_bytes())), &c_prime).unwrap_err(),
        "commitment mismatch: your C != v*G1 + r*G2 (or G1/G2 differ)"
    );
    assert_eq!(
        finish_range_proof(Err("InvalidBitsize".to_string()), &c_prime).unwrap_err(),
        "prove_single failed: InvalidBitsize"
    );
}

#[test]
fn range_proof_accepted_with_prefix_and_spaces() {
    let (c, r) = amount_commitment(123_456);
    let p = create_bulletproof(c.clone(), 123_456, r).unwrap();
    let h = bulletproof_to_hex(&p);
    assert_eq!(verify_bulletproof(&format!("  0x{} \n", h), &c), Ok(()));
}

#[test]
fn range_proof_layout_checks() {
    // nine zero blocks: seven header blocks and an inner-product proof with lg_n = 0
    assert!(bulletproof_from_hex(&"00".repeat(9 * 32)).is_ok());
    assert!(bulletproof_from_hex(&"00".repeat(8 * 32)).unwrap_err().starts_with("RangeProof::from_bytes failed: "));
    assert!(bulletproof_from_hex(&"00".repeat(10 * 32)).is_err());
    assert!(bulletproof_from_hex(&format!("{}{}", "00".repeat(8 * 32), "ff".repeat(32))).is_err());
}

#[test]
fn vrf_key_of_zero_payment_key() {
    let mut out = create_output(10);
    out.secret.sk_pay = Scalar::zero();
    assert_eq!(vrf_key_of_output(&out).unwrap_err(), "invalid secret key encoding");
}
