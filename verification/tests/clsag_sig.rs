use stakenote::clsag::{clsag_sig_from_hex, clsag_sig_to_hex, clsag_sign, clsag_verify, key_image_from_sk};
use stakenote::constants::BLOCK_PAYLOAD;
use stakenote::group::{Point, Scalar};
use stakenote::helpers::point_to_hex;
use stakenote::output::create_output;
use stakenote::structs::{BlockMsg, ClsagSig, Output, OutputPublic};
use stakenote::vrf::vk_point_from_scalar;

fn message_for(out: &Output, t: u64) -> BlockMsg {
    BlockMsg {
        payload_b: BLOCK_PAYLOAD.to_vec(),
        epoch: 7,
        slot: 3,
        vk_vrf_o: vk_point_from_scalar(out.secret.sk_pay.clone()),
        y_o: "ab".repeat(64),
        pi_y: vec![1u8; 80],
        t,
        key_image: key_image_from_sk(&out.secret.sk_pay, &out.public.vk_pay),
        range_proof: "cafe".to_string(),
    }
}

fn ring_with(out: &Output, n: usize, k: usize) -> Vec<OutputPublic> {
    let mut ring: Vec<OutputPublic> = (0..n - 1).map(|_| create_output(7).public).collect();
    ring.insert(k, out.public.clone());
    ring
}

#[test]
fn sign_then_verify() {
    let out = create_output(1000);
    let m = message_for(&out, 400);
    for (n, k) in [(1usize, 0usize), (4, 0), (4, 2), (4, 3)] {
        let ring = ring_with(&out, n, k);
        let sig = clsag_sign(&m, &ring, &out, Scalar::random()).unwrap();
        assert_eq!(sig.s_x.len(), n);
        assert!(clsag_verify(&m, &ring, &sig));
    }
}

#[test]
fn tampered_signature_fails() {
    let out = create_output(1000);
    let m = message_for(&out, 400);
    let ring = ring_with(&out, 3, 1);
    let sig = clsag_sign(&m, &ring, &out, Scalar::random()).unwrap();
    let mut m2 = m.clone();
    m2.slot = 4;
    assert!(!clsag_verify(&m2, &ring, &sig));
    let mut sig2 = sig.clone();
    sig2.c0 = sig2.c0.add(&Scalar::from_u64(1));
    assert!(!clsag_verify(&m, &ring, &sig2));
    let mut sig3 = sig.clone();
    sig3.s_x.pop();
    assert!(!clsag_verify(&m, &ring, &sig3));
    assert!(!clsag_verify(&m, &[], &sig));
    // a higher T changes D_i and breaks the ring
    let m3 = message_for(&out, 401);
    assert!(!clsag_verify(&m3, &ring, &sig));
}

#[test]
fn sign_errors() {
    let out = create_output(1000);
    let other = create_output(1000);
    let m = message_for(&out, 400);
    assert_eq!(clsag_sign(&m, &[], &out, Scalar::random()).unwrap_err(), "empty ring");
    let ring = ring_with(&other, 3, 0);
    assert_eq!(clsag_sign(&m, &ring, &out, Scalar::random()).unwrap_err(), "signer output not found in ring");
    let m_high = message_for(&out, 1001);
    let ring = ring_with(&out, 3, 0);
    assert_eq!(clsag_sign(&m_high, &ring, &out, Scalar::random()).unwrap_err(), "amount < T");
}

#[test]
fn signature_hex_roundtrip() {
    let out = create_output(50);
    let m = message_for(&out, 10);
    let ring = ring_with(&out, 5, 4);
    let sig = clsag_sign(&m, &ring, &out, Scalar::random()).unwrap();
    let h = clsag_sig_to_hex(&sig);
    assert_eq!(h.len(), 2 * (68 + 64 * 5));
    let back = clsag_sig_from_hex(&format!(" 0x{} ", h)).unwrap();
    assert_eq!(clsag_sig_to_hex(&back), h);
    assert!(clsag_verify(&m, &ring, &back));
}

#[test]
fn signature_hex_errors() {
    assert_eq!(clsag_sig_from_hex("00").unwrap_err(), "input too short");
    let bad_point = format!("{}{}{}", "ff".repeat(32), "00".repeat(32), "00000000");
    assert_eq!(clsag_sig_from_hex(&bad_point).unwrap_err(), "invalid c_diff encoding");
    let bad_c0 = format!("{}{}{}", "00".repeat(32), "ff".repeat(32), "00000000");
    assert_eq!(clsag_sig_from_hex(&bad_c0).unwrap_err(), "invalid scalar c0");
    let ok_empty = format!("{}{}{}", "00".repeat(32), "00".repeat(32), "00000000");
    let s = clsag_sig_from_hex(&ok_empty).unwrap();
    assert_eq!(s.s_x.len(), 0);
    let wrong_len = format!("{}{}{}", "00".repeat(32), "00".repeat(32), "01000000");
    assert_eq!(clsag_sig_from_hex(&wrong_len).unwrap_err(), "wrong length: got 68, expected 132 for n=1");
    let wrong_len10 = format!("{}{}{}{}", "00".repeat(32), "00".repeat(32), "0a000000", "00".repeat(40));
    assert_eq!(
        clsag_sig_from_hex(&wrong_len10).unwrap_err(),
        "wrong length: got 108, expected 708 for n=10"
    );
    assert_eq!(clsag_sig_from_hex("abc").unwrap_err(), "hex decode failed: Odd number of digits");
    let bad_sx = format!("{}{}{}{}{}", "00".repeat(32), "00".repeat(32), "01000000", "ff".repeat(32), "00".repeat(32));
    assert_eq!(clsag_sig_from_hex(&bad_sx).unwrap_err(), "invalid scalar in s_x");
    let bad_sr = format!("{}{}{}{}{}", "00".repeat(32), "00".repeat(32), "01000000", "00".repeat(32), "ff".repeat(32));
    assert_eq!(clsag_sig_from_hex(&bad_sr).unwrap_err(), "invalid scalar in s_r");
}

#[test]
fn key_image_is_deterministic() {
    let out = create_output(5);
    let a = key_image_from_sk(&out.secret.sk_pay, &out.public.vk_pay);
    let b = key_image_from_sk(&out.secret.sk_pay, &out.public.vk_pay);
    assert!(a.eq_point(&b));
    let other = key_image_from_sk(&Scalar::from_u64(1), &out.public.vk_pay);
    assert!(!a.eq_point(&other));
    let _ = point_to_hex(&a);
    let _: Option<Point> = None;
    let _: Option<ClsagSig> = None;
}
