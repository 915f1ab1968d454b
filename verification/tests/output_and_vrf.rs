use stakenote::constants::{EPOCH_NONCE, TOTAL_STAKE};
use stakenote::group::{Point, Scalar};
use stakenote::output::{amount_commitment, amount_from_basis_points, basis_points_of, create_output, setup_generators};
use stakenote::vrf::{
    compute_vrf, create_vrf_keypair_from_hex, create_vrf_message, proof_from_slice, vk_point_from_scalar,
    vrf_pubkey_from_point, PublicKey, SecretKey,
};
use stakenote::helpers::hex_to_scalar;

const TV_SK: &str = "3431c2b03533e280b23232e280b34e2c3132c2b03238e280b23131e280b34500";
const TV_PK: &str = "54136cd90d99fbd1d4e855d9556efea87ba0337f2a6ce22028d0f5726fcb854e";
const TV_ALPHA: &str = "633273702e6f72672f7672662d72323535";
const TV_PI: &str = "0a97d961262fb549b4175c5117860f42ae44a123f93c476c439eddd1c0cff9265c805525233e2284dbed45e593b8eea31d5ca9734d72bcbba9738d5237f955f3b2422351149d1312503b6441a47c940c";
const TV_BETA: &str = "dd653f0879b48c3ef69e13551239bec4cbcc1c18fe8894de2e9e1c790e18273603bf1c6c25d7a797aeff3c43fd32b974d3fcbd4bcce916007097922a3ea3a794";

#[test]
fn basis_points_of_total_stake() {
    assert_eq!(amount_from_basis_points(TOTAL_STAKE, 3000), 3_750_000_000);
    assert_eq!(amount_from_basis_points(TOTAL_STAKE, 500), 625_000_000);
    assert_eq!(amount_from_basis_points(TOTAL_STAKE, 10_000), TOTAL_STAKE);
    assert_eq!(amount_from_basis_points(TOTAL_STAKE, 0), 0);
}

#[test]
fn basis_points_round_to_nearest() {
    assert_eq!(amount_from_basis_points(1, 4_999), 0);
    assert_eq!(amount_from_basis_points(1, 5_000), 1);
    assert_eq!(amount_from_basis_points(3, 5_000), 2);
    assert_eq!(amount_from_basis_points(u64::MAX, 10_000), u64::MAX);
}

#[test]
fn basis_points_of_share() {
    assert_eq!(basis_points_of(3_750_000_000, 12_500_000_000), 3000);
    assert_eq!(basis_points_of(1, 3), 3333);
    assert_eq!(basis_points_of(0, 7), 0);
    assert_eq!(basis_points_of(7, 7), 10_000);
    assert_eq!(basis_points_of(u64::MAX, 1), ((u64::MAX as u128) * 10_000) as u64);
}

#[test]
fn vrf_message_layout() {
    let m = create_vrf_message(EPOCH_NONCE, 1);
    assert_eq!(m, b"nonce\x00\x00\x00\x00\x00\x00\x00\x01".to_vec());
    let m = create_vrf_message("", 0x0102030405060708);
    assert_eq!(m, vec![1, 2, 3, 4, 5, 6, 7, 8]);
}

#[test]
fn commitment_opens() {
    let (g1, g2, _, _) = setup_generators();
    let (c, r) = amount_commitment(42);
    let expected = g1.mul(&Scalar::from_u64(42)).add(&g2.mul(&r));
    assert!(c.eq_point(&expected));
}

#[test]
fn output_is_consistent() {
    let (g1, g2, gpay, _) = setup_generators();
    let o = create_output(1234);
    assert_eq!(o.secret.amount, 1234);
    assert!(o.public.vk_pay.eq_point(&gpay.mul(&o.secret.sk_pay)));
    let c = g1.mul(&Scalar::from_u64(1234)).add(&g2.mul(&o.secret.r));
    assert!(o.public.commitment.eq_point(&c));
}

#[test]
fn vrf_test_vector() {
    let k = create_vrf_keypair_from_hex(TV_SK).unwrap();
    assert_eq!(hex::encode(k.vk.to_bytes()), TV_PK);
    let alpha = hex::decode(TV_ALPHA).unwrap();
    let (beta_hex, proof) = compute_vrf(k.sk.clone(), &alpha).unwrap();
    assert_eq!(beta_hex, TV_BETA);
    assert_eq!(hex::encode(proof.to_bytes()), TV_PI);
    let p2 = proof_from_slice(&hex::decode(TV_PI).unwrap()).unwrap();
    assert_eq!(k.vk.verify(&alpha, &p2).map(hex::encode), Some(TV_BETA.to_string()));
    assert!(k.vk.verify(b"other input", &p2).is_none());
}

#[test]
fn vrf_key_hex_forms() {
    assert!(create_vrf_keypair_from_hex(&format!("0x{}", TV_SK)).is_ok());
    assert_eq!(create_vrf_keypair_from_hex("00").unwrap_err(), "expected 32 bytes, got 1");
    assert_eq!(create_vrf_keypair_from_hex(&"00".repeat(32)).unwrap_err(), "invalid secret key encoding");
    assert!(create_vrf_keypair_from_hex("xyz").unwrap_err().starts_with("hex decode failed: "));
    // no trimming for secret keys
    assert!(create_vrf_keypair_from_hex(&format!(" {}", TV_SK)).is_err());
}

#[test]
fn vrf_public_key_is_sk_times_basepoint() {
    let s = hex_to_scalar(TV_SK).unwrap();
    let p = vk_point_from_scalar(s);
    assert_eq!(hex::encode(p.to_bytes()), TV_PK);
    let pk = vrf_pubkey_from_point(&p).unwrap();
    assert_eq!(hex::encode(pk.to_bytes()), TV_PK);
    let sk = SecretKey::from_bytes(hex::decode(TV_SK).unwrap().try_into().unwrap()).unwrap();
    assert_eq!(PublicKey::from(&sk).to_bytes(), pk.to_bytes());
    let id = Point::basepoint().mul(&Scalar::zero());
    assert!(vrf_pubkey_from_point(&id).is_none());
}

#[test]
fn vrf_proof_parsing() {
    assert!(proof_from_slice(&[0u8; 79]).is_none());
    let mut bad = hex::decode(TV_PI).unwrap();
    for b in bad[48..80].iter_mut() {
        *b = 0xff;
    }
    assert!(proof_from_slice(&bad).is_none());
}

#[test]
fn vrf_inputs_are_distinct_and_ordered_by_slot() {
    let a = create_vrf_message(EPOCH_NONCE, 1);
    let b = create_vrf_message(EPOCH_NONCE, 2);
    let c = create_vrf_message(EPOCH_NONCE, 256);
    assert!(a < b && b < c);
    assert_ne!(create_vrf_message("nonce", 1), create_vrf_message("nonc", 1));
    assert_eq!(create_vrf_message("p", 7), create_vrf_message("p", 7));
    assert!(create_vrf_message("p", u64::MAX - 1) < create_vrf_message("p", u64::MAX));
}
