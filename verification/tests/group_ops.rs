use stakenote::group::{Point, Scalar, sha512_of};
use stakenote::helpers::{hex_to_scalar, point_to_hex, scalar_to_hex};
use stakenote::output::setup_generators;

#[test]
fn scalar_arithmetic_mod_l() {
    let two = Scalar::from_u64(2);
    let three = Scalar::from_u64(3);
    assert!(two.add(&three).eq_scalar(&Scalar::from_u64(5)));
    assert!(two.mul(&three).eq_scalar(&Scalar::from_u64(6)));
    // 2 - 3 = l - 1
    let l_minus_1 = hex_to_scalar("ecd3f55c1a631258d69cf7a2def9de1400000000000000000000000000000010").unwrap();
    assert!(two.sub(&three).eq_scalar(&l_minus_1));
    assert!(Scalar::zero().eq_scalar(&Scalar::from_u64(0)));
    assert!(!two.eq_scalar(&three));
}

#[test]
fn scalar_from_wide_reduces() {
    let mut wide = [0u8; 64];
    wide[0] = 7;
    assert!(Scalar::from_bytes_mod_order_wide(&wide).eq_scalar(&Scalar::from_u64(7)));
    // l itself, as 64 bytes, reduces to 0
    let mut l = [0u8; 64];
    let lb = hex::decode("edd3f55c1a631258d69cf7a2def9de1400000000000000000000000000000010").unwrap();
    l[..32].copy_from_slice(&lb);
    assert!(Scalar::from_bytes_mod_order_wide(&l).eq_scalar(&Scalar::zero()));
}

#[test]
fn point_arithmetic() {
    let b = Point::basepoint();
    let two_b = b.mul(&Scalar::from_u64(2));
    assert!(b.add(&b).eq_point(&two_b));
    assert!(two_b.sub(&b).eq_point(&b));
    assert!(!two_b.eq_point(&b));
    let zero = b.mul(&Scalar::zero());
    assert_eq!(point_to_hex(&zero), "00".repeat(32));
    assert_eq!(
        point_to_hex(&two_b),
        "6a493210f7499cd17fecb510ae0cea23a110e8d5b901f8acadd3095c73a3b919"
    );
}

#[test]
fn sha512_known_value() {
    let d = sha512_of(b"abc");
    assert_eq!(
        hex::encode(d),
        "ddaf35a193617abacc417349ae20413112e6fa4e89a97ea20a9eeee64b55d39a2192992a274fc1a836ba3c23a3feebbd454d4423643ce80e2a9ac94fa54ca49f"
    );
}

#[test]
fn generators_are_distinct_and_gvrf_is_basepoint() {
    let (g1, g2, gpay, gvrf) = setup_generators();
    assert!(gvrf.eq_point(&Point::basepoint()));
    assert!(!g1.eq_point(&g2));
    assert!(!g1.eq_point(&gpay));
    assert!(!g2.eq_point(&gpay));
    let (h1, _, _, _) = setup_generators();
    assert!(g1.eq_point(&h1));
}

#[test]
fn random_scalars_differ() {
    let a = Scalar::random();
    let b = Scalar::random();
    assert!(!a.eq_scalar(&b));
    assert_eq!(scalar_to_hex(&a).len(), 64);
}
