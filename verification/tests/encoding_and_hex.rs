use stakenote::encoding::{u32_from_le_bytes, u32_to_le_bytes, u64_to_be_bytes, u64_to_le_bytes};
use stakenote::group::{Point, Scalar};
use stakenote::helpers::{
    bytes_to_hex, ctoption_to_result, decimal_string, hex_to_bytes, hex_to_point, hex_to_scalar, option_to_result,
    point_to_hex, ristretto_point_to_hex, scalar_to_hex,
};

const BASEPOINT_HEX: &str = "e2f2ae0a6abc4e71a884a961c500515f58e30b6aa582dd8db6a65945e08d2d76";
const ELL_HEX: &str = "edd3f55c1a631258d69cf7a2def9de1400000000000000000000000000000010";

#[test]
fn le_and_be_bytes() {
    assert_eq!(u64_to_le_bytes(0x0102030405060708), [8, 7, 6, 5, 4, 3, 2, 1]);
    assert_eq!(u64_to_be_bytes(0x0102030405060708), [1, 2, 3, 4, 5, 6, 7, 8]);
    assert_eq!(u32_to_le_bytes(0xa0b0c0d0), [0xd0, 0xc0, 0xb0, 0xa0]);
    assert_eq!(u32_from_le_bytes(&[0xd0, 0xc0, 0xb0, 0xa0]), 0xa0b0c0d0);
}

#[test]
fn bytes_to_hex_is_lower_case() {
    assert_eq!(bytes_to_hex(&[0xde, 0xad, 0xbe, 0xef, 0x00, 0x0a]), "deadbeef000a");
    assert_eq!(bytes_to_hex(&[]), "");
}

#[test]
fn hex_to_bytes_trims_and_drops_prefix() {
    assert_eq!(hex_to_bytes("  0xDEADbeef \n").unwrap(), vec![0xde, 0xad, 0xbe, 0xef]);
    assert_eq!(hex_to_bytes("0102").unwrap(), vec![1, 2]);
    assert_eq!(hex_to_bytes("").unwrap(), Vec::<u8>::new());
}

#[test]
fn hex_to_bytes_rejects_bad_hex() {
    assert_eq!(hex_to_bytes("abc").unwrap_err(), "hex decode failed: Odd number of digits");
    let e = hex_to_bytes("zz").unwrap_err();
    assert!(e.starts_with("hex decode failed: "));
    assert!(hex_to_bytes("0x0x00").is_err());
}

#[test]
fn hex_roundtrip_of_bytes() {
    let b: Vec<u8> = (0u8..=255).collect();
    assert_eq!(hex_to_bytes(&bytes_to_hex(&b)).unwrap(), b);
}

#[test]
fn basepoint_hex() {
    let b = Point::basepoint();
    assert_eq!(point_to_hex(&b), BASEPOINT_HEX);
    assert_eq!(ristretto_point_to_hex(&b), BASEPOINT_HEX);
    let p = hex_to_point(BASEPOINT_HEX).unwrap();
    assert!(p.eq_point(&b));
}

#[test]
fn hex_to_point_errors() {
    assert_eq!(hex_to_point(&"00".repeat(31)).unwrap_err(), "expected 32 bytes for point, got 31");
    assert_eq!(hex_to_point(&"ff".repeat(32)).unwrap_err(), "invalid Ristretto point encoding");
    assert!(hex_to_point("q").unwrap_err().starts_with("hex decode failed: "));
    // the identity's encoding is a valid point
    assert!(hex_to_point(&"00".repeat(32)).is_ok());
}

#[test]
fn scalar_hex_and_canonicity() {
    let one = Scalar::from_u64(1);
    let h = scalar_to_hex(&one);
    assert_eq!(h, format!("01{}", "00".repeat(31)));
    assert!(hex_to_scalar(&h).unwrap().eq_scalar(&one));
    assert_eq!(hex_to_scalar(ELL_HEX).unwrap_err(), "invalid scalar encoding");
    assert_eq!(hex_to_scalar(&"ff".repeat(32)).unwrap_err(), "invalid scalar encoding");
    assert_eq!(hex_to_scalar("0102").unwrap_err(), "expected 32 bytes for scalar, got 2");
}

#[test]
fn optional_values_as_results() {
    let some = subtle::CtOption::new(5u8, subtle::Choice::from(1u8));
    assert_eq!(ctoption_to_result(some, "missing"), Ok(5u8));
    let none = subtle::CtOption::new(5u8, subtle::Choice::from(0u8));
    assert_eq!(ctoption_to_result(none, "missing"), Err("missing".to_string()));
    assert_eq!(option_to_result(Some(3u32), "absent"), Ok(3u32));
    assert_eq!(option_to_result::<u32>(None, "absent"), Err("absent".to_string()));
}

#[test]
fn decimal_digits() {
    assert_eq!(decimal_string(0), "0");
    assert_eq!(decimal_string(7), "7");
    assert_eq!(decimal_string(10), "10");
    assert_eq!(decimal_string(1_234_567_890), "1234567890");
    assert_eq!(decimal_string(u64::MAX), u64::MAX.to_string());
}
