//! Hex helpers: lower-case hex encoding (by the `hex` crate), tolerant hex decoding
//! (surrounding whitespace and an optional `0x` prefix are accepted), and the hex
//! forms of points and scalars.
use vstd::prelude::*;
use vstd::utf8::{encode_utf8, is_ascii_chars, is_ascii_chars_encode_utf8};
use crate::encoding::array32_from_slice;
use crate::group::{Point, Scalar, ristretto_decodes, group_order, is_canonical_scalar};
use crate::encoding::le_nat;

verus! {

// ---------------------------------------------------------------------------
// Specification
// ---------------------------------------------------------------------------

/// Characters with the Unicode `White_Space` property (what `char::is_whitespace` accepts).
pub open spec fn is_white_space(c: char) -> bool {
    ||| '\u{9}' <= c <= '\u{d}'
    ||| c == ' '
    ||| c == '\u{85}'
    ||| c == '\u{a0}'
    ||| c == '\u{1680}'
    ||| '\u{2000}' <= c <= '\u{200a}'
    ||| c == '\u{2028}'
    ||| c == '\u{2029}'
    ||| c == '\u{202f}'
    ||| c == '\u{205f}'
    ||| c == '\u{3000}'
}

/// `s` without its leading white space.
pub open spec fn trim_start(s: Seq<char>) -> Seq<char>
    decreases s.len(),
{
    if s.len() > 0 && is_white_space(s[0]) {
        trim_start(s.drop_first())
    } else {
        s
    }
}

/// `s` without its trailing white space.
pub open spec fn trim_end(s: Seq<char>) -> Seq<char>
    decreases s.len(),
{
    if s.len() > 0 && is_white_space(s.last()) {
        trim_end(s.drop_last())
    } else {
        s
    }
}

/// `s` without leading and trailing white space (`str::trim`).
pub open spec fn trim(s: Seq<char>) -> Seq<char> {
    trim_end(trim_start(s))
}

/// `s` without a leading `0x`, if it has one.
pub open spec fn strip_0x(s: Seq<char>) -> Seq<char> {
    if s.len() >= 2 && s[0] == '0' && s[1] == 'x' {
        s.skip(2)
    } else {
        s
    }
}

/// The lower-case hex digit of a nibble.
pub open spec fn hex_digit(v: nat) -> char {
    if v < 10 {
        (48 + v) as char
    } else {
        (87 + v) as char
    }
}

/// Lower-case hex encoding: two digits per byte, high nibble first.
pub open spec fn hex_encode(b: Seq<u8>) -> Seq<char>
    decreases b.len(),
{
    if b.len() == 0 {
        seq![]
    } else {
        seq![hex_digit(b[0] as nat / 16), hex_digit(b[0] as nat % 16)] + hex_encode(b.drop_first())
    }
}

/// The value of a hex digit byte (either case), if it is one.
pub open spec fn hex_value(c: u8) -> Option<nat> {
    if 48 <= c <= 57 {
        Some((c - 48) as nat)
    } else if 97 <= c <= 102 {
        Some((c - 87) as nat)
    } else if 65 <= c <= 70 {
        Some((c - 55) as nat)
    } else {
        None
    }
}

/// Decodes pairs of hex digit bytes.
pub open spec fn hex_decode_pairs(s: Seq<u8>) -> Option<Seq<u8>>
    decreases s.len(),
{
    if s.len() < 2 {
        if s.len() == 0 { Some(seq![]) } else { None }
    } else {
        match (hex_value(s[0]), hex_value(s[1]), hex_decode_pairs(s.skip(2))) {
            (Some(h), Some(l), Some(rest)) => Some(seq![(h * 16 + l) as u8] + rest),
            _ => None,
        }
    }
}

/// Hex decoding of the bytes of a string (`hex::decode`): defined exactly when the
/// length is even and every byte is a hex digit of either case.
pub open spec fn hex_decode(s: Seq<u8>) -> Option<Seq<u8>> {
    if s.len() % 2 == 1 {
        None
    } else {
        hex_decode_pairs(s)
    }
}

/// What `hex_to_bytes` decodes a string to: trim, drop one `0x`, decode.
pub open spec fn hex_to_bytes_spec(h: Seq<char>) -> Option<Seq<u8>> {
    hex_decode(encode_utf8(strip_0x(trim(h))))
}

/// A valid point encoding: 32 bytes that decode.
pub open spec fn valid_point(b: Seq<u8>) -> bool {
    b.len() == 32 && ristretto_decodes(b)
}

/// The point encoding that `hex_to_point` reads from `h`, if any.
pub open spec fn point_of_hex(h: Seq<char>) -> Option<Seq<u8>> {
    match hex_to_bytes_spec(h) {
        Some(b) => if valid_point(b) { Some(b) } else { None },
        None => None,
    }
}

/// The scalar encoding that `hex_to_scalar` reads from `h`, if any.
pub open spec fn scalar_of_hex(h: Seq<char>) -> Option<Seq<u8>> {
    match hex_to_bytes_spec(h) {
        Some(b) => if is_canonical_scalar(b) { Some(b) } else { None },
        None => None,
    }
}

/// `t` begins with `p`.
pub open spec fn has_prefix(t: Seq<char>, p: Seq<char>) -> bool {
    t.len() >= p.len() && t.subrange(0, p.len() as int) == p
}

/// The decimal digits of `n`, without leading zeros (how `Display` writes an integer).
pub open spec fn decimal(n: nat) -> Seq<char>
    decreases n,
{
    if n < 10 {
        seq![(48 + n) as char]
    } else {
        decimal(n / 10).push((48 + n % 10) as char)
    }
}

/// `e` is the message with which `hex_to_bytes` rejects `h`.
pub open spec fn hex_error(e: Seq<char>) -> bool {
    has_prefix(e, "hex decode failed: "@)
}

/// The message with which `hex_to_point` rejects decoded bytes `b`.
pub open spec fn point_bytes_error(b: Seq<u8>) -> Seq<char> {
    if b.len() != 32 {
        "expected 32 bytes for point, got "@ + decimal(b.len())
    } else {
        "invalid Ristretto point encoding"@
    }
}

/// `e` is the message with which `hex_to_point` rejects `h`.
pub open spec fn point_hex_error(h: Seq<char>, e: Seq<char>) -> bool {
    match hex_to_bytes_spec(h) {
        Some(b) => e == point_bytes_error(b),
        None => hex_error(e),
    }
}

/// The message with which `hex_to_scalar` rejects decoded bytes `b`.
pub open spec fn scalar_bytes_error(b: Seq<u8>) -> Seq<char> {
    if b.len() != 32 {
        "expected 32 bytes for scalar, got "@ + decimal(b.len())
    } else {
        "invalid scalar encoding"@
    }
}

/// `e` is the message with which `hex_to_scalar` rejects `h`.
pub open spec fn scalar_hex_error(h: Seq<char>, e: Seq<char>) -> bool {
    match hex_to_bytes_spec(h) {
        Some(b) => e == scalar_bytes_error(b),
        None => hex_error(e),
    }
}


// ---------------------------------------------------------------------------
// Round trip of the hex codec
// ---------------------------------------------------------------------------

/// Hex digit characters are ASCII and their byte is decoded back to the nibble.
proof fn lemma_hex_digit(v: nat)
    requires
        v < 16,
    ensures
        '\0' <= hex_digit(v) <= '\u{7f}',
        !is_white_space(hex_digit(v)),
        hex_digit(v) != 'x',
        hex_value(hex_digit(v) as u8) == Some(v),
{
    if v < 10 {
        assert((48 + v) as char as u8 == 48 + v);
    } else {
        assert((87 + v) as char as u8 == 87 + v);
    }
}

/// The shape of a hex encoding: two digits per byte.
proof fn lemma_hex_encode_shape(b: Seq<u8>)
    ensures
        hex_encode(b).len() == 2 * b.len(),
        forall|k: int|
            0 <= k < b.len() ==> #[trigger] hex_encode(b)[2 * k] == hex_digit(b[k] as nat / 16)
                && hex_encode(b)[2 * k + 1] == hex_digit(b[k] as nat % 16),
    decreases b.len(),
{
    if b.len() > 0 {
        let t = b.drop_first();
        lemma_hex_encode_shape(t);
        let r = hex_encode(t);
        let head = seq![hex_digit(b[0] as nat / 16), hex_digit(b[0] as nat % 16)];
        assert(hex_encode(b) == head + r);
        assert forall|k: int| 0 <= k < b.len() implies #[trigger] hex_encode(b)[2 * k] == hex_digit(
            b[k] as nat / 16,
        ) && hex_encode(b)[2 * k + 1] == hex_digit(b[k] as nat % 16) by {
            if k > 0 {
                assert(t[k - 1] == b[k]);
                assert(r[2 * (k - 1)] == hex_digit(t[k - 1] as nat / 16));
                assert(r[2 * (k - 1) + 1] == hex_digit(t[k - 1] as nat % 16));
                assert(hex_encode(b)[2 * k] == r[2 * (k - 1)]);
                assert(hex_encode(b)[2 * k + 1] == r[2 * (k - 1) + 1]);
            }
        }
    }
}

/// Every character of a hex encoding is a hex digit.
proof fn lemma_hex_encode_chars(b: Seq<u8>)
    ensures
        forall|i: int|
            0 <= i < hex_encode(b).len() ==> exists|v: nat| v < 16 && #[trigger] hex_encode(b)[i]
                == hex_digit(v),
{
    lemma_hex_encode_shape(b);
    assert forall|i: int| 0 <= i < hex_encode(b).len() implies exists|v: nat|
        v < 16 && #[trigger] hex_encode(b)[i] == hex_digit(v) by {
        let k = i / 2;
        assert(hex_encode(b)[2 * k] == hex_digit(b[k] as nat / 16));
        if i % 2 == 0 {
            assert(i == 2 * k);
            assert(hex_encode(b)[i] == hex_digit(b[k] as nat / 16));
        } else {
            assert(i == 2 * k + 1);
            assert(hex_encode(b)[i] == hex_digit(b[k] as nat % 16));
        }
    }
}

/// Decoding pairs of digit bytes laid out as in a hex encoding gives the bytes back.
proof fn lemma_hex_decode_pairs_of(s: Seq<u8>, b: Seq<u8>)
    requires
        s.len() == 2 * b.len(),
        forall|k: int|
            0 <= k < b.len() ==> #[trigger] s[2 * k] == hex_digit(b[k] as nat / 16) as u8 && s[2
                * k + 1] == hex_digit(b[k] as nat % 16) as u8,
    ensures
        hex_decode_pairs(s) == Some(b),
    decreases b.len(),
{
    if b.len() > 0 {
        let t = s.skip(2);
        let c = b.drop_first();
        assert forall|k: int| 0 <= k < c.len() implies #[trigger] t[2 * k] == hex_digit(
            c[k] as nat / 16,
        ) as u8 && t[2 * k + 1] == hex_digit(c[k] as nat % 16) as u8 by {
            assert(s[2 * (k + 1)] == hex_digit(b[k + 1] as nat / 16) as u8);
        }
        lemma_hex_decode_pairs_of(t, c);
        assert(s[2 * 0int] == hex_digit(b[0] as nat / 16) as u8);
        lemma_hex_digit(b[0] as nat / 16);
        lemma_hex_digit(b[0] as nat % 16);
        assert((b[0] as nat / 16 * 16 + b[0] as nat % 16) as u8 == b[0]);
        assert(b =~= seq![b[0]] + c);
    } else {
        assert(s.len() == 0);
    }
}

/// A hex encoding is unchanged by trimming.
pub proof fn lemma_trim_hex(b: Seq<u8>)
    ensures
        trim(hex_encode(b)) == hex_encode(b),
        strip_0x(hex_encode(b)) == hex_encode(b),
{
    let e = hex_encode(b);
    lemma_hex_encode_chars(b);
    if e.len() > 0 {
        let v0 = choose|v: nat| v < 16 && e[0] == hex_digit(v);
        lemma_hex_digit(v0);
        let vl = choose|v: nat| v < 16 && e[e.len() - 1] == hex_digit(v);
        lemma_hex_digit(vl);
    }
    assert(trim_start(e) == e);
    assert(trim_end(e) == e);
    if e.len() >= 2 {
        let v1 = choose|v: nat| v < 16 && e[1] == hex_digit(v);
        lemma_hex_digit(v1);
    }
}

/// Decoding a hex encoding (as `hex_to_bytes` does) gives the bytes back.
pub proof fn lemma_hex_roundtrip(b: Seq<u8>)
    ensures
        hex_to_bytes_spec(hex_encode(b)) == Some(b),
{
    let e = hex_encode(b);
    lemma_trim_hex(b);
    lemma_hex_encode_shape(b);
    lemma_hex_encode_chars(b);
    assert(is_ascii_chars(e)) by {
        assert forall|i: int| 0 <= i < e.len() implies '\0' <= #[trigger] e[i] <= '\u{7f}' by {
            let v = choose|v: nat| v < 16 && e[i] == hex_digit(v);
            lemma_hex_digit(v);
        }
    }
    is_ascii_chars_encode_utf8(e);
    let s = encode_utf8(e);
    assert forall|k: int| 0 <= k < b.len() implies #[trigger] s[2 * k] == hex_digit(
        b[k] as nat / 16,
    ) as u8 && s[2 * k + 1] == hex_digit(b[k] as nat % 16) as u8 by {
        assert(e[2 * k] == hex_digit(b[k] as nat / 16));
        assert(s[2 * k] == e[2 * k] as u8);
        assert(s[2 * k + 1] == e[2 * k + 1] as u8);
    }
    lemma_hex_decode_pairs_of(s, b);
    assert(s.len() % 2 == 0);
}

// ---------------------------------------------------------------------------
// Calls into `hex` and std
// ---------------------------------------------------------------------------

/// Calls `hex::encode`; claims the lower-case hex encoding of the bytes.
#[verifier::external_body]
fn hex_encode_string(b: &[u8]) -> (r: String)
    ensures
        r@ == hex_encode(b@),
{
    hex::encode(b)
}

/// Calls `hex::decode` on the bytes of `s`; claims success exactly when `hex_decode`
/// is defined, with its value, and that an odd length is reported as
/// "Odd number of digits" (the error's `Display` text, returned as the message).
#[verifier::external_body]
pub(crate) fn hex_decode_str(s: &str) -> (r: Result<Vec<u8>, String>)
    ensures
        match r {
            Ok(v) => hex_decode(encode_utf8(s@)) == Some(v@),
            Err(e) => hex_decode(encode_utf8(s@)) is None && (encode_utf8(s@).len() % 2 == 1
                ==> e@ == "Odd number of digits"@),
        },
{
    match hex::decode(s) {
        Ok(v) => Ok(v),
        Err(e) => Err(e.to_string()),
    }
}

/// Calls `str::trim`; claims the string without leading and trailing `White_Space`.
#[verifier::external_body]
fn str_trim(s: &str) -> (r: &str)
    ensures
        r@ == trim(s@),
{
    s.trim()
}

/// Calls `str::strip_prefix` with a string pattern; claims the rest of `s` after `p`
/// exactly when `s` begins with `p`.
#[verifier::external_body]
pub(crate) fn str_strip_prefix<'a>(s: &'a str, p: &str) -> (r: Option<&'a str>)
    ensures
        r is Some <==> has_prefix(s@, p@),
        r matches Some(t) ==> t@ == s@.skip(p@.len() as int),
{
    s.strip_prefix(p)
}

/// The decimal digit `d` as a one-character string.
fn digit_str(d: u64) -> (r: &'static str)
    requires
        d < 10,
    ensures
        r@ == seq![(48 + d) as char],
{
    let r = match d {
        0 => "0",
        1 => "1",
        2 => "2",
        3 => "3",
        4 => "4",
        5 => "5",
        6 => "6",
        7 => "7",
        8 => "8",
        _ => "9",
    };
    proof {
        reveal_strlit("0");
        reveal_strlit("1");
        reveal_strlit("2");
        reveal_strlit("3");
        reveal_strlit("4");
        reveal_strlit("5");
        reveal_strlit("6");
        reveal_strlit("7");
        reveal_strlit("8");
        reveal_strlit("9");
    }
    r
}

/// The decimal digits of `n`, without leading zeros (what `Display` writes for it).
pub fn decimal_string(n: u64) -> (r: String)
    ensures
        r@ == decimal(n as nat),
    decreases n,
{
    if n < 10 {
        String::from_str(digit_str(n))
    } else {
        let s = decimal_string(n / 10);
        let r = s.concat(digit_str(n % 10));
        assert(r@ =~= decimal((n / 10) as nat).push((48 + n % 10) as char));
        r
    }
}

/// `prefix` followed by the decimal digits of `n`.
pub(crate) fn message_with_number(prefix: &str, n: usize) -> (r: String)
    ensures
        r@ == prefix@ + decimal(n as nat),
{
    String::from_str(prefix).concat(decimal_string(n as u64).as_str())
}

// ---------------------------------------------------------------------------
// Public helpers
// ---------------------------------------------------------------------------

/// Lower-case hex encoding of bytes.
pub fn bytes_to_hex(b: &[u8]) -> (r: String)
    ensures
        r@ == hex_encode(b@),
{
    hex_encode_string(b)
}

/// Decodes hex, after trimming surrounding white space and dropping one `0x` prefix.
/// Fails, with a message beginning "hex decode failed: ", exactly when that is not
/// hex of even length.
pub fn hex_to_bytes(h: &str) -> (r: Result<Vec<u8>, String>)
    ensures
        match r {
            Ok(v) => hex_to_bytes_spec(h@) == Some(v@),
            Err(e) => hex_to_bytes_spec(h@) is None && hex_error(e@),
        },
{
    let t = str_trim(h);
    let s = match str_strip_prefix(t, "0x") {
        Some(rest) => rest,
        None => t,
    };
    proof {
        reveal_strlit("0x");
        let tt = t@;
        if tt.len() >= 2 && tt[0] == '0' && tt[1] == 'x' {
            assert(tt.subrange(0, 2) =~= "0x"@);
        }
        if has_prefix(tt, "0x"@) {
            assert(tt.subrange(0, 2)[0] == '0');
            assert(tt.subrange(0, 2)[1] == 'x');
        }
        assert(s@ == strip_0x(trim(h@)));
    }
    match hex_decode_str(s) {
        Ok(v) => Ok(v),
        Err(e) => {
            let msg = String::from_str("hex decode failed: ");
            let r = msg.concat(e.as_str());
            proof {
                reveal_strlit("hex decode failed: ");
                assert(r@.subrange(0, "hex decode failed: "@.len() as int) =~= "hex decode failed: "@);
            }
            Err(r)
        },
    }
}

/// Hex of a point's compressed encoding.
pub fn point_to_hex(p: &Point) -> (r: String)
    ensures
        r@ == hex_encode(p@),
{
    bytes_to_hex(p.as_bytes())
}

/// Hex of a point's compressed encoding (same as `point_to_hex`).
pub fn ristretto_point_to_hex(p: &Point) -> (r: String)
    ensures
        r@ == hex_encode(p@),
{
    bytes_to_hex(p.as_bytes())
}

/// Hex of a scalar's canonical encoding.
pub fn scalar_to_hex(s: &Scalar) -> (r: String)
    ensures
        r@ == hex_encode(s@),
{
    bytes_to_hex(s.as_bytes())
}

/// Parses the hex of a compressed point: fails unless the hex decodes to 32 bytes that
/// are a valid Ristretto encoding.
pub fn hex_to_point(h: &str) -> (r: Result<Point, String>)
    ensures
        r is Ok <==> point_of_hex(h@) is Some,
        r matches Ok(p) ==> point_of_hex(h@) == Some(p@),
        r matches Err(e) ==> point_hex_error(h@, e@),
{
    let bytes = match hex_to_bytes(h) {
        Ok(b) => b,
        Err(e) => {
            return Err(e);
        },
    };
    if bytes.len() != 32 {
        return Err(message_with_number("expected 32 bytes for point, got ", bytes.len()));
    }
    let b = array32_from_slice(bytes.as_slice());
    match Point::from_bytes(b) {
        Some(p) => Ok(p),
        None => Err(String::from_str("invalid Ristretto point encoding")),
    }
}

/// Parses the hex of a canonical scalar: fails unless the hex decodes to 32 bytes whose
/// little-endian value is below ℓ.
pub fn hex_to_scalar(h: &str) -> (r: Result<Scalar, String>)
    ensures
        r is Ok <==> scalar_of_hex(h@) is Some,
        r matches Ok(s) ==> scalar_of_hex(h@) == Some(s@),
        r matches Err(e) ==> scalar_hex_error(h@, e@),
{
    let bytes = match hex_to_bytes(h) {
        Ok(b) => b,
        Err(e) => {
            return Err(e);
        },
    };
    if bytes.len() != 32 {
        return Err(message_with_number("expected 32 bytes for scalar, got ", bytes.len()));
    }
    let b = array32_from_slice(bytes.as_slice());
    option_to_result(Scalar::from_canonical_bytes(b), "invalid scalar encoding")
}

#[verifier::external_type_specification]
#[verifier::external_body]
#[verifier::reject_recursive_types(T)]
pub struct ExCtOption<T>(subtle::CtOption<T>);

/// Calls `Option::from(CtOption)` (subtle's conversion); nothing is claimed of the
/// contents, which the library cannot see.
#[verifier::external_body]
fn ctoption_into_option<T>(x: subtle::CtOption<T>) -> Option<T> {
    x.into()
}

/// A constant-time option as a result: its value if it has one, else `Err(err)`.
/// Whether it holds a value, and which, is hidden inside `subtle::CtOption` (private
/// fields, generic contents), so only the error text is stated.
pub fn ctoption_to_result<T: Copy>(x: subtle::CtOption<T>, err: &'static str) -> (r: Result<T, String>)
    ensures
        r matches Err(e) ==> e@ == err@,
{
    match ctoption_into_option(x) {
        Some(v) => Ok(v),
        None => Err(String::from_str(err)),
    }
}

/// `Some(x)` becomes `Ok(x)`; `None` becomes `Err(err)`.
pub fn option_to_result<T>(x: Option<T>, err: &str) -> (r: Result<T, String>)
    ensures
        match x {
            Some(v) => r == Ok::<T, String>(v),
            None => r matches Err(e) && e@ == err@,
        },
{
    match x {
        Some(v) => Ok(v),
        None => Err(String::from_str(err)),
    }
}

} // verus!

verus! {

/// A point's hex is read back as the same point.
pub proof fn lemma_point_hex_roundtrip(b: Seq<u8>)
    requires
        valid_point(b),
    ensures
        point_of_hex(hex_encode(b)) == Some(b),
{
    lemma_hex_roundtrip(b);
}

/// A scalar's hex is read back as the same scalar.
pub proof fn lemma_scalar_hex_roundtrip(b: Seq<u8>)
    requires
        is_canonical_scalar(b),
    ensures
        scalar_of_hex(hex_encode(b)) == Some(b),
{
    lemma_hex_roundtrip(b);
}

} // verus!
