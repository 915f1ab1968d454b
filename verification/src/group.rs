//! The Ristretto255 group and its scalar field, as the library sees them:
//! a point is held by its canonical 32-byte compressed encoding and a scalar by
//! its canonical 32-byte little-endian encoding.  All group arithmetic is done by
//! `curve25519-dalek`; SHA-512 is computed by `sha2`.
use vstd::prelude::*;
use crate::encoding::{le_nat, lemma_le_nat_injective};
use curve25519_dalek::ristretto::CompressedRistretto;
use sha2::Digest;

verus! {

// ---------------------------------------------------------------------------
// Mathematical model
// ---------------------------------------------------------------------------

/// The order ℓ = 2^252 + 27742317777372353535851937790883648493 of the Ristretto group.
pub open spec fn group_order() -> nat {
    7237005577332262213973186563042994240857116359379907606001950938285454250989nat
}

/// `b` is a canonical scalar encoding: 32 bytes whose little-endian value is below ℓ.
pub open spec fn is_canonical_scalar(b: Seq<u8>) -> bool {
    b.len() == 32 && le_nat(b) < group_order()
}

/// The compressed encoding of the Ristretto base point, as fixed by RFC 9496.
pub open spec fn basepoint_encoding() -> Seq<u8> {
    seq![
        0xe2u8, 0xf2, 0xae, 0x0a, 0x6a, 0xbc, 0x4e, 0x71, 0xa8, 0x84, 0xa9, 0x61, 0xc5, 0x00,
        0x51, 0x5f, 0x58, 0xe3, 0x0b, 0x6a, 0xa5, 0x82, 0xdd, 0x8d, 0xb6, 0xa6, 0x59, 0x45,
        0xe0, 0x8d, 0x2d, 0x76,
    ]
}

/// The compressed encoding of the identity element (32 zero bytes).
pub open spec fn identity_encoding() -> Seq<u8> {
    Seq::new(32, |i: int| 0u8)
}

/// Whether `curve25519-dalek` accepts `b` as the compressed encoding of a Ristretto point.
pub uninterp spec fn ristretto_decodes(b: Seq<u8>) -> bool;

/// Encoding of the sum of the points encoded by `p` and `q`.
pub uninterp spec fn ristretto_add(p: Seq<u8>, q: Seq<u8>) -> Seq<u8>;

/// Encoding of the difference of the points encoded by `p` and `q`.
pub uninterp spec fn ristretto_sub(p: Seq<u8>, q: Seq<u8>) -> Seq<u8>;

/// Encoding of the point encoded by `p` multiplied by the scalar of value `s`.
pub uninterp spec fn ristretto_mul(s: nat, p: Seq<u8>) -> Seq<u8>;

/// Encoding of the point that the Ristretto one-way map assigns to 64 bytes.
pub uninterp spec fn ristretto_from_uniform(b: Seq<u8>) -> Seq<u8>;

/// The SHA-512 digest of `data`.
pub uninterp spec fn sha512(data: Seq<u8>) -> Seq<u8>;

/// The facts of a group of prime order ℓ that the Ristretto operations satisfy and that
/// the completeness of CLSAG rests on, stated over the named operations: results are
/// valid points; addition is commutative and associative; subtraction undoes addition
/// and addition cancels; multiplying by 1 changes nothing; scalar multiplication
/// distributes over scalar addition and composes with scalar multiplication, modulo ℓ.  Verus cannot derive these from the
/// names, so the laws that need them take this as a hypothesis.
pub open spec fn ristretto_group_laws() -> bool {
    let l = group_order();
    &&& crate::helpers::valid_point(basepoint_encoding())
    &&& forall|b: Seq<u8>| #[trigger] crate::helpers::valid_point(ristretto_from_uniform(b))
    &&& forall|p: Seq<u8>, q: Seq<u8>|
        crate::helpers::valid_point(p) && crate::helpers::valid_point(q)
            ==> crate::helpers::valid_point(#[trigger] ristretto_add(p, q))
    &&& forall|p: Seq<u8>, q: Seq<u8>|
        crate::helpers::valid_point(p) && crate::helpers::valid_point(q)
            ==> crate::helpers::valid_point(#[trigger] ristretto_sub(p, q))
    &&& forall|a: nat, p: Seq<u8>|
        crate::helpers::valid_point(p) ==> crate::helpers::valid_point(#[trigger] ristretto_mul(a, p))
    &&& forall|p: Seq<u8>, q: Seq<u8>|
        crate::helpers::valid_point(p) && crate::helpers::valid_point(q) ==> #[trigger] ristretto_add(p, q)
            == ristretto_add(q, p)
    &&& forall|p: Seq<u8>, q: Seq<u8>, r: Seq<u8>|
        crate::helpers::valid_point(p) && crate::helpers::valid_point(q) && crate::helpers::valid_point(r)
            ==> #[trigger] ristretto_add(ristretto_add(p, q), r) == ristretto_add(p, ristretto_add(q, r))
    &&& forall|p: Seq<u8>, q: Seq<u8>|
        crate::helpers::valid_point(p) && crate::helpers::valid_point(q) ==> #[trigger] ristretto_add(
            ristretto_sub(p, q),
            q,
        ) == p
    &&& forall|p: Seq<u8>, q: Seq<u8>, r: Seq<u8>|
        crate::helpers::valid_point(p) && crate::helpers::valid_point(q) && crate::helpers::valid_point(r)
            && #[trigger] ristretto_add(p, r) == #[trigger] ristretto_add(q, r) ==> p == q
    &&& forall|p: Seq<u8>| crate::helpers::valid_point(p) ==> #[trigger] ristretto_mul(1, p) == p
    &&& forall|a: nat, b: nat, p: Seq<u8>|
        crate::helpers::valid_point(p) ==> #[trigger] ristretto_add(ristretto_mul(a, p), ristretto_mul(b, p))
            == ristretto_mul((a + b) % l, p)
    &&& forall|a: nat, b: nat, p: Seq<u8>|
        crate::helpers::valid_point(p) ==> #[trigger] ristretto_mul(a, ristretto_mul(b, p))
            == ristretto_mul((a * b) % l, p)
}

// ---------------------------------------------------------------------------
// Calls into curve25519-dalek and sha2
// ---------------------------------------------------------------------------

/// Calls `CompressedRistretto::decompress` and reports whether it succeeded.
/// Claims that the answer is the named predicate `ristretto_decodes` of the bytes.
#[verifier::external_body]
fn ristretto_decompress_ok(b: &[u8; 32]) -> (ok: bool)
    ensures
        ok == ristretto_decodes(b@),
{
    CompressedRistretto(*b).decompress().is_some()
}

/// Calls `RistrettoPoint + RistrettoPoint` on the decompressed operands and compresses the sum.
/// Claims the result is the named `ristretto_add` of the operands and decodes again
/// (a compressed point always decompresses).
#[verifier::external_body]
fn ristretto_add_bytes(p: &[u8; 32], q: &[u8; 32]) -> (r: [u8; 32])
    requires
        ristretto_decodes(p@),
        ristretto_decodes(q@),
    ensures
        r@ == ristretto_add(p@, q@),
        ristretto_decodes(r@),
{
    let p = CompressedRistretto(*p).decompress().unwrap();
    let q = CompressedRistretto(*q).decompress().unwrap();
    (p + q).compress().to_bytes()
}

/// Calls `RistrettoPoint - RistrettoPoint` on the decompressed operands and compresses the result.
/// Claims the result is the named `ristretto_sub` of the operands and decodes again.
#[verifier::external_body]
fn ristretto_sub_bytes(p: &[u8; 32], q: &[u8; 32]) -> (r: [u8; 32])
    requires
        ristretto_decodes(p@),
        ristretto_decodes(q@),
    ensures
        r@ == ristretto_sub(p@, q@),
        ristretto_decodes(r@),
{
    let p = CompressedRistretto(*p).decompress().unwrap();
    let q = CompressedRistretto(*q).decompress().unwrap();
    (p - q).compress().to_bytes()
}

/// Calls `Scalar * RistrettoPoint` and compresses the product.
/// Claims the result is the named `ristretto_mul` of the scalar's value and the point,
/// and decodes again.
#[verifier::external_body]
fn ristretto_mul_bytes(s: &[u8; 32], p: &[u8; 32]) -> (r: [u8; 32])
    requires
        is_canonical_scalar(s@),
        ristretto_decodes(p@),
    ensures
        r@ == ristretto_mul(le_nat(s@), p@),
        ristretto_decodes(r@),
{
    let s = curve25519_dalek::scalar::Scalar::from_canonical_bytes(*s).unwrap();
    let p = CompressedRistretto(*p).decompress().unwrap();
    (s * p).compress().to_bytes()
}

/// Calls `RistrettoPoint::from_uniform_bytes` and compresses the point.
/// Claims the result is the named `ristretto_from_uniform` of the input and decodes.
#[verifier::external_body]
fn ristretto_from_uniform_bytes(b: &[u8; 64]) -> (r: [u8; 32])
    ensures
        r@ == ristretto_from_uniform(b@),
        ristretto_decodes(r@),
{
    curve25519_dalek::ristretto::RistrettoPoint::from_uniform_bytes(b).compress().to_bytes()
}

/// Reads `RISTRETTO_BASEPOINT_COMPRESSED`; claims its bytes are the RFC 9496 base point
/// encoding, which decodes.
#[verifier::external_body]
fn ristretto_basepoint_bytes() -> (r: [u8; 32])
    ensures
        r@ == basepoint_encoding(),
        ristretto_decodes(r@),
{
    curve25519_dalek::constants::RISTRETTO_BASEPOINT_COMPRESSED.to_bytes()
}

/// Calls `Sha512::digest`; claims the 64-byte result is the named `sha512` of the input.
#[verifier::external_body]
fn sha512_digest(data: &[u8]) -> (r: [u8; 64])
    ensures
        r@ == sha512(data@),
{
    sha2::Sha512::digest(data).into()
}

/// Calls `Scalar::from_canonical_bytes` and reports whether it succeeded: claims this is
/// exactly when the little-endian value is below ℓ (the function checks that the top bit
/// is clear and that the value is reduced).
#[verifier::external_body]
fn scalar_canonical_ok(b: &[u8; 32]) -> (ok: bool)
    ensures
        ok == (le_nat(b@) < group_order()),
{
    curve25519_dalek::scalar::Scalar::from_canonical_bytes(*b).is_some().into()
}

/// Calls `Scalar::from_bytes_mod_order_wide`; claims the result encodes the 512-bit
/// little-endian input reduced modulo ℓ.
#[verifier::external_body]
fn scalar_from_wide_bytes(b: &[u8; 64]) -> (r: [u8; 32])
    ensures
        le_nat(r@) == le_nat(b@) % group_order(),
{
    curve25519_dalek::scalar::Scalar::from_bytes_mod_order_wide(b).to_bytes()
}

/// Calls `Scalar::from(u64)`; claims the result encodes the integer itself.
#[verifier::external_body]
fn scalar_from_u64_bytes(x: u64) -> (r: [u8; 32])
    ensures
        le_nat(r@) == x as nat,
{
    curve25519_dalek::scalar::Scalar::from(x).to_bytes()
}

/// Calls `Scalar::random` with the operating-system generator; claims only that the
/// result is a canonical scalar.
#[verifier::external_body]
fn scalar_random_bytes() -> (r: [u8; 32])
    ensures
        le_nat(r@) < group_order(),
{
    curve25519_dalek::scalar::Scalar::random(&mut rand::rngs::OsRng).to_bytes()
}

/// Calls `Scalar + Scalar`; claims the sum modulo ℓ.
#[verifier::external_body]
fn scalar_add_bytes(a: &[u8; 32], b: &[u8; 32]) -> (r: [u8; 32])
    requires
        is_canonical_scalar(a@),
        is_canonical_scalar(b@),
    ensures
        le_nat(r@) == (le_nat(a@) + le_nat(b@)) % group_order(),
{
    let a = curve25519_dalek::scalar::Scalar::from_canonical_bytes(*a).unwrap();
    let b = curve25519_dalek::scalar::Scalar::from_canonical_bytes(*b).unwrap();
    (a + b).to_bytes()
}

/// Calls `Scalar - Scalar`; claims the difference modulo ℓ.
#[verifier::external_body]
fn scalar_sub_bytes(a: &[u8; 32], b: &[u8; 32]) -> (r: [u8; 32])
    requires
        is_canonical_scalar(a@),
        is_canonical_scalar(b@),
    ensures
        le_nat(r@) == (le_nat(a@) + group_order() - le_nat(b@)) % (group_order() as int),
{
    let a = curve25519_dalek::scalar::Scalar::from_canonical_bytes(*a).unwrap();
    let b = curve25519_dalek::scalar::Scalar::from_canonical_bytes(*b).unwrap();
    (a - b).to_bytes()
}

/// Calls `Scalar * Scalar`; claims the product modulo ℓ.
#[verifier::external_body]
fn scalar_mul_bytes(a: &[u8; 32], b: &[u8; 32]) -> (r: [u8; 32])
    requires
        is_canonical_scalar(a@),
        is_canonical_scalar(b@),
    ensures
        le_nat(r@) == (le_nat(a@) * le_nat(b@)) % group_order(),
{
    let a = curve25519_dalek::scalar::Scalar::from_canonical_bytes(*a).unwrap();
    let b = curve25519_dalek::scalar::Scalar::from_canonical_bytes(*b).unwrap();
    (a * b).to_bytes()
}

// ---------------------------------------------------------------------------
// The library's point and scalar types
// ---------------------------------------------------------------------------

/// Compares two 32-byte arrays.
pub fn bytes32_eq(a: &[u8; 32], b: &[u8; 32]) -> (r: bool)
    ensures
        r == (a@ == b@),
{
    let mut i: usize = 0;
    while i < 32
        invariant
            i <= 32,
            forall|j: int| 0 <= j < i ==> a@[j] == b@[j],
        decreases 32 - i,
    {
        if a[i] != b[i] {
            return false;
        }
        i = i + 1;
    }
    assert(a@ =~= b@);
    true
}

/// A Ristretto point, held by its canonical compressed encoding.
#[derive(Debug)]
pub struct Point {
    pub(crate) bytes: [u8; 32],
}

impl View for Point {
    type V = Seq<u8>;

    /// The point's compressed encoding.
    closed spec fn view(&self) -> Seq<u8> {
        self.bytes@
    }
}

impl Clone for Point {
    fn clone(&self) -> (r: Self)
        ensures
            r == *self,
    {
        proof { use_type_invariant(self); }
        Point { bytes: self.bytes }
    }
}

impl Point {
    /// Every `Point` holds an encoding that decodes.
    #[verifier::type_invariant]
    pub open(crate) spec fn wf(self) -> bool {
        ristretto_decodes(self.bytes@)
    }

    /// The point encoded by `b`, if `b` decodes.
    pub fn from_bytes(b: [u8; 32]) -> (r: Option<Point>)
        ensures
            r is Some <==> ristretto_decodes(b@),
            r matches Some(p) ==> p@ == b@,
    {
        if ristretto_decompress_ok(&b) {
            Some(Point { bytes: b })
        } else {
            None
        }
    }

    /// The compressed encoding.
    pub fn to_bytes(&self) -> (r: [u8; 32])
        ensures
            r@ == self@,
            ristretto_decodes(r@),
    {
        proof { use_type_invariant(self); }
        self.bytes
    }

    /// The compressed encoding, borrowed.
    pub fn as_bytes(&self) -> (r: &[u8; 32])
        ensures
            r@ == self@,
    {
        &self.bytes
    }

    /// Every point's encoding decodes.
    pub fn lemma_decodes(&self)
        ensures
            ristretto_decodes(self@),
    {
        proof { use_type_invariant(self); }
    }

    /// Equality of points, decided on their canonical encodings.
    pub fn eq_point(&self, other: &Point) -> (r: bool)
        ensures
            r == (self@ == other@),
    {
        bytes32_eq(&self.bytes, &other.bytes)
    }

    /// The Ristretto base point.
    pub fn basepoint() -> (r: Point)
        ensures
            r@ == basepoint_encoding(),
    {
        Point { bytes: ristretto_basepoint_bytes() }
    }

    /// The point that the one-way map assigns to 64 uniform bytes.
    pub fn from_uniform_bytes(b: &[u8; 64]) -> (r: Point)
        ensures
            r@ == ristretto_from_uniform(b@),
    {
        Point { bytes: ristretto_from_uniform_bytes(b) }
    }

    /// `self + other`.
    pub fn add(&self, other: &Point) -> (r: Point)
        ensures
            r@ == ristretto_add(self@, other@),
    {
        proof {
            use_type_invariant(self);
            use_type_invariant(other);
        }
        Point { bytes: ristretto_add_bytes(&self.bytes, &other.bytes) }
    }

    /// `self - other`.
    pub fn sub(&self, other: &Point) -> (r: Point)
        ensures
            r@ == ristretto_sub(self@, other@),
    {
        proof {
            use_type_invariant(self);
            use_type_invariant(other);
        }
        Point { bytes: ristretto_sub_bytes(&self.bytes, &other.bytes) }
    }

    /// `s * self`.
    pub fn mul(&self, s: &Scalar) -> (r: Point)
        ensures
            r@ == ristretto_mul(s.value(), self@),
    {
        proof {
            use_type_invariant(self);
            use_type_invariant(s);
        }
        Point { bytes: ristretto_mul_bytes(&s.bytes, &self.bytes) }
    }
}

/// A scalar modulo ℓ, held by its canonical little-endian encoding.
#[derive(Debug)]
pub struct Scalar {
    pub(crate) bytes: [u8; 32],
}

impl View for Scalar {
    type V = Seq<u8>;

    /// The scalar's canonical encoding.
    closed spec fn view(&self) -> Seq<u8> {
        self.bytes@
    }
}

impl Clone for Scalar {
    fn clone(&self) -> (r: Self)
        ensures
            r == *self,
    {
        proof { use_type_invariant(self); }
        Scalar { bytes: self.bytes }
    }
}

impl Scalar {
    /// Every `Scalar` holds a canonical encoding.
    #[verifier::type_invariant]
    pub open(crate) spec fn wf(self) -> bool {
        le_nat(self.bytes@) < group_order()
    }

    /// The integer in [0, ℓ) that the scalar stands for.
    pub closed spec fn value(self) -> nat {
        le_nat(self.bytes@)
    }

    /// The value is the little-endian reading of the encoding.
    pub proof fn lemma_value_is_le(s: Scalar)
        ensures
            s.value() == le_nat(s@),
            s@.len() == 32,
    {
    }

    /// Every scalar is below ℓ.
    pub fn lemma_canonical(&self)
        ensures
            self.value() < group_order(),
            is_canonical_scalar(self@),
    {
        proof { use_type_invariant(self); }
    }

    /// The scalar encoded by `b`, if the encoding is canonical.
    pub fn from_canonical_bytes(b: [u8; 32]) -> (r: Option<Scalar>)
        ensures
            r is Some <==> le_nat(b@) < group_order(),
            r matches Some(s) ==> s@ == b@,
    {
        if scalar_canonical_ok(&b) {
            Some(Scalar { bytes: b })
        } else {
            None
        }
    }

    /// The canonical encoding.
    pub fn to_bytes(&self) -> (r: [u8; 32])
        ensures
            r@ == self@,
            is_canonical_scalar(r@),
    {
        proof { use_type_invariant(self); }
        self.bytes
    }

    /// The canonical encoding, borrowed.
    pub fn as_bytes(&self) -> (r: &[u8; 32])
        ensures
            r@ == self@,
    {
        &self.bytes
    }

    /// Equality of scalars, decided on their canonical encodings.
    pub fn eq_scalar(&self, other: &Scalar) -> (r: bool)
        ensures
            r == (self.value() == other.value()),
    {
        let r = bytes32_eq(&self.bytes, &other.bytes);
        proof {
            if self.value() == other.value() {
                lemma_le_nat_injective(self.bytes@, other.bytes@);
            }
        }
        r
    }

    /// The scalar zero.
    pub fn zero() -> (r: Scalar)
        ensures
            r.value() == 0,
    {
        Scalar::from_u64(0)
    }

    /// The scalar of the given integer.
    pub fn from_u64(x: u64) -> (r: Scalar)
        ensures
            r.value() == x as nat,
    {
        Scalar { bytes: scalar_from_u64_bytes(x) }
    }

    /// A uniformly random scalar from the operating system's generator: some value in
    /// [0, ℓ), held by its canonical encoding (which value is left to chance).
    pub fn random() -> (r: Scalar)
        ensures
            r.value() < group_order(),
            is_canonical_scalar(r@),
            r.value() == le_nat(r@),
    {
        Scalar { bytes: scalar_random_bytes() }
    }

    /// The 512-bit little-endian integer `b` reduced modulo ℓ.
    pub fn from_bytes_mod_order_wide(b: &[u8; 64]) -> (r: Scalar)
        ensures
            r.value() == le_nat(b@) % group_order(),
    {
        Scalar { bytes: scalar_from_wide_bytes(b) }
    }

    /// `self + other` modulo ℓ.
    pub fn add(&self, other: &Scalar) -> (r: Scalar)
        ensures
            r.value() == (self.value() + other.value()) % group_order(),
    {
        proof {
            use_type_invariant(self);
            use_type_invariant(other);
        }
        Scalar { bytes: scalar_add_bytes(&self.bytes, &other.bytes) }
    }

    /// `self - other` modulo ℓ.
    pub fn sub(&self, other: &Scalar) -> (r: Scalar)
        ensures
            r.value() == (self.value() + group_order() - other.value()) % (group_order() as int),
    {
        proof {
            use_type_invariant(self);
            use_type_invariant(other);
        }
        Scalar { bytes: scalar_sub_bytes(&self.bytes, &other.bytes) }
    }

    /// `self * other` modulo ℓ.
    pub fn mul(&self, other: &Scalar) -> (r: Scalar)
        ensures
            r.value() == (self.value() * other.value()) % group_order(),
    {
        proof {
            use_type_invariant(self);
            use_type_invariant(other);
        }
        Scalar { bytes: scalar_mul_bytes(&self.bytes, &other.bytes) }
    }
}

/// SHA-512 of `data`.
pub fn sha512_of(data: &[u8]) -> (r: [u8; 64])
    ensures
        r@ == sha512(data@),
{
    sha512_digest(data)
}

} // verus!
