//! VRF helpers over `vrf-r255` (ECVRF-RISTRETTO255-SHA512): keys, proofs, messages.
use vstd::prelude::*;
use vstd::utf8::{encode_utf8, encode_utf8_decode_utf8};
use crate::encoding::{
    append_bytes, array32_from_slice, le_nat, lemma_u64_be_injective, lemma_u64_be_order, lex_lt,
    u64_be, u64_to_be_bytes,
};
use crate::group::{
    Point, Scalar, basepoint_encoding, group_order, identity_encoding, ristretto_decodes,
    ristretto_mul,
};
use crate::helpers::{
    decimal, has_prefix, hex_decode, hex_error, hex_decode_str, hex_encode, bytes_to_hex, message_with_number,
    str_strip_prefix, strip_0x, valid_point,
};
use crate::output::setup_generators;
use crate::structs::VRFKey;

verus! {

// ---------------------------------------------------------------------------
// Specification
// ---------------------------------------------------------------------------

/// What `vrf_r255::SecretKey::prove` returns, as bytes, for a secret-key encoding and input.
pub uninterp spec fn vrf_prove(sk: Seq<u8>, alpha: Seq<u8>) -> Seq<u8>;

/// What `vrf_r255::PublicKey::verify` returns for a public-key encoding, an input and a
/// proof encoding: the 64-byte hash output, or nothing when the proof is rejected.
pub uninterp spec fn vrf_verify(pk: Seq<u8>, alpha: Seq<u8>, proof: Seq<u8>) -> Option<Seq<u8>>;

/// A VRF secret key: a canonical scalar x with x·B not the identity.
pub open spec fn valid_vrf_secret(b: Seq<u8>) -> bool {
    b.len() == 32 && le_nat(b) < group_order() && ristretto_mul(le_nat(b), basepoint_encoding())
        != identity_encoding()
}

/// A VRF public key: a point encoding other than the identity's.
pub open spec fn valid_vrf_public(b: Seq<u8>) -> bool {
    valid_point(b) && b != identity_encoding()
}

/// A VRF proof encoding: Gamma (32 bytes) decodes, c (16 bytes), s (32 bytes) canonical.
pub open spec fn valid_vrf_proof(b: Seq<u8>) -> bool {
    b.len() == 80 && ristretto_decodes(b.subrange(0, 32)) && le_nat(b.subrange(48, 80))
        < group_order()
}

/// The public key of a secret key: x·B.
pub open spec fn vrf_public_of(sk: Seq<u8>) -> Seq<u8> {
    ristretto_mul(le_nat(sk), basepoint_encoding())
}

// ---------------------------------------------------------------------------
// Calls into vrf-r255
// ---------------------------------------------------------------------------

/// Calls `SecretKey::from_bytes` and reports whether it succeeded: claims this is exactly
/// when the bytes are a canonical scalar x with x·B not the identity (the function's two
/// checks).
#[verifier::external_body]
fn vrf_secret_key_ok(b: &[u8; 32]) -> (ok: bool)
    ensures
        ok == valid_vrf_secret(b@),
{
    vrf_r255::SecretKey::from_bytes(*b).is_some().into()
}

/// Calls `PublicKey::from(SecretKey)` and `to_bytes`; claims the key is x·B (the
/// function stores `&x * RISTRETTO_BASEPOINT_TABLE`), which decodes.
#[verifier::external_body]
fn vrf_public_key_bytes(sk: &[u8; 32]) -> (r: [u8; 32])
    requires
        valid_vrf_secret(sk@),
    ensures
        r@ == vrf_public_of(sk@),
        ristretto_decodes(r@),
{
    vrf_r255::PublicKey::from(vrf_r255::SecretKey::from_bytes(*sk).unwrap()).to_bytes()
}

/// Calls `PublicKey::from_bytes` and reports whether it succeeded: claims this is
/// exactly when the bytes decode and are not the identity's encoding.
#[verifier::external_body]
fn vrf_public_key_ok(b: &[u8; 32]) -> (ok: bool)
    ensures
        ok == (ristretto_decodes(b@) && b@ != identity_encoding()),
{
    vrf_r255::PublicKey::from_bytes(*b).is_some()
}

/// Calls `Proof::from_bytes` and reports whether it succeeded: claims this is exactly
/// when Gamma decodes and s is canonical (the function's two checks).
#[verifier::external_body]
fn vrf_proof_ok(b: &[u8; 80]) -> (ok: bool)
    ensures
        ok == valid_vrf_proof(b@),
{
    vrf_r255::Proof::from_bytes(*b).is_some()
}

/// Calls `SecretKey::prove` and `Proof::to_bytes`; claims the named `vrf_prove` of the
/// key and input, that the encoding parses again (Gamma is compressed, s canonical), and
/// that the key's public key x·B accepts it for the same input (the crate documents this:
/// `pk.verify(msg, &sk.prove(msg))` is some).
#[verifier::external_body]
fn vrf_prove_bytes(sk: &[u8; 32], alpha: &[u8]) -> (r: [u8; 80])
    requires
        valid_vrf_secret(sk@),
    ensures
        r@ == vrf_prove(sk@, alpha@),
        valid_vrf_proof(r@),
        vrf_verify(vrf_public_of(sk@), alpha@, r@) is Some,
{
    vrf_r255::SecretKey::from_bytes(*sk).unwrap().prove(alpha).to_bytes()
}

/// Calls `PublicKey::verify`; claims the result is the named `vrf_verify` of the key,
/// input and proof encodings.
#[verifier::external_body]
fn vrf_verify_bytes(pk: &[u8; 32], alpha: &[u8], proof: &[u8; 80]) -> (r: Option<[u8; 64]>)
    requires
        valid_vrf_public(pk@),
        valid_vrf_proof(proof@),
    ensures
        r is None <==> vrf_verify(pk@, alpha@, proof@) is None,
        r matches Some(beta) ==> vrf_verify(pk@, alpha@, proof@) == Some(beta@),
{
    let pk = vrf_r255::PublicKey::from_bytes(*pk).unwrap();
    let proof = vrf_r255::Proof::from_bytes(*proof).unwrap();
    pk.verify(alpha, &proof).into()
}

// ---------------------------------------------------------------------------
// Keys and proofs
// ---------------------------------------------------------------------------

/// A VRF secret key, held by its scalar encoding.
#[derive(Debug)]
pub struct SecretKey {
    pub(crate) x: [u8; 32],
}

/// A VRF public key, held by its point encoding.
#[derive(Debug)]
pub struct PublicKey {
    pub(crate) y: [u8; 32],
}

/// A VRF proof, held by its 80-byte encoding.
#[derive(Debug)]
pub struct VrfProof {
    pub(crate) pi: [u8; 80],
}

impl View for SecretKey {
    type V = Seq<u8>;

    closed spec fn view(&self) -> Seq<u8> {
        self.x@
    }
}

impl View for PublicKey {
    type V = Seq<u8>;

    closed spec fn view(&self) -> Seq<u8> {
        self.y@
    }
}

impl View for VrfProof {
    type V = Seq<u8>;

    closed spec fn view(&self) -> Seq<u8> {
        self.pi@
    }
}

impl Clone for SecretKey {
    fn clone(&self) -> (r: Self)
        ensures
            r@ == self@,
    {
        proof { use_type_invariant(self); }
        SecretKey { x: self.x }
    }
}

impl Clone for PublicKey {
    fn clone(&self) -> (r: Self)
        ensures
            r@ == self@,
    {
        proof { use_type_invariant(self); }
        PublicKey { y: self.y }
    }
}

impl Clone for VrfProof {
    fn clone(&self) -> (r: Self)
        ensures
            r@ == self@,
    {
        proof { use_type_invariant(self); }
        VrfProof { pi: self.pi }
    }
}

impl SecretKey {
    #[verifier::type_invariant]
    pub open(crate) spec fn wf(self) -> bool {
        valid_vrf_secret(self.x@)
    }

    /// Parses a secret key: defined exactly on valid secret-key encodings.
    pub fn from_bytes(b: [u8; 32]) -> (r: Option<SecretKey>)
        ensures
            r is Some <==> valid_vrf_secret(b@),
            r matches Some(k) ==> k@ == b@,
    {
        if vrf_secret_key_ok(&b) {
            Some(SecretKey { x: b })
        } else {
            None
        }
    }

    /// The encoding.
    pub fn to_bytes(&self) -> (r: [u8; 32])
        ensures
            r@ == self@,
            valid_vrf_secret(r@),
    {
        proof { use_type_invariant(self); }
        self.x
    }

    /// A proof for `alpha` under this key, which the key's public key accepts.
    pub fn prove(&self, alpha: &[u8]) -> (r: VrfProof)
        ensures
            r@ == vrf_prove(self@, alpha@),
            vrf_verify(vrf_public_of(self@), alpha@, r@) is Some,
    {
        proof { use_type_invariant(self); }
        VrfProof { pi: vrf_prove_bytes(&self.x, alpha) }
    }
}

impl PublicKey {
    #[verifier::type_invariant]
    pub open(crate) spec fn wf(self) -> bool {
        valid_vrf_public(self.y@)
    }

    /// The public key of a secret key (`PublicKey::from`): x·B.
    pub fn from(sk: &SecretKey) -> (r: PublicKey)
        ensures
            r@ == vrf_public_of(sk@),
    {
        proof { use_type_invariant(sk); }
        let y = vrf_public_key_bytes(&sk.x);
        PublicKey { y }
    }

    /// Parses a public key: defined exactly on encodings that decode and are not the
    /// identity's.
    pub fn from_bytes(b: [u8; 32]) -> (r: Option<PublicKey>)
        ensures
            r is Some <==> valid_vrf_public(b@),
            r matches Some(k) ==> k@ == b@,
    {
        if vrf_public_key_ok(&b) {
            Some(PublicKey { y: b })
        } else {
            None
        }
    }

    /// The encoding.
    pub fn to_bytes(&self) -> (r: [u8; 32])
        ensures
            r@ == self@,
            valid_vrf_public(r@),
    {
        proof { use_type_invariant(self); }
        self.y
    }

    /// Verifies a proof for `alpha`; returns the 64-byte VRF output when it is valid.
    pub fn verify(&self, alpha: &[u8], proof: &VrfProof) -> (r: Option<[u8; 64]>)
        ensures
            r is None <==> vrf_verify(self@, alpha@, proof@) is None,
            r matches Some(beta) ==> vrf_verify(self@, alpha@, proof@) == Some(beta@),
    {
        proof {
            use_type_invariant(self);
            use_type_invariant(proof);
        }
        vrf_verify_bytes(&self.y, alpha, &proof.pi)
    }
}

impl VrfProof {
    #[verifier::type_invariant]
    pub open(crate) spec fn wf(self) -> bool {
        valid_vrf_proof(self.pi@)
    }

    /// Parses a proof: defined exactly on valid proof encodings.
    pub fn from_bytes(b: [u8; 80]) -> (r: Option<VrfProof>)
        ensures
            r is Some <==> valid_vrf_proof(b@),
            r matches Some(p) ==> p@ == b@,
    {
        if vrf_proof_ok(&b) {
            Some(VrfProof { pi: b })
        } else {
            None
        }
    }

    /// The encoding.
    pub fn to_bytes(&self) -> (r: [u8; 80])
        ensures
            r@ == self@,
            valid_vrf_proof(r@),
    {
        proof { use_type_invariant(self); }
        self.pi
    }
}

// ---------------------------------------------------------------------------
// Public functions
// ---------------------------------------------------------------------------

/// The secret-key bytes that `sk_from_hex_32` reads from `h`, if any: drop one `0x`,
/// decode hex, require 32 bytes that are a valid secret key.
pub open spec fn secret_key_of_hex(h: Seq<char>) -> Option<Seq<u8>> {
    match hex_decode(encode_utf8(strip_0x(h))) {
        Some(b) => if b.len() == 32 && valid_vrf_secret(b) { Some(b) } else { None },
        None => None,
    }
}

/// `e` is the message with which `sk_from_hex_32` rejects `h`.
pub open spec fn secret_key_hex_error(h: Seq<char>, e: Seq<char>) -> bool {
    match hex_decode(encode_utf8(strip_0x(h))) {
        Some(b) => if b.len() != 32 {
            e == "expected 32 bytes, got "@ + decimal(b.len())
        } else {
            e == "invalid secret key encoding"@
        },
        None => hex_error(e),
    }
}

/// Hex decoding of the bytes of `s` (`hex::decode`), if they are hex.
pub fn hex_decode_plain(s: &str) -> (r: Option<Vec<u8>>)
    ensures
        r is Some <==> hex_decode(encode_utf8(s@)) is Some,
        r matches Some(v) ==> hex_decode(encode_utf8(s@)) == Some(v@),
{
    match hex_decode_str(s) {
        Ok(v) => Some(v),
        Err(_) => None,
    }
}

/// Reads a secret key from hex (an optional `0x` prefix is dropped; no trimming).
fn sk_from_hex_32(hex_str: &str) -> (r: Result<SecretKey, String>)
    ensures
        r is Ok <==> secret_key_of_hex(hex_str@) is Some,
        r matches Ok(k) ==> secret_key_of_hex(hex_str@) == Some(k@),
        r matches Err(e) ==> secret_key_hex_error(hex_str@, e@),
{
    let s = match str_strip_prefix(hex_str, "0x") {
        Some(rest) => rest,
        None => hex_str,
    };
    proof {
        reveal_strlit("0x");
        let tt = hex_str@;
        if tt.len() >= 2 && tt[0] == '0' && tt[1] == 'x' {
            assert(tt.subrange(0, 2) =~= "0x"@);
        }
        if has_prefix(tt, "0x"@) {
            assert(tt.subrange(0, 2)[0] == '0');
            assert(tt.subrange(0, 2)[1] == 'x');
        }
        assert(s@ == strip_0x(hex_str@));
    }
    let raw = match hex_decode_str(s) {
        Ok(v) => v,
        Err(e) => {
            let msg = String::from_str("hex decode failed: ");
            let r = msg.concat(e.as_str());
            proof {
                reveal_strlit("hex decode failed: ");
                assert(r@.subrange(0, "hex decode failed: "@.len() as int) =~= "hex decode failed: "@);
            }
            return Err(r);
        },
    };
    if raw.len() != 32 {
        return Err(message_with_number("expected 32 bytes, got ", raw.len()));
    }
    let bytes = array32_from_slice(raw.as_slice());
    match SecretKey::from_bytes(bytes) {
        Some(k) => Ok(k),
        None => Err(String::from_str("invalid secret key encoding")),
    }
}

/// A VRF key pair from the hex of its secret key.
pub fn create_vrf_keypair_from_hex(sk_hex: &str) -> (r: Result<VRFKey, String>)
    ensures
        r is Ok <==> secret_key_of_hex(sk_hex@) is Some,
        r matches Ok(k) ==> secret_key_of_hex(sk_hex@) == Some(k.sk@) && k.vk@ == vrf_public_of(
            k.sk@,
        ),
        r matches Err(e) ==> secret_key_hex_error(sk_hex@, e@),
{
    let sk = match sk_from_hex_32(sk_hex) {
        Ok(k) => k,
        Err(e) => {
            return Err(e);
        },
    };
    let pk = PublicKey::from(&sk);
    Ok(VRFKey { sk: sk, vk: pk })
}

/// The VRF public-key point of a scalar: sk·GVRF.
pub fn vk_point_from_scalar(sk: Scalar) -> (r: Point)
    ensures
        r@ == ristretto_mul(sk.value(), basepoint_encoding()),
{
    let (_, _, _, gvrf) = setup_generators();
    gvrf.mul(&sk)
}

/// The VRF public key of a point, unless the point is the identity.
pub fn vrf_pubkey_from_point(p: &Point) -> (r: Option<PublicKey>)
    ensures
        r is Some <==> p@ != identity_encoding(),
        r matches Some(k) ==> k@ == p@,
{
    p.lemma_decodes();
    PublicKey::from_bytes(p.to_bytes())
}

/// The VRF proof encoded by `b`, if `b` is 80 bytes that parse as a proof.
pub fn proof_from_slice(b: &[u8]) -> (r: Option<VrfProof>)
    ensures
        r is Some <==> valid_vrf_proof(b@),
        r matches Some(p) ==> p@ == b@,
{
    if b.len() != 80 {
        return None;
    }
    let mut a = [0u8; 80];
    let mut i: usize = 0;
    while i < 80
        invariant
            i <= 80,
            b@.len() == 80,
            forall|j: int| 0 <= j < i ==> a@[j] == b@[j],
        decreases 80 - i,
    {
        a[i] = b[i];
        i = i + 1;
    }
    assert(a@ =~= b@);
    VrfProof::from_bytes(a)
}

/// The VRF input for slot `n`: the bytes of `prefix` followed by `n` big-endian.
pub fn create_vrf_message(prefix: &str, n: u64) -> (r: Vec<u8>)
    ensures
        r@ == encode_utf8(prefix@) + u64_be(n),
{
    let mut msg: Vec<u8> = Vec::new();
    append_bytes(&mut msg, prefix.as_bytes());
    let be = u64_to_be_bytes(n);
    append_bytes(&mut msg, be.as_slice());
    msg
}

/// Distinct (prefix, slot) pairs give distinct VRF inputs: the bytes that
/// `create_vrf_message` forms are equal exactly when prefix and slot are.
pub proof fn lemma_vrf_message_injective(p1: Seq<char>, n1: u64, p2: Seq<char>, n2: u64)
    ensures
        encode_utf8(p1) + u64_be(n1) == encode_utf8(p2) + u64_be(n2) <==> (p1 == p2 && n1 == n2),
{
    let e1 = encode_utf8(p1);
    let e2 = encode_utf8(p2);
    let a = e1 + u64_be(n1);
    let b = e2 + u64_be(n2);
    assert(u64_be(n1).len() == 8 && u64_be(n2).len() == 8);
    if a == b {
        assert(a.len() == b.len());
        assert(e1.len() == e2.len());
        assert(a.subrange(0, e1.len() as int) =~= e1);
        assert(b.subrange(0, e2.len() as int) =~= e2);
        encode_utf8_decode_utf8(p1);
        encode_utf8_decode_utf8(p2);
        assert(a.subrange(e1.len() as int, a.len() as int) =~= u64_be(n1));
        assert(b.subrange(e2.len() as int, b.len() as int) =~= u64_be(n2));
        lemma_u64_be_injective(n1, n2);
    }
}

/// For a fixed prefix, VRF inputs order as their slots: the bytes that
/// `create_vrf_message` forms for slot n1 come lexicographically before those for n2
/// exactly when n1 < n2.
pub proof fn lemma_vrf_message_order(p: Seq<char>, n1: u64, n2: u64)
    ensures
        n1 < n2 <==> lex_lt(encode_utf8(p) + u64_be(n1), encode_utf8(p) + u64_be(n2)),
{
    let e = encode_utf8(p);
    let l = e.len() as int;
    let x = u64_be(n1);
    let y = u64_be(n2);
    let a = e + x;
    let b = e + y;
    assert(x.len() == 8 && y.len() == 8);
    lemma_u64_be_order(n1, n2);
    if lex_lt(x, y) {
        let i = choose|i: int|
            0 <= i <= x.len() && i <= y.len() && #[trigger] x.subrange(0, i) == y.subrange(0, i)
                && ((i == x.len() && i < y.len()) || (i < x.len() && i < y.len() && x[i] < y[i]));
        assert forall|j: int| 0 <= j < i implies x[j] == y[j] by {
            assert(x.subrange(0, i)[j] == y.subrange(0, i)[j]);
        }
        assert(a.subrange(0, l + i) =~= b.subrange(0, l + i));
        assert(a[l + i] == x[i] && b[l + i] == y[i]);
        assert(0 <= l + i <= a.len() && l + i <= b.len() && a.subrange(0, l + i) == b.subrange(0, l + i)
            && (l + i < a.len() && l + i < b.len() && a[l + i] < b[l + i]));
    }
    if lex_lt(a, b) {
        let i = choose|i: int|
            0 <= i <= a.len() && i <= b.len() && #[trigger] a.subrange(0, i) == b.subrange(0, i)
                && ((i == a.len() && i < b.len()) || (i < a.len() && i < b.len() && a[i] < b[i]));
        if i < l {
            assert(a[i] == e[i] && b[i] == e[i]);
        }
        assert(i >= l);
        assert forall|j: int| 0 <= j < i - l implies x[j] == y[j] by {
            assert(a.subrange(0, i)[l + j] == b.subrange(0, i)[l + j]);
            assert(a[l + j] == x[j] && b[l + j] == y[j]);
        }
        assert(x.subrange(0, i - l) =~= y.subrange(0, i - l));
        assert(a[i] == x[i - l] && b[i] == y[i - l]);
        assert(0 <= i - l <= x.len() && i - l <= y.len() && x.subrange(0, i - l) == y.subrange(0, i - l)
            && (i - l < x.len() && i - l < y.len() && x[i - l] < y[i - l]));
    }
}

/// Proves `msg` under `sk` and checks the proof: returns the hex of the VRF output and
/// the proof (the check always passes, so the error is never returned).
pub fn compute_vrf(sk: SecretKey, msg: &Vec<u8>) -> (r: Result<(String, VrfProof), String>)
    ensures
        r is Ok,
        vrf_verify(vrf_public_of(sk@), msg@, vrf_prove(sk@, msg@)) is Some,
        r matches Ok((h, p)) ==> p@ == vrf_prove(sk@, msg@) && h@ == hex_encode(
            vrf_verify(vrf_public_of(sk@), msg@, vrf_prove(sk@, msg@)).unwrap(),
        ),
{
    let pk = PublicKey::from(&sk);
    let proof = sk.prove(msg.as_slice());
    match pk.verify(msg.as_slice(), &proof) {
        Some(beta) => {
            let beta_hex = bytes_to_hex(beta.as_slice());
            Ok((beta_hex, proof))
        },
        None => Err(String::from_str("VRF proof did not verify")),
    }
}

} // verus!
