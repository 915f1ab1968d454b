//! CLSAG ring signatures over block messages (the signer proves knowledge of the
//! payment key of one ring member, that the VRF key and key image are formed with the
//! same key, and that the member's committed amount minus T is committed in C).
use vstd::prelude::*;
use vstd::utf8::{encode_utf8, encode_utf8_decode_utf8};
use crate::constants::{HASH_SALT, MSG_SERIALIZE_NAME, SIG_SERIALIZE_NAME};
use crate::encoding::{
    append_bytes, array32_at, le_nat, lemma_concat_split, lemma_le_nat_u32_le,
    lemma_le_nat_u64_le, lemma_u32_of_le_value, lemma_u64_le_injective, lemma_u32_le_roundtrip, u32_from_le_bytes, u32_le, u32_of_le,
    u32_to_le_bytes, u64_le, u64_to_le_bytes,
};
use crate::group::{
    Point, Scalar, group_order, is_canonical_scalar, ristretto_group_laws, ristretto_add, ristretto_from_uniform, ristretto_mul,
    ristretto_sub, sha512, sha512_of,
};
use crate::output::{g1, g2, gpay, gvrf, setup_generators};
use crate::helpers::{
    bytes_to_hex, decimal, decimal_string, hex_encode, hex_error, hex_to_bytes, hex_to_bytes_spec,
    lemma_hex_roundtrip, valid_point,
};
use crate::structs::{
    BlockMsg, BlockMsgView, ClsagSig, ClsagSigView, Output, OutputPublic, OutputPublicView,
    ring_view, valid_sig,
};

verus! {

// ---------------------------------------------------------------------------
// Specification of the hashes and of verification
// ---------------------------------------------------------------------------

/// H(vk): the point that the one-way map assigns to SHA-512(HASH_SALT || vk).
pub open spec fn hash_to_point_spec(vk: Seq<u8>) -> Seq<u8> {
    ristretto_from_uniform(sha512(HASH_SALT@ + vk))
}

/// The stable serialisation of a block message that the challenges hash.
pub open spec fn serialize_m_spec(m: BlockMsgView) -> Seq<u8> {
    let y = encode_utf8(m.y_o);
    MSG_SERIALIZE_NAME@ + u64_le(m.payload_b.len() as u64) + m.payload_b + u64_le(m.epoch) + u64_le(
        m.slot,
    ) + m.vk_vrf_o + u64_le(y.len() as u64) + y + u64_le(m.pi_y.len() as u64) + m.pi_y + u64_le(m.t)
        + m.key_image + encode_utf8(m.range_proof)
}

/// A message whose serialisation can be read back: its points are 32-byte encodings and
/// its variable-length fields have lengths that fit in 64 bits.
pub open spec fn serializable_msg(m: BlockMsgView) -> bool {
    &&& m.vk_vrf_o.len() == 32
    &&& m.key_image.len() == 32
    &&& m.payload_b.len() <= u64::MAX
    &&& encode_utf8(m.y_o).len() <= u64::MAX
    &&& m.pi_y.len() <= u64::MAX
}

/// The serialisation of a message grouped from the right, piece by piece.
spec fn serialize_m_nested(m: BlockMsgView) -> Seq<u8> {
    let y = encode_utf8(m.y_o);
    MSG_SERIALIZE_NAME@ + (u64_le(m.payload_b.len() as u64) + (m.payload_b + (u64_le(m.epoch) + (
    u64_le(m.slot) + (m.vk_vrf_o + (u64_le(y.len() as u64) + (y + (u64_le(m.pi_y.len() as u64) + (
    m.pi_y + (u64_le(m.t) + (m.key_image + encode_utf8(m.range_proof))))))))))))
}

proof fn lemma_serialize_m_nested(m: BlockMsgView)
    ensures
        serialize_m_spec(m) == serialize_m_nested(m),
{
    assert(serialize_m_spec(m) =~= serialize_m_nested(m));
}

/// The block-message serialisation that the challenges hash is injective: two messages
/// (with 32-byte point encodings and lengths that fit in 64 bits) serialise to the same
/// bytes exactly when they are equal; and it begins with MSG_SERIALIZE_NAME.
pub proof fn lemma_serialize_m_injective(m1: BlockMsgView, m2: BlockMsgView)
    requires
        serializable_msg(m1),
        serializable_msg(m2),
    ensures
        serialize_m_spec(m1) == serialize_m_spec(m2) <==> m1 == m2,
        serialize_m_spec(m1).subrange(0, MSG_SERIALIZE_NAME@.len() as int) == MSG_SERIALIZE_NAME@,
{
    lemma_serialize_m_nested(m1);
    lemma_serialize_m_nested(m2);
    assert(serialize_m_spec(m1).subrange(0, MSG_SERIALIZE_NAME@.len() as int) =~= MSG_SERIALIZE_NAME@);
    if serialize_m_spec(m1) == serialize_m_spec(m2) {
        let y1 = encode_utf8(m1.y_o);
        let y2 = encode_utf8(m2.y_o);
        let r1 = encode_utf8(m1.range_proof);
        let r2 = encode_utf8(m2.range_proof);
        let k1 = m1.key_image + r1;
        let k2 = m2.key_image + r2;
        let t1 = u64_le(m1.t) + k1;
        let t2 = u64_le(m2.t) + k2;
        let q1 = m1.pi_y + t1;
        let q2 = m2.pi_y + t2;
        let lq1 = u64_le(m1.pi_y.len() as u64) + q1;
        let lq2 = u64_le(m2.pi_y.len() as u64) + q2;
        let w1 = y1 + lq1;
        let w2 = y2 + lq2;
        let ly1 = u64_le(y1.len() as u64) + w1;
        let ly2 = u64_le(y2.len() as u64) + w2;
        let v1 = m1.vk_vrf_o + ly1;
        let v2 = m2.vk_vrf_o + ly2;
        let s1 = u64_le(m1.slot) + v1;
        let s2 = u64_le(m2.slot) + v2;
        let e1 = u64_le(m1.epoch) + s1;
        let e2 = u64_le(m2.epoch) + s2;
        let p1 = m1.payload_b + e1;
        let p2 = m2.payload_b + e2;
        let l1 = u64_le(m1.payload_b.len() as u64) + p1;
        let l2 = u64_le(m2.payload_b.len() as u64) + p2;
        assert(u64_le(0).len() == 8);
        lemma_concat_split(MSG_SERIALIZE_NAME@, l1, MSG_SERIALIZE_NAME@, l2);
        lemma_concat_split(u64_le(m1.payload_b.len() as u64), p1, u64_le(m2.payload_b.len() as u64), p2);
        lemma_u64_le_injective(m1.payload_b.len() as u64, m2.payload_b.len() as u64);
        lemma_concat_split(m1.payload_b, e1, m2.payload_b, e2);
        lemma_concat_split(u64_le(m1.epoch), s1, u64_le(m2.epoch), s2);
        lemma_u64_le_injective(m1.epoch, m2.epoch);
        lemma_concat_split(u64_le(m1.slot), v1, u64_le(m2.slot), v2);
        lemma_u64_le_injective(m1.slot, m2.slot);
        lemma_concat_split(m1.vk_vrf_o, ly1, m2.vk_vrf_o, ly2);
        lemma_concat_split(u64_le(y1.len() as u64), w1, u64_le(y2.len() as u64), w2);
        lemma_u64_le_injective(y1.len() as u64, y2.len() as u64);
        lemma_concat_split(y1, lq1, y2, lq2);
        lemma_concat_split(u64_le(m1.pi_y.len() as u64), q1, u64_le(m2.pi_y.len() as u64), q2);
        lemma_u64_le_injective(m1.pi_y.len() as u64, m2.pi_y.len() as u64);
        lemma_concat_split(m1.pi_y, t1, m2.pi_y, t2);
        lemma_concat_split(u64_le(m1.t), k1, u64_le(m2.t), k2);
        lemma_u64_le_injective(m1.t, m2.t);
        lemma_concat_split(m1.key_image, r1, m2.key_image, r2);
        encode_utf8_decode_utf8(m1.y_o);
        encode_utf8_decode_utf8(m2.y_o);
        encode_utf8_decode_utf8(m1.range_proof);
        encode_utf8_decode_utf8(m2.range_proof);
    }
}

/// The serialisation of a message, field by field (p, q, r the lengths of the payload,
/// of the VRF output's bytes and of the VRF proof): the 11-byte name, p as 8 bytes whose
/// little-endian value is p, the payload, the epoch and the slot as 8 little-endian bytes
/// each, the 32-byte VRF key, q, the VRF output's bytes, r, the VRF proof, T, the 32-byte
/// key image, and last the range proof's bytes.
pub proof fn lemma_serialize_m_layout(m: BlockMsgView)
    requires
        serializable_msg(m),
    ensures
        ({
            let s = serialize_m_spec(m);
            let y = encode_utf8(m.y_o);
            let p = m.payload_b.len() as int;
            let q = y.len() as int;
            let r = m.pi_y.len() as int;
            &&& s.subrange(0, 11) == MSG_SERIALIZE_NAME@
            &&& le_nat(s.subrange(11, 19)) == p
            &&& s.subrange(19, 19 + p) == m.payload_b
            &&& le_nat(s.subrange(19 + p, 27 + p)) == m.epoch
            &&& le_nat(s.subrange(27 + p, 35 + p)) == m.slot
            &&& s.subrange(35 + p, 67 + p) == m.vk_vrf_o
            &&& le_nat(s.subrange(67 + p, 75 + p)) == q
            &&& s.subrange(75 + p, 75 + p + q) == y
            &&& le_nat(s.subrange(75 + p + q, 83 + p + q)) == r
            &&& s.subrange(83 + p + q, 83 + p + q + r) == m.pi_y
            &&& le_nat(s.subrange(83 + p + q + r, 91 + p + q + r)) == m.t
            &&& s.subrange(91 + p + q + r, 123 + p + q + r) == m.key_image
            &&& s.subrange(123 + p + q + r, s.len() as int) == encode_utf8(m.range_proof)
        }),
{
    let s = serialize_m_spec(m);
    let y = encode_utf8(m.y_o);
    let p = m.payload_b.len() as int;
    let q = y.len() as int;
    let r = m.pi_y.len() as int;
    lemma_le_nat_u64_le(p as u64);
    lemma_le_nat_u64_le(m.epoch);
    lemma_le_nat_u64_le(m.slot);
    lemma_le_nat_u64_le(q as u64);
    lemma_le_nat_u64_le(r as u64);
    lemma_le_nat_u64_le(m.t);
    assert(u64_le(0).len() == 8);
    assert(s.subrange(0, 11) =~= MSG_SERIALIZE_NAME@);
    assert(s.subrange(11, 19) =~= u64_le(p as u64));
    assert(s.subrange(19, 19 + p) =~= m.payload_b);
    assert(s.subrange(19 + p, 27 + p) =~= u64_le(m.epoch));
    assert(s.subrange(27 + p, 35 + p) =~= u64_le(m.slot));
    assert(s.subrange(35 + p, 67 + p) =~= m.vk_vrf_o);
    assert(s.subrange(67 + p, 75 + p) =~= u64_le(q as u64));
    assert(s.subrange(75 + p, 75 + p + q) =~= y);
    assert(s.subrange(75 + p + q, 83 + p + q) =~= u64_le(r as u64));
    assert(s.subrange(83 + p + q, 83 + p + q + r) =~= m.pi_y);
    assert(s.subrange(83 + p + q + r, 91 + p + q + r) =~= u64_le(m.t));
    assert(s.subrange(91 + p + q + r, 123 + p + q + r) =~= m.key_image);
    assert(s.subrange(123 + p + q + r, s.len() as int) =~= encode_utf8(m.range_proof));
}

/// H_clsag(M || i || L || V || I || A): SHA-512 reduced modulo ℓ.
pub open spec fn h_clsag_spec(
    m_bytes: Seq<u8>,
    i: nat,
    l: Seq<u8>,
    v: Seq<u8>,
    ii: Seq<u8>,
    a: Seq<u8>,
) -> nat {
    le_nat(sha512(SIG_SERIALIZE_NAME@ + m_bytes + u64_le(i as u64) + l + v + ii + a))
        % group_order()
}

/// H(vk) is the one-way map of SHA-512 over 15 + |vk| bytes: the domain separator
/// HASH_SALT first, then the encoding of vk.
pub proof fn lemma_hash_to_point_preimage(vk: Seq<u8>)
    ensures
        exists|d: Seq<u8>|
            hash_to_point_spec(vk) == ristretto_from_uniform(#[trigger] sha512(d)) && d.len() == 15
                + vk.len() && d.subrange(0, 15) == HASH_SALT@ && d.subrange(15, d.len() as int) == vk,
{
    let d = HASH_SALT@ + vk;
    assert(d.subrange(0, 15) =~= HASH_SALT@);
    assert(d.subrange(15, d.len() as int) =~= vk);
    assert(hash_to_point_spec(vk) == ristretto_from_uniform(sha512(d)));
}

/// The CLSAG challenge at ring position i is SHA-512, reduced modulo ℓ, of a preimage
/// laid out as: the domain separator SIG_SERIALIZE_NAME (15 bytes), the message bytes,
/// the position i as 8 bytes whose little-endian value is i, then the 32-byte points L,
/// V, I and A.
pub proof fn lemma_challenge_preimage(
    m: Seq<u8>,
    i: u64,
    l: Seq<u8>,
    v: Seq<u8>,
    ii: Seq<u8>,
    a: Seq<u8>,
)
    requires
        l.len() == 32,
        v.len() == 32,
        ii.len() == 32,
        a.len() == 32,
    ensures
        exists|d: Seq<u8>|
            h_clsag_spec(m, i as nat, l, v, ii, a) == le_nat(#[trigger] sha512(d)) % group_order() && d.len()
                == m.len() + 151 && d.subrange(0, 15) == SIG_SERIALIZE_NAME@ && d.subrange(
                15,
                15 + m.len() as int,
            ) == m && le_nat(d.subrange(15 + m.len() as int, 23 + m.len() as int)) == i && d.subrange(
                23 + m.len() as int,
                55 + m.len() as int,
            ) == l && d.subrange(55 + m.len() as int, 87 + m.len() as int) == v && d.subrange(
                87 + m.len() as int,
                119 + m.len() as int,
            ) == ii && d.subrange(119 + m.len() as int, 151 + m.len() as int) == a,
{
    let d = SIG_SERIALIZE_NAME@ + m + u64_le(i) + l + v + ii + a;
    let k = m.len() as int;
    lemma_le_nat_u64_le(i);
    assert(u64_le(i).len() == 8);
    assert(d.subrange(0, 15) =~= SIG_SERIALIZE_NAME@);
    assert(d.subrange(15, 15 + k) =~= m);
    assert(d.subrange(15 + k, 23 + k) =~= u64_le(i));
    assert(d.subrange(23 + k, 55 + k) =~= l);
    assert(d.subrange(55 + k, 87 + k) =~= v);
    assert(d.subrange(87 + k, 119 + k) =~= ii);
    assert(d.subrange(119 + k, 151 + k) =~= a);
    assert(h_clsag_spec(m, i as nat, l, v, ii, a) == le_nat(sha512(d)) % group_order());
}

/// The ring position is bound into the challenge: at two different positions with the
/// same message and points, the challenges are hashes of different preimages.
pub proof fn lemma_challenge_binds_position(
    m: Seq<u8>,
    i: u64,
    j: u64,
    l: Seq<u8>,
    v: Seq<u8>,
    ii: Seq<u8>,
    a: Seq<u8>,
)
    requires
        i != j,
        l.len() == 32,
        v.len() == 32,
        ii.len() == 32,
        a.len() == 32,
    ensures
        exists|di: Seq<u8>, dj: Seq<u8>|
            di != dj && h_clsag_spec(m, i as nat, l, v, ii, a) == le_nat(#[trigger] sha512(di))
                % group_order() && h_clsag_spec(m, j as nat, l, v, ii, a) == le_nat(
                #[trigger] sha512(dj),
            ) % group_order(),
{
    lemma_challenge_preimage(m, i, l, v, ii, a);
    lemma_challenge_preimage(m, j, l, v, ii, a);
    let k = m.len() as int;
    let di = choose|d: Seq<u8>|
        h_clsag_spec(m, i as nat, l, v, ii, a) == le_nat(#[trigger] sha512(d)) % group_order() && d.len()
            == m.len() + 151 && d.subrange(0, 15) == SIG_SERIALIZE_NAME@ && d.subrange(15, 15 + m.len() as int)
            == m && le_nat(d.subrange(15 + m.len() as int, 23 + m.len() as int)) == i && d.subrange(
            23 + m.len() as int,
            55 + m.len() as int,
        ) == l && d.subrange(55 + m.len() as int, 87 + m.len() as int) == v && d.subrange(87 + m.len() as int, 119 + m.len() as int)
            == ii && d.subrange(119 + m.len() as int, 151 + m.len() as int) == a;
    let dj = choose|d: Seq<u8>|
        h_clsag_spec(m, j as nat, l, v, ii, a) == le_nat(#[trigger] sha512(d)) % group_order() && d.len()
            == m.len() + 151 && d.subrange(0, 15) == SIG_SERIALIZE_NAME@ && d.subrange(15, 15 + m.len() as int)
            == m && le_nat(d.subrange(15 + m.len() as int, 23 + m.len() as int)) == j && d.subrange(
            23 + m.len() as int,
            55 + m.len() as int,
        ) == l && d.subrange(55 + m.len() as int, 87 + m.len() as int) == v && d.subrange(87 + m.len() as int, 119 + m.len() as int)
            == ii && d.subrange(119 + m.len() as int, 151 + m.len() as int) == a;
    if di == dj {
        assert(di.subrange(15 + k, 23 + k) == dj.subrange(15 + k, 23 + k));
    }
    assert(di != dj);
}

/// D_i = C_i - T·G1 - C.
pub open spec fn d_point(m: BlockMsgView, row: OutputPublicView, c_diff: Seq<u8>) -> Seq<u8> {
    ristretto_sub(ristretto_sub(row.commitment, ristretto_mul(m.t as nat, g1())), c_diff)
}

/// The challenge that follows challenge `c` at ring position `i` with responses `sx`, `sr`:
/// H_clsag(M, i, sx·GPAY + c·vk_i, sx·GVRF + c·vk_VRF, sx·H(vk_i) + c·I, sr·G2 + c·D_i).
pub open spec fn clsag_next(
    m: BlockMsgView,
    ring: Seq<OutputPublicView>,
    c_diff: Seq<u8>,
    i: int,
    sx: nat,
    sr: nat,
    c: nat,
) -> nat {
    let row = ring[i];
    let l = ristretto_add(ristretto_mul(sx, gpay()), ristretto_mul(c, row.vk_pay));
    let v = ristretto_add(ristretto_mul(sx, gvrf()), ristretto_mul(c, m.vk_vrf_o));
    let ii = ristretto_add(ristretto_mul(sx, hash_to_point_spec(row.vk_pay)), ristretto_mul(c, m.key_image));
    let a = ristretto_add(ristretto_mul(sr, g2()), ristretto_mul(c, d_point(m, row, c_diff)));
    h_clsag_spec(serialize_m_spec(m), i as nat, l, v, ii, a)
}

/// The challenges that verification recomputes: c'_0 = c0, c'_{i+1} = next(i, c'_i).
pub open spec fn clsag_challenge(
    m: BlockMsgView,
    ring: Seq<OutputPublicView>,
    sig: ClsagSigView,
    i: nat,
) -> nat
    decreases i,
{
    if i == 0 {
        le_nat(sig.c0)
    } else {
        let j = (i - 1) as nat;
        clsag_next(
            m,
            ring,
            sig.c_diff,
            j as int,
            le_nat(sig.s_x[j as int]),
            le_nat(sig.s_r[j as int]),
            clsag_challenge(m, ring, sig, j),
        )
    }
}

/// A signature verifies: the ring is not empty, there is one response pair per member,
/// and the recomputed challenges close the ring (c'_n = c0).
pub open spec fn clsag_verify_spec(m: BlockMsgView, ring: Seq<OutputPublicView>, sig: ClsagSigView) -> bool {
    let n = ring.len();
    &&& n > 0
    &&& sig.s_x.len() == n
    &&& sig.s_r.len() == n
    &&& clsag_challenge(m, ring, sig, n) == le_nat(sig.c0)
}

// ---------------------------------------------------------------------------
// Hashes
// ---------------------------------------------------------------------------

/// H(vk) for key images and the I-column: map public key to a point.
fn hash_to_point(vk: &Point) -> (r: Point)
    ensures
        r@ == hash_to_point_spec(vk@),
{
    let mut data: Vec<u8> = Vec::new();
    append_bytes(&mut data, HASH_SALT.as_slice());
    append_bytes(&mut data, vk.as_bytes().as_slice());
    let d = sha512_of(data.as_slice());
    Point::from_uniform_bytes(&d)
}

/// Appends the eight little-endian bytes of `x`.
fn append_u64_le(out: &mut Vec<u8>, x: u64)
    ensures
        final(out)@ == old(out)@ + u64_le(x),
{
    let b = u64_to_le_bytes(x);
    append_bytes(out, b.as_slice());
}

/// Serialize M in a stable way for Fiat–Shamir hashes.
fn serialize_m(m: &BlockMsg) -> (r: Vec<u8>)
    ensures
        r@ == serialize_m_spec(m@),
{
    let mut out: Vec<u8> = Vec::new();
    append_bytes(&mut out, MSG_SERIALIZE_NAME.as_slice());
    append_u64_le(&mut out, m.payload_b.len() as u64);
    append_bytes(&mut out, m.payload_b.as_slice());
    append_u64_le(&mut out, m.epoch);
    append_u64_le(&mut out, m.slot);
    append_bytes(&mut out, m.vk_vrf_o.as_bytes().as_slice());
    let y = m.y_o.as_str().as_bytes();
    append_u64_le(&mut out, y.len() as u64);
    append_bytes(&mut out, y);
    append_u64_le(&mut out, m.pi_y.len() as u64);
    append_bytes(&mut out, m.pi_y.as_slice());
    append_u64_le(&mut out, m.t);
    append_bytes(&mut out, m.key_image.as_bytes().as_slice());
    append_bytes(&mut out, m.range_proof.as_str().as_bytes());
    assert(out@ =~= serialize_m_spec(m@));
    out
}

/// H_clsag(M || i || L_i || V_i || I_i || A_i) -> Scalar.
fn h_clsag(m_bytes: &[u8], i: usize, l: &Point, v: &Point, ii: &Point, a: &Point) -> (r: Scalar)
    ensures
        r.value() == h_clsag_spec(m_bytes@, i as nat, l@, v@, ii@, a@),
{
    let mut data: Vec<u8> = Vec::new();
    append_bytes(&mut data, SIG_SERIALIZE_NAME.as_slice());
    append_bytes(&mut data, m_bytes);
    append_u64_le(&mut data, i as u64);
    append_bytes(&mut data, l.as_bytes().as_slice());
    append_bytes(&mut data, v.as_bytes().as_slice());
    append_bytes(&mut data, ii.as_bytes().as_slice());
    append_bytes(&mut data, a.as_bytes().as_slice());
    let d = sha512_of(data.as_slice());
    assert(data@ =~= SIG_SERIALIZE_NAME@ + m_bytes@ + u64_le(i as u64) + l@ + v@ + ii@ + a@);
    Scalar::from_bytes_mod_order_wide(&d)
}

/// Compute the output key image I_o = sk_pay * H(vk_o).
pub fn key_image_from_sk(sk_pay: &Scalar, vk_o: &Point) -> (r: Point)
    ensures
        r@ == ristretto_mul(sk_pay.value(), hash_to_point_spec(vk_o@)),
{
    hash_to_point(vk_o).mul(sk_pay)
}

// ---------------------------------------------------------------------------
// Verification
// ---------------------------------------------------------------------------

/// The next challenge at position `i`, computed as verification does.
fn next_challenge(
    m: &BlockMsg,
    m_bytes: &Vec<u8>,
    row: &OutputPublic,
    d_i: &Point,
    gens: &(Point, Point, Point, Point),
    i: usize,
    sx: &Scalar,
    sr: &Scalar,
    c: &Scalar,
) -> (r: Scalar)
    requires
        m_bytes@ == serialize_m_spec(m@),
        gens.1@ == g2(),
        gens.2@ == gpay(),
        gens.3@ == gvrf(),
    ensures
        forall|ring: Seq<OutputPublicView>, c_diff: Seq<u8>|
            ring.len() > i && ring[i as int] == row@ && d_i@ == d_point(m@, row@, c_diff)
                ==> r.value() == clsag_next(m@, ring, c_diff, i as int, sx.value(), sr.value(), c.value()),
{
    let (_, g2p, gpayp, gvrfp) = gens;
    let l_i = gpayp.mul(sx).add(&row.vk_pay.mul(c));
    let v_i = gvrfp.mul(sx).add(&m.vk_vrf_o.mul(c));
    let h_vki = hash_to_point(&row.vk_pay);
    let i_i = h_vki.mul(sx).add(&m.key_image.mul(c));
    let a_i = g2p.mul(sr).add(&d_i.mul(c));
    h_clsag(m_bytes.as_slice(), i, &l_i, &v_i, &i_i, &a_i)
}

/// Verify(M, Oblock, σ) -> bool.
pub fn clsag_verify(m: &BlockMsg, oblock: &[OutputPublic], sig: &ClsagSig) -> (r: bool)
    ensures
        r == clsag_verify_spec(m@, ring_view(oblock@), sig@),
{
    let ghost ring = ring_view(oblock@);
    let ghost sv = sig@;
    let n = oblock.len();
    if n == 0 || sig.s_x.len() != n || sig.s_r.len() != n {
        return false;
    }
    let gens = setup_generators();
    let t_g1 = gens.0.mul(&Scalar::from_u64(m.t));
    let m_bytes = serialize_m(m);
    let mut c = sig.c0.clone();
    proof {
        Scalar::lemma_value_is_le(sig.c0);
        assert(sv.c0 == sig.c0@);
    }
    let mut i: usize = 0;
    while i < n
        invariant
            n == oblock@.len(),
            n == sig.s_x@.len(),
            n == sig.s_r@.len(),
            i <= n,
            ring == ring_view(oblock@),
            sv == sig@,
            m_bytes@ == serialize_m_spec(m@),
            gens.0@ == g1(),
            gens.1@ == g2(),
            gens.2@ == gpay(),
            gens.3@ == gvrf(),
            t_g1@ == ristretto_mul(m.t as nat, g1()),
            c.value() == clsag_challenge(m@, ring, sv, i as nat),
        decreases n - i,
    {
        let row = &oblock[i];
        let d_i = row.commitment.sub(&t_g1).sub(&sig.c_diff);
        assert(ring[i as int] == row@);
        proof {
            Scalar::lemma_value_is_le(sig.s_x@[i as int]);
            Scalar::lemma_value_is_le(sig.s_r@[i as int]);
            Scalar::lemma_value_is_le(sig.c0);
        }
        let next = next_challenge(m, &m_bytes, row, &d_i, &gens, i, &sig.s_x[i], &sig.s_r[i], &c);
        assert(sv.s_x[i as int] == sig.s_x@[i as int]@);
        assert(sv.s_r[i as int] == sig.s_r@[i as int]@);
        c = next;
        i = i + 1;
    }
    proof { Scalar::lemma_value_is_le(sig.c0); }
    c.eq_scalar(&sig.c0)
}


// ---------------------------------------------------------------------------
// Signing
// ---------------------------------------------------------------------------

/// The position after `i` on a ring of `n`: i + 1, wrapping to 0.
pub open spec fn succ(i: int, n: int) -> int {
    if i + 1 < n { i + 1 } else { 0 }
}

/// The position `t` steps after `k` on a ring of `n` (for 0 <= t <= n).
pub open spec fn pos(k: int, t: int, n: int) -> int {
    if k + t < n { k + t } else { k + t - n }
}

/// `k` is the first ring position holding `o`.
pub open spec fn is_first_match(ring: Seq<OutputPublicView>, o: OutputPublicView, k: int) -> bool {
    &&& 0 <= k < ring.len()
    &&& ring[k] == o
    &&& forall|j: int| 0 <= j < k ==> ring[j] != o
}

/// The challenge the signer derives at its own position k from its nonces ax, ar:
/// H_clsag(M, k, ax·GPAY, ax·GVRF, ax·H(vk_k), ar·G2).
pub open spec fn signer_challenge(
    m: BlockMsgView,
    ring: Seq<OutputPublicView>,
    k: int,
    ax: nat,
    ar: nat,
) -> nat {
    h_clsag_spec(
        serialize_m_spec(m),
        k as nat,
        ristretto_mul(ax, gpay()),
        ristretto_mul(ax, gvrf()),
        ristretto_mul(ax, hash_to_point_spec(ring[k].vk_pay)),
        ristretto_mul(ar, g2()),
    )
}

/// The challenges `c` and nonces `ax`, `ar` witness that `sig` is what signing at
/// position k with key sk, blinding r and new blinding ro produces: c_{k+1} is the
/// signer's challenge, every other position's challenge follows the previous one as in
/// verification, c_0 is published, and s_k closes the ring
/// (s_x,k = ax - c_k·sk, s_r,k = ar - c_k·(r - ro), all modulo ℓ).
pub open spec fn ring_witness(
    m: BlockMsgView,
    ring: Seq<OutputPublicView>,
    k: int,
    sk: nat,
    r: nat,
    ro: nat,
    sig: ClsagSigView,
    c: Seq<nat>,
    ax: nat,
    ar: nat,
) -> bool {
    let n = ring.len() as int;
    let l = group_order();
    &&& c.len() == n
    &&& ax < l
    &&& ar < l
    &&& c[0] == le_nat(sig.c0)
    &&& c[succ(k, n)] == signer_challenge(m, ring, k, ax, ar)
    &&& forall|i: int|
        0 <= i < n && i != k ==> #[trigger] c[succ(i, n)] == clsag_next(
            m,
            ring,
            sig.c_diff,
            i,
            le_nat(sig.s_x[i]),
            le_nat(sig.s_r[i]),
            c[i],
        )
    &&& le_nat(sig.s_x[k]) == (ax - c[k] * sk) % (l as int)
    &&& le_nat(sig.s_r[k]) == (ar - c[k] * (r - ro)) % (l as int)
}

/// What `clsag_sign` produces when it succeeds, for the signer at position k with
/// payment key sk, amount v, blinding r and new blinding ro: C = (v - T)·G1 + ro·G2,
/// one canonical response pair per ring member, and challenges that close the ring.
pub open spec fn clsag_signed(
    m: BlockMsgView,
    ring: Seq<OutputPublicView>,
    k: int,
    sk: nat,
    amount: u64,
    r: nat,
    ro: nat,
    sig: ClsagSigView,
) -> bool {
    &&& sig.s_x.len() == ring.len()
    &&& sig.s_r.len() == ring.len()
    &&& sig.c_diff == crate::output::commitment_of((amount - m.t) as nat, ro)
    &&& exists|c: Seq<nat>, ax: nat, ar: nat| #[trigger]
        ring_witness(m, ring, k, sk, r, ro, sig, c, ax, ar)
}

/// The first ring position holding `o`, if any.
fn find_signer(oblock: &[OutputPublic], o: &OutputPublic) -> (r: Option<usize>)
    ensures
        match r {
            Some(k) => is_first_match(ring_view(oblock@), o@, k as int),
            None => forall|j: int| 0 <= j < oblock@.len() ==> oblock@[j]@ != o@,
        },
{
    let ghost ring = ring_view(oblock@);
    let mut idx: usize = 0;
    while idx < oblock.len()
        invariant
            idx <= oblock@.len(),
            ring == ring_view(oblock@),
            forall|j: int| 0 <= j < idx ==> ring[j] != o@,
        decreases oblock.len() - idx,
    {
        let row = &oblock[idx];
        if row.vk_pay.eq_point(&o.vk_pay) && row.commitment.eq_point(&o.commitment) {
            assert(ring[idx as int] == o@);
            return Some(idx);
        }
        assert(ring[idx as int] != o@);
        idx = idx + 1;
    }
    assert forall|j: int| 0 <= j < oblock@.len() implies oblock@[j]@ != o@ by {
        assert(ring[j] == oblock@[j]@);
    }
    None
}

/// `n` zero scalars.
fn zero_scalars(n: usize) -> (r: Vec<Scalar>)
    ensures
        r@.len() == n,
{
    let mut v: Vec<Scalar> = Vec::new();
    let mut i: usize = 0;
    while i < n
        invariant
            i <= n,
            v@.len() == i,
        decreases n - i,
    {
        v.push(Scalar::zero());
        i = i + 1;
    }
    v
}

/// Subtracting a reduced value modulo m, as scalar subtraction computes it.
proof fn lemma_mod_sub(a: int, b: int, m: int)
    requires
        m > 0,
    ensures
        (a + m - b % m) % m == (a - b) % m,
{
    vstd::arithmetic::div_mod::lemma_fundamental_div_mod(b, m);
    assert(a + m - b % m == m * (1 + b / m) + (a - b)) by (nonlinear_arith)
        requires
            b == m * (b / m) + b % m,
    ;
    vstd::arithmetic::div_mod::lemma_mod_multiples_vanish(1 + b / m, a - b, m);
}

/// s_r,k as signing computes it: ar - c·((r - ro) mod ℓ) mod ℓ, all reduced.
proof fn lemma_response_r(ar: int, c: int, r: int, ro: int, m: int)
    requires
        m > 0,
    ensures
        (ar + m - (c * ((r + m - ro) % m)) % m) % m == (ar - c * (r - ro)) % m,
{
    lemma_mod_sub(ar, c * ((r + m - ro) % m), m);
    assert(r + m - ro == (r - ro) + m * 1) by (nonlinear_arith);
    vstd::arithmetic::div_mod::lemma_mod_multiples_vanish(1, r - ro, m);
    assert((r + m - ro) % m == (r - ro) % m);
    vstd::arithmetic::div_mod::lemma_mul_mod_noop_right(c, r - ro, m);
    assert((c * ((r + m - ro) % m)) % m == (c * (r - ro)) % m);
    vstd::arithmetic::div_mod::lemma_sub_mod_noop_right(ar, c * ((r + m - ro) % m), m);
    vstd::arithmetic::div_mod::lemma_sub_mod_noop_right(ar, c * (r - ro), m);
}

/// (i + 1) mod n for i < n.
proof fn lemma_succ_mod(i: int, n: int)
    requires
        0 <= i < n,
    ensures
        (i + 1) % n == succ(i, n),
{
    if i + 1 < n {
        vstd::arithmetic::div_mod::lemma_small_mod((i + 1) as nat, n as nat);
    } else {
        vstd::arithmetic::div_mod::lemma_mod_self_0(n);
    }
}

/// Sign(M, Oblock, (sk_pay, amount, r)) -> σCLSAG: fails when the ring is empty, when
/// the signer's public part is not in the ring, or when its amount is below T.
pub fn clsag_sign(m: &BlockMsg, oblock: &[OutputPublic], correct_out: &Output, ro: Scalar) -> (res:
    Result<ClsagSig, String>)
    ensures
        oblock@.len() == 0 ==> (res matches Err(e) && e@ == "empty ring"@),
        res matches Err(e) ==> e@ == (if oblock@.len() == 0 {
            "empty ring"@
        } else if forall|k: int| !#[trigger] is_first_match(ring_view(oblock@), correct_out.public@, k) {
            "signer output not found in ring"@
        } else {
            "amount < T"@
        }),
        res is Ok <==> (exists|k: int|
            #[trigger] is_first_match(ring_view(oblock@), correct_out.public@, k))
            && correct_out.secret.amount >= m.t,
        res matches Ok(sig) ==> exists|k: int|
            #[trigger] is_first_match(ring_view(oblock@), correct_out.public@, k)
                && clsag_signed(
                m@,
                ring_view(oblock@),
                k,
                correct_out.secret.sk_pay.value(),
                correct_out.secret.amount,
                correct_out.secret.r.value(),
                ro.value(),
                sig@,
            ),
{
    let ghost ring = ring_view(oblock@);
    let n = oblock.len();
    if n == 0 {
        return Err(String::from_str("empty ring"));
    }
    let gens = setup_generators();
    let k = match find_signer(oblock, &correct_out.public) {
        Some(k) => k,
        None => {
            return Err(String::from_str("signer output not found in ring"));
        },
    };
    if correct_out.secret.amount < m.t {
        return Err(String::from_str("amount < T"));
    }
    let c_diff = gens.0.mul(&Scalar::from_u64(correct_out.secret.amount - m.t)).add(&gens.1.mul(&ro));
    let t_g1 = gens.0.mul(&Scalar::from_u64(m.t));
    let mut d: Vec<Point> = Vec::new();
    let mut di: usize = 0;
    while di < n
        invariant
            n == oblock@.len(),
            ring == ring_view(oblock@),
            di <= n,
            d@.len() == di,
            t_g1@ == ristretto_mul(m.t as nat, g1()),
            forall|j: int| 0 <= j < di ==> (#[trigger] d@[j])@ == d_point(m@, ring[j], c_diff@),
        decreases n - di,
    {
        d.push(oblock[di].commitment.sub(&t_g1).sub(&c_diff));
        di = di + 1;
    }
    let m_bytes = serialize_m(m);
    let mut s_x = zero_scalars(n);
    let mut s_r = zero_scalars(n);
    let mut c = zero_scalars(n);

    let alpha_x = Scalar::random();
    let alpha_r = Scalar::random();
    let l_k = gens.2.mul(&alpha_x);
    let v_k = gens.3.mul(&alpha_x);
    let i_k = hash_to_point(&correct_out.public.vk_pay).mul(&alpha_x);
    let a_k = gens.1.mul(&alpha_r);
    let k1 = (k + 1) % n;
    proof { lemma_succ_mod(k as int, n as int); }
    let hk = h_clsag(m_bytes.as_slice(), k, &l_k, &v_k, &i_k, &a_k);
    let ghost hkv = hk.value();
    assert(ring[k as int].vk_pay == correct_out.public.vk_pay@);
    assert(hkv == signer_challenge(m@, ring, k as int, alpha_x.value(), alpha_r.value()));
    c.set(k1, hk);

    let mut i = k1;
    let ghost mut j: int = 1;
    while i != k
        invariant
            n == oblock@.len(),
            ring == ring_view(oblock@),
            0 <= k < n,
            1 <= j <= n,
            i == pos(k as int, j, n as int),
            s_x@.len() == n,
            s_r@.len() == n,
            c@.len() == n,
            d@.len() == n,
            forall|q: int| 0 <= q < n ==> (#[trigger] d@[q])@ == d_point(m@, ring[q], c_diff@),
            m_bytes@ == serialize_m_spec(m@),
            gens.1@ == g2(),
            gens.2@ == gpay(),
            gens.3@ == gvrf(),
            c@[succ(k as int, n as int)].value() == hkv,
            forall|t: int|
                1 <= t < j ==> #[trigger] c@[pos(k as int, t + 1, n as int)].value() == clsag_next(
                    m@,
                    ring,
                    c_diff@,
                    pos(k as int, t, n as int),
                    s_x@[pos(k as int, t, n as int)].value(),
                    s_r@[pos(k as int, t, n as int)].value(),
                    c@[pos(k as int, t, n as int)].value(),
                ),
        decreases n - j,
    {
        s_x.set(i, Scalar::random());
        s_r.set(i, Scalar::random());
        assert(ring[i as int] == oblock@[i as int]@);
        let nc = next_challenge(m, &m_bytes, &oblock[i], &d[i], &gens, i, &s_x[i], &s_r[i], &c[i]);
        let next = (i + 1) % n;
        proof { lemma_succ_mod(i as int, n as int); }
        let ghost old_c = c@;
        c.set(next, nc);
        proof {
            assert forall|t: int| 1 <= t < j + 1 implies #[trigger] c@[pos(
                k as int,
                t + 1,
                n as int,
            )].value() == clsag_next(
                m@,
                ring,
                c_diff@,
                pos(k as int, t, n as int),
                s_x@[pos(k as int, t, n as int)].value(),
                s_r@[pos(k as int, t, n as int)].value(),
                c@[pos(k as int, t, n as int)].value(),
            ) by {
                if t < j {
                    assert(c@[pos(k as int, t + 1, n as int)] == old_c[pos(k as int, t + 1, n as int)]);
                }
            }
            j = j + 1;
        }
        i = next;
    }
    assert(j == n);
    let ck = c[k].clone();
    s_x.set(k, alpha_x.sub(&ck.mul(&correct_out.secret.sk_pay)));
    s_r.set(k, alpha_r.sub(&ck.mul(&correct_out.secret.r.sub(&ro))));
    let c0 = c[0].clone();
    alpha_x.lemma_canonical();
    alpha_r.lemma_canonical();
    let sig = ClsagSig { c_diff, c0, s_x, s_r };
    proof {
        let lo = group_order() as int;
        lemma_mod_sub(alpha_x.value() as int, (ck.value() * correct_out.secret.sk_pay.value()) as int, lo);
        lemma_response_r(alpha_r.value() as int, ck.value() as int, correct_out.secret.r.value() as int,
            ro.value() as int, lo);
        let nn = n as int;
        let cv = c@.map_values(|x: Scalar| x.value());
        let sv = sig@;
        Scalar::lemma_value_is_le(sig.c0);
        assert forall|q: int| 0 <= q < nn implies #[trigger] sv.s_x[q] == sig.s_x@[q]@ && sv.s_r[q]
            == sig.s_r@[q]@ && le_nat(sv.s_x[q]) == sig.s_x@[q].value() && le_nat(sv.s_r[q])
            == sig.s_r@[q].value() by {
            Scalar::lemma_value_is_le(sig.s_x@[q]);
            Scalar::lemma_value_is_le(sig.s_r@[q]);
        }
        assert forall|q: int| 0 <= q < nn && q != k implies #[trigger] cv[succ(q, nn)]
            == clsag_next(m@, ring, sv.c_diff, q, le_nat(sv.s_x[q]), le_nat(sv.s_r[q]), cv[q]) by {
            let t = if q > k { q - k } else { q + nn - k };
            assert(pos(k as int, t, nn) == q);
            assert(pos(k as int, t + 1, nn) == succ(q, nn));
        }
        let l = group_order();
        assert(cv.len() == nn);
        assert(alpha_x.value() < l);
        assert(alpha_r.value() < l);
        assert(cv[0] == le_nat(sv.c0));
        assert(cv[succ(k as int, nn)] == signer_challenge(m@, ring, k as int, alpha_x.value(), alpha_r.value()));
        assert(le_nat(sv.s_x[k as int]) == (alpha_x.value() - cv[k as int] * correct_out.secret.sk_pay.value()) % (l as int));
        assert(le_nat(sv.s_r[k as int]) == (alpha_r.value() - cv[k as int] * (correct_out.secret.r.value() - ro.value())) % (l as int));
        assert(ring_witness(m@, ring, k as int, correct_out.secret.sk_pay.value(),
            correct_out.secret.r.value(), ro.value(), sv, cv, alpha_x.value(), alpha_r.value()));
    }
    Ok(sig)
}


// ---------------------------------------------------------------------------
// Completeness: a signature made by `clsag_sign` verifies
// ---------------------------------------------------------------------------

/// ((a - b) mod m + b mod m) mod m == a mod m.
proof fn lemma_mod_cancel(a: int, b: int, m: int)
    requires
        m > 0,
    ensures
        (((a - b) % m) + (b % m)) % m == a % m,
{
    vstd::arithmetic::div_mod::lemma_add_mod_noop(a - b, b, m);
}

/// s·P + c·(x·P) is a·P when s = a - c·x modulo ℓ.
proof fn lemma_response_point(s: nat, c: nat, x: nat, a: nat, p: Seq<u8>)
    requires
        ristretto_group_laws(),
        valid_point(p),
        a < group_order(),
        s as int == (a - c * x) % (group_order() as int),
    ensures
        ristretto_add(ristretto_mul(s, p), ristretto_mul(c, ristretto_mul(x, p))) == ristretto_mul(a, p),
{
    let l = group_order();
    assert(ristretto_mul(c, ristretto_mul(x, p)) == ristretto_mul((c * x) % l, p));
    assert(ristretto_add(ristretto_mul(s, p), ristretto_mul((c * x) % l, p)) == ristretto_mul(
        (s + (c * x) % l) % l,
        p,
    ));
    lemma_mod_cancel(a as int, (c * x) as int, l as int);
    vstd::arithmetic::div_mod::lemma_small_mod(a, l);
}

/// The difference point D of the signer's row is (r - ro)·G2.
proof fn lemma_signer_difference(m: BlockMsgView, v: u64, r: nat, ro: nat)
    requires
        ristretto_group_laws(),
        v >= m.t,
        r < group_order(),
        ro < group_order(),
    ensures
        d_point(
            m,
            OutputPublicView { vk_pay: seq![], commitment: crate::output::commitment_of(v as nat, r) },
            crate::output::commitment_of((v - m.t) as nat, ro),
        ) == ristretto_mul(((r - ro) % (group_order() as int)) as nat, g2()),
{
    let l = group_order();
    let li = l as int;
    let gg1 = g1();
    let gg2 = g2();
    assert(valid_point(gg1));
    assert(valid_point(gg2));
    let rr = ((r - ro) % li) as nat;
    let z = ristretto_mul(rr, gg2);
    let x1 = ristretto_mul((v - m.t) as nat, gg1);
    let y1 = ristretto_mul(ro, gg2);
    let cd = ristretto_add(x1, y1);
    let tg = ristretto_mul(m.t as nat, gg1);
    let c = ristretto_add(ristretto_mul(v as nat, gg1), ristretto_mul(r, gg2));
    assert(valid_point(z) && valid_point(x1) && valid_point(y1) && valid_point(tg));
    assert(valid_point(cd));
    // z + C_diff + T·G1 = C
    assert(ristretto_add(x1, y1) == ristretto_add(y1, x1));
    assert(ristretto_add(ristretto_add(z, y1), x1) == ristretto_add(z, ristretto_add(y1, x1)));
    assert(ristretto_add(z, y1) == ristretto_mul((rr + ro) % l, gg2));
    assert((rr + ro) % l == r) by {
        lemma_mod_cancel(r as int, ro as int, li);
        vstd::arithmetic::div_mod::lemma_small_mod(r, l);
        vstd::arithmetic::div_mod::lemma_small_mod(ro, l);
    }
    let ry = ristretto_mul(r, gg2);
    assert(ristretto_add(z, cd) == ristretto_add(ry, x1));
    assert(valid_point(ry));
    assert(ristretto_add(ristretto_add(ry, x1), tg) == ristretto_add(ry, ristretto_add(x1, tg)));
    assert(ristretto_add(x1, tg) == ristretto_mul(((v - m.t) as nat + m.t as nat) % l, gg1));
    assert(((v - m.t) as nat + m.t as nat) % l == v as nat) by {
        vstd::arithmetic::div_mod::lemma_small_mod(v as nat, l);
    }
    let vx = ristretto_mul(v as nat, gg1);
    assert(valid_point(vx));
    assert(ristretto_add(ry, vx) == ristretto_add(vx, ry));
    assert(ristretto_add(ristretto_add(z, cd), tg) == c);
    // cancel T·G1, then C_diff
    let y = ristretto_sub(c, tg);
    assert(valid_point(c));
    assert(ristretto_add(y, tg) == c);
    assert(valid_point(y));
    assert(valid_point(ristretto_add(z, cd)));
    assert(y == ristretto_add(z, cd));
    let d = ristretto_sub(y, cd);
    assert(ristretto_add(d, cd) == y);
    assert(valid_point(d));
    assert(d == z);
}

/// At the signer's position, the challenge verification recomputes is the one signing
/// derived from its nonces.
proof fn lemma_signer_step(
    m: BlockMsgView,
    ring: Seq<OutputPublicView>,
    k: int,
    sk: nat,
    amount: u64,
    r: nat,
    ro: nat,
    sig: ClsagSigView,
    c: Seq<nat>,
    ax: nat,
    ar: nat,
)
    requires
        ristretto_group_laws(),
        sk < group_order(),
        r < group_order(),
        ro < group_order(),
        amount >= m.t,
        0 <= k < ring.len(),
        ring[k].vk_pay == ristretto_mul(sk, gpay()),
        ring[k].commitment == crate::output::commitment_of(amount as nat, r),
        m.vk_vrf_o == ristretto_mul(sk, gvrf()),
        m.key_image == ristretto_mul(sk, hash_to_point_spec(ring[k].vk_pay)),
        sig.c_diff == crate::output::commitment_of((amount - m.t) as nat, ro),
        ring_witness(m, ring, k, sk, r, ro, sig, c, ax, ar),
    ensures
        clsag_next(m, ring, sig.c_diff, k, le_nat(sig.s_x[k]), le_nat(sig.s_r[k]), c[k])
            == signer_challenge(m, ring, k, ax, ar),
{
    let l = group_order();
    let li = l as int;
    let sx = le_nat(sig.s_x[k]);
    let sr = le_nat(sig.s_r[k]);
    let ck = c[k];
    let row = ring[k];
    assert(valid_point(gpay()));
    assert(valid_point(gvrf()));
    assert(valid_point(hash_to_point_spec(row.vk_pay)));
    assert(valid_point(g2()));
    lemma_response_point(sx, ck, sk, ax, gpay());
    lemma_response_point(sx, ck, sk, ax, gvrf());
    lemma_response_point(sx, ck, sk, ax, hash_to_point_spec(row.vk_pay));
    lemma_signer_difference(m, amount, r, ro);
    let rr = ((r - ro) % li) as nat;
    assert(d_point(m, row, sig.c_diff) == ristretto_mul(rr, g2()));
    assert(sr as int == (ar - ck * rr) % li) by {
        vstd::arithmetic::div_mod::lemma_mul_mod_noop_right(ck as int, r - ro, li);
        vstd::arithmetic::div_mod::lemma_sub_mod_noop_right(ar as int, ck * (r - ro), li);
        vstd::arithmetic::div_mod::lemma_sub_mod_noop_right(ar as int, (ck * rr) as int, li);
        vstd::arithmetic::div_mod::lemma_mod_twice(r - ro, li);
        vstd::arithmetic::div_mod::lemma_mul_mod_noop_right(ck as int, rr as int, li);
    }
    lemma_response_point(sr, ck, rr, ar, g2());
}

/// The challenges that verification recomputes are those the signer used: c'_j = c_j,
/// and after the whole ring c'_n = c_0.
proof fn lemma_challenges_agree(
    m: BlockMsgView,
    ring: Seq<OutputPublicView>,
    k: int,
    sk: nat,
    amount: u64,
    r: nat,
    ro: nat,
    sig: ClsagSigView,
    c: Seq<nat>,
    ax: nat,
    ar: nat,
    j: nat,
)
    requires
        ristretto_group_laws(),
        sk < group_order(),
        r < group_order(),
        ro < group_order(),
        amount >= m.t,
        0 <= k < ring.len(),
        j <= ring.len(),
        ring[k].vk_pay == ristretto_mul(sk, gpay()),
        ring[k].commitment == crate::output::commitment_of(amount as nat, r),
        m.vk_vrf_o == ristretto_mul(sk, gvrf()),
        m.key_image == ristretto_mul(sk, hash_to_point_spec(ring[k].vk_pay)),
        sig.c_diff == crate::output::commitment_of((amount - m.t) as nat, ro),
        ring_witness(m, ring, k, sk, r, ro, sig, c, ax, ar),
    ensures
        clsag_challenge(m, ring, sig, j) == if j < ring.len() { c[j as int] } else { c[0] },
    decreases j,
{
    let n = ring.len() as int;
    if j > 0 {
        let i = (j - 1) as int;
        lemma_challenges_agree(m, ring, k, sk, amount, r, ro, sig, c, ax, ar, (j - 1) as nat);
        if i == k {
            lemma_signer_step(m, ring, k, sk, amount, r, ro, sig, c, ax, ar);
        } else {
            assert(c[succ(i, n)] == clsag_next(m, ring, sig.c_diff, i, le_nat(sig.s_x[i]), le_nat(sig.s_r[i]), c[i]));
        }
    }
}

/// Completeness of CLSAG: in a prime-order group, a signature that `clsag_sign` made
/// for a consistent output at ring position k (vk = sk·GPAY, C = v·G1 + r·G2, v >= T),
/// over a message whose VRF key is sk·GVRF and whose key image is sk·H(vk), verifies.
pub proof fn lemma_clsag_sign_verifies(
    m: BlockMsgView,
    ring: Seq<OutputPublicView>,
    k: int,
    sk: nat,
    amount: u64,
    r: nat,
    ro: nat,
    sig: ClsagSigView,
)
    requires
        ristretto_group_laws(),
        sk < group_order(),
        r < group_order(),
        ro < group_order(),
        amount >= m.t,
        0 <= k < ring.len(),
        ring[k].vk_pay == ristretto_mul(sk, gpay()),
        ring[k].commitment == crate::output::commitment_of(amount as nat, r),
        m.vk_vrf_o == ristretto_mul(sk, gvrf()),
        m.key_image == ristretto_mul(sk, hash_to_point_spec(ring[k].vk_pay)),
        clsag_signed(m, ring, k, sk, amount, r, ro, sig),
    ensures
        clsag_verify_spec(m, ring, sig),
{
    let (c, ax, ar) = choose|c: Seq<nat>, ax: nat, ar: nat|
        ring_witness(m, ring, k, sk, r, ro, sig, c, ax, ar);
    lemma_challenges_agree(m, ring, k, sk, amount, r, ro, sig, c, ax, ar, ring.len());
}


// ---------------------------------------------------------------------------
// Binary and hex encoding of signatures
// ---------------------------------------------------------------------------

/// The concatenation of a list of byte strings.
pub open spec fn concat_all(s: Seq<Seq<u8>>) -> Seq<u8>
    decreases s.len(),
{
    if s.len() == 0 {
        seq![]
    } else {
        s[0] + concat_all(s.drop_first())
    }
}

/// The binary form of a signature: C (32 bytes), c0 (32 bytes), n as 4 little-endian
/// bytes, the n responses s_x, then the n responses s_r (32 bytes each).
pub open spec fn sig_bytes_spec(s: ClsagSigView) -> Seq<u8> {
    s.c_diff + s.c0 + u32_le(s.s_x.len() as u32) + concat_all(s.s_x) + concat_all(s.s_r)
}

/// The n consecutive 32-byte blocks of `b` starting at `off`.
pub open spec fn blocks32(b: Seq<u8>, off: int, n: nat) -> Seq<Seq<u8>> {
    Seq::new(n, |i: int| b.subrange(off + 32 * i, off + 32 * i + 32))
}

/// Reads a signature from its binary form: C must be a valid point, c0 and every
/// response canonical, and the length exactly 68 + 64·n for the stated n.
pub open spec fn sig_of_bytes(b: Seq<u8>) -> Option<ClsagSigView> {
    if b.len() < 68 {
        None
    } else {
        let cd = b.subrange(0, 32);
        let c0 = b.subrange(32, 64);
        let n = u32_of_le(b.subrange(64, 68)) as nat;
        let sx = blocks32(b, 68, n);
        let sr = blocks32(b, (68 + 32 * n) as int, n);
        if valid_point(cd) && is_canonical_scalar(c0) && b.len() == 68 + 64 * n && (forall|i: int|
            0 <= i < n ==> is_canonical_scalar(#[trigger] sx[i])) && (forall|i: int|
            0 <= i < n ==> is_canonical_scalar(#[trigger] sr[i])) {
            Some(ClsagSigView { c_diff: cd, c0: c0, s_x: sx, s_r: sr })
        } else {
            None
        }
    }
}

/// Concatenating one more string at the end.
proof fn lemma_concat_all_push(s: Seq<Seq<u8>>, x: Seq<u8>)
    ensures
        concat_all(s.push(x)) == concat_all(s) + x,
    decreases s.len(),
{
    if s.len() == 0 {
        let t = s.push(x);
        assert(t[0] == x);
        assert(t.drop_first() =~= Seq::<Seq<u8>>::empty());
        assert(concat_all(t.drop_first()) =~= Seq::<u8>::empty());
        assert(concat_all(t) =~= x);
        assert(concat_all(s) =~= Seq::<u8>::empty());
    } else {
        assert(s.push(x).drop_first() =~= s.drop_first().push(x));
        lemma_concat_all_push(s.drop_first(), x);
        assert(concat_all(s.push(x)) =~= concat_all(s) + x);
    }
}

/// The concatenation of 32-byte strings has them as its consecutive blocks.
proof fn lemma_concat_all_blocks(s: Seq<Seq<u8>>)
    requires
        forall|i: int| 0 <= i < s.len() ==> (#[trigger] s[i]).len() == 32,
    ensures
        concat_all(s).len() == 32 * s.len(),
        forall|i: int|
            0 <= i < s.len() ==> #[trigger] concat_all(s).subrange(32 * i, 32 * i + 32) == s[i],
    decreases s.len(),
{
    if s.len() > 0 {
        let rest = s.drop_first();
        lemma_concat_all_blocks(rest);
        let cs = concat_all(s);
        let cr = concat_all(rest);
        assert forall|i: int| 0 <= i < s.len() implies #[trigger] cs.subrange(32 * i, 32 * i + 32)
            == s[i] by {
            if i == 0 {
                assert(cs.subrange(0, 32) =~= s[0]);
            } else {
                assert(rest[i - 1] == s[i]);
                assert(cr.subrange(32 * (i - 1), 32 * (i - 1) + 32) == rest[i - 1]);
                assert(cs.subrange(32 * i, 32 * i + 32) =~= cr.subrange(32 * (i - 1), 32 * (i - 1) + 32));
            }
        }
    }
}

/// Appends the encodings of a list of scalars.
fn append_scalars(out: &mut Vec<u8>, v: &Vec<Scalar>)
    ensures
        final(out)@ == old(out)@ + concat_all(v@.map_values(|s: Scalar| s@)),
{
    let ghost start = out@;
    let ghost sv = v@.map_values(|s: Scalar| s@);
    let mut i: usize = 0;
    while i < v.len()
        invariant
            i <= v@.len(),
            sv == v@.map_values(|s: Scalar| s@),
            out@ == start + concat_all(sv.take(i as int)),
        decreases v.len() - i,
    {
        append_bytes(out, v[i].as_bytes().as_slice());
        proof {
            assert(sv.take(i + 1) =~= sv.take(i as int).push(sv[i as int]));
            lemma_concat_all_push(sv.take(i as int), sv[i as int]);
        }
        i = i + 1;
    }
    assert(sv.take(v@.len() as int) =~= sv);
}

/// The binary form of a signature (the two response lists must have the same length).
fn clsag_sig_to_bytes(sig: &ClsagSig) -> (r: Vec<u8>)
    requires
        sig.s_x@.len() == sig.s_r@.len(),
    ensures
        r@ == sig_bytes_spec(sig@),
{
    let n = sig.s_x.len();
    let mut out: Vec<u8> = Vec::new();
    append_bytes(&mut out, sig.c_diff.as_bytes().as_slice());
    append_bytes(&mut out, sig.c0.as_bytes().as_slice());
    let nb = u32_to_le_bytes(n as u32);
    append_bytes(&mut out, nb.as_slice());
    append_scalars(&mut out, &sig.s_x);
    append_scalars(&mut out, &sig.s_r);
    assert(out@ =~= sig_bytes_spec(sig@));
    out
}

/// The hex of a signature's binary form (the two response lists must have the same length).
pub fn clsag_sig_to_hex(sig: &ClsagSig) -> (r: String)
    requires
        sig.s_x@.len() == sig.s_r@.len(),
    ensures
        r@ == hex_encode(sig_bytes_spec(sig@)),
{
    bytes_to_hex(clsag_sig_to_bytes(sig).as_slice())
}

/// Reads `n` canonical scalars from consecutive 32-byte blocks of `b` at `off`.
fn read_scalars(b: &Vec<u8>, off: usize, n: usize, err: &str) -> (r: Result<Vec<Scalar>, String>)
    requires
        off + 32 * n <= b@.len(),
    ensures
        r matches Err(e) ==> e@ == err@,
        r is Ok <==> forall|i: int| 0 <= i < n ==> is_canonical_scalar(
            #[trigger] blocks32(b@, off as int, n as nat)[i],
        ),
        r matches Ok(v) ==> v@.map_values(|s: Scalar| s@) == blocks32(b@, off as int, n as nat),
{
    let ghost bl = blocks32(b@, off as int, n as nat);
    let blen = b.len();
    let mut v: Vec<Scalar> = Vec::new();
    let mut i: usize = 0;
    while i < n
        invariant
            i <= n,
            blen == b@.len(),
            off + 32 * n <= b@.len(),
            bl == blocks32(b@, off as int, n as nat),
            v@.len() == i,
            forall|j: int| 0 <= j < i ==> (#[trigger] v@[j])@ == bl[j],
            forall|j: int| 0 <= j < i ==> is_canonical_scalar(#[trigger] bl[j]),
        decreases n - i,
    {
        let sb = array32_at(b.as_slice(), off + 32 * i);
        assert(sb@ == bl[i as int]);
        match Scalar::from_canonical_bytes(sb) {
            Some(s) => v.push(s),
            None => {
                return Err(String::from_str(err));
            },
        }
        i = i + 1;
    }
    assert(v@.map_values(|s: Scalar| s@) =~= bl);
    Ok(v)
}

/// The signature that `clsag_sig_from_hex` reads from `h`, if any.
pub open spec fn sig_of_hex(h: Seq<char>) -> Option<ClsagSigView> {
    match hex_to_bytes_spec(h) {
        Some(b) => sig_of_bytes(b),
        None => None,
    }
}

/// The message with which `clsag_sig_from_hex` rejects decoded bytes `b`: the first
/// check that fails, in the order length, C, c0, total length, s_x, s_r.
pub open spec fn sig_bytes_error(b: Seq<u8>) -> Seq<char> {
    if b.len() < 68 {
        "input too short"@
    } else if !valid_point(b.subrange(0, 32)) {
        "invalid c_diff encoding"@
    } else if !is_canonical_scalar(b.subrange(32, 64)) {
        "invalid scalar c0"@
    } else {
        let n = u32_of_le(b.subrange(64, 68)) as nat;
        if b.len() != 68 + 64 * n {
            "wrong length: got "@ + decimal(b.len()) + ", expected "@ + decimal(68 + 64 * n)
                + " for n="@ + decimal(n)
        } else if exists|i: int| 0 <= i < n && !is_canonical_scalar(#[trigger] blocks32(b, 68, n)[i]) {
            "invalid scalar in s_x"@
        } else {
            "invalid scalar in s_r"@
        }
    }
}

/// `e` is the message with which `clsag_sig_from_hex` rejects `h`.
pub open spec fn sig_hex_error(h: Seq<char>, e: Seq<char>) -> bool {
    match hex_to_bytes_spec(h) {
        Some(b) => e == sig_bytes_error(b),
        None => hex_error(e),
    }
}

/// The wrong-length message of signature parsing: the length found, the length that
/// the stated number of responses calls for, and that number, in decimal.
fn wrong_length_message(got: usize, expected: u64, n: u32) -> (r: String)
    ensures
        r@ == "wrong length: got "@ + decimal(got as nat) + ", expected "@ + decimal(expected as nat)
            + " for n="@ + decimal(n as nat),
{
    let r = String::from_str("wrong length: got ")
        .concat(decimal_string(got as u64).as_str())
        .concat(", expected ")
        .concat(decimal_string(expected).as_str())
        .concat(" for n=")
        .concat(decimal_string(n as u64).as_str());
    r
}

/// Reads a signature from the hex of its binary form (surrounding white space and one
/// `0x` prefix are accepted).
pub fn clsag_sig_from_hex(hex_str: &str) -> (r: Result<ClsagSig, String>)
    ensures
        r is Ok <==> sig_of_hex(hex_str@) is Some,
        r matches Ok(s) ==> sig_of_hex(hex_str@) == Some(s@),
        r matches Err(e) ==> sig_hex_error(hex_str@, e@),
{
    let bytes = match hex_to_bytes(hex_str) {
        Ok(b) => b,
        Err(e) => {
            return Err(e);
        },
    };
    if bytes.len() < 32 + 32 + 4 {
        return Err(String::from_str("input too short"));
    }
    let cd = array32_at(bytes.as_slice(), 0);
    let c_diff = match Point::from_bytes(cd) {
        Some(p) => p,
        None => {
            return Err(String::from_str("invalid c_diff encoding"));
        },
    };
    let c0b = array32_at(bytes.as_slice(), 32);
    let c0 = match Scalar::from_canonical_bytes(c0b) {
        Some(s) => s,
        None => {
            return Err(String::from_str("invalid scalar c0"));
        },
    };
    let nb: [u8; 4] = [bytes[64], bytes[65], bytes[66], bytes[67]];
    assert(nb@ =~= bytes@.subrange(64, 68));
    let n32 = u32_from_le_bytes(&nb);
    let expected_len: u64 = 68 + 64 * (n32 as u64);
    if bytes.len() as u64 != expected_len {
        return Err(wrong_length_message(bytes.len(), expected_len, n32));
    }
    let n = n32 as usize;
    let s_x = match read_scalars(&bytes, 68, n, "invalid scalar in s_x") {
        Ok(v) => v,
        Err(e) => {
            return Err(e);
        },
    };
    let s_r = match read_scalars(&bytes, 68 + 32 * n, n, "invalid scalar in s_r") {
        Ok(v) => v,
        Err(e) => {
            return Err(e);
        },
    };
    let sig = ClsagSig { c_diff, c0, s_x, s_r };
    assert(sig@.s_x == blocks32(bytes@, 68, n as nat));
    Ok(sig)
}

/// The binary form of a signature, block by block: C in bytes 0..32, c0 in 32..64, the
/// number n of responses as 4 bytes whose little-endian value is n, then s_x[i] in the
/// block at 68 + 32·i and s_r[i] in the block at 68 + 32·n + 32·i.
pub proof fn lemma_sig_bytes_layout(s: ClsagSigView)
    requires
        valid_sig(s),
        s.s_x.len() == s.s_r.len(),
        s.s_x.len() <= u32::MAX,
    ensures
        sig_bytes_spec(s).len() == 68 + 64 * s.s_x.len(),
        sig_bytes_spec(s).subrange(0, 32) == s.c_diff,
        sig_bytes_spec(s).subrange(32, 64) == s.c0,
        le_nat(sig_bytes_spec(s).subrange(64, 68)) == s.s_x.len(),
        forall|i: int|
            0 <= i < s.s_x.len() ==> #[trigger] sig_bytes_spec(s).subrange(68 + 32 * i, 100 + 32 * i)
                == s.s_x[i],
        forall|i: int|
            0 <= i < s.s_r.len() ==> #[trigger] sig_bytes_spec(s).subrange(
                68 + 32 * s.s_x.len() + 32 * i,
                100 + 32 * s.s_x.len() + 32 * i,
            ) == s.s_r[i],
{
    let n = s.s_x.len() as int;
    let b = sig_bytes_spec(s);
    lemma_concat_all_blocks(s.s_x);
    lemma_concat_all_blocks(s.s_r);
    lemma_le_nat_u32_le(n as u32);
    let cx = concat_all(s.s_x);
    let cr = concat_all(s.s_r);
    assert(b.subrange(0, 32) =~= s.c_diff);
    assert(b.subrange(32, 64) =~= s.c0);
    assert(b.subrange(64, 68) =~= u32_le(n as u32));
    assert forall|i: int| 0 <= i < n implies #[trigger] b.subrange(68 + 32 * i, 100 + 32 * i)
        == s.s_x[i] by {
        assert(cx.subrange(32 * i, 32 * i + 32) == s.s_x[i]);
        assert(b.subrange(68 + 32 * i, 100 + 32 * i) =~= cx.subrange(32 * i, 32 * i + 32));
    }
    assert forall|i: int| 0 <= i < n implies #[trigger] b.subrange(
        68 + 32 * n + 32 * i,
        100 + 32 * n + 32 * i,
    ) == s.s_r[i] by {
        assert(cr.subrange(32 * i, 32 * i + 32) == s.s_r[i]);
        assert(b.subrange(68 + 32 * n + 32 * i, 100 + 32 * n + 32 * i) =~= cr.subrange(
            32 * i,
            32 * i + 32,
        ));
    }
}

/// What reading a signature takes from which bytes: C from 0..32, c0 from 32..64, n from
/// the little-endian value of bytes 64..68, s_x[i] from the block at 68 + 32·i and s_r[i]
/// from the block at 68 + 32·n + 32·i, the input being exactly 68 + 64·n bytes long.
pub proof fn lemma_sig_of_bytes_layout(b: Seq<u8>)
    ensures
        sig_of_bytes(b) matches Some(s) ==> {
            &&& b.len() == 68 + 64 * s.s_x.len()
            &&& s.s_r.len() == s.s_x.len()
            &&& le_nat(b.subrange(64, 68)) == s.s_x.len()
            &&& s.c_diff == b.subrange(0, 32)
            &&& s.c0 == b.subrange(32, 64)
            &&& forall|i: int|
                0 <= i < s.s_x.len() ==> #[trigger] s.s_x[i] == b.subrange(68 + 32 * i, 100 + 32 * i)
            &&& forall|i: int|
                0 <= i < s.s_r.len() ==> #[trigger] s.s_r[i] == b.subrange(
                    68 + 32 * s.s_x.len() + 32 * i,
                    100 + 32 * s.s_x.len() + 32 * i,
                )
        },
{
    if b.len() >= 68 {
        lemma_u32_of_le_value(b.subrange(64, 68));
    }
}

/// A signature's binary form is read back as the same signature.
pub proof fn lemma_sig_bytes_roundtrip(s: ClsagSigView)
    requires
        valid_sig(s),
        s.s_x.len() == s.s_r.len(),
        s.s_x.len() <= u32::MAX,
    ensures
        sig_of_bytes(sig_bytes_spec(s)) == Some(s),
{
    let n = s.s_x.len();
    let b = sig_bytes_spec(s);
    lemma_concat_all_blocks(s.s_x);
    lemma_concat_all_blocks(s.s_r);
    lemma_u32_le_roundtrip(n as u32);
    let cx = concat_all(s.s_x);
    let cr = concat_all(s.s_r);
    assert(b.subrange(0, 32) =~= s.c_diff);
    assert(b.subrange(32, 64) =~= s.c0);
    assert(b.subrange(64, 68) =~= u32_le(n as u32));
    assert(b.len() == 68 + 64 * n);
    let sx = blocks32(b, 68, n);
    let sr = blocks32(b, (68 + 32 * n) as int, n);
    assert forall|i: int| 0 <= i < n implies #[trigger] sx[i] == s.s_x[i] by {
        assert(cx.subrange(32 * i, 32 * i + 32) == s.s_x[i]);
        assert(sx[i] =~= cx.subrange(32 * i, 32 * i + 32));
    }
    assert forall|i: int| 0 <= i < n implies #[trigger] sr[i] == s.s_r[i] by {
        assert(cr.subrange(32 * i, 32 * i + 32) == s.s_r[i]);
        assert(sr[i] =~= cr.subrange(32 * i, 32 * i + 32));
    }
    assert(sx =~= s.s_x);
    assert(sr =~= s.s_r);
}

/// A signature's hex is read back as the same signature: what `clsag_sig_from_hex`
/// gives for `clsag_sig_to_hex`'s output.
pub proof fn lemma_sig_hex_roundtrip(s: ClsagSigView)
    requires
        valid_sig(s),
        s.s_x.len() == s.s_r.len(),
        s.s_x.len() <= u32::MAX,
    ensures
        sig_of_hex(hex_encode(sig_bytes_spec(s))) == Some(s),
{
    lemma_hex_roundtrip(sig_bytes_spec(s));
    lemma_sig_bytes_roundtrip(s);
}

} // verus!
