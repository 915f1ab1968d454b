//! The protocol's data: outputs, block messages, CLSAG signatures and blocks, their
//! hex-string (JSON) forms, and the conversions between the two.
use vstd::prelude::*;
use crate::group::{Point, Scalar, is_canonical_scalar};
use crate::helpers::{
    bytes_to_hex, hex_encode, hex_error, hex_to_bytes, hex_to_bytes_spec, hex_to_point,
    hex_to_scalar, point_hex_error, point_of_hex, point_to_hex, scalar_hex_error, scalar_of_hex,
    scalar_to_hex, valid_point, lemma_hex_roundtrip, lemma_point_hex_roundtrip,
    lemma_scalar_hex_roundtrip,
};
use crate::vrf::{PublicKey, SecretKey};

verus! {

// ---------------------------------------------------------------------------
// In-memory types
// ---------------------------------------------------------------------------

/// A VRF key pair.
#[derive(Clone, Debug)]
pub struct VRFKey {
    pub sk: SecretKey,
    pub vk: PublicKey,
}

/// A CLSAG signature: the difference commitment C, the first challenge c0 and the
/// responses for every ring member.
#[derive(Clone, Debug)]
pub struct ClsagSig {
    pub c_diff: Point,
    pub c0: Scalar,
    pub s_x: Vec<Scalar>,
    pub s_r: Vec<Scalar>,
}

/// The secret part of an output: payment key, amount and commitment blinding.
#[derive(Clone, Debug)]
pub struct OutputSecret {
    pub sk_pay: Scalar,
    pub amount: u64,
    pub r: Scalar,
}

/// The public part of an output: payment key and amount commitment.
#[derive(Clone, Debug)]
pub struct OutputPublic {
    pub vk_pay: Point,
    pub commitment: Point,
}

/// An output with its secret and public parts.
#[derive(Clone, Debug)]
pub struct Output {
    pub secret: OutputSecret,
    pub public: OutputPublic,
}

/// The block message M that the leader signs.
#[derive(Clone, Debug)]
pub struct BlockMsg {
    pub payload_b: Vec<u8>,
    pub epoch: u64,
    pub slot: u64,
    pub vk_vrf_o: Point,
    pub y_o: String,
    pub pi_y: Vec<u8>,
    pub t: u64,
    pub key_image: Point,
    pub range_proof: String,
}

/// A block: message, ring of outputs and signature.
#[derive(Debug)]
pub struct Block {
    pub msg: BlockMsg,
    pub ring: Vec<OutputPublic>,
    pub sig: ClsagSig,
}

// ---------------------------------------------------------------------------
// Hex-string (JSON) types
// ---------------------------------------------------------------------------

/// A CLSAG signature with every element in hex.
#[derive(Clone, Debug, PartialEq, Eq)]
pub struct ClsagSigJson {
    pub diff_commitment: String,
    pub c0: String,
    pub s_x: Vec<String>,
    pub s_r: Vec<String>,
}

/// An output's public part with both points in hex.
#[derive(Clone, Debug, PartialEq, Eq)]
pub struct OutputPubJson {
    pub pubkey: String,
    pub stake_commitment: String,
}

/// A block message with its binary fields in hex.
#[derive(Clone, Debug, PartialEq, Eq)]
pub struct BlockMsgJson {
    pub payload: String,
    pub epoch: u64,
    pub slot: u64,
    pub vrf_pubkey: String,
    pub vrf_output: String,
    pub vrf_proof: String,
    pub t: u64,
    pub key_image: String,
    pub range_proof: String,
}

/// A block in hex-string form.
#[derive(Clone, Debug, PartialEq, Eq)]
pub struct BlockJson {
    pub msg: BlockMsgJson,
    pub ring: Vec<OutputPubJson>,
    pub sig: ClsagSigJson,
}

// ---------------------------------------------------------------------------
// Views
// ---------------------------------------------------------------------------

/// An output's public part: two point encodings.
pub struct OutputPublicView {
    pub vk_pay: Seq<u8>,
    pub commitment: Seq<u8>,
}

/// A signature: point and scalar encodings.
pub struct ClsagSigView {
    pub c_diff: Seq<u8>,
    pub c0: Seq<u8>,
    pub s_x: Seq<Seq<u8>>,
    pub s_r: Seq<Seq<u8>>,
}

/// A block message with points as encodings and strings as characters.
pub struct BlockMsgView {
    pub payload_b: Seq<u8>,
    pub epoch: u64,
    pub slot: u64,
    pub vk_vrf_o: Seq<u8>,
    pub y_o: Seq<char>,
    pub pi_y: Seq<u8>,
    pub t: u64,
    pub key_image: Seq<u8>,
    pub range_proof: Seq<char>,
}

/// A block.
pub struct BlockView {
    pub msg: BlockMsgView,
    pub ring: Seq<OutputPublicView>,
    pub sig: ClsagSigView,
}

/// An output's public part in hex.
pub struct OutputPubJsonView {
    pub pubkey: Seq<char>,
    pub stake_commitment: Seq<char>,
}

/// A signature in hex.
pub struct ClsagSigJsonView {
    pub diff_commitment: Seq<char>,
    pub c0: Seq<char>,
    pub s_x: Seq<Seq<char>>,
    pub s_r: Seq<Seq<char>>,
}

/// A block message in hex.
pub struct BlockMsgJsonView {
    pub payload: Seq<char>,
    pub epoch: u64,
    pub slot: u64,
    pub vrf_pubkey: Seq<char>,
    pub vrf_output: Seq<char>,
    pub vrf_proof: Seq<char>,
    pub t: u64,
    pub key_image: Seq<char>,
    pub range_proof: Seq<char>,
}

/// A block in hex.
pub struct BlockJsonView {
    pub msg: BlockMsgJsonView,
    pub ring: Seq<OutputPubJsonView>,
    pub sig: ClsagSigJsonView,
}

impl View for OutputPublic {
    type V = OutputPublicView;

    open spec fn view(&self) -> OutputPublicView {
        OutputPublicView { vk_pay: self.vk_pay@, commitment: self.commitment@ }
    }
}

impl View for ClsagSig {
    type V = ClsagSigView;

    open spec fn view(&self) -> ClsagSigView {
        ClsagSigView {
            c_diff: self.c_diff@,
            c0: self.c0@,
            s_x: self.s_x@.map_values(|s: Scalar| s@),
            s_r: self.s_r@.map_values(|s: Scalar| s@),
        }
    }
}

impl View for BlockMsg {
    type V = BlockMsgView;

    open spec fn view(&self) -> BlockMsgView {
        BlockMsgView {
            payload_b: self.payload_b@,
            epoch: self.epoch,
            slot: self.slot,
            vk_vrf_o: self.vk_vrf_o@,
            y_o: self.y_o@,
            pi_y: self.pi_y@,
            t: self.t,
            key_image: self.key_image@,
            range_proof: self.range_proof@,
        }
    }
}

impl View for Block {
    type V = BlockView;

    open spec fn view(&self) -> BlockView {
        BlockView {
            msg: self.msg@,
            ring: self.ring@.map_values(|o: OutputPublic| o@),
            sig: self.sig@,
        }
    }
}

impl View for OutputPubJson {
    type V = OutputPubJsonView;

    open spec fn view(&self) -> OutputPubJsonView {
        OutputPubJsonView { pubkey: self.pubkey@, stake_commitment: self.stake_commitment@ }
    }
}

impl View for ClsagSigJson {
    type V = ClsagSigJsonView;

    open spec fn view(&self) -> ClsagSigJsonView {
        ClsagSigJsonView {
            diff_commitment: self.diff_commitment@,
            c0: self.c0@,
            s_x: self.s_x@.map_values(|s: String| s@),
            s_r: self.s_r@.map_values(|s: String| s@),
        }
    }
}

impl View for BlockMsgJson {
    type V = BlockMsgJsonView;

    open spec fn view(&self) -> BlockMsgJsonView {
        BlockMsgJsonView {
            payload: self.payload@,
            epoch: self.epoch,
            slot: self.slot,
            vrf_pubkey: self.vrf_pubkey@,
            vrf_output: self.vrf_output@,
            vrf_proof: self.vrf_proof@,
            t: self.t,
            key_image: self.key_image@,
            range_proof: self.range_proof@,
        }
    }
}

impl View for BlockJson {
    type V = BlockJsonView;

    open spec fn view(&self) -> BlockJsonView {
        BlockJsonView {
            msg: self.msg@,
            ring: self.ring@.map_values(|o: OutputPubJson| o@),
            sig: self.sig@,
        }
    }
}

/// The views of a list of outputs' public parts.
pub open spec fn ring_view(ring: Seq<OutputPublic>) -> Seq<OutputPublicView> {
    ring.map_values(|o: OutputPublic| o@)
}

// ---------------------------------------------------------------------------
// Validity of views (what every in-memory value satisfies)
// ---------------------------------------------------------------------------

/// Both points of an output encode points.
pub open spec fn valid_output_public(o: OutputPublicView) -> bool {
    valid_point(o.vk_pay) && valid_point(o.commitment)
}

/// The signature's point and scalars are valid encodings.
pub open spec fn valid_sig(s: ClsagSigView) -> bool {
    &&& valid_point(s.c_diff)
    &&& is_canonical_scalar(s.c0)
    &&& forall|i: int| 0 <= i < s.s_x.len() ==> is_canonical_scalar(#[trigger] s.s_x[i])
    &&& forall|i: int| 0 <= i < s.s_r.len() ==> is_canonical_scalar(#[trigger] s.s_r[i])
}

/// The message's points are valid encodings.
pub open spec fn valid_msg(m: BlockMsgView) -> bool {
    valid_point(m.vk_vrf_o) && valid_point(m.key_image)
}

/// Every part of the block is a valid encoding.
pub open spec fn valid_block(b: BlockView) -> bool {
    &&& valid_msg(b.msg)
    &&& forall|i: int| 0 <= i < b.ring.len() ==> valid_output_public(#[trigger] b.ring[i])
    &&& valid_sig(b.sig)
}

// ---------------------------------------------------------------------------
// The conversions, as specification
// ---------------------------------------------------------------------------

/// The hex form of an output's public part.
pub open spec fn output_pub_to_json(o: OutputPublicView) -> OutputPubJsonView {
    OutputPubJsonView { pubkey: hex_encode(o.vk_pay), stake_commitment: hex_encode(o.commitment) }
}

/// Reads an output's public part from hex.
pub open spec fn output_pub_of_json(j: OutputPubJsonView) -> Option<OutputPublicView> {
    match (point_of_hex(j.pubkey), point_of_hex(j.stake_commitment)) {
        (Some(a), Some(b)) => Some(OutputPublicView { vk_pay: a, commitment: b }),
        _ => None,
    }
}

/// Reads every element of a list of scalar hex strings, if all are valid.
pub open spec fn scalars_of_hex(hs: Seq<Seq<char>>) -> Option<Seq<Seq<u8>>> {
    if forall|i: int| 0 <= i < hs.len() ==> (#[trigger] scalar_of_hex(hs[i])) is Some {
        Some(hs.map_values(|h: Seq<char>| scalar_of_hex(h).unwrap()))
    } else {
        None
    }
}

/// The hex form of a signature.
pub open spec fn sig_to_json(s: ClsagSigView) -> ClsagSigJsonView {
    ClsagSigJsonView {
        diff_commitment: hex_encode(s.c_diff),
        c0: hex_encode(s.c0),
        s_x: s.s_x.map_values(|b: Seq<u8>| hex_encode(b)),
        s_r: s.s_r.map_values(|b: Seq<u8>| hex_encode(b)),
    }
}

/// Reads a signature from hex.
pub open spec fn sig_of_json(j: ClsagSigJsonView) -> Option<ClsagSigView> {
    match (scalars_of_hex(j.s_x), scalars_of_hex(j.s_r), point_of_hex(j.diff_commitment),
        scalar_of_hex(j.c0)) {
        (Some(sx), Some(sr), Some(cd), Some(c0)) => Some(
            ClsagSigView { c_diff: cd, c0: c0, s_x: sx, s_r: sr },
        ),
        _ => None,
    }
}

/// The hex form of a block message.
pub open spec fn msg_to_json(m: BlockMsgView) -> BlockMsgJsonView {
    BlockMsgJsonView {
        payload: hex_encode(m.payload_b),
        epoch: m.epoch,
        slot: m.slot,
        vrf_pubkey: hex_encode(m.vk_vrf_o),
        vrf_output: m.y_o,
        vrf_proof: hex_encode(m.pi_y),
        t: m.t,
        key_image: hex_encode(m.key_image),
        range_proof: m.range_proof,
    }
}

/// Reads a block message from hex.
pub open spec fn msg_of_json(j: BlockMsgJsonView) -> Option<BlockMsgView> {
    match (hex_to_bytes_spec(j.payload), point_of_hex(j.vrf_pubkey), hex_to_bytes_spec(
        j.vrf_proof,
    ), point_of_hex(j.key_image)) {
        (Some(p), Some(vk), Some(pi), Some(ki)) => Some(
            BlockMsgView {
                payload_b: p,
                epoch: j.epoch,
                slot: j.slot,
                vk_vrf_o: vk,
                y_o: j.vrf_output,
                pi_y: pi,
                t: j.t,
                key_image: ki,
                range_proof: j.range_proof,
            },
        ),
        _ => None,
    }
}

/// The hex form of a block.
pub open spec fn block_to_json_spec(b: BlockView) -> BlockJsonView {
    BlockJsonView {
        msg: msg_to_json(b.msg),
        ring: b.ring.map_values(|o: OutputPublicView| output_pub_to_json(o)),
        sig: sig_to_json(b.sig),
    }
}

/// Reads a ring from hex, if every output is valid.
pub open spec fn ring_of_json(r: Seq<OutputPubJsonView>) -> Option<Seq<OutputPublicView>> {
    if forall|i: int| 0 <= i < r.len() ==> (#[trigger] output_pub_of_json(r[i])) is Some {
        Some(r.map_values(|o: OutputPubJsonView| output_pub_of_json(o).unwrap()))
    } else {
        None
    }
}

/// Reads a block from hex.
pub open spec fn block_of_json_spec(j: BlockJsonView) -> Option<BlockView> {
    match (msg_of_json(j.msg), sig_of_json(j.sig), ring_of_json(j.ring)) {
        (Some(m), Some(s), Some(r)) => Some(BlockView { msg: m, ring: r, sig: s }),
        _ => None,
    }
}

/// `e` is the message with which `OutputPublic::try_from` rejects `j`: that of the first
/// point that does not parse.
pub open spec fn output_pub_json_error(j: OutputPubJsonView, e: Seq<char>) -> bool {
    if point_of_hex(j.pubkey) is None {
        point_hex_error(j.pubkey, e)
    } else {
        point_hex_error(j.stake_commitment, e)
    }
}

/// `e` is the message with which a list of scalar hex strings is rejected: that of the
/// first one that does not parse.
pub open spec fn scalars_hex_error(hs: Seq<Seq<char>>, e: Seq<char>) -> bool {
    exists|i: int|
        0 <= i < hs.len() && (forall|j: int| 0 <= j < i ==> (#[trigger] scalar_of_hex(hs[j])) is Some)
            && scalar_of_hex(#[trigger] hs[i]) is None && scalar_hex_error(hs[i], e)
}

/// `e` is the message with which `ClsagSig::try_from` rejects `j`: the lists s_x and s_r
/// are read first, then C, then c0.
pub open spec fn sig_json_error(j: ClsagSigJsonView, e: Seq<char>) -> bool {
    if scalars_of_hex(j.s_x) is None {
        scalars_hex_error(j.s_x, e)
    } else if scalars_of_hex(j.s_r) is None {
        scalars_hex_error(j.s_r, e)
    } else if point_of_hex(j.diff_commitment) is None {
        point_hex_error(j.diff_commitment, e)
    } else {
        scalar_hex_error(j.c0, e)
    }
}

/// `e` is the message with which `BlockMsg::try_from` rejects `j`: payload, VRF key,
/// VRF proof and key image are read in that order.
pub open spec fn msg_json_error(j: BlockMsgJsonView, e: Seq<char>) -> bool {
    if hex_to_bytes_spec(j.payload) is None {
        hex_error(e)
    } else if point_of_hex(j.vrf_pubkey) is None {
        point_hex_error(j.vrf_pubkey, e)
    } else if hex_to_bytes_spec(j.vrf_proof) is None {
        hex_error(e)
    } else {
        point_hex_error(j.key_image, e)
    }
}

/// `e` is the message with which a list of hex outputs is rejected: that of the first
/// one that does not parse.
pub open spec fn ring_json_error(r: Seq<OutputPubJsonView>, e: Seq<char>) -> bool {
    exists|i: int|
        0 <= i < r.len() && (forall|j: int| 0 <= j < i ==> (#[trigger] output_pub_of_json(r[j])) is Some)
            && output_pub_of_json(#[trigger] r[i]) is None && output_pub_json_error(r[i], e)
}

/// `e` is the message with which `block_from_json` rejects `j`: the message is read
/// first, then the signature, then the ring.
pub open spec fn block_json_error(j: BlockJsonView, e: Seq<char>) -> bool {
    if msg_of_json(j.msg) is None {
        msg_json_error(j.msg, e)
    } else if sig_of_json(j.sig) is None {
        sig_json_error(j.sig, e)
    } else {
        ring_json_error(j.ring, e)
    }
}

// ---------------------------------------------------------------------------
// Conversions: in-memory <-> hex strings
// ---------------------------------------------------------------------------

/// Hex strings of a list of scalars.
fn scalars_to_hex(v: &Vec<Scalar>) -> (r: Vec<String>)
    ensures
        r@.map_values(|s: String| s@) == v@.map_values(|s: Scalar| s@).map_values(
            |b: Seq<u8>| hex_encode(b),
        ),
{
    let mut r: Vec<String> = Vec::new();
    let mut i: usize = 0;
    while i < v.len()
        invariant
            i <= v@.len(),
            r@.len() == i,
            forall|k: int| 0 <= k < i ==> (#[trigger] r@[k])@ == hex_encode(v@[k]@),
        decreases v.len() - i,
    {
        r.push(scalar_to_hex(&v[i]));
        i = i + 1;
    }
    assert(r@.map_values(|s: String| s@) =~= v@.map_values(|s: Scalar| s@).map_values(
        |b: Seq<u8>| hex_encode(b),
    ));
    r
}

/// Reads a list of scalar hex strings; fails when any of them is not a scalar.
fn scalars_from_hex(v: Vec<String>) -> (r: Result<Vec<Scalar>, String>)
    ensures
        r is Ok <==> scalars_of_hex(v@.map_values(|s: String| s@)) is Some,
        r matches Ok(w) ==> scalars_of_hex(v@.map_values(|s: String| s@)) == Some(
            w@.map_values(|s: Scalar| s@),
        ),
        r matches Err(e) ==> scalars_hex_error(v@.map_values(|s: String| s@), e@),
{
    let ghost hs = v@.map_values(|s: String| s@);
    let mut w: Vec<Scalar> = Vec::new();
    let mut i: usize = 0;
    while i < v.len()
        invariant
            i <= v@.len(),
            hs == v@.map_values(|s: String| s@),
            w@.len() == i,
            forall|k: int| 0 <= k < i ==> scalar_of_hex(#[trigger] hs[k]) == Some(w@[k]@),
        decreases v.len() - i,
    {
        match hex_to_scalar(v[i].as_str()) {
            Ok(s) => w.push(s),
            Err(e) => {
                assert(scalar_of_hex(hs[i as int]) is None);
                assert(forall|j: int| 0 <= j < i ==> (#[trigger] scalar_of_hex(hs[j])) is Some);
                assert(scalars_hex_error(hs, e@));
                return Err(e);
            },
        }
        i = i + 1;
    }
    assert(forall|k: int| 0 <= k < hs.len() ==> (#[trigger] scalar_of_hex(hs[k])) is Some);
    assert(hs.map_values(|h: Seq<char>| scalar_of_hex(h).unwrap()) =~= w@.map_values(
        |s: Scalar| s@,
    ));
    Ok(w)
}

impl OutputPubJson {
    /// The hex form of an output's public part.
    pub fn from(o: &OutputPublic) -> (r: OutputPubJson)
        ensures
            r@ == output_pub_to_json(o@),
    {
        OutputPubJson { pubkey: point_to_hex(&o.vk_pay), stake_commitment: point_to_hex(&o.commitment) }
    }
}

impl OutputPublic {
    /// Reads an output's public part from hex; fails unless both points parse.
    pub fn try_from(j: OutputPubJson) -> (r: Result<OutputPublic, String>)
        ensures
            r is Ok <==> output_pub_of_json(j@) is Some,
            r matches Ok(o) ==> output_pub_of_json(j@) == Some(o@),
            r matches Err(e) ==> output_pub_json_error(j@, e@),
    {
        let vk_pay = match hex_to_point(j.pubkey.as_str()) {
            Ok(p) => p,
            Err(e) => {
                return Err(e);
            },
        };
        let commitment = match hex_to_point(j.stake_commitment.as_str()) {
            Ok(p) => p,
            Err(e) => {
                return Err(e);
            },
        };
        Ok(OutputPublic { vk_pay, commitment })
    }
}

impl ClsagSigJson {
    /// The hex form of a signature.
    pub fn from(s: &ClsagSig) -> (r: ClsagSigJson)
        ensures
            r@ == sig_to_json(s@),
    {
        ClsagSigJson {
            diff_commitment: point_to_hex(&s.c_diff),
            c0: scalar_to_hex(&s.c0),
            s_x: scalars_to_hex(&s.s_x),
            s_r: scalars_to_hex(&s.s_r),
        }
    }
}

impl ClsagSig {
    /// Reads a signature from hex; fails unless every element parses.
    pub fn try_from(j: ClsagSigJson) -> (r: Result<ClsagSig, String>)
        ensures
            r is Ok <==> sig_of_json(j@) is Some,
            r matches Ok(s) ==> sig_of_json(j@) == Some(s@),
            r matches Err(e) ==> sig_json_error(j@, e@),
    {
        let ghost jv = j@;
        let s_x = match scalars_from_hex(j.s_x) {
            Ok(v) => v,
            Err(e) => {
                return Err(e);
            },
        };
        let s_r = match scalars_from_hex(j.s_r) {
            Ok(v) => v,
            Err(e) => {
                return Err(e);
            },
        };
        let c_diff = match hex_to_point(j.diff_commitment.as_str()) {
            Ok(p) => p,
            Err(e) => {
                return Err(e);
            },
        };
        let c0 = match hex_to_scalar(j.c0.as_str()) {
            Ok(c) => c,
            Err(e) => {
                return Err(e);
            },
        };
        Ok(ClsagSig { c_diff, c0, s_x, s_r })
    }
}

impl BlockMsgJson {
    /// The hex form of a block message.
    pub fn from(m: &BlockMsg) -> (r: BlockMsgJson)
        ensures
            r@ == msg_to_json(m@),
    {
        BlockMsgJson {
            payload: bytes_to_hex(m.payload_b.as_slice()),
            epoch: m.epoch,
            slot: m.slot,
            vrf_pubkey: point_to_hex(&m.vk_vrf_o),
            vrf_output: m.y_o.clone(),
            vrf_proof: bytes_to_hex(m.pi_y.as_slice()),
            t: m.t,
            key_image: point_to_hex(&m.key_image),
            range_proof: m.range_proof.clone(),
        }
    }
}

impl BlockMsg {
    /// Reads a block message from hex; fails unless the payload and proof decode and
    /// both points parse.
    pub fn try_from(j: BlockMsgJson) -> (r: Result<BlockMsg, String>)
        ensures
            r is Ok <==> msg_of_json(j@) is Some,
            r matches Ok(m) ==> msg_of_json(j@) == Some(m@),
            r matches Err(e) ==> msg_json_error(j@, e@),
    {
        let payload_b = match hex_to_bytes(j.payload.as_str()) {
            Ok(b) => b,
            Err(e) => {
                return Err(e);
            },
        };
        let vk_vrf_o = match hex_to_point(j.vrf_pubkey.as_str()) {
            Ok(p) => p,
            Err(e) => {
                return Err(e);
            },
        };
        let pi_y = match hex_to_bytes(j.vrf_proof.as_str()) {
            Ok(b) => b,
            Err(e) => {
                return Err(e);
            },
        };
        let key_image = match hex_to_point(j.key_image.as_str()) {
            Ok(p) => p,
            Err(e) => {
                return Err(e);
            },
        };
        Ok(BlockMsg {
            payload_b,
            epoch: j.epoch,
            slot: j.slot,
            vk_vrf_o,
            y_o: j.vrf_output,
            pi_y,
            t: j.t,
            key_image,
            range_proof: j.range_proof,
        })
    }
}

/// The hex form of a block.
pub fn block_to_json(b: &Block) -> (r: BlockJson)
    ensures
        r@ == block_to_json_spec(b@),
{
    let mut ring: Vec<OutputPubJson> = Vec::new();
    let mut i: usize = 0;
    while i < b.ring.len()
        invariant
            i <= b.ring@.len(),
            ring@.len() == i,
            forall|k: int| 0 <= k < i ==> (#[trigger] ring@[k])@ == output_pub_to_json(b.ring@[k]@),
        decreases b.ring.len() - i,
    {
        ring.push(OutputPubJson::from(&b.ring[i]));
        i = i + 1;
    }
    let r = BlockJson { msg: BlockMsgJson::from(&b.msg), ring, sig: ClsagSigJson::from(&b.sig) };
    assert(r@.ring =~= b@.ring.map_values(|o: OutputPublicView| output_pub_to_json(o)));
    r
}

/// Reads a list of hex outputs; fails when any of them does not parse.
fn ring_from_json(src: Vec<OutputPubJson>) -> (r: Result<Vec<OutputPublic>, String>)
    ensures
        r is Ok <==> ring_of_json(src@.map_values(|o: OutputPubJson| o@)) is Some,
        r matches Ok(v) ==> ring_of_json(src@.map_values(|o: OutputPubJson| o@)) == Some(
            v@.map_values(|o: OutputPublic| o@),
        ),
        r matches Err(e) ==> ring_json_error(src@.map_values(|o: OutputPubJson| o@), e@),
{
    let ghost rs = src@.map_values(|o: OutputPubJson| o@);
    let mut ring: Vec<OutputPublic> = Vec::new();
    let mut i: usize = 0;
    let n = src.len();
    while i < n
        invariant
            n == src@.len(),
            n == rs.len(),
            i <= n,
            rs == src@.map_values(|o: OutputPubJson| o@),
            ring@.len() == i,
            forall|k: int| 0 <= k < i ==> output_pub_of_json(#[trigger] rs[k]) == Some(ring@[k]@),
        decreases n - i,
    {
        match OutputPublic::try_from(take_output_json(&src, i)) {
            Ok(o) => ring.push(o),
            Err(e) => {
                assert(output_pub_of_json(rs[i as int]) is None);
                assert(forall|j: int| 0 <= j < i ==> (#[trigger] output_pub_of_json(rs[j])) is Some);
                assert(ring_json_error(rs, e@));
                return Err(e);
            },
        }
        i = i + 1;
    }
    assert(forall|k: int| 0 <= k < rs.len() ==> (#[trigger] output_pub_of_json(rs[k])) is Some);
    assert(rs.map_values(|o: OutputPubJsonView| output_pub_of_json(o).unwrap()) =~= ring@.map_values(
        |o: OutputPublic| o@,
    ));
    Ok(ring)
}

/// Reads a block from hex; fails unless the message, the signature and every ring
/// member parse.
pub fn block_from_json(j: BlockJson) -> (r: Result<Block, String>)
    ensures
        r is Ok <==> block_of_json_spec(j@) is Some,
        r matches Ok(b) ==> block_of_json_spec(j@) == Some(b@),
        r matches Err(e) ==> block_json_error(j@, e@),
{
    let msg = match BlockMsg::try_from(j.msg) {
        Ok(m) => m,
        Err(e) => {
            return Err(e);
        },
    };
    let sig = match ClsagSig::try_from(j.sig) {
        Ok(s) => s,
        Err(e) => {
            return Err(e);
        },
    };
    let ring = match ring_from_json(j.ring) {
        Ok(r) => r,
        Err(e) => {
            return Err(e);
        },
    };
    Ok(Block { msg, ring, sig })
}

/// A copy of the `i`-th element of a list of hex outputs.
fn take_output_json(v: &Vec<OutputPubJson>, i: usize) -> (r: OutputPubJson)
    requires
        i < v@.len(),
    ensures
        r@ == v@[i as int]@,
{
    let o = &v[i];
    OutputPubJson { pubkey: o.pubkey.clone(), stake_commitment: o.stake_commitment.clone() }
}


// ---------------------------------------------------------------------------
// Reading back what was written
// ---------------------------------------------------------------------------

/// Reading the hex list of valid scalars gives the scalars back.
proof fn lemma_scalars_roundtrip(v: Seq<Seq<u8>>)
    requires
        forall|i: int| 0 <= i < v.len() ==> is_canonical_scalar(#[trigger] v[i]),
    ensures
        scalars_of_hex(v.map_values(|b: Seq<u8>| hex_encode(b))) == Some(v),
{
    let hs = v.map_values(|b: Seq<u8>| hex_encode(b));
    assert forall|i: int| 0 <= i < hs.len() implies (#[trigger] scalar_of_hex(hs[i])) is Some
        && scalar_of_hex(hs[i]) == Some(v[i]) by {
        lemma_scalar_hex_roundtrip(v[i]);
    }
    assert(hs.map_values(|h: Seq<char>| scalar_of_hex(h).unwrap()) =~= v);
}

/// Each field of an output's hex form holds the hex of the same-named part:
/// `pubkey` that of vk_pay and `stake_commitment` that of the commitment.
pub proof fn lemma_output_pub_json_fields(o: OutputPublicView)
    ensures
        hex_to_bytes_spec(output_pub_to_json(o).pubkey) == Some(o.vk_pay),
        hex_to_bytes_spec(output_pub_to_json(o).stake_commitment) == Some(o.commitment),
{
    lemma_hex_roundtrip(o.vk_pay);
    lemma_hex_roundtrip(o.commitment);
}

/// Reading an output's hex form takes vk_pay from `pubkey` and the commitment from
/// `stake_commitment`.
pub proof fn lemma_output_pub_of_json_fields(j: OutputPubJsonView)
    ensures
        output_pub_of_json(j) matches Some(o) ==> point_of_hex(j.pubkey) == Some(o.vk_pay)
            && point_of_hex(j.stake_commitment) == Some(o.commitment),
{
}

/// Each field of a signature's hex form holds the hex of the same-named part: C in
/// `diff_commitment`, c0 in `c0`, and s_x[i], s_r[i] in the i-th entries of `s_x`, `s_r`.
pub proof fn lemma_sig_json_fields(s: ClsagSigView)
    ensures
        hex_to_bytes_spec(sig_to_json(s).diff_commitment) == Some(s.c_diff),
        hex_to_bytes_spec(sig_to_json(s).c0) == Some(s.c0),
        sig_to_json(s).s_x.len() == s.s_x.len(),
        sig_to_json(s).s_r.len() == s.s_r.len(),
        forall|i: int|
            0 <= i < s.s_x.len() ==> hex_to_bytes_spec(#[trigger] sig_to_json(s).s_x[i]) == Some(
                s.s_x[i],
            ),
        forall|i: int|
            0 <= i < s.s_r.len() ==> hex_to_bytes_spec(#[trigger] sig_to_json(s).s_r[i]) == Some(
                s.s_r[i],
            ),
{
    lemma_hex_roundtrip(s.c_diff);
    lemma_hex_roundtrip(s.c0);
    assert forall|i: int| 0 <= i < s.s_x.len() implies hex_to_bytes_spec(
        #[trigger] sig_to_json(s).s_x[i],
    ) == Some(s.s_x[i]) by {
        lemma_hex_roundtrip(s.s_x[i]);
    }
    assert forall|i: int| 0 <= i < s.s_r.len() implies hex_to_bytes_spec(
        #[trigger] sig_to_json(s).s_r[i],
    ) == Some(s.s_r[i]) by {
        lemma_hex_roundtrip(s.s_r[i]);
    }
}

/// Reading a signature's hex form takes each part from the same-named field: C from
/// `diff_commitment`, c0 from `c0`, s_x[i] and s_r[i] from the i-th entries of `s_x`, `s_r`.
pub proof fn lemma_sig_of_json_fields(j: ClsagSigJsonView)
    ensures
        sig_of_json(j) matches Some(s) ==> {
            &&& point_of_hex(j.diff_commitment) == Some(s.c_diff)
            &&& scalar_of_hex(j.c0) == Some(s.c0)
            &&& s.s_x.len() == j.s_x.len()
            &&& s.s_r.len() == j.s_r.len()
            &&& forall|i: int| 0 <= i < j.s_x.len() ==> scalar_of_hex(#[trigger] j.s_x[i]) == Some(s.s_x[i])
            &&& forall|i: int| 0 <= i < j.s_r.len() ==> scalar_of_hex(#[trigger] j.s_r[i]) == Some(s.s_r[i])
        },
{
    if let Some(s) = sig_of_json(j) {
        assert forall|i: int| 0 <= i < j.s_x.len() implies scalar_of_hex(#[trigger] j.s_x[i]) == Some(
            s.s_x[i],
        ) by {
            assert(scalar_of_hex(j.s_x[i]) is Some);
        }
        assert forall|i: int| 0 <= i < j.s_r.len() implies scalar_of_hex(#[trigger] j.s_r[i]) == Some(
            s.s_r[i],
        ) by {
            assert(scalar_of_hex(j.s_r[i]) is Some);
        }
    }
}

/// Each field of a message's hex form holds the same-named part: epoch, slot, T, the VRF
/// output and the range proof as they are, and the payload, VRF key, VRF proof and key
/// image as their hex.
pub proof fn lemma_msg_json_fields(m: BlockMsgView)
    ensures
        msg_to_json(m).epoch == m.epoch,
        msg_to_json(m).slot == m.slot,
        msg_to_json(m).t == m.t,
        msg_to_json(m).vrf_output == m.y_o,
        msg_to_json(m).range_proof == m.range_proof,
        hex_to_bytes_spec(msg_to_json(m).payload) == Some(m.payload_b),
        hex_to_bytes_spec(msg_to_json(m).vrf_pubkey) == Some(m.vk_vrf_o),
        hex_to_bytes_spec(msg_to_json(m).vrf_proof) == Some(m.pi_y),
        hex_to_bytes_spec(msg_to_json(m).key_image) == Some(m.key_image),
{
    lemma_hex_roundtrip(m.payload_b);
    lemma_hex_roundtrip(m.vk_vrf_o);
    lemma_hex_roundtrip(m.pi_y);
    lemma_hex_roundtrip(m.key_image);
}

/// Reading a message's hex form takes each part from the same-named field.
pub proof fn lemma_msg_of_json_fields(j: BlockMsgJsonView)
    ensures
        msg_of_json(j) matches Some(m) ==> {
            &&& m.epoch == j.epoch
            &&& m.slot == j.slot
            &&& m.t == j.t
            &&& m.y_o == j.vrf_output
            &&& m.range_proof == j.range_proof
            &&& hex_to_bytes_spec(j.payload) == Some(m.payload_b)
            &&& point_of_hex(j.vrf_pubkey) == Some(m.vk_vrf_o)
            &&& hex_to_bytes_spec(j.vrf_proof) == Some(m.pi_y)
            &&& point_of_hex(j.key_image) == Some(m.key_image)
        },
{
}

/// A block's hex form keeps the parts in place: its message, signature and i-th ring
/// member are the hex forms of the block's message, signature and i-th ring member.
pub proof fn lemma_block_json_fields(b: BlockView)
    ensures
        block_to_json_spec(b).msg == msg_to_json(b.msg),
        block_to_json_spec(b).sig == sig_to_json(b.sig),
        block_to_json_spec(b).ring.len() == b.ring.len(),
        forall|i: int|
            0 <= i < b.ring.len() ==> #[trigger] block_to_json_spec(b).ring[i] == output_pub_to_json(
                b.ring[i],
            ),
{
}

/// Reading a block's hex form reads its message, signature and i-th ring member from the
/// same-named parts.
pub proof fn lemma_block_of_json_fields(j: BlockJsonView)
    ensures
        block_of_json_spec(j) matches Some(b) ==> {
            &&& msg_of_json(j.msg) == Some(b.msg)
            &&& sig_of_json(j.sig) == Some(b.sig)
            &&& b.ring.len() == j.ring.len()
            &&& forall|i: int| 0 <= i < j.ring.len() ==> output_pub_of_json(#[trigger] j.ring[i]) == Some(b.ring[i])
        },
{
    if let Some(b) = block_of_json_spec(j) {
        assert forall|i: int| 0 <= i < j.ring.len() implies output_pub_of_json(#[trigger] j.ring[i])
            == Some(b.ring[i]) by {
            assert(output_pub_of_json(j.ring[i]) is Some);
        }
    }
}

/// An output's public part read back from its hex form is the same.
pub proof fn lemma_output_pub_json_roundtrip(o: OutputPublicView)
    requires
        valid_output_public(o),
    ensures
        output_pub_of_json(output_pub_to_json(o)) == Some(o),
{
    lemma_point_hex_roundtrip(o.vk_pay);
    lemma_point_hex_roundtrip(o.commitment);
}

/// A signature read back from its hex form is the same.
pub proof fn lemma_sig_json_roundtrip(s: ClsagSigView)
    requires
        valid_sig(s),
    ensures
        sig_of_json(sig_to_json(s)) == Some(s),
{
    lemma_point_hex_roundtrip(s.c_diff);
    lemma_scalar_hex_roundtrip(s.c0);
    lemma_scalars_roundtrip(s.s_x);
    lemma_scalars_roundtrip(s.s_r);
}

/// A block message read back from its hex form is the same.
pub proof fn lemma_msg_json_roundtrip(m: BlockMsgView)
    requires
        valid_msg(m),
    ensures
        msg_of_json(msg_to_json(m)) == Some(m),
{
    lemma_hex_roundtrip(m.payload_b);
    lemma_hex_roundtrip(m.pi_y);
    lemma_point_hex_roundtrip(m.vk_vrf_o);
    lemma_point_hex_roundtrip(m.key_image);
}

/// A block read back from its hex form is the same: what `block_from_json` gives for
/// `block_to_json`'s output.
pub proof fn lemma_block_json_roundtrip(b: BlockView)
    requires
        valid_block(b),
    ensures
        block_of_json_spec(block_to_json_spec(b)) == Some(b),
{
    lemma_msg_json_roundtrip(b.msg);
    lemma_sig_json_roundtrip(b.sig);
    let js = b.ring.map_values(|o: OutputPublicView| output_pub_to_json(o));
    assert forall|i: int| 0 <= i < js.len() implies (#[trigger] output_pub_of_json(js[i])) is Some
        && output_pub_of_json(js[i]) == Some(b.ring[i]) by {
        lemma_output_pub_json_roundtrip(b.ring[i]);
    }
    assert(js.map_values(|o: OutputPubJsonView| output_pub_of_json(o).unwrap()) =~= b.ring);
}

} // verus!
