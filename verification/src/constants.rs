//! Protocol constants.
use vstd::prelude::*;

verus! {

// GLOBAL
/// Label hashed to the value generator G1.
pub const G1_LABEL: &'static str = "StakeNote/G1";
/// Label hashed to the blinding generator G2.
pub const G2_LABEL: &'static str = "StakeNote/G2";
/// Label hashed to the payment-key generator GPAY.
pub const GPAY_LABEL: &'static str = "StakeNote/GPAY";

// CONSENSUS
/// Epoch nonce that prefixes every VRF input.
pub const EPOCH_NONCE: &'static str = "nonce";
/// The epoch number written into blocks.
pub const EPOCH_NUMBER: u64 = 7;
/// Block payload: the ASCII bytes of "block-header-bytes".
pub const BLOCK_PAYLOAD: [u8; 18] = [
    98, 108, 111, 99, 107, 45, 104, 101, 97, 100, 101, 114, 45, 98, 121, 116, 101, 115,
];

// RANGE PROOF
/// Range-proof transcript label: the ASCII bytes of "StakeNote/v>0".
pub const TRANSCRIPT_TAG: [u8; 13] = [83, 116, 97, 107, 101, 78, 111, 116, 101, 47, 118, 62, 48];
/// Bit size of range proofs.
pub const BULLETPROOF_N_BITS: usize = 64;

// ELIGIBILITY
/// Bit length of the VRF value compared against the threshold.
pub const L_VRF: u32 = 256;
/// Precision, in bits, of the eligibility arithmetic.
pub const PREC: u32 = 600;

// CLSAG
/// Domain separator of H(vk): the ASCII bytes of "StakeNote/H(vk)".
pub const HASH_SALT: [u8; 15] = [83, 116, 97, 107, 101, 78, 111, 116, 101, 47, 72, 40, 118, 107, 41];
/// Domain separator of the serialised block message: the ASCII bytes of "StakeNote/M".
pub const MSG_SERIALIZE_NAME: [u8; 11] = [83, 116, 97, 107, 101, 78, 111, 116, 101, 47, 77];
/// Domain separator of the CLSAG challenge hash: the ASCII bytes of "StakeNote/CLSAG".
pub const SIG_SERIALIZE_NAME: [u8; 15] = [83, 116, 97, 107, 101, 78, 111, 116, 101, 47, 67, 76, 83, 65, 71];
/// Number of outputs in a ring.
pub const RING_SIZE: usize = 16;
/// Amount of every decoy output.
pub const DECOY_AMOUNT: u64 = 2_000_000_000;
/// Total stake.
pub const TOTAL_STAKE: u64 = 12_500_000_000;

} // verus!
