//! A verified library for the StakeNote private leader-election prototype:
//! Ristretto-based outputs, CLSAG ring signatures over block messages,
//! VRF helpers, range-proof plumbing and hex / wire encodings.
pub mod bulletproof;
pub mod clsag;
pub mod constants;
pub mod encoding;
pub mod execution;
pub mod group;
pub mod helpers;
pub mod output;
pub mod structs;
pub mod vrf;
