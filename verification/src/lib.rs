//! Threshold secret sharing over an addressable key/value substrate.
//!
//! A secret byte sequence is split into `n` shares of which any `t`
//! reconstruct it exactly, while fewer reveal nothing: each secret byte is
//! the constant term of a fresh random polynomial of degree `t - 1` over
//! GF(2^8), and a share holds the evaluations of those polynomials at one
//! non-zero point.  Shares are placed under deterministic storage keys, and
//! recovery probes a bounded number of candidate keys, tolerating missing
//! or corrupt shares, before interpolating the secret back at x = 0.
//!
//! The owner of the key/value store is a collaborator outside this crate:
//! callers perform the actual reads and writes and hand the bytes in and
//! out of the functions here.

use vstd::prelude::*;

pub mod address;
pub mod codec;
pub mod collector;
pub mod dealer;
pub mod field;
pub mod input;
pub mod reconstruct;

verus! {

/// Everything that can go wrong in splitting, collecting or reconstructing.
/// Soft, per-candidate conditions (a missing or undecodable blob) are
/// absorbed by the collector; every variant here is surfaced to the caller.
#[derive(Clone, Copy, Debug, PartialEq, Eq, Structural)]
pub enum Error {
    /// The threshold or share count is out of range: a threshold under 2,
    /// more required than distributed, over 255 distributed, or an empty
    /// secret.
    ThresholdInvalid,
    /// A multiplicative inverse of zero was demanded of the field
    /// arithmetic; index 0 is reserved, so this marks an invariant
    /// violation rather than bad input.
    DivisionByZero,
    /// A byte blob does not decode as a well-formed share.
    CorruptShare,
    /// The probe budget ran out before a quorum was gathered: `collected`
    /// valid shares were found where `required` were needed.
    InsufficientShares { collected: u8, required: u8 },
    /// The shares handed to reconstruction are no usable quorum: too few,
    /// a duplicated or reserved index, or lengths that disagree.
    CorruptShareSet,
}

} // verus!
