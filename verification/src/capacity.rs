//! How many bits a carrier offers, how many a payload needs, and the check
//! that is made before anything is written.
//!
//! Every channel of every pixel carries one bit, so the capacity depends on
//! the carrier's dimensions and channel count alone.

use crate::error::StegoError;
use vstd::prelude::*;

verus! {

/// The number of bits that the frame header occupies.
pub const HEADER_BITS: usize = 32;

/// One bit per channel of every pixel.
pub open spec fn spec_capacity_bits(width: nat, height: nat, channels: nat) -> nat {
    width * height * channels
}

/// The header plus eight bits for every payload byte.
pub open spec fn spec_required_bits(payload_len: nat) -> nat {
    HEADER_BITS as nat + 8 * payload_len
}

/// The bits left after the header, in whole bytes, rounded down. The result
/// is negative when the header itself does not fit.
pub open spec fn spec_max_payload_bytes(capacity: nat) -> int {
    (capacity - HEADER_BITS) / 8
}

/// The capacity of a carrier with 32-bit dimensions and an 8-bit channel
/// count stays below `2^72`.
pub proof fn lemma_capacity_bound(width: nat, height: nat, channels: nat)
    requires
        width <= u32::MAX,
        height <= u32::MAX,
        channels <= u8::MAX,
    ensures
        width * height <= 0xFFFF_FFFE_0000_0001,
        spec_capacity_bits(width, height, channels) <= 0xFE_FFFF_FF02_0000_00FF,
{
    assert(width * height <= 0xFFFF_FFFE_0000_0001) by (nonlinear_arith)
        requires
            width <= 0xFFFF_FFFF,
            height <= 0xFFFF_FFFF,
    ;
    assert(width * height * channels <= 0xFE_FFFF_FF02_0000_00FF) by (nonlinear_arith)
        requires
            width * height <= 0xFFFF_FFFE_0000_0001,
            channels <= 0xFF,
    ;
}

/// A payload's frame fits a carrier exactly when the payload is no longer
/// than the carrier's largest payload.
pub proof fn lemma_fits_iff_within_max(capacity: nat, payload_len: nat)
    ensures
        spec_required_bits(payload_len) <= capacity <==> payload_len <= spec_max_payload_bytes(
            capacity,
        ),
{
}

/// The number of payload bits a carrier of the given shape can hold.
pub fn capacity_bits(width: u32, height: u32, channels: u8) -> (bits: u128)
    ensures
        bits == spec_capacity_bits(width as nat, height as nat, channels as nat),
{
    proof {
        lemma_capacity_bound(width as nat, height as nat, channels as nat);
    }
    let pixels: u128 = (width as u128) * (height as u128);
    pixels * (channels as u128)
}

/// The number of bits that the frame of a payload of `payload_len` bytes
/// occupies.
pub fn required_bits(payload_len: usize) -> (bits: u128)
    ensures
        bits == spec_required_bits(payload_len as nat),
{
    HEADER_BITS as u128 + 8 * (payload_len as u128)
}

/// The largest payload, in bytes, that a carrier of the given shape can hold.
/// Zero or less means that no payload byte fits; less than zero, that not
/// even the header does.
pub fn max_payload_bytes(width: u32, height: u32, channels: u8) -> (limit: i128)
    ensures
        limit == spec_max_payload_bytes(
            spec_capacity_bits(width as nat, height as nat, channels as nat),
        ),
{
    proof {
        lemma_capacity_bound(width as nat, height as nat, channels as nat);
    }
    let capacity = capacity_bits(width, height, channels);
    if capacity >= 32 {
        ((capacity - 32) / 8) as i128
    } else {
        -(((32 - capacity + 7) / 8) as i128)
    }
}

/// Accepts a payload of `payload_len` bytes for a carrier of `capacity` bits
/// exactly when its frame fits.
pub fn check_capacity(capacity: u128, payload_len: usize) -> (outcome: Result<(), StegoError>)
    ensures
        outcome is Ok <==> spec_required_bits(payload_len as nat) <= capacity,
        outcome is Err ==> outcome == Err::<(), StegoError>(StegoError::CapacityExceeded),
{
    if required_bits(payload_len) > capacity {
        Err(StegoError::CapacityExceeded)
    } else {
        Ok(())
    }
}

} // verus!
