//! The frame: a 32-bit big-endian length followed by that many payload
//! bytes, each byte most significant bit first.

use crate::bits::{
    bits_be, bits_of_bytes, bits_to_bytes, bytes_of_bits, lemma_bits_be_len,
    lemma_bytes_of_bits_of_bytes, lemma_value_of_bits, push_bits_be, push_bytes_bits,
    read_value_be, value_be,
};
use crate::bitstream::BitReader;
use crate::capacity::spec_required_bits;
use crate::error::{outcome_view, StegoError};
use vstd::arithmetic::power2::lemma2_to64;
use vstd::prelude::*;

verus! {

/// The bits of the frame that carries `payload`.
pub open spec fn frame_bits(payload: Seq<u8>) -> Seq<bool> {
    bits_be(payload.len(), 32) + bits_of_bytes(payload)
}

/// The payload length that the first 32 bits of `stream` declare.
pub open spec fn declared_len(stream: Seq<bool>) -> nat {
    value_be(stream.subrange(0, 32))
}

/// Whether `stream` is long enough for a header and for the payload that
/// the header declares.
pub open spec fn holds_frame(stream: Seq<bool>) -> bool {
    stream.len() >= 32 && stream.len() >= spec_required_bits(declared_len(stream))
}

/// The payload of the frame at the start of `stream`, or `TruncatedFrame`
/// if the stream ends before the frame does.
pub open spec fn parse_frame(stream: Seq<bool>) -> Result<Seq<u8>, StegoError> {
    if holds_frame(stream) {
        Ok(bytes_of_bits(stream.subrange(32, spec_required_bits(declared_len(stream)) as int)))
    } else {
        Err(StegoError::TruncatedFrame)
    }
}

/// The number of bits that reading a frame from `stream` consumes: the
/// whole frame, or the header alone if the payload is cut short, or nothing
/// if the header is.
pub open spec fn frame_extent(stream: Seq<bool>) -> nat {
    if stream.len() < 32 {
        0
    } else if holds_frame(stream) {
        spec_required_bits(declared_len(stream))
    } else {
        32
    }
}

/// A frame is as long as the capacity check assumes: the header plus eight
/// bits for each payload byte.
pub proof fn lemma_frame_len(payload: Seq<u8>)
    ensures
        frame_bits(payload).len() == spec_required_bits(payload.len()),
{
    lemma_bits_be_len(payload.len(), 32);
}

/// A frame followed by anything parses to the payload it was built from,
/// provided the length fits the header.
pub proof fn lemma_frame_round_trip(payload: Seq<u8>, tail: Seq<bool>)
    requires
        payload.len() <= u32::MAX,
    ensures
        parse_frame(frame_bits(payload) + tail) == Ok::<Seq<u8>, StegoError>(payload),
        frame_extent(frame_bits(payload) + tail) == spec_required_bits(payload.len()),
{
    let stream = frame_bits(payload) + tail;
    lemma_frame_len(payload);
    lemma_bits_be_len(payload.len(), 32);
    lemma2_to64();
    lemma_value_of_bits(payload.len(), 32);
    assert(stream.subrange(0, 32) =~= bits_be(payload.len(), 32));
    assert(declared_len(stream) == payload.len());
    assert(stream.subrange(32, 32 + 8 * payload.len() as int) =~= bits_of_bytes(payload));
    lemma_bytes_of_bits_of_bytes(payload);
}

/// The header field for a payload of `payload_len` bytes. Fails with
/// `PayloadTooLarge` exactly when the length does not fit in 32 bits.
pub fn header_length(payload_len: usize) -> (outcome: Result<u32, StegoError>)
    ensures
        outcome is Ok <==> payload_len <= u32::MAX,
        outcome matches Ok(field) ==> field == payload_len,
        outcome is Err ==> outcome == Err::<u32, StegoError>(StegoError::PayloadTooLarge),
{
    if payload_len > u32::MAX as usize {
        Err(StegoError::PayloadTooLarge)
    } else {
        Ok(payload_len as u32)
    }
}

/// Builds the frame for `payload`. Fails with `PayloadTooLarge` exactly when
/// the length does not fit in 32 bits.
pub fn encode_frame(payload: &[u8]) -> (outcome: Result<Vec<bool>, StegoError>)
    ensures
        outcome is Ok <==> payload@.len() <= u32::MAX,
        outcome matches Ok(bits) ==> bits@ == frame_bits(payload@),
        outcome is Err ==> outcome == Err::<Vec<bool>, StegoError>(StegoError::PayloadTooLarge),
{
    let field = match header_length(payload.len()) {
        Ok(field) => field,
        Err(e) => {
            return Err(e);
        },
    };
    let mut bits: Vec<bool> = Vec::new();
    push_bits_be(&mut bits, field, 32);
    push_bytes_bits(&mut bits, payload);
    proof {
        assert(bits@ =~= frame_bits(payload@));
    }
    Ok(bits)
}

/// Reads one frame from `reader`: 32 bits of length, then that many bytes.
/// Fails with `TruncatedFrame` exactly when the bits run out first.
pub fn decode_frame(reader: &mut BitReader) -> (outcome: Result<Vec<u8>, StegoError>)
    ensures
        final(reader)@.stream == old(reader)@.stream,
        final(reader)@.position == old(reader)@.position + frame_extent(old(reader)@.rest()),
        outcome_view(outcome) == parse_frame(old(reader)@.rest()),
{
    let ghost rest = reader@.rest();
    let header = match reader.read_bits(32) {
        Ok(header) => header,
        Err(_) => {
            return Err(StegoError::TruncatedFrame);
        },
    };
    let declared = read_value_be(header.as_slice(), 0, 32);
    proof {
        assert(header@.subrange(0, 32) =~= rest.subrange(0, 32));
    }
    let left = reader.remaining();
    if declared as u64 * 8 > left as u64 {
        return Err(StegoError::TruncatedFrame);
    }
    let bits = match reader.read_bits(declared as usize * 8) {
        Ok(bits) => bits,
        Err(_) => {
            return Err(StegoError::TruncatedFrame);
        },
    };
    proof {
        assert(bits@ =~= rest.subrange(32, 32 + 8 * declared));
    }
    Ok(bits_to_bytes(bits.as_slice()))
}

} // verus!
