//! Embedding a payload in a carrier and extracting it again.

use crate::bitstream::{
    channel_bits, embed, lemma_embed_changes_only_low_bits, lemma_embed_read_back, BitReader,
    BitWriter,
};
use crate::capacity::{check_capacity, spec_required_bits};
use crate::error::{outcome_view, StegoError};
use crate::frame::{
    decode_frame, encode_frame, frame_bits, lemma_frame_len, lemma_frame_round_trip, parse_frame,
};
use crate::payload::{
    lemma_payload_round_trip, parse_payload, payload_bytes, Payload, PayloadContent, PayloadKind,
};
use crate::pixels::{PixelBuffer, PixelGrid};
use vstd::prelude::*;

verus! {

/// What embedding `payload` in `carrier` yields: `CapacityExceeded` if the
/// frame needs more bits than the carrier has channels, else
/// `PayloadTooLarge` if the payload's length does not fit the header, else
/// the carrier with the frame written into the lowest bits of its first
/// channels.
pub open spec fn encode_result(carrier: PixelGrid, payload: PayloadContent) -> Result<
    PixelGrid,
    StegoError,
> {
    let bytes = payload_bytes(payload);
    if spec_required_bits(bytes.len()) > carrier.data.len() {
        Err(StegoError::CapacityExceeded)
    } else if bytes.len() > u32::MAX {
        Err(StegoError::PayloadTooLarge)
    } else {
        Ok(carrier.with_data(embed(carrier.data, 0, frame_bits(bytes))))
    }
}

/// What extracting a payload of kind `kind` from `carrier` yields:
/// `TruncatedFrame` if the carrier's bits end before the frame they start,
/// else whatever the frame's payload bytes parse to.
pub open spec fn decode_result(carrier: PixelGrid, kind: PayloadKind) -> Result<
    PayloadContent,
    StegoError,
> {
    match parse_frame(channel_bits(carrier.data)) {
        Ok(bytes) => parse_payload(kind, bytes),
        Err(e) => Err(e),
    }
}

/// Hides `payload` in a copy of `carrier`. The carrier itself is left as it
/// is; the copy differs from it in nothing but the lowest bit of the channels
/// that carry the frame. Fails with `CapacityExceeded` if the frame does not
/// fit, and with `PayloadTooLarge` if it would fit but the payload's length
/// does not fit the header; in either case nothing is written.
pub fn encode(carrier: &PixelBuffer, payload: &Payload) -> (outcome: Result<
    PixelBuffer,
    StegoError,
>)
    ensures
        outcome_view(outcome) == encode_result(carrier@, payload@),
        outcome is Ok <==> spec_required_bits(payload_bytes(payload@).len()) <= carrier@.data.len()
            && payload_bytes(payload@).len() <= u32::MAX,
        outcome matches Ok(stego) ==> {
            &&& stego@.width == carrier@.width
            &&& stego@.height == carrier@.height
            &&& stego@.channels == carrier@.channels
            &&& stego@.data.len() == carrier@.data.len()
            &&& forall|i: int|
                0 <= i < carrier@.data.len() ==> #[trigger] stego@.data[i] / 2
                    == carrier@.data[i] / 2
            &&& forall|i: int|
                spec_required_bits(payload_bytes(payload@).len()) <= i < carrier@.data.len()
                    ==> #[trigger] stego@.data[i] == carrier@.data[i]
        },
{
    proof {
        if encode_result(carrier@, payload@) is Ok {
            lemma_encode_changes_only_frame_bits(carrier@, payload@);
        }
    }
    let bytes = payload.to_bytes();
    match check_capacity(carrier.capacity_bits() as u128, bytes.len()) {
        Ok(()) => {},
        Err(e) => {
            return Err(e);
        },
    }
    let frame = match encode_frame(bytes.as_slice()) {
        Ok(frame) => frame,
        Err(e) => {
            return Err(e);
        },
    };
    proof {
        lemma_frame_len(bytes@);
    }
    let mut writer = BitWriter::new(carrier.clone());
    match writer.write_bits(frame.as_slice()) {
        Ok(()) => Ok(writer.into_buffer()),
        Err(e) => Err(e),
    }
}

/// Recovers the payload of kind `kind` that `carrier` holds. Fails with
/// `TruncatedFrame` if the carrier's bits end before the frame they declare,
/// and with `InvalidTextEncoding` or `MalformedImagePayload` if the frame's
/// bytes are no payload of that kind.
pub fn decode(carrier: &PixelBuffer, kind: PayloadKind) -> (outcome: Result<Payload, StegoError>)
    ensures
        outcome_view(outcome) == decode_result(carrier@, kind),
{
    let mut reader = BitReader::new(carrier);
    proof {
        assert(reader@.rest() =~= channel_bits(carrier@.data));
    }
    match decode_frame(&mut reader) {
        Ok(bytes) => Payload::from_bytes(kind, bytes),
        Err(e) => Err(e),
    }
}

/// Whatever is embedded comes out again: if encoding succeeds, decoding the
/// result as the payload's own kind returns the payload.
pub proof fn lemma_round_trip(carrier: PixelGrid, payload: PayloadContent)
    requires
        payload.wf(),
        encode_result(carrier, payload) is Ok,
    ensures
        decode_result(encode_result(carrier, payload)->Ok_0, payload.kind()) == Ok::<
            PayloadContent,
            StegoError,
        >(payload),
{
    let bytes = payload_bytes(payload);
    let frame = frame_bits(bytes);
    let stego = embed(carrier.data, 0, frame);
    lemma_frame_len(bytes);
    lemma_embed_read_back(carrier.data, 0, frame);
    let stream = channel_bits(stego);
    let tail = stream.subrange(frame.len() as int, stream.len() as int);
    assert(stream =~= frame + tail);
    lemma_frame_round_trip(bytes, tail);
    lemma_payload_round_trip(payload);
}

/// Decoding can be repeated: whatever `decode` may return for a carrier and
/// a kind, it returns each time it is asked; a call leaves nothing behind
/// that a later call could see.
pub proof fn lemma_decode_repeatable(
    carrier: &PixelBuffer,
    kind: PayloadKind,
    first: Result<Payload, StegoError>,
    second: Result<Payload, StegoError>,
)
    requires
        call_ensures(decode, (carrier, kind), first),
        call_ensures(decode, (carrier, kind), second),
    ensures
        outcome_view(first) == outcome_view(second),
{
}

/// Raw bytes survive the round trip whenever the carrier has room for their
/// frame and their length fits the header.
pub proof fn lemma_binary_round_trip(carrier: PixelGrid, bytes: Seq<u8>)
    requires
        carrier.data.len() >= spec_required_bits(bytes.len()),
        bytes.len() <= u32::MAX,
    ensures
        encode_result(carrier, PayloadContent::Binary(bytes)) is Ok,
        decode_result(
            encode_result(carrier, PayloadContent::Binary(bytes))->Ok_0,
            PayloadKind::Binary,
        ) == Ok::<PayloadContent, StegoError>(PayloadContent::Binary(bytes)),
{
    lemma_round_trip(carrier, PayloadContent::Binary(bytes));
}

/// Encoding keeps the carrier's shape and changes nothing but the lowest
/// bit of the channels that hold the frame: the upper seven bits of every
/// channel stay, and every channel from the frame's end on stays whole.
pub proof fn lemma_encode_changes_only_frame_bits(carrier: PixelGrid, payload: PayloadContent)
    requires
        encode_result(carrier, payload) is Ok,
    ensures
        ({
            let stego = encode_result(carrier, payload)->Ok_0;
            let required = spec_required_bits(payload_bytes(payload).len());
            &&& stego.width == carrier.width
            &&& stego.height == carrier.height
            &&& stego.channels == carrier.channels
            &&& stego.data.len() == carrier.data.len()
            &&& forall|i: int|
                0 <= i < carrier.data.len() ==> #[trigger] stego.data[i] / 2 == carrier.data[i]
                    / 2
            &&& forall|i: int|
                required <= i < carrier.data.len() ==> #[trigger] stego.data[i]
                    == carrier.data[i]
        }),
{
    let bytes = payload_bytes(payload);
    lemma_frame_len(bytes);
    lemma_embed_changes_only_low_bits(carrier.data, 0, frame_bits(bytes));
}

/// A payload whose frame fills the carrier to the last bit is accepted, given
/// that its length fits the header; a frame of even one bit more is refused
/// with `CapacityExceeded`.
pub proof fn lemma_capacity_boundary(carrier: PixelGrid, payload: PayloadContent)
    ensures
        spec_required_bits(payload_bytes(payload).len()) == carrier.data.len() && payload_bytes(
            payload,
        ).len() <= u32::MAX ==> encode_result(carrier, payload) is Ok,
        spec_required_bits(payload_bytes(payload).len()) > carrier.data.len() ==> encode_result(
            carrier,
            payload,
        ) == Err::<PixelGrid, StegoError>(StegoError::CapacityExceeded),
{
}

} // verus!
