//! The three kinds of payload and their byte forms.
//!
//! Text travels as its UTF-8 bytes and raw bytes travel as they are. An
//! image travels as its width and height, each a big-endian 32-bit number,
//! its channel count in one byte, and then its channel bytes in embedding
//! order.

use crate::capacity::{capacity_bits, spec_capacity_bits};
use crate::error::{outcome_view, StegoError};
use crate::pixels::{PixelBuffer, PixelGrid};
use std::string::FromUtf8Error;
use vstd::prelude::*;
use vstd::slice::{slice_subrange, slice_to_vec};
use vstd::utf8::{decode_utf8, encode_utf8, encode_utf8_decode_utf8, encode_utf8_valid_utf8, valid_utf8};

verus! {

/// The error of `String::from_utf8`; nothing of it is read.
#[verifier::external_type_specification]
#[verifier::external_body]
pub struct ExFromUtf8Error(FromUtf8Error);

/// `String::from_utf8` succeeds exactly on valid UTF-8, and the string it
/// returns then has the given bytes as its encoding.
pub assume_specification[ String::from_utf8 ](vec: Vec<u8>) -> (text: Result<
    String,
    FromUtf8Error,
>)
    ensures
        text is Ok <==> valid_utf8(vec@),
        text matches Ok(s) ==> encode_utf8(s@) == vec@,
;

/// Which kind of payload a carrier is expected to hold.
#[derive(Clone, Copy, Debug, PartialEq, Eq, Structural)]
pub enum PayloadKind {
    Text,
    Binary,
    Image,
}

/// Something to hide in a carrier.
#[derive(Debug, PartialEq, Eq)]
pub enum Payload {
    /// A string of Unicode characters.
    Text(String),
    /// Bytes with no further structure.
    Binary(Vec<u8>),
    /// A pixel buffer with its shape.
    Image(PixelBuffer),
}

/// What a payload holds.
pub enum PayloadContent {
    Text(Seq<char>),
    Binary(Seq<u8>),
    Image(PixelGrid),
}

impl PayloadContent {
    /// The kind of this content.
    pub open spec fn kind(self) -> PayloadKind {
        match self {
            PayloadContent::Text(_) => PayloadKind::Text,
            PayloadContent::Binary(_) => PayloadKind::Binary,
            PayloadContent::Image(_) => PayloadKind::Image,
        }
    }

    /// Whether the content can be held by a `Payload`: an image must be
    /// well formed.
    pub open spec fn wf(self) -> bool {
        self matches PayloadContent::Image(grid) ==> grid.wf()
    }
}

impl View for Payload {
    type V = PayloadContent;

    open spec fn view(&self) -> PayloadContent {
        match self {
            Payload::Text(text) => PayloadContent::Text(text@),
            Payload::Binary(bytes) => PayloadContent::Binary(bytes@),
            Payload::Image(image) => PayloadContent::Image(image@),
        }
    }
}

/// The four bytes of `value`, most significant first.
pub open spec fn u32_be_bytes(value: nat) -> Seq<u8> {
    seq![
        (value / 0x100_0000 % 0x100) as u8,
        (value / 0x1_0000 % 0x100) as u8,
        (value / 0x100 % 0x100) as u8,
        (value % 0x100) as u8,
    ]
}

/// The number that the first four bytes of `bytes` spell, most significant
/// first.
pub open spec fn be_u32(bytes: Seq<u8>) -> nat {
    (bytes[0] * 0x100_0000 + bytes[1] * 0x1_0000 + bytes[2] * 0x100 + bytes[3]) as nat
}

/// The byte form of an image: width, height, channel count, channel bytes.
pub open spec fn image_bytes(grid: PixelGrid) -> Seq<u8> {
    u32_be_bytes(grid.width) + u32_be_bytes(grid.height) + seq![grid.channels as u8] + grid.data
}

/// The image that `bytes` describe, or `MalformedImagePayload` if they end
/// before the nine header bytes or before the channel bytes that the header
/// declares. Bytes after the declared ones are ignored.
pub open spec fn parse_image(bytes: Seq<u8>) -> Result<PixelGrid, StegoError> {
    if bytes.len() < 9 {
        Err(StegoError::MalformedImagePayload)
    } else {
        let width = be_u32(bytes.subrange(0, 4));
        let height = be_u32(bytes.subrange(4, 8));
        let channels = bytes[8] as nat;
        let declared = spec_capacity_bits(width, height, channels);
        if bytes.len() - 9 < declared {
            Err(StegoError::MalformedImagePayload)
        } else {
            Ok(PixelGrid { width, height, channels, data: bytes.subrange(9, 9 + declared as int) })
        }
    }
}

/// The byte form of a payload.
pub open spec fn payload_bytes(content: PayloadContent) -> Seq<u8> {
    match content {
        PayloadContent::Text(chars) => encode_utf8(chars),
        PayloadContent::Binary(bytes) => bytes,
        PayloadContent::Image(grid) => image_bytes(grid),
    }
}

/// The payload of the given kind that `bytes` are the byte form of, or the
/// error that tells why they are none.
pub open spec fn parse_payload(kind: PayloadKind, bytes: Seq<u8>) -> Result<
    PayloadContent,
    StegoError,
> {
    match kind {
        PayloadKind::Text => if valid_utf8(bytes) {
            Ok(PayloadContent::Text(decode_utf8(bytes)))
        } else {
            Err(StegoError::InvalidTextEncoding)
        },
        PayloadKind::Binary => Ok(PayloadContent::Binary(bytes)),
        PayloadKind::Image => match parse_image(bytes) {
            Ok(grid) => Ok(PayloadContent::Image(grid)),
            Err(e) => Err(e),
        },
    }
}

/// Four big-endian bytes spell the number they were made from.
pub proof fn lemma_be_u32_round_trip(value: nat)
    requires
        value <= u32::MAX,
    ensures
        u32_be_bytes(value).len() == 4,
        be_u32(u32_be_bytes(value)) == value,
{
}

/// An image's byte form parses to the image.
pub proof fn lemma_image_round_trip(grid: PixelGrid)
    requires
        grid.wf(),
    ensures
        image_bytes(grid).len() == 9 + grid.data.len(),
        parse_image(image_bytes(grid)) == Ok::<PixelGrid, StegoError>(grid),
{
    let bytes = image_bytes(grid);
    lemma_be_u32_round_trip(grid.width);
    lemma_be_u32_round_trip(grid.height);
    assert(bytes.subrange(0, 4) =~= u32_be_bytes(grid.width));
    assert(bytes.subrange(4, 8) =~= u32_be_bytes(grid.height));
    assert(bytes[8] == grid.channels);
    assert(bytes.subrange(9, 9 + grid.data.len() as int) =~= grid.data);
}

/// A payload's byte form parses, as a payload of the same kind, to the
/// payload.
pub proof fn lemma_payload_round_trip(content: PayloadContent)
    requires
        content.wf(),
    ensures
        parse_payload(content.kind(), payload_bytes(content)) == Ok::<
            PayloadContent,
            StegoError,
        >(content),
{
    match content {
        PayloadContent::Text(chars) => {
            encode_utf8_valid_utf8(chars);
            encode_utf8_decode_utf8(chars);
        },
        PayloadContent::Binary(_) => {},
        PayloadContent::Image(grid) => {
            lemma_image_round_trip(grid);
        },
    }
}

/// Appends the four bytes of `value`, most significant first.
fn push_u32_be(out: &mut Vec<u8>, value: u32)
    ensures
        final(out)@ == old(out)@ + u32_be_bytes(value as nat),
{
    let b0 = ((value >> 24) & 0xFF) as u8;
    let b1 = ((value >> 16) & 0xFF) as u8;
    let b2 = ((value >> 8) & 0xFF) as u8;
    let b3 = (value & 0xFF) as u8;
    proof {
        assert((value >> 24) & 0xFF == value / 0x100_0000 % 0x100) by (bit_vector);
        assert((value >> 16) & 0xFF == value / 0x1_0000 % 0x100) by (bit_vector);
        assert((value >> 8) & 0xFF == value / 0x100 % 0x100) by (bit_vector);
        assert(value & 0xFF == value % 0x100) by (bit_vector);
    }
    out.push(b0);
    out.push(b1);
    out.push(b2);
    out.push(b3);
    proof {
        assert(out@ =~= old(out)@ + u32_be_bytes(value as nat));
    }
}

/// Reads the four bytes of `bytes` that start at `start` as a number, most
/// significant first.
fn read_u32_be(bytes: &[u8], start: usize) -> (value: u32)
    requires
        start + 4 <= bytes@.len(),
    ensures
        value == be_u32(bytes@.subrange(start as int, start + 4)),
{
    let total = bytes.len();
    let b0 = bytes[start] as u32;
    let b1 = bytes[start + 1] as u32;
    let b2 = bytes[start + 2] as u32;
    let b3 = bytes[start + 3] as u32;
    proof {
        assert((b0 << 24 | b1 << 16 | b2 << 8 | b3) == b0 * 0x100_0000 + b1 * 0x1_0000 + b2 * 0x100
            + b3) by (bit_vector)
            requires
                b0 < 0x100,
                b1 < 0x100,
                b2 < 0x100,
                b3 < 0x100,
        ;
    }
    b0 << 24 | b1 << 16 | b2 << 8 | b3
}

impl Payload {
    /// Which kind of payload this is.
    pub fn kind(&self) -> (kind: PayloadKind)
        ensures
            kind == self@.kind(),
    {
        match self {
            Payload::Text(_) => PayloadKind::Text,
            Payload::Binary(_) => PayloadKind::Binary,
            Payload::Image(_) => PayloadKind::Image,
        }
    }

    /// The byte form of this payload.
    pub fn to_bytes(&self) -> (bytes: Vec<u8>)
        ensures
            bytes@ == payload_bytes(self@),
            self@.wf(),
    {
        match self {
            Payload::Text(text) => slice_to_vec(text.as_str().as_bytes()),
            Payload::Binary(raw) => slice_to_vec(raw.as_slice()),
            Payload::Image(image) => {
                let mut bytes: Vec<u8> = Vec::new();
                push_u32_be(&mut bytes, image.width());
                push_u32_be(&mut bytes, image.height());
                bytes.push(image.channels());
                let data = image.as_bytes();
                bytes.extend_from_slice(data);
                proof {
                    assert(bytes@ =~= image_bytes(image@));
                }
                bytes
            },
        }
    }

    /// Rebuilds a payload of the given kind from its byte form. Text must be
    /// valid UTF-8, and an image must have its nine header bytes and the
    /// channel bytes they declare.
    pub fn from_bytes(kind: PayloadKind, bytes: Vec<u8>) -> (outcome: Result<Payload, StegoError>)
        ensures
            outcome_view(outcome) == parse_payload(kind, bytes@),
            outcome matches Ok(payload) ==> payload@.wf(),
    {
        match kind {
            PayloadKind::Text => match String::from_utf8(bytes) {
                Ok(text) => {
                    proof {
                        encode_utf8_decode_utf8(text@);
                    }
                    Ok(Payload::Text(text))
                },
                Err(_) => Err(StegoError::InvalidTextEncoding),
            },
            PayloadKind::Binary => Ok(Payload::Binary(bytes)),
            PayloadKind::Image => {
                let total = bytes.len();
                if total < 9 {
                    return Err(StegoError::MalformedImagePayload);
                }
                let width = read_u32_be(bytes.as_slice(), 0);
                let height = read_u32_be(bytes.as_slice(), 4);
                let channels = bytes[8];
                let declared = capacity_bits(width, height, channels);
                if ((total - 9) as u128) < declared {
                    return Err(StegoError::MalformedImagePayload);
                }
                let end = 9 + declared as usize;
                let data = slice_to_vec(slice_subrange(bytes.as_slice(), 9, end));
                Ok(Payload::Image(PixelBuffer::from_parts(width, height, channels, data)))
            },
        }
    }
}

impl Clone for Payload {
    /// A separate payload with the same content.
    fn clone(&self) -> (copy: Payload)
        ensures
            copy@ == self@,
    {
        match self {
            Payload::Text(text) => Payload::Text(text.clone()),
            Payload::Binary(raw) => {
                let copy = raw.clone();
                assert(copy@ =~= raw@);
                Payload::Binary(copy)
            },
            Payload::Image(image) => Payload::Image(image.clone()),
        }
    }
}

} // verus!
