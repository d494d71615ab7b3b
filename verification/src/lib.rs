//! Least-significant-bit steganography over raw pixel buffers.
//!
//! A payload (text, raw bytes or a nested image) is framed with a 32-bit
//! big-endian length and written, one bit per colour channel, into the lowest
//! bit of a copy of the carrier. Every function is verified against a
//! mathematical model of the bit stream.

pub mod bits;
pub mod bitstream;
pub mod capacity;
pub mod codec;
pub mod error;
pub mod frame;
pub mod payload;
pub mod pixels;

pub use bitstream::{read_bits, BitReader, BitWriter};
pub use capacity::{capacity_bits, check_capacity, max_payload_bytes, required_bits};
pub use codec::{decode, encode};
pub use error::StegoError;
pub use frame::{decode_frame, encode_frame, header_length};
pub use payload::{Payload, PayloadKind};
pub use pixels::PixelBuffer;
