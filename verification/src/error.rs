//! The ways in which embedding or extraction can fail.

use vstd::prelude::*;

verus! {

/// Why an encode or decode call returned no result.
#[derive(Clone, Copy, Debug, PartialEq, Eq, Structural)]
pub enum StegoError {
    /// More bits were asked of a carrier than it has channels.
    CapacityExceeded,
    /// The payload length does not fit the 32-bit frame header.
    PayloadTooLarge,
    /// The carrier ran out of bits before the declared payload ended.
    TruncatedFrame,
    /// The extracted bytes are not valid UTF-8.
    InvalidTextEncoding,
    /// The extracted bytes are too short for the image they declare.
    MalformedImagePayload,
}

impl StegoError {
    /// One sentence that tells what went wrong.
    pub open spec fn text(self) -> &'static str {
        match self {
            StegoError::CapacityExceeded => "the payload does not fit the carrier",
            StegoError::PayloadTooLarge => "the payload is longer than a 32-bit length can say",
            StegoError::TruncatedFrame => "the carrier ends before the hidden data does",
            StegoError::InvalidTextEncoding => "the hidden data is not valid UTF-8 text",
            StegoError::MalformedImagePayload => {
                "the hidden data is too short for the image it declares"
            },
        }
    }

    /// One sentence that tells what went wrong.
    pub fn message(&self) -> (message: String)
        ensures
            message@ == self.text()@,
    {
        match self {
            StegoError::CapacityExceeded => "the payload does not fit the carrier".to_owned(),
            StegoError::PayloadTooLarge => {
                "the payload is longer than a 32-bit length can say".to_owned()
            },
            StegoError::TruncatedFrame => "the carrier ends before the hidden data does".to_owned(),
            StegoError::InvalidTextEncoding => "the hidden data is not valid UTF-8 text".to_owned(),
            StegoError::MalformedImagePayload => {
                "the hidden data is too short for the image it declares".to_owned()
            },
        }
    }
}

/// The outcome of an operation with its value, if there is one, replaced by
/// the value's view.
pub open spec fn outcome_view<T: View>(outcome: Result<T, StegoError>) -> Result<T::V, StegoError> {
    match outcome {
        Ok(value) => Ok(value@),
        Err(e) => Err(e),
    }
}

} // verus!
