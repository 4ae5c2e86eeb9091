//! The errors that unpacking an artifact or decoding program output can give.

use vstd::prelude::*;

verus! {

/// Why a byte buffer or a token stream was rejected.
#[derive(Clone, Copy, Debug, PartialEq, Eq, Structural)]
pub enum DecodeError {
    /// A frame declares more bytes than the buffer still holds, or the buffer
    /// is too short to hold the length prefixes at all.
    TruncatedInput,
    /// A byte array in the token stream is malformed: a token is missing or
    /// is not a decimal integer, its hexadecimal form has an odd number of
    /// digits, or its bytes are not UTF-8.
    AddressDecodeError,
    /// The token stream does not have the layout of a score or a transfer
    /// output.
    UnsupportedOutputShape,
}

/// What an error says of itself.
pub open spec fn message_of(error: DecodeError) -> Seq<char> {
    match error {
        DecodeError::TruncatedInput => "truncated input: a section runs past the end"@,
        DecodeError::AddressDecodeError => "malformed byte array in the program output"@,
        DecodeError::UnsupportedOutputShape =>
            "unsupported program output: neither a score nor a transfer"@,
    }
}

impl DecodeError {
    /// A sentence that says what went wrong.
    pub fn message(&self) -> (text: &'static str)
        ensures
            text@ == message_of(*self),
    {
        match self {
            DecodeError::TruncatedInput => "truncated input: a section runs past the end",
            DecodeError::AddressDecodeError => "malformed byte array in the program output",
            DecodeError::UnsupportedOutputShape =>
                "unsupported program output: neither a score nor a transfer",
        }
    }
}

} // verus!
