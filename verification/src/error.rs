//! The error type shared by every decoder.

use vstd::prelude::*;

verus! {

/// Why a query was abandoned.
#[derive(Debug, Clone, Copy, PartialEq, Eq)]
pub enum Error {
    /// The response does not start with the header byte of the query that was sent,
    /// announces a negative size or count, or is a challenge reply to a query that has
    /// no challenge.
    InvalidResponse,
    /// The four byte frame header is neither the single packet nor the multi packet marker.
    UnknownPacketHeader,
    /// A fragment carries another response identifier than the one being reassembled.
    FragmentMismatch,
    /// Two fragments of one response carry the same sequence number, so that their
    /// payloads have no order.
    DuplicateFragment,
    /// The bytes ended before a field was complete.
    Truncated,
    /// A text field is not valid UTF-8.
    InvalidEncoding,
    /// The server type tag is none of `d`, `i`, `p`.
    InvalidServerType,
    /// The environment tag is none of `l`, `w`, `m`, `o`.
    InvalidEnvironment,
    /// The visibility tag is neither 0 nor 1.
    InvalidVisibility,
    /// The anti-cheat tag is neither 0 nor 1.
    InvalidVac,
}

impl Error {
    /// The message that `description` returns for each variant.
    pub open spec fn message(self) -> Seq<char> {
        match self {
            Error::InvalidResponse => "Invalid response"@,
            Error::UnknownPacketHeader => "Unknown packet header"@,
            Error::FragmentMismatch => "Subsequent packet IDs don't match"@,
            Error::DuplicateFragment => "Duplicate packet number"@,
            Error::Truncated => "Unexpected end of data"@,
            Error::InvalidEncoding => "Invalid text encoding"@,
            Error::InvalidServerType => "Invalid server type"@,
            Error::InvalidEnvironment => "Invalid environment"@,
            Error::InvalidVisibility => "Invalid visibility"@,
            Error::InvalidVac => "Invalid VAC"@,
        }
    }

    /// A short, fixed description of the error.
    pub fn description(&self) -> (text: &'static str)
        ensures
            text@ == self.message(),
    {
        match self {
            Error::InvalidResponse => "Invalid response",
            Error::UnknownPacketHeader => "Unknown packet header",
            Error::FragmentMismatch => "Subsequent packet IDs don't match",
            Error::DuplicateFragment => "Duplicate packet number",
            Error::Truncated => "Unexpected end of data",
            Error::InvalidEncoding => "Invalid text encoding",
            Error::InvalidServerType => "Invalid server type",
            Error::InvalidEnvironment => "Invalid environment",
            Error::InvalidVisibility => "Invalid visibility",
            Error::InvalidVac => "Invalid VAC",
        }
    }
}

} // verus!
