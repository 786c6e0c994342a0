//! What a search can fail with.

use vstd::prelude::*;

verus! {

#[derive(Clone, Copy, Debug, PartialEq, Eq, Structural)]
pub enum CrackError {
    /// An observed value is wider than 15 bits.
    InvalidObservation,
    /// The whole domain was scanned and no seed matched.
    NotFound,
    /// A match was sent after the consumer had gone away.
    ChannelProtocolViolation,
}

impl CrackError {
    /// The words that tell a user of the error.
    pub open spec fn text(self) -> Seq<char> {
        match self {
            CrackError::InvalidObservation => "Numbers must be at most 15 bits (max: 32767)"@,
            CrackError::NotFound => "Couldn't find seed"@,
            CrackError::ChannelProtocolViolation => "Found a seed but nobody listens"@,
        }
    }

    pub fn message(&self) -> (message: &'static str)
        ensures
            message@ == self.text(),
    {
        match self {
            CrackError::InvalidObservation => "Numbers must be at most 15 bits (max: 32767)",
            CrackError::NotFound => "Couldn't find seed",
            CrackError::ChannelProtocolViolation => "Found a seed but nobody listens",
        }
    }
}

} // verus!
