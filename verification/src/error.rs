//! The ways in which a session fails.

use vstd::prelude::*;

verus! {

/// Why a call into the harness failed. Every failure ends the session.
#[derive(Clone, Copy, Debug, PartialEq, Eq, Structural)]
pub enum ReplayError {
    /// Recording and playback were both asked for.
    Configuration,
    /// The session's mode does not offer the operation.
    WrongMode,
    /// No textual form was handed in for a value that was to be recorded.
    Encoding,
    /// A call was made where the log holds no further event.
    Exhausted,
    /// The next event of the log belongs to another operation.
    SequenceMismatch,
    /// The text put out differs from the text recorded.
    ContentMismatch,
    /// The log is not laid out as a log, or a payload cannot be decoded.
    Malformed,
}

impl ReplayError {
    /// The sentence that says which check failed.
    pub open spec fn message_text(self) -> Seq<char> {
        match self {
            ReplayError::Configuration => "recording and playback cannot both be enabled"@,
            ReplayError::WrongMode => "the session's mode does not offer this operation"@,
            ReplayError::Encoding => "a value could not be encoded"@,
            ReplayError::Exhausted => "no more events to play back"@,
            ReplayError::SequenceMismatch => "the recorded interface does not match the expected interface"@,
            ReplayError::ContentMismatch => "console output does not match the recorded text"@,
            ReplayError::Malformed => "the log is malformed"@,
        }
    }

    /// A sentence that says which check failed.
    pub fn message(&self) -> (r: &'static str)
        ensures
            r@ == self.message_text(),
    {
        match self {
            ReplayError::Configuration => "recording and playback cannot both be enabled",
            ReplayError::WrongMode => "the session's mode does not offer this operation",
            ReplayError::Encoding => "a value could not be encoded",
            ReplayError::Exhausted => "no more events to play back",
            ReplayError::SequenceMismatch => "the recorded interface does not match the expected interface",
            ReplayError::ContentMismatch => "console output does not match the recorded text",
            ReplayError::Malformed => "the log is malformed",
        }
    }
}

} // verus!
