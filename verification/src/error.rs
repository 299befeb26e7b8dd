//! What can go wrong in the chat core.

use vstd::prelude::*;
use vstd::string::*;

verus! {

/// The failures that reach a caller. Failures of reads and of single
/// deliveries never do: those are passed over where they occur.
#[derive(Debug, Clone, Copy, PartialEq, Eq, Structural)]
pub enum ChatError {
    /// The host's storage did not take a write.
    StorageWrite,
    /// A pushed message could not be handed to the local live listener.
    SignalEmit,
}

impl ChatError {
    /// The words in which the failure is reported.
    pub fn message(&self) -> (text: String)
        ensures
            *self == ChatError::StorageWrite ==> text@ == "the storage did not take the write"@,
            *self == ChatError::SignalEmit ==> text@
                == "couldnt convert to bytes to send as signal"@,
    {
        match self {
            ChatError::StorageWrite => String::from_str("the storage did not take the write"),
            ChatError::SignalEmit => String::from_str("couldnt convert to bytes to send as signal"),
        }
    }
}

} // verus!
