//! The ways in which the mirror and the bridge can fail.

use vstd::prelude::*;

verus! {

/// A failure of the tree mirror.
#[derive(Clone, Copy, Debug, PartialEq, Eq, Structural)]
pub enum TreeError {
    /// A proof was asked for before the mirror first caught up with the chain.
    TreeNotSynced,
    /// An insertion would exceed the capacity of the tree.
    OutOfCapacity,
    /// A leaf index that was never assigned.
    InvalidIndex,
    /// An event that is out of order or does not fit the tree.
    StreamCorruption,
}

impl TreeError {
    /// The failure in words.
    pub fn message(&self) -> (text: &'static str)
        ensures
            text@ == match self {
                TreeError::TreeNotSynced => "the tree has not synced with the chain yet"@,
                TreeError::OutOfCapacity => "the tree is full"@,
                TreeError::InvalidIndex => "no leaf was assigned at this index"@,
                TreeError::StreamCorruption => "the stream of tree events is corrupt"@,
            },
    {
        match self {
            TreeError::TreeNotSynced => "the tree has not synced with the chain yet",
            TreeError::OutOfCapacity => "the tree is full",
            TreeError::InvalidIndex => "no leaf was assigned at this index",
            TreeError::StreamCorruption => "the stream of tree events is corrupt",
        }
    }
}


/// A failure of one bridging cycle. The bridge goes on after it.
#[derive(Clone, Copy, Debug, PartialEq, Eq, Structural)]
pub enum StateBridgeError {
    /// The root recorded at the destination could not be read, and the
    /// retries are used up.
    TransientChainError,
    /// The root could not be written to the destination, and the retries are
    /// used up.
    PropagationFailed,
}

} // verus!
