//! The ways in which a query can fail as a whole.

use vstd::prelude::*;
use vstd::string::StringExecFns;

verus! {

/// A failure that ends the operation at hand. A call that reverted inside a
/// batch is no such failure: it is reported for its own entry, beside the
/// entries that succeeded.
#[derive(Clone, Copy, Debug, PartialEq, Eq)]
pub enum FeedError {
    /// The chain is not one this library knows an endpoint for.
    Config,
    /// The transport gave no answer.
    Transport,
    /// A call whose value the operation cannot go on without has reverted.
    CallReverted,
    /// The bytes returned are the encoding of no value of the expected type.
    Decode,
    /// Contexts and results do not belong together.
    Correlation,
}

impl FeedError {
    /// The text that describes each failure.
    pub open spec fn text(self) -> Seq<char> {
        match self {
            FeedError::Config => "Chain has no RPC URL"@,
            FeedError::Transport => "The transport returned no answer"@,
            FeedError::CallReverted => "A call that was needed has reverted"@,
            FeedError::Decode => "The returned bytes do not match the expected type"@,
            FeedError::Correlation => "Contexts and results do not belong together"@,
        }
    }

    /// A description of the failure, for display.
    pub fn message(&self) -> (message: String)
        ensures
            message@ == self.text(),
    {
        match self {
            FeedError::Config => String::from_str("Chain has no RPC URL"),
            FeedError::Transport => String::from_str("The transport returned no answer"),
            FeedError::Decode => String::from_str(
                "The returned bytes do not match the expected type",
            ),
            FeedError::CallReverted => String::from_str("A call that was needed has reverted"),
            FeedError::Correlation => String::from_str(
                "Contexts and results do not belong together",
            ),
        }
    }
}

} // verus!
