//! The error kinds of the gain keeper. None of them is recovered from.
use vstd::prelude::*;

verus! {

/// Why a cycle could not go on.
#[derive(Clone, Copy, Debug, PartialEq, Eq, Structural)]
pub enum GainError {
    /// The controller program could not be run or its output was unreadable.
    ProcessInvocation,
    /// The controller's output held no well-formed gain.
    ProtocolParse,
    /// The input device could not be opened or read.
    DeviceRead,
}

} // verus!
