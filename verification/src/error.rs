//! The failures of the link, by kind.

use vstd::prelude::*;

verus! {

/// Every way an operation of the link can fail.
#[derive(Clone, Copy, Debug, PartialEq, Eq, Structural)]
pub enum RadioError {
    /// No usable audio device, or the duplex format is not supported.
    HardwareInit,
    /// The radio was started before.
    AlreadyInitialized,
    /// A thread panicked while it held the radio context.
    LockPoisoned,
    /// The XOR of a received frame is not zero.
    ChecksumMismatch,
    /// A received frame does not have the fixed layout, or its payload is not text.
    Deserialize,
    /// The thread at the other end of a queue has exited.
    ChannelClosed,
}

impl RadioError {
    /// Whether the process cannot go on after this failure. Failures of a
    /// single frame and refused calls are not fatal.
    pub open spec fn fatal(self) -> bool {
        self is HardwareInit || self is LockPoisoned
    }

    /// Tells setup failures and a poisoned lock from the failures the link survives.
    pub fn is_fatal(&self) -> (fatal: bool)
        ensures
            fatal == self.fatal(),
    {
        match self {
            RadioError::HardwareInit => true,
            RadioError::LockPoisoned => true,
            _ => false,
        }
    }
}

} // verus!
