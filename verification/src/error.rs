//! Terminal protocol errors. Every failure aborts the current call with a
//! fixed 16-bit user code; the host rolls the transaction back atomically.

use vstd::prelude::*;

verus! {

/// A protocol violation detected by this system. Each variant carries a
/// distinguished user-level code that an outside observer can tell apart
/// from host-level failures.
#[derive(Clone, Copy, PartialEq, Eq, Structural, Debug)]
pub enum Error {
    /// The caller has no recorded capabilities.
    NoCapabilities,
    /// The contract returned an empty capability sequence to the authorizer.
    EmptyClaim,
    /// `urefs` and `account_pubkeys` differ in length.
    LengthMismatch,
    /// The host's sentinel "zero" capability appeared in a claim list.
    ZeroCapability,
    /// Sentinel raised by the group-gated probe entry point.
    GroupAccessSentinel,
}

impl Error {
    /// The user-defined error code this variant reverts with.
    pub open spec fn spec_code(self) -> u16 {
        match self {
            Error::NoCapabilities => 1,
            Error::EmptyClaim => 2,
            Error::LengthMismatch => 3,
            Error::ZeroCapability => 4,
            Error::GroupAccessSentinel => 777,
        }
    }

    /// The user-defined error code this variant reverts with.
    pub fn code(&self) -> (c: u16)
        ensures
            c == self.spec_code(),
    {
        match self {
            Error::NoCapabilities => 1,
            Error::EmptyClaim => 2,
            Error::LengthMismatch => 3,
            Error::ZeroCapability => 4,
            Error::GroupAccessSentinel => 777,
        }
    }
}

} // verus!
