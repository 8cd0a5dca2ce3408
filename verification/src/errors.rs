//! The error kinds that the vault's operations report.

use vstd::prelude::*;

verus! {

/// Every failure a vault operation can report.
///
/// `BadPassword` deliberately covers both a wrong password and a
/// tampered ciphertext, so that callers cannot tell the two apart;
/// `CorruptEnvelope` is reserved for envelopes whose structure is
/// already wrong before any decryption is attempted.
#[derive(Debug, Clone, PartialEq, Eq)]
pub enum Error {
    /// An envelope already exists for the login.
    AlreadyExists,
    /// No envelope exists for the login.
    NoSuchAccount,
    /// Authenticated decryption failed: wrong password or altered data.
    BadPassword,
    /// The envelope's structure or recorded parameters are invalid.
    CorruptEnvelope,
    /// The operation needs an established connection.
    NotConnected,
    /// A connection attempt is already in flight.
    AlreadyConnecting,
    /// A login string that may not name an account directory.
    InvalidLogin,
    /// A required metadata field is absent.
    MissingField,
    /// The network client reported a failure.
    NetworkFailure(String),
    /// A local read or write failed; the detail names path and operation.
    IoFailure(String),
}

} // verus!
