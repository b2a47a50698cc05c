//! The uniform error channel of the credential store.
//!
//! Every platform-level failure signal (exception, status code, null
//! sentinel) is normalised at the collaborator boundary into one of these
//! kinds; no platform-native error type crosses into the service layer.

use vstd::prelude::*;

verus! {

/// One failure kind per class of collaborator fault.
#[derive(Clone, Copy, Debug, PartialEq, Eq, Structural)]
pub enum Error {
    /// The key store was unreachable, key generation or fetch failed, or an
    /// authentication requirement could not be satisfied.
    KeyProvider,
    /// Cipher initialisation failed, or decryption failed because the IV or
    /// the ciphertext does not match what was produced at encryption time.
    Cipher,
    /// A stored entry was not valid base64.
    Codec,
    /// No record exists for the given `(service, account)` pair.
    NotFound,
    /// A record exists but the hardware key backing it is missing.
    KeyNotFound,
    /// The backing store did not durably commit a write or removal.
    Commit,
}

impl Error {
    /// A human-readable description of the failure, for callers that want a
    /// textual error channel.
    pub fn describe(&self) -> (msg: String)
        ensures
            msg@.len() > 0,
    {
        let msg = match self {
            Error::KeyProvider => "key store unreachable or key generation failed",
            Error::Cipher => "cipher failure: bad IV, wrong key, or tampered ciphertext",
            Error::Codec => "stored entry is not valid base64",
            Error::NotFound => "no record for the given service and account",
            Error::KeyNotFound => "record present but its hardware key is missing",
            Error::Commit => "backing store failed to commit the change",
        };
        proof {
            reveal_strlit("key store unreachable or key generation failed");
            reveal_strlit("cipher failure: bad IV, wrong key, or tampered ciphertext");
            reveal_strlit("stored entry is not valid base64");
            reveal_strlit("no record for the given service and account");
            reveal_strlit("record present but its hardware key is missing");
            reveal_strlit("backing store failed to commit the change");
        }
        msg.to_owned()
    }
}

} // verus!
