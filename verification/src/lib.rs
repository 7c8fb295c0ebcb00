//! Reader for Password Safe v3 database files.
//!
//! The library takes the raw bytes of a database file and a password,
//! runs the unlock pipeline (key stretching, envelope-key unwrapping,
//! body decryption, field parsing, integrity check), and exposes the
//! decoded records.

use vstd::prelude::*;

pub mod crypto;
pub mod cursor;
pub mod item;
pub mod keychain;

verus! {

/// The ways an unlock can fail, reported to the caller.
#[derive(Clone, Copy, Debug, PartialEq, Eq, Structural)]
pub enum UnlockError {
    /// The file could not be opened or read.
    IOError,
    /// The byte stream is not a well-formed database.
    FormatError,
    /// The ciphertext body is not a whole number of cipher blocks.
    DecryptionError,
    /// The password is wrong, or the integrity tag does not match.
    AuthenticationError,
    /// A record ended before its terminating field.
    ParseError,
}

} // verus!
