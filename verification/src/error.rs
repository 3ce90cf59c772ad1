use vstd::prelude::*;

verus! {

/// Result alias used by the vault operations.
pub type PwdResult<T> = Result<T, PwdError>;

/// Errors surfaced by the vault engine.
///
/// Decryption failure is reported as the single undifferentiated
/// `AuthenticationFailed` outcome, whether it came from a wrong password,
/// corrupted ciphertext or truncation of the ciphertext: distinguishing the
/// causes would give an attacker an oracle.
#[derive(Debug, Clone, Copy, PartialEq, Eq, Structural)]
pub enum PwdError {
    /// The authenticated decryption of the payload failed.
    AuthenticationFailed,
    /// The header is malformed: the stored cost parameters are outside the
    /// supported range, or the decrypted payload does not parse.
    InvalidVaultFile,
    /// A password failed validation.
    InvalidPassword,
    /// The input is too short to hold the fixed-width header fields, or an
    /// encryption-size limit was exceeded on write.
    IO,
}

} // verus!
