//! The error taxonomy of the vault.

use vstd::prelude::*;

verus! {

/// Every failure the vault core can report.
///
/// - `NotAuthenticated`: no access token is stored; the caller must log in.
/// - `IncorrectPassphrase`: a hash mismatch or a decryption key-check failure.
/// - `PassphraseMismatch`: the re-entered passphrase did not match at registration.
/// - `Corrupt`: a record or token is unparsable.
/// - `TokenRefreshFailed`: a token refresh was rejected; only used internally,
///   always followed by a login fallback.
/// - `IoFailure`: the filesystem or entropy source was unavailable.
/// - `RemoteVaultFailure`: the remote vault collaborator reported an opaque error.
#[derive(Clone, Copy, PartialEq, Eq, Structural, Debug)]
pub enum VaultError {
    NotAuthenticated,
    IncorrectPassphrase,
    PassphraseMismatch,
    Corrupt,
    TokenRefreshFailed,
    IoFailure,
    RemoteVaultFailure,
}

impl VaultError {
    /// A one-line description, safe to show the user: never contains secrets.
    pub fn message(&self) -> (r: &'static str)
        ensures
            self is NotAuthenticated ==> r@ == "Please login first with: passlane -l"@,
            self is IncorrectPassphrase ==> r@ == "Incorrect password"@,
            self is PassphraseMismatch ==> r@ == "Passwords did not match"@,
            self is Corrupt ==> r@ == "Stored data is corrupt"@,
            self is TokenRefreshFailed ==> r@ == "Could not refresh the access token"@,
            self is IoFailure ==> r@ == "Filesystem or entropy source unavailable"@,
            self is RemoteVaultFailure ==> r@ == "The online vault reported an error"@,
    {
        match self {
            VaultError::NotAuthenticated => "Please login first with: passlane -l",
            VaultError::IncorrectPassphrase => "Incorrect password",
            VaultError::PassphraseMismatch => "Passwords did not match",
            VaultError::Corrupt => "Stored data is corrupt",
            VaultError::TokenRefreshFailed => "Could not refresh the access token",
            VaultError::IoFailure => "Filesystem or entropy source unavailable",
            VaultError::RemoteVaultFailure => "The online vault reported an error",
        }
    }
}

} // verus!
