//! The vault facade: the per-operation routing between the local store and
//! the remote vault, the command parameter types, and the one operation that
//! spans two components — the atomic master-passphrase rotation.

use vstd::prelude::*;

use crate::crypto::{hash_passphrase, verify_passphrase};
use crate::errors::VaultError;
use crate::guard::{guard_accepts, MasterGuard};
use crate::store::{dec_all, rewrites, VaultStore};

verus! {

/// Where a logical operation is carried out.
#[derive(Clone, Copy, PartialEq, Eq, Structural, Debug)]
pub enum Backend {
    LocalStore,
    RemoteVault,
}

/// Operations go to the remote vault exactly when a remote session is
/// active, that is, when a token is present.
pub fn backend_for(logged_in: bool) -> (r: Backend)
    ensures
        r is RemoteVault <==> logged_in,
{
    if logged_in {
        Backend::RemoteVault
    } else {
        Backend::LocalStore
    }
}

/// Rotates the master passphrase: verifies the old passphrase against the
/// guard, re-encrypts every stored record under the new passphrase, and only
/// then replaces the stored hash. All or nothing: on any failure both the
/// guard and the store are exactly as they were, so a rotation is never
/// visible as succeeded when re-encryption failed partway; and whenever the
/// old passphrase passes the guard and decrypts every record, the rotation
/// succeeds.
pub fn update_master_password(
    guard: &mut MasterGuard,
    store: &mut VaultStore,
    old_pwd: &str,
    new_pwd: &str,
) -> (r: Result<usize, VaultError>)
    ensures
        r is Err ==> final(guard)@ == old(guard)@ && final(store)@ == old(store)@,
        (match old(guard)@ {
            Some(h) => !guard_accepts(old_pwd@, h),
            None => false,
        }) ==> r == Err::<usize, VaultError>(VaultError::IncorrectPassphrase),
        (match old(guard)@ {
            Some(h) => guard_accepts(old_pwd@, h),
            None => true,
        }) ==> match r {
            Ok(n) => {
                &&& rewrites(old(store)@, final(store)@, old_pwd@, new_pwd@)
                &&& n == old(store)@.len()
                &&& final(guard)@ is Some
                &&& guard_accepts(new_pwd@, final(guard)@.unwrap())
            },
            Err(e) => dec_all(old(store)@, old_pwd@) == Err::<
                Seq<crate::records::CredentialsView>,
                VaultError,
            >(e),
        },
{
    let old_ok = match &guard.hash {
        Some(h) => verify_passphrase(old_pwd, h.as_str()),
        None => true,
    };
    if !old_ok {
        return Err(VaultError::IncorrectPassphrase);
    }
    let new_hash = hash_passphrase(new_pwd);
    let count = match store.update_master_password(old_pwd, new_pwd) {
        Ok(n) => n,
        Err(e) => {
            return Err(e);
        },
    };
    guard.hash = Some(new_hash);
    Ok(count)
}

/// What a delete command decides to do once the matches are known.
#[derive(Clone, Copy, PartialEq, Eq, Structural, Debug)]
pub enum DeletePlan {
    Nothing,
    DeleteOne(usize),
    DeleteAll,
    Abort,
}

/// The delete decision. No match: nothing to do. One match: delete it
/// without asking. Several matches: the user's selection decides — a chosen
/// row deletes that row, the delete-all sentinel (`usize::MAX`) deletes
/// every match, no selection or an out-of-range row aborts.
pub fn delete_plan(n_matches: usize, selection: Option<usize>) -> (r: DeletePlan)
    ensures
        n_matches == 0 ==> r is Nothing,
        n_matches == 1 ==> r == DeletePlan::DeleteOne(0usize),
        n_matches > 1 ==> (match selection {
            None => r is Abort,
            Some(i) => {
                if i == usize::MAX {
                    r is DeleteAll
                } else if i < n_matches {
                    r == DeletePlan::DeleteOne(i)
                } else {
                    r is Abort
                }
            },
        }),
{
    if n_matches == 0 {
        DeletePlan::Nothing
    } else if n_matches == 1 {
        DeletePlan::DeleteOne(0)
    } else {
        match selection {
            None => DeletePlan::Abort,
            Some(i) => {
                if i == usize::MAX {
                    DeletePlan::DeleteAll
                } else if i < n_matches {
                    DeletePlan::DeleteOne(i)
                } else {
                    DeletePlan::Abort
                }
            },
        }
    }
}

/// What a show command does with the found passwords once they are on the
/// table: exactly one match is copied without asking; among several, the
/// user's selection is copied; no selection, or one off the table, copies
/// nothing. No match leaves nothing to copy.
pub fn copy_plan(n_matches: usize, selection: Option<usize>) -> (r: Option<usize>)
    ensures
        n_matches == 0 ==> r is None,
        n_matches == 1 ==> r == Some(0usize),
        n_matches > 1 ==> (match selection {
            None => r is None,
            Some(i) => {
                if i < n_matches {
                    r == Some(i)
                } else {
                    r is None
                }
            },
        }),
{
    if n_matches == 0 {
        None
    } else if n_matches == 1 {
        Some(0)
    } else {
        match selection {
            None => None,
            Some(i) => {
                if i < n_matches {
                    Some(i)
                } else {
                    None
                }
            },
        }
    }
}

/// Where a new password comes from.
#[derive(Clone, Copy, PartialEq, Eq, Structural, Debug)]
pub enum PasswordSource {
    Generate,
    FromClipboard,
    Prompt,
}

/// Logs in to the remote vault.
pub struct LoginAction {}

impl LoginAction {
    pub fn new() -> LoginAction {
        LoginAction {}
    }
}

/// Saves one new credential.
pub struct AddAction {
    pub keychain: bool,
    pub generate: bool,
    pub clipboard: bool,
}

impl AddAction {
    pub fn new(keychain: bool, generate: bool, clipboard: bool) -> (r: AddAction)
        ensures
            r.keychain == keychain,
            r.generate == generate,
            r.clipboard == clipboard,
    {
        AddAction { keychain, generate, clipboard }
    }

    /// The password for a new credential is generated when asked for,
    /// otherwise taken from the clipboard when asked for, otherwise
    /// prompted for.
    pub fn password_source(&self) -> (r: PasswordSource)
        ensures
            self.generate ==> r is Generate,
            !self.generate && self.clipboard ==> r is FromClipboard,
            !self.generate && !self.clipboard ==> r is Prompt,
    {
        if self.generate {
            PasswordSource::Generate
        } else if self.clipboard {
            PasswordSource::FromClipboard
        } else {
            PasswordSource::Prompt
        }
    }
}

/// Pushes every locally stored credential to the remote vault.
pub struct PushAction {}

/// Searches for credentials and shows them.
pub struct ShowAction {
    pub grep: String,
    pub verbose: bool,
}

impl ShowAction {
    pub fn new(grep: String, verbose: bool) -> (r: ShowAction)
        ensures
            r.grep@ == grep@,
            r.verbose == verbose,
    {
        ShowAction { grep, verbose }
    }
}

/// Deletes the credentials matching a pattern.
pub struct DeleteAction {
    pub grep: String,
    pub keychain: bool,
}

impl DeleteAction {
    pub fn new(grep: String, keychain: bool) -> (r: DeleteAction)
        ensures
            r.grep@ == grep@,
            r.keychain == keychain,
    {
        DeleteAction { grep, keychain }
    }
}

/// Imports credentials from a file of plaintext records.
pub struct ImportCsvAction {
    pub file_path: String,
}

impl ImportCsvAction {
    pub fn new(file_path: String) -> (r: ImportCsvAction)
        ensures
            r.file_path@ == file_path@,
    {
        ImportCsvAction { file_path }
    }
}

/// Rotates the master passphrase.
pub struct UpdateMasterPasswordAction {}

/// Copies every stored credential into the OS keychain.
pub struct KeychainPushAction {}

} // verus!
