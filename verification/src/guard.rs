//! The master passphrase guard: first-use registration with a re-entered
//! confirmation, verification against the single stored hash, and the hash
//! slot that a rotation replaces. There is exactly zero or one stored hash;
//! absence means the vault is not yet initialized.

use vstd::prelude::*;

use crate::crypto::{bcrypt_verifies, hash_passphrase, hash_text_ok, verify_passphrase};
use crate::errors::VaultError;

verus! {

/// The single master-passphrase hash slot.
pub struct MasterGuard {
    pub hash: Option<String>,
}

impl View for MasterGuard {
    type V = Option<Seq<char>>;

    open spec fn view(&self) -> Option<Seq<char>> {
        match self.hash {
            Some(h) => Some(h@),
            None => None,
        }
    }
}

/// Whether a candidate passphrase is accepted against a stored hash: the
/// hash must be readable and the bcrypt verification must pass.
pub open spec fn guard_accepts(pwd: Seq<char>, h: Seq<char>) -> bool {
    hash_text_ok(h) && bcrypt_verifies(pwd, h)
}

impl MasterGuard {
    /// A guard with no stored hash: the vault is uninitialized.
    pub fn new() -> (r: MasterGuard)
        ensures
            r@ is None,
    {
        MasterGuard { hash: None }
    }

    /// A guard over a hash read from durable storage, if one exists.
    pub fn from_hash(hash: Option<String>) -> (r: MasterGuard)
        ensures
            match hash {
                Some(h) => r@ == Some(h@),
                None => r@ is None,
            },
    {
        MasterGuard { hash }
    }

    /// Whether a master passphrase has ever been registered.
    pub fn is_initialized(&self) -> (r: bool)
        ensures
            r == (self@ is Some),
    {
        self.hash.is_some()
    }

    /// Hashes the passphrase and overwrites the slot — the only hash
    /// instance there is — with the new salted hash, which verifies against
    /// the passphrase while the passphrase stays unrecoverable from it.
    pub fn save_master_password(&mut self, master_pwd: &str)
        ensures
            final(self)@ is Some,
            guard_accepts(master_pwd@, final(self)@.unwrap()),
    {
        let h = hash_passphrase(master_pwd);
        self.hash = Some(h);
    }

    /// Verifies a candidate passphrase, or registers it on first use.
    ///
    /// With a stored hash, the candidate is verified against it and the slot
    /// never changes; a mismatch — or an unreadable hash — is
    /// `IncorrectPassphrase`. With no stored hash and `store_if_new`, the
    /// re-entered confirmation must equal the candidate, and then the hash
    /// of the candidate is persisted; a failed confirmation is
    /// `PassphraseMismatch` and persists nothing. With no stored hash and
    /// `store_if_new` false, nothing is checked or stored.
    pub fn verify_master_password(
        &mut self,
        master_pwd: &String,
        store_if_new: bool,
        retyped: Option<&String>,
    ) -> (r: Result<bool, VaultError>)
        ensures
            match old(self)@ {
                Some(h) => {
                    &&& final(self)@ == old(self)@
                    &&& (r == Ok::<bool, VaultError>(true) <==> guard_accepts(master_pwd@, h))
                    &&& (!guard_accepts(master_pwd@, h) ==> r == Err::<bool, VaultError>(
                        VaultError::IncorrectPassphrase,
                    ))
                },
                None => {
                    if store_if_new {
                        match retyped {
                            Some(rt) => {
                                if rt@ == master_pwd@ {
                                    &&& r == Ok::<bool, VaultError>(true)
                                    &&& final(self)@ is Some
                                    &&& guard_accepts(master_pwd@, final(self)@.unwrap())
                                } else {
                                    &&& r == Err::<bool, VaultError>(VaultError::PassphraseMismatch)
                                    &&& final(self)@ == old(self)@
                                }
                            },
                            None => {
                                &&& r == Err::<bool, VaultError>(VaultError::PassphraseMismatch)
                                &&& final(self)@ == old(self)@
                            },
                        }
                    } else {
                        &&& r == Ok::<bool, VaultError>(true)
                        &&& final(self)@ == old(self)@
                    }
                },
            },
    {
        let has_hash = self.hash.is_some();
        if has_hash {
            let verified = match &self.hash {
                Some(h) => verify_passphrase(master_pwd.as_str(), h.as_str()),
                None => false,
            };
            if verified {
                Ok(true)
            } else {
                Err(VaultError::IncorrectPassphrase)
            }
        } else if store_if_new {
            match retyped {
                Some(rt) => {
                    if *rt == *master_pwd {
                        self.save_master_password(master_pwd.as_str());
                        Ok(true)
                    } else {
                        Err(VaultError::PassphraseMismatch)
                    }
                },
                None => Err(VaultError::PassphraseMismatch),
            }
        } else {
            Ok(true)
        }
    }
}

} // verus!
