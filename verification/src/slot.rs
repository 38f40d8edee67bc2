//! A single-slot store: the one explicit handle through which every
//! process-wide persisted value (the encryption key cache, and by the same
//! pattern the token and hash slots) is read, replaced or cleared.

use vstd::prelude::*;

use crate::errors::VaultError;

verus! {

/// A slot holding zero or one value.
pub struct SingleSlotStore<T> {
    pub value: Option<T>,
}

impl<T> SingleSlotStore<T> {
    /// An empty slot.
    pub fn new() -> (r: SingleSlotStore<T>)
        ensures
            r.value is None,
    {
        SingleSlotStore { value: None }
    }

    /// A slot holding the given value, if one was read from storage.
    pub fn from_value(value: Option<T>) -> (r: SingleSlotStore<T>)
        ensures
            r.value == value,
    {
        SingleSlotStore { value }
    }

    /// Whether the slot holds a value.
    pub fn is_present(&self) -> (r: bool)
        ensures
            r == (self.value is Some),
    {
        self.value.is_some()
    }

    /// Overwrites the slot.
    pub fn store(&mut self, v: T)
        ensures
            final(self).value == Some(v),
    {
        self.value = Some(v);
    }

    /// A reference to the stored value, if any.
    pub fn load(&self) -> (r: Option<&T>)
        ensures
            match r {
                Some(v) => self.value == Some(*v),
                None => self.value is None,
            },
    {
        match &self.value {
            Some(v) => Some(v),
            None => None,
        }
    }

    /// Empties the slot.
    pub fn clear(&mut self)
        ensures
            final(self).value is None,
    {
        self.value = None;
    }
}

/// Caches the derived encryption key while the vault is unlocked.
pub fn save_encryption_key(slot: &mut SingleSlotStore<String>, key: &str) -> (r: bool)
    ensures
        final(slot).value is Some,
        final(slot).value.unwrap()@ == key@,
        r == true,
{
    slot.store(String::from_str(key));
    true
}

/// The cached encryption key; absent means the vault is locked.
pub fn get_encryption_key(slot: &SingleSlotStore<String>) -> (r: Result<String, VaultError>)
    ensures
        match slot.value {
            Some(ref k) => r is Ok && r.unwrap()@ == k@,
            None => r == Err::<String, VaultError>(VaultError::NotAuthenticated),
        },
{
    match slot.load() {
        Some(k) => Ok(k.clone()),
        None => Err(VaultError::NotAuthenticated),
    }
}

/// Locks the vault by discarding the cached key; locking an already locked
/// vault is reported.
pub fn delete_encryption_key(slot: &mut SingleSlotStore<String>) -> (r: Result<bool, VaultError>)
    ensures
        match old(slot).value {
            Some(_) => {
                &&& r is Ok
                &&& r == Ok::<bool, VaultError>(true)
                &&& final(slot).value is None
            },
            None => {
                &&& r == Err::<bool, VaultError>(VaultError::NotAuthenticated)
                &&& final(slot).value is None
            },
        },
{
    if slot.is_present() {
        slot.clear();
        Ok(true)
    } else {
        Err(VaultError::NotAuthenticated)
    }
}

} // verus!
