//! A verified core for a personal credential vault: master-passphrase
//! verification, symmetric record encryption with wrong-key detection,
//! an in-memory mirror of the durable record store with atomic passphrase
//! rotation, and the access-token lifecycle.
//!
//! The surrounding program keeps the vault directory on disk; this crate
//! holds every rule about what those files mean: how a record is encrypted
//! and searched, when a passphrase is accepted, how a rotation may replace
//! the store, and when a token is expired or must be refreshed.

pub mod codec;
pub mod crypto;
pub mod errors;
pub mod facade;
pub mod guard;
pub mod online_vault;
pub mod records;
pub mod slot;
pub mod store;
pub mod token;
