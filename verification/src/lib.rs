//! A local, single-user secret vault: the codec that seals a record collection
//! under a master password, the password generator, and the in-memory store.

pub mod error;
pub mod params;
mod random;
pub mod generator;
pub mod kdf;
pub mod aead;
pub mod secret;
pub mod codec;
pub mod store;
