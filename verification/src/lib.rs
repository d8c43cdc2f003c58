//! Authenticated, counter-versioned sector cryptosystem for an encrypted
//! block store.
//!
//! Every logical sector is sealed with AES-GCM before it reaches the storage
//! medium; a metadata sector per group of data sectors carries the per-sector
//! write counters and authentication tags that make reads tamper-evident.

pub mod aead;
pub mod bytesops;
pub mod engine;
pub mod errors;
pub mod hex;
pub mod keybind;
pub mod medium;
pub mod meta;
pub mod layout;
pub mod protocol;
pub mod sector_crypto;
