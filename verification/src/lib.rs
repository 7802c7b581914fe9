//! A client-side engine for a chain whose calls, storage and types are only
//! known from the metadata that a node serves: it resolves names and loosely
//! typed values against that metadata, encodes calls and storage keys, decodes
//! stored values, and follows a submitted transaction to its terminal outcome.

pub mod call;
pub mod decode;
pub mod encode;
pub mod error;
pub mod hashing;
pub mod metadata;
pub mod minting;
pub mod names;
pub mod registry;
pub mod roundtrip;
pub mod session;
pub mod storage;
pub mod tracker;
pub mod value;
pub mod wire;
