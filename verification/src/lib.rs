//! A verified credential store: secrets are kept under a `(service, account)`
//! key pair, encrypted with a key held by a platform key store, and persisted
//! as base64 ciphertext plus base64 IV in a text-only key-value backend.
//!
//! The platform collaborators (key store, cipher provider, preference store)
//! are modelled here as deterministic in-memory state, so that the whole
//! protocol — key management, padding, encryption framing, encoding, the
//! two-entry persisted layout, and the error taxonomy — is verified end to
//! end. The FFI adapters that expose these operations to a mobile runtime
//! live outside the verified library.

pub mod cipher;
pub mod codec;
pub mod error;
pub mod keystore;
pub mod pkcs7;
pub mod result;
pub mod service;
pub mod status;
pub mod store;
pub mod text;
