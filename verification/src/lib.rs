//! A password-protected key-value secret store.
//!
//! One encrypted file holds a mapping from secret names to secret values.
//! The library owns the in-memory mapping, its mutation rules (insert-only
//! `save`, history-preserving `update`, explicit `delete`), and the
//! encode/seal boundary between that mapping and the encrypted blob; the
//! surrounding program does the file, prompt and clipboard work.

pub mod cipher;
pub mod codec;
pub mod errors;
pub mod secret_map;
pub mod store;

pub use errors::StoreError;
pub use secret_map::SecretMap;
pub use store::Council;
