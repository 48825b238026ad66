use vstd::prelude::*;

verus! {

/// The failures of the secret store. "Not found", "already set" and "nothing
/// to update" are deliberately not here: they are successful no-op outcomes.
#[derive(Clone, Copy, Debug, PartialEq, Eq, Structural)]
pub enum StoreError {
    /// `init` was called while a store already exists.
    AlreadyInitialized,
    /// A ready-only operation was called while no store exists.
    StoreNotInitialized,
    /// The password is wrong or the stored container is corrupted; the two
    /// are deliberately indistinguishable.
    Decryption,
    /// The encryption primitive rejected its input.
    Encryption,
    /// The decrypted bytes are not valid text.
    Encoding,
    /// The decrypted text is not a valid encoded map.
    MalformedStore,
}

impl StoreError {
    /// A short description of the failure, for the surrounding program to print.
    pub fn message(&self) -> (m: &'static str)
        ensures
            *self is AlreadyInitialized ==> m@ == "store is already initialized"@,
            *self is StoreNotInitialized ==> m@ == "store is not initialized"@,
            *self is Decryption ==> m@ == "decryption error"@,
            *self is Encryption ==> m@ == "encryption error"@,
            *self is Encoding ==> m@ == "decrypted content is not valid text"@,
            *self is MalformedStore ==> m@ == "stored content is malformed"@,
    {
        match self {
            StoreError::AlreadyInitialized => "store is already initialized",
            StoreError::StoreNotInitialized => "store is not initialized",
            StoreError::Decryption => "decryption error",
            StoreError::Encryption => "encryption error",
            StoreError::Encoding => "decrypted content is not valid text",
            StoreError::MalformedStore => "stored content is malformed",
        }
    }
}

} // verus!
