//! Encryption backends: age, and age combined with a cloud KMS.
use vstd::prelude::*;

use crate::error::Error;

pub mod age;
pub mod backend;
pub mod command;
pub mod envelope;
pub mod gpg;
pub mod kms;

verus! {

/// A cryptographic backend.
pub trait Cipher {
    type Recipient;

    type Identity;

    /// Whether encrypting for `recipients` stays within what the backend can do.
    spec fn encryptable(&self, recipients: Seq<Self::Recipient>) -> bool;

    /// Encrypt `plaintext` for `recipients`.
    fn encrypt(&self, plaintext: &str, recipients: &[Self::Recipient]) -> Result<String, Error>
        requires
            self.encryptable(recipients@),
    ;

    /// Decrypt `encrypted` with `identity`.
    fn decrypt(&self, encrypted: &str, identity: &Self::Identity) -> Result<String, Error>;

    /// The backend's name.
    fn name(&self) -> &'static str;
}

} // verus!
