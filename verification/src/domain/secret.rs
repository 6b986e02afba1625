//! A single encrypted secret with its key.
use vstd::prelude::*;

verus! {

/// An encrypted secret with its key name.
#[derive(Debug, Clone, PartialEq, Eq, Hash)]
pub struct Secret {
    key: String,
    value: String,
}

impl View for Secret {
    type V = (Seq<char>, Seq<char>);

    closed spec fn view(&self) -> (Seq<char>, Seq<char>) {
        (self.key@, self.value@)
    }
}

impl Secret {
    /// Create a secret from a key and its encrypted value.
    pub fn new(key: String, value: String) -> (s: Self)
        ensures
            s@ == (key@, value@),
    {
        Secret { key, value }
    }

    /// The secret's key name.
    pub fn key(&self) -> (k: &str)
        ensures
            k@ == self@.0,
    {
        self.key.as_str()
    }

    /// The encrypted ciphertext.
    pub fn encrypted(&self) -> (v: &str)
        ensures
            v@ == self@.1,
    {
        self.value.as_str()
    }

    /// How the secret is shown: its key name.
    pub fn describe(&self) -> (s: String)
        ensures
            s@ == self@.0,
    {
        self.key.clone()
    }
}

} // verus!
