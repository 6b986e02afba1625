//! A team member who can decrypt secrets.
use vstd::prelude::*;

use crate::cipher::age::{parse_recipient, recipient_check};
use crate::error::{Error, Fault};

verus! {

/// A team member: a name and a valid age public key.
#[derive(Debug, Clone)]
pub struct Recipient {
    name: String,
    public_key: String,
}

impl View for Recipient {
    type V = (Seq<char>, Seq<char>);

    closed spec fn view(&self) -> (Seq<char>, Seq<char>) {
        (self.name@, self.public_key@)
    }
}

impl Recipient {
    /// Create a recipient, checking that the public key is a valid age key.
    pub fn new(name: String, public_key: String) -> (r: Result<Self, Error>)
        ensures
            match recipient_check(public_key@) {
                Ok(_) => r matches Ok(x) && x@ == (name@, public_key@),
                Err(f) => r matches Err(e) && e@ == f,
            },
    {
        match parse_recipient(public_key.as_str()) {
            Ok(()) => Ok(Recipient { name, public_key }),
            Err(e) => Err(e),
        }
    }

    /// The member's name.
    pub fn name(&self) -> (s: &str)
        ensures
            s@ == self@.0,
    {
        self.name.as_str()
    }

    /// The member's public key.
    pub fn public_key(&self) -> (s: &str)
        ensures
            s@ == self@.1,
    {
        self.public_key.as_str()
    }
}

} // verus!
