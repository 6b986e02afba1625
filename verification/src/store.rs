//! Where identities are kept: the key files under the home directory, and
//! the macOS Keychain service they are filed under. Reading and writing the
//! keys is left to the caller.
use vstd::prelude::*;

use crate::cipher::age::age_identity_public;
use crate::cipher::command::joined;
use crate::cipher::kms::{utf8_error_text, utf8_string};
use crate::domain::identity::{path_join, Identity, IdentitySource, SourceView};
use crate::error::{Error, Fault, StoreError};
use crate::constants::KEY_DIR;
use crate::text::{chars_of, str_eq, string_of, trim, trim_chars};
use vstd::utf8::{decode_utf8, valid_utf8};

verus! {

/// The Keychain service name under which identities are stored.
pub const SERVICE_NAME: &'static str = "com.dugout";

/// The identity key file of a project: the global identity for `global`,
/// else `<home>/.dugout/keys/<project_id>/identity.key`.
pub open spec fn identity_file_path(home: Seq<char>, project_id: Seq<char>) -> Seq<char> {
    if project_id == "global"@ {
        path_join(path_join(home, ".dugout"@), "identity.key"@)
    } else {
        path_join(path_join(path_join(home, KEY_DIR@), project_id), "identity.key"@)
    }
}

/// The identity key file of a project under the home directory.
pub fn identity_file(home: &str, project_id: &str) -> (p: String)
    ensures
        p@ == identity_file_path(home@, project_id@),
{
    if str_eq(project_id, "global") {
        Identity::global_path(home)
    } else {
        let dir = Identity::project_dir(home, project_id);
        crate::domain::identity::join_path(dir.as_str(), "identity.key")
    }
}

/// The macOS Keychain store of identities.
#[derive(Debug)]
pub struct Keychain {
    service: String,
}

impl View for Keychain {
    type V = Seq<char>;

    closed spec fn view(&self) -> Seq<char> {
        self.service@
    }
}

impl Keychain {
    /// A Keychain store under the dugout service name.
    pub fn new() -> (r: Result<Self, Error>)
        ensures
            r matches Ok(k) && k@ == SERVICE_NAME@,
    {
        Ok(Keychain { service: String::from_str(SERVICE_NAME) })
    }

    /// The service name identities are filed under.
    pub fn service(&self) -> (s: &str)
        ensures
            s@ == self@,
    {
        self.service.as_str()
    }

    /// Whether storing under `account` may go ahead, given whether the
    /// Keychain already holds it: without `force` an existing entry is an
    /// error. On success, whether the entry is to be deleted first.
    pub fn store_plan(account: &str, exists: bool, force: bool) -> (r: Result<bool, Error>)
        ensures
            !force && exists ==> (r matches Err(e) && e@ == Fault::KeychainError(
                exists_text(account@),
            )),
            force || !exists ==> r == Ok::<bool, Error>(force),
    {
        if !force && exists {
            let mut m = joined("Identity '", account);
            m.append("' already exists in Keychain. Use --force to overwrite.");
            return Err(Error::Store(StoreError::KeychainError(m)));
        }
        Ok(force)
    }

    /// The result of storing an identity, from what the Keychain reported.
    pub fn stored(reply: Result<(), KeychainFailure>) -> (r: Result<(), Error>)
        ensures
            crate::error::unit_view(r) == stored_result(failure_view(reply)),
    {
        match reply {
            Ok(()) => Ok(()),
            Err(f) => {
                if f.code == USER_CANCELED {
                    Err(Error::Store(StoreError::KeychainAccessDenied))
                } else {
                    let mut m = joined("Keychain storage failed: ", f.message.as_str());
                    m.append(". Use --filesystem flag to store locally instead.");
                    Err(Error::Store(StoreError::KeychainError(m)))
                }
            },
        }
    }

    /// The identity stored under `account`, from what the Keychain returned:
    /// its data as UTF-8 text, trimmed, parsed as an age secret key.
    pub fn loaded(account: &str, reply: Result<Vec<u8>, KeychainFailure>) -> (r: Result<
        Identity,
        Error,
    >)
        ensures
            identity_result(r) == loaded_result(account@, data_view(reply)),
    {
        match reply {
            Err(f) => {
                if f.code == USER_CANCELED {
                    Err(Error::Store(StoreError::KeychainAccessDenied))
                } else if f.code == ITEM_NOT_FOUND {
                    Err(Error::Store(StoreError::NoPrivateKey(joined("keychain:", account))))
                } else {
                    Err(Error::Store(StoreError::KeychainError(joined("Keychain error: ", f.message.as_str()))))
                }
            },
            Ok(bytes) => match utf8_string(bytes) {
                Err(m) => Err(
                    Error::Store(StoreError::InvalidFormat(joined("Invalid UTF-8 in Keychain data: ", m.as_str()))),
                ),
                Ok(text) => {
                    let cs = chars_of(text.as_str());
                    let secret = string_of(trim_chars(cs.as_slice()).as_slice());
                    Identity::from_parts(
                        secret,
                        IdentitySource::Keychain { account: String::from_str(account) },
                    )
                },
            },
        }
    }

    /// The result of deleting an identity, from what the Keychain reported:
    /// an entry that was not there counts as deleted.
    pub fn deleted(reply: Result<(), KeychainFailure>) -> (r: Result<(), Error>)
        ensures
            crate::error::unit_view(r) == deleted_result(failure_view(reply)),
    {
        match reply {
            Ok(()) => Ok(()),
            Err(f) => {
                if f.code == ITEM_NOT_FOUND {
                    Ok(())
                } else if f.code == USER_CANCELED {
                    Err(Error::Store(StoreError::KeychainAccessDenied))
                } else {
                    Err(
                        Error::Store(
                            StoreError::KeychainError(
                                joined("Failed to delete from Keychain: ", f.message.as_str()),
                            ),
                        ),
                    )
                }
            },
        }
    }

    /// Whether the Keychain holds an entry, from what a read of it returned:
    /// any failure counts as no entry.
    pub fn found(reply: &Result<Vec<u8>, KeychainFailure>) -> (b: bool)
        ensures
            b == reply is Ok,
    {
        reply.is_ok()
    }
}

/// The Keychain status for an authorization the user cancelled.
pub const USER_CANCELED: i32 = -128;

/// The Keychain status for an item that is not there.
pub const ITEM_NOT_FOUND: i32 = -25300;

/// A failure the Keychain reported: its status code and message.
#[derive(Debug)]
pub struct KeychainFailure {
    /// The status code (`OSStatus`).
    pub code: i32,
    /// The message describing it.
    pub message: String,
}

/// The status code and message of a failure, or `None` for success.
pub open spec fn failure_view(r: Result<(), KeychainFailure>) -> Option<(i32, Seq<char>)> {
    match r {
        Ok(()) => None,
        Err(f) => Some((f.code, f.message@)),
    }
}

/// The data returned, or the status code and message of a failure.
pub open spec fn data_view(r: Result<Vec<u8>, KeychainFailure>) -> Result<Seq<u8>, (i32, Seq<char>)> {
    match r {
        Ok(b) => Ok(b@),
        Err(f) => Err((f.code, f.message@)),
    }
}

/// The message for an account that already has an entry.
pub open spec fn exists_text(account: Seq<char>) -> Seq<char> {
    "Identity '"@ + account + "' already exists in Keychain. Use --force to overwrite."@
}

/// The result of storing, for a failure (or `None`).
pub open spec fn stored_result(f: Option<(i32, Seq<char>)>) -> Result<(), Fault> {
    match f {
        None => Ok(()),
        Some((code, m)) => if code == USER_CANCELED {
            Err(Fault::KeychainAccessDenied)
        } else {
            Err(
                Fault::KeychainError(
                    "Keychain storage failed: "@ + m
                        + ". Use --filesystem flag to store locally instead."@,
                ),
            )
        },
    }
}

/// The result of deleting, for a failure (or `None`).
pub open spec fn deleted_result(f: Option<(i32, Seq<char>)>) -> Result<(), Fault> {
    match f {
        None => Ok(()),
        Some((code, m)) => if code == ITEM_NOT_FOUND {
            Ok(())
        } else if code == USER_CANCELED {
            Err(Fault::KeychainAccessDenied)
        } else {
            Err(Fault::KeychainError("Failed to delete from Keychain: "@ + m))
        },
    }
}

/// What an identity result is: the secret and source, or the error.
pub open spec fn identity_result(r: Result<Identity, Error>) -> Result<(Seq<char>, SourceView), Fault> {
    match r {
        Ok(id) => Ok((id@.secret, id@.source)),
        Err(e) => Err(e@),
    }
}

/// What loading the entry of `account` gives for what the Keychain returned.
pub open spec fn loaded_result(account: Seq<char>, d: Result<Seq<u8>, (i32, Seq<char>)>) -> Result<
    (Seq<char>, SourceView),
    Fault,
> {
    match d {
        Err((code, m)) => if code == USER_CANCELED {
            Err(Fault::KeychainAccessDenied)
        } else if code == ITEM_NOT_FOUND {
            Err(Fault::NoPrivateKey("keychain:"@ + account))
        } else {
            Err(Fault::KeychainError("Keychain error: "@ + m))
        },
        Ok(b) => if !valid_utf8(b) {
            Err(Fault::InvalidFormat("Invalid UTF-8 in Keychain data: "@ + utf8_error_text(b)))
        } else {
            let secret = trim(decode_utf8(b));
            match age_identity_public(secret) {
                Ok(_) => Ok((secret, SourceView::Keychain(account))),
                Err(m) => Err(Fault::InvalidFormat(m)),
            }
        },
    }
}

/// Where the identity of a new vault comes from.
#[derive(Debug, Clone, Copy, PartialEq, Eq, Structural)]
pub enum InitKey {
    /// The project's own key.
    Project,
    /// The global key, copied to the project.
    Global,
    /// A new project key.
    Generate,
}

/// The identity a new vault starts with: the project key if there is one,
/// else the global key, else a new project key.
pub fn init_key_choice(has_project_key: bool, has_global_key: bool) -> (c: InitKey)
    ensures
        c == (if has_project_key {
            InitKey::Project
        } else if has_global_key {
            InitKey::Global
        } else {
            InitKey::Generate
        }),
{
    if has_project_key {
        InitKey::Project
    } else if has_global_key {
        InitKey::Global
    } else {
        InitKey::Generate
    }
}

} // verus!
