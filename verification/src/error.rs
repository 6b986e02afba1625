//! Error types.
use vstd::prelude::*;

verus! {

/// Input validation failures.
#[derive(Debug, Clone)]
pub enum ValidationError {
    /// The secret key is empty.
    EmptyKey,
    /// The secret key is not a valid name.
    InvalidKey { key: String, reason: String },
    /// The secret value for the key is empty.
    EmptyValue(String),
    /// The team member name is not acceptable.
    InvalidMemberName { name: String, reason: String },
    /// A file does not have the expected permissions.
    InvalidPermissions { path: String, expected: String, actual: String },
}

/// Configuration failures.
#[derive(Debug, Clone)]
pub enum ConfigError {
    /// No vault configuration exists.
    NotInitialized,
    /// A vault configuration already exists.
    AlreadyInitialized,
    /// The current identity is not a recipient of the vault.
    AccessDenied,
    /// The vault has no recipients.
    NoRecipients,
    /// No recipient of that name.
    RecipientNotFound(String),
    /// A required field is missing.
    MissingField { field: String },
    /// A field has an invalid value.
    InvalidValue { field: String, reason: String },
    /// The configuration file could not be read.
    ReadFile(String),
    /// The configuration file could not be parsed.
    Parse(String),
    /// The configuration could not be serialized.
    Serialize(String),
}

/// Secret lookup failures.
#[derive(Debug, Clone)]
pub enum SecretError {
    /// A secret with this key already exists.
    AlreadyExists(String),
    /// No secret with this key.
    NotFound(String),
}

/// Encryption and decryption failures.
#[derive(Debug, Clone)]
pub enum CipherError {
    /// Encryption failed.
    EncryptionFailed(String),
    /// Decryption failed.
    DecryptionFailed(String),
    /// A public key could not be parsed.
    InvalidPublicKey(String),
    /// ASCII armor could not be produced.
    ArmorFailed(String),
}

/// Key storage failures.
#[derive(Debug, Clone)]
pub enum StoreError {
    /// No private key was found at the given place.
    NoPrivateKey(String),
    /// A key file could not be read.
    ReadFailed(String),
    /// A key file could not be written.
    WriteFailed(String),
    /// A stored key is malformed.
    InvalidFormat(String),
    /// A key could not be generated.
    GenerationFailed(String),
    /// The macOS Keychain reported an error.
    KeychainError(String),
    /// Access to the macOS Keychain was denied.
    KeychainAccessDenied,
}

/// Any error of the library.
#[derive(Debug, Clone)]
pub enum Error {
    Config(ConfigError),
    Secret(SecretError),
    Cipher(CipherError),
    Store(StoreError),
    Validation(ValidationError),
    Io(String),
}

} // verus!

verus! {

/// What an error says, with its texts as character sequences.
pub enum Fault {
    EmptyKey,
    InvalidKey(Seq<char>, Seq<char>),
    EmptyValue(Seq<char>),
    InvalidMemberName(Seq<char>, Seq<char>),
    InvalidPermissions(Seq<char>, Seq<char>, Seq<char>),
    NotInitialized,
    AlreadyInitialized,
    AccessDenied,
    NoRecipients,
    RecipientNotFound(Seq<char>),
    MissingField(Seq<char>),
    InvalidValue(Seq<char>, Seq<char>),
    ReadFile(Seq<char>),
    Parse(Seq<char>),
    Serialize(Seq<char>),
    AlreadyExists(Seq<char>),
    NotFound(Seq<char>),
    EncryptionFailed(Seq<char>),
    DecryptionFailed(Seq<char>),
    InvalidPublicKey(Seq<char>),
    ArmorFailed(Seq<char>),
    NoPrivateKey(Seq<char>),
    StoreReadFailed(Seq<char>),
    StoreWriteFailed(Seq<char>),
    InvalidFormat(Seq<char>),
    GenerationFailed(Seq<char>),
    KeychainError(Seq<char>),
    KeychainAccessDenied,
    Io(Seq<char>),
}

impl View for Error {
    type V = Fault;

    open spec fn view(&self) -> Fault {
        match self {
            Error::Validation(v) => match v {
                ValidationError::EmptyKey => Fault::EmptyKey,
                ValidationError::InvalidKey { key, reason } => Fault::InvalidKey(key@, reason@),
                ValidationError::EmptyValue(k) => Fault::EmptyValue(k@),
                ValidationError::InvalidMemberName { name, reason } => Fault::InvalidMemberName(
                    name@,
                    reason@,
                ),
                ValidationError::InvalidPermissions { path, expected, actual } =>
                    Fault::InvalidPermissions(path@, expected@, actual@),
            },
            Error::Config(c) => match c {
                ConfigError::NotInitialized => Fault::NotInitialized,
                ConfigError::AlreadyInitialized => Fault::AlreadyInitialized,
                ConfigError::AccessDenied => Fault::AccessDenied,
                ConfigError::NoRecipients => Fault::NoRecipients,
                ConfigError::RecipientNotFound(n) => Fault::RecipientNotFound(n@),
                ConfigError::MissingField { field } => Fault::MissingField(field@),
                ConfigError::InvalidValue { field, reason } => Fault::InvalidValue(field@, reason@),
                ConfigError::ReadFile(m) => Fault::ReadFile(m@),
                ConfigError::Parse(m) => Fault::Parse(m@),
                ConfigError::Serialize(m) => Fault::Serialize(m@),
            },
            Error::Secret(s) => match s {
                SecretError::AlreadyExists(k) => Fault::AlreadyExists(k@),
                SecretError::NotFound(k) => Fault::NotFound(k@),
            },
            Error::Cipher(c) => match c {
                CipherError::EncryptionFailed(m) => Fault::EncryptionFailed(m@),
                CipherError::DecryptionFailed(m) => Fault::DecryptionFailed(m@),
                CipherError::InvalidPublicKey(k) => Fault::InvalidPublicKey(k@),
                CipherError::ArmorFailed(m) => Fault::ArmorFailed(m@),
            },
            Error::Store(s) => match s {
                StoreError::NoPrivateKey(m) => Fault::NoPrivateKey(m@),
                StoreError::ReadFailed(m) => Fault::StoreReadFailed(m@),
                StoreError::WriteFailed(m) => Fault::StoreWriteFailed(m@),
                StoreError::InvalidFormat(m) => Fault::InvalidFormat(m@),
                StoreError::GenerationFailed(m) => Fault::GenerationFailed(m@),
                StoreError::KeychainError(m) => Fault::KeychainError(m@),
                StoreError::KeychainAccessDenied => Fault::KeychainAccessDenied,
            },
            Error::Io(m) => Fault::Io(m@),
        }
    }
}

/// The view of a result that carries no value.
pub open spec fn unit_view(r: Result<(), Error>) -> Result<(), Fault> {
    match r {
        Ok(_) => Ok(()),
        Err(e) => Err(e@),
    }
}

} // verus!
