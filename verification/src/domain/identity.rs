//! A private key identity, held as its age secret key text.
use vstd::prelude::*;

use crate::cipher::age::{age_decrypt_result, age_identity_public, decrypt_armored, secret_public_key, text_result};
use crate::constants::KEY_DIR;
use crate::error::{Error, Fault, StoreError};
use crate::text::{chars_of, string_of, trim, trim_chars};

use age::secrecy::ExposeSecret;

verus! {

/// Where an identity was loaded from.
#[derive(Debug, Clone)]
pub enum IdentitySource {
    /// A key file on the filesystem.
    Filesystem(String),
    /// The macOS Keychain.
    Keychain { account: String },
    /// An environment variable.
    Environment { name: String },
}

/// The view of an identity source.
pub enum SourceView {
    Filesystem(Seq<char>),
    Keychain(Seq<char>),
    Environment(Seq<char>),
}

impl View for IdentitySource {
    type V = SourceView;

    open spec fn view(&self) -> SourceView {
        match self {
            IdentitySource::Filesystem(p) => SourceView::Filesystem(p@),
            IdentitySource::Keychain { account } => SourceView::Keychain(account@),
            IdentitySource::Environment { name } => SourceView::Environment(name@),
        }
    }
}

/// A private key identity for decrypting secrets.
pub struct Identity {
    secret: String,
    source: IdentitySource,
}

/// What an identity is: its secret key text and where it came from.
pub struct IdentityView {
    pub secret: Seq<char>,
    pub source: SourceView,
}

impl View for Identity {
    type V = IdentityView;

    closed spec fn view(&self) -> IdentityView {
        IdentityView { secret: self.secret@, source: self.source@ }
    }
}

/// `path` joined with `rel` as `Path::join` does on Unix: an absolute `rel`
/// replaces the path; otherwise one `/` separates them unless `path` is
/// empty or already ends with one.
pub open spec fn path_join(path: Seq<char>, rel: Seq<char>) -> Seq<char> {
    if rel.len() > 0 && rel[0] == '/' {
        rel
    } else if path.len() == 0 || path.last() == '/' {
        path + rel
    } else {
        path + seq!['/'] + rel
    }
}

/// `Path::join` on Unix.
pub fn join_path(path: &str, rel: &str) -> (r: String)
    ensures
        r@ == path_join(path@, rel@),
{
    let rc = crate::text::chars_of(rel);
    let pc = crate::text::chars_of(path);
    if rc.len() > 0 && rc[0] == '/' {
        return rel.to_string();
    }
    let mut r = path.to_string();
    if pc.len() > 0 && pc[pc.len() - 1] != '/' {
        crate::text::push_char(&mut r, '/');
    }
    r.append(rel);
    r
}

/// The placeholder path of a non-file source.
pub open spec fn virtual_path(source: SourceView) -> Seq<char> {
    match source {
        SourceView::Filesystem(p) => p,
        SourceView::Keychain(a) => "<keychain:"@ + a + ">"@,
        SourceView::Environment(n) => "<env:"@ + n + ">"@,
    }
}

impl Identity {
    #[verifier::type_invariant]
    spec fn parses(self) -> bool {
        age_identity_public(self.secret@) is Ok
    }

    /// An identity from its secret key text and source.
    ///
    /// Returns `StoreError::InvalidFormat` with the parser's message if the
    /// text is not an x25519 secret key.
    pub fn from_parts(secret: String, source: IdentitySource) -> (r: Result<Self, Error>)
        ensures
            match age_identity_public(secret@) {
                Ok(_) => r matches Ok(id) && id@.secret == secret@ && id@.source == source@,
                Err(m) => r matches Err(e) && e@ == Fault::InvalidFormat(m),
            },
    {
        match secret_public_key(secret.as_str()) {
            Ok(_) => Ok(Identity { secret, source }),
            Err(m) => Err(Error::Store(StoreError::InvalidFormat(m))),
        }
    }

    /// A new identity with a random x25519 key, attributed to `source`.
    pub fn generate(source: IdentitySource) -> (id: Self)
        ensures
            id@.source == source@,
    {
        Identity { secret: new_secret_key(), source }
    }

    /// The secret key text, for writing to a key file or the Keychain.
    pub fn expose_secret(&self) -> (s: &str)
        ensures
            s@ == self@.secret,
    {
        self.secret.as_str()
    }

    /// The identity the environment names, from the values the caller read:
    /// `inline` is `DUGOUT_IDENTITY`, the key itself; `file` is for
    /// `DUGOUT_IDENTITY_FILE`, `None` when it is not set, `Some(None)` when
    /// the file it names is missing, not private to its owner, or unreadable,
    /// else the file's contents. A valid inline key wins; both are trimmed.
    pub fn from_env_values(inline: Option<String>, file: Option<Option<String>>) -> (r: Option<Self>)
        ensures
            r matches Some(id) ==> (id@.secret, id@.source) == env_identity(
                opt_str(inline),
                file_view(file),
            )->0,
            r is Some <==> env_identity(opt_str(inline), file_view(file)) is Some,
    {
        if let Some(key) = inline {
            let secret = trimmed(key.as_str());
            let source = IdentitySource::Environment { name: String::from_str("DUGOUT_IDENTITY") };
            if let Ok(id) = Identity::from_parts(secret, source) {
                return Some(id);
            }
        }
        match file {
            Some(Some(contents)) => {
                let secret = trimmed(contents.as_str());
                let source = IdentitySource::Environment {
                    name: String::from_str("DUGOUT_IDENTITY_FILE"),
                };
                match Identity::from_parts(secret, source) {
                    Ok(id) => Some(id),
                    Err(_) => None,
                }
            },
            _ => None,
        }
    }

    /// The corresponding public key.
    pub fn public_key(&self) -> (pk: String)
        ensures
            age_identity_public(self@.secret) == Ok::<Seq<char>, Seq<char>>(pk@),
    {
        proof {
            use_type_invariant(self);
        }
        match secret_public_key(self.secret.as_str()) {
            Ok(pk) => pk,
            Err(_) => {
                assert(false);
                String::new()
            },
        }
    }

    /// Decrypts armored age text with this identity.
    pub(crate) fn decrypt_age(&self, ct: &str) -> (r: Result<String, Error>)
        ensures
            text_result(r) == age_decrypt_result(ct@, self@.secret),
            crate::cipher::age::not_age_text(ct@) ==> r is Err,
    {
        proof {
            use_type_invariant(self);
        }
        decrypt_armored(ct, self.secret.as_str())
    }

    /// The key file path, or a placeholder path for other sources.
    pub fn path(&self) -> (p: String)
        ensures
            p@ == virtual_path(self@.source),
    {
        match &self.source {
            IdentitySource::Filesystem(p) => p.clone(),
            IdentitySource::Keychain { account } => {
                let mut s = String::from_str("<keychain:");
                s.append(account.as_str());
                s.append(">");
                s
            },
            IdentitySource::Environment { name } => {
                let mut s = String::from_str("<env:");
                s.append(name.as_str());
                s.append(">");
                s
            },
        }
    }

    /// Where this identity came from.
    pub fn source(&self) -> (s: &IdentitySource)
        ensures
            s@ == self@.source,
    {
        &self.source
    }

    /// Base directory for all dugout keys: `<home>/.dugout/keys`.
    pub fn base_dir(home: &str) -> (p: String)
        ensures
            p@ == path_join(home@, KEY_DIR@),
    {
        join_path(home, KEY_DIR)
    }

    /// Directory for one project's keys: `<home>/.dugout/keys/<project_id>`.
    pub fn project_dir(home: &str, project_id: &str) -> (p: String)
        ensures
            p@ == path_join(path_join(home@, KEY_DIR@), project_id@),
    {
        let base = Self::base_dir(home);
        join_path(base.as_str(), project_id)
    }

    /// Global identity file: `<home>/.dugout/identity.key`.
    pub fn global_path(home: &str) -> (p: String)
        ensures
            p@ == path_join(path_join(home@, ".dugout"@), "identity.key"@),
    {
        let dir = join_path(home, ".dugout");
        join_path(dir.as_str(), "identity.key")
    }
}

/// `age::x25519::Identity::generate` rendered as its secret key text. The
/// key is random; what is stated is that the text parses back as a key.
#[verifier::external_body]
fn new_secret_key() -> (s: String)
    ensures
        age_identity_public(s@) is Ok,
{
    age::x25519::Identity::generate().to_string().expose_secret().to_string()
}

/// `s` with leading and trailing whitespace removed.
fn trimmed(s: &str) -> (t: String)
    ensures
        t@ == trim(s@),
{
    let cs = chars_of(s);
    string_of(trim_chars(cs.as_slice()).as_slice())
}

/// The view of an optional string.
pub open spec fn opt_str(o: Option<String>) -> Option<Seq<char>> {
    match o {
        Some(s) => Some(s@),
        None => None,
    }
}

/// The view of what was read for `DUGOUT_IDENTITY_FILE`.
pub open spec fn file_view(o: Option<Option<String>>) -> Option<Option<Seq<char>>> {
    match o {
        Some(Some(s)) => Some(Some(s@)),
        Some(None) => Some(None),
        None => None,
    }
}

/// The secret key and source the environment gives, if any: the trimmed
/// inline key when it parses, else the trimmed contents of the key file
/// when they parse.
pub open spec fn env_identity(inline: Option<Seq<char>>, file: Option<Option<Seq<char>>>) -> Option<
    (Seq<char>, SourceView),
> {
    if inline is Some && age_identity_public(trim(inline->0)) is Ok {
        Some((trim(inline->0), SourceView::Environment("DUGOUT_IDENTITY"@)))
    } else {
        match file {
            Some(Some(c)) => if age_identity_public(trim(c)) is Ok {
                Some((trim(c), SourceView::Environment("DUGOUT_IDENTITY_FILE"@)))
            } else {
                None
            },
            _ => None,
        }
    }
}

} // verus!
