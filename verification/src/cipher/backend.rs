//! Cipher backend selection and dispatch: age alone, or age with a cloud KMS.
use vstd::prelude::*;

use crate::cipher::age::{
    age_decrypt_result, age_identity_public, armor_header, closed_to_others, keys_view,
    no_weak_keys, opens_to,
    recipients_check, text_result, Age,
};
use crate::cipher::envelope::{
    detect_provider, parse_envelope, provider_name, sealed_reads_back, sealed_text, Envelope,
    EnvelopeView, KmsProvider, ENVELOPE_V2,
};
use crate::cipher::kms::KmsBackend;
use crate::cipher::Cipher;
use crate::config::Config;
use crate::domain::identity::Identity;
use crate::error::{CipherError, Error, Fault};
use crate::text::{has_prefix, str_eq};

verus! {

/// Cipher backend for vault operations.
#[derive(Debug)]
pub enum CipherBackend {
    /// Age encryption (default).
    Age,
    /// Age together with a cloud KMS.
    Hybrid { provider: KmsProvider, key: String },
}

/// What a backend is.
pub enum BackendView {
    Age,
    Hybrid(KmsProvider, Seq<char>),
}

impl View for CipherBackend {
    type V = BackendView;

    open spec fn view(&self) -> BackendView {
        match self {
            CipherBackend::Age => BackendView::Age,
            CipherBackend::Hybrid { provider, key } => BackendView::Hybrid(*provider, key@),
        }
    }
}

/// The message for a cipher this build does not include.
pub open spec fn gpg_missing_text() -> Seq<char> {
    "GPG support not compiled. Rebuild with: cargo install dugout --features gpg"@
}

/// The message for an unknown cipher name.
pub open spec fn unknown_cipher_text(name: Seq<char>) -> Seq<char> {
    "unknown cipher: "@ + name + ". Supported: age, gpg"@
}

/// The message for a KMS key of no known form.
pub open spec fn bad_kms_key_text(key: Seq<char>) -> Seq<char> {
    "unrecognized KMS key format: "@ + key
        + ". Expected AWS ARN (arn:aws:kms:...) or GCP resource (projects/...)"@
}

/// The message for a KMS provider this build does not include.
pub open spec fn kms_missing_text(p: KmsProvider) -> Seq<char> {
    provider_name(p) + " KMS not compiled. Rebuild with: cargo install dugout --features "@
        + provider_name(p)
}

/// The message when neither path of an envelope opens it.
pub open spec fn no_path_text() -> Seq<char> {
    "envelope decryption failed: no valid path"@
}

/// The backend a configuration selects, from its cipher choice and KMS key.
pub open spec fn backend_for(cipher: Option<Seq<char>>, kms_key: Option<Seq<char>>) -> Result<
    BackendView,
    Fault,
> {
    if cipher matches Some(c) && c == "gpg"@ {
        Err(Fault::EncryptionFailed(gpg_missing_text()))
    } else if cipher matches Some(c) && c != "age"@ {
        Err(Fault::EncryptionFailed(unknown_cipher_text(cipher->0)))
    } else {
        match kms_key {
            Some(k) => match detect_provider(k) {
                Some(p) => Ok(BackendView::Hybrid(p, k)),
                None => Err(Fault::EncryptionFailed(bad_kms_key_text(k))),
            },
            None => Ok(BackendView::Age),
        }
    }
}

/// The view of an optional KMS configuration's key.
pub open spec fn config_kms_key(c: Config) -> Option<Seq<char>> {
    match c.kms {
        Some(k) => Some(k.key@),
        None => None,
    }
}

/// The view of a configuration's cipher choice.
pub open spec fn config_cipher(c: Config) -> Option<Seq<char>> {
    match c.dugout.cipher {
        Some(s) => Some(s@),
        None => None,
    }
}

/// What age encryption of `pt` for `keys` may give: the first key that does
/// not parse is reported; without keys age reports missing recipients;
/// otherwise armored text that every recipient's identity opens to `pt`.
pub open spec fn age_encrypted(r: Result<String, Error>, pt: Seq<char>, keys: Seq<Seq<char>>) -> bool {
    match recipients_check(keys) {
        Err(f) => r matches Err(e) && e@ == f,
        Ok(_) => if keys.len() == 0 {
            r matches Err(e) && e@ is EncryptionFailed
        } else {
            r matches Ok(ct) && has_prefix(ct@, armor_header()) && ct@.len() > pt.len() && opens_to(
                ct@,
                pt,
                keys,
            ) && closed_to_others(ct@, keys)
        },
    }
}

/// Whether encrypting for `keys` stays clear of the keys that make age
/// panic: once every key parses, none is of small order.
pub open spec fn keys_encryptable(keys: Seq<Seq<char>>) -> bool {
    recipients_check(keys) is Ok ==> no_weak_keys(keys)
}

/// Whether the age part of encrypting for `keys` fails.
pub open spec fn age_part_fails(keys: Seq<Seq<char>>) -> bool {
    recipients_check(keys) is Err || keys.len() == 0
}

/// Whether `ct` is what a backend's encryption of `pt` for `keys` may give:
/// age alone with every key valid and at least one key, and armored text
/// that every recipient's identity opens to `pt`.
pub open spec fn encrypted_ok(b: BackendView, ct: Seq<char>, pt: Seq<char>, keys: Seq<Seq<char>>) -> bool {
    &&& b is Age
    &&& !age_part_fails(keys)
    &&& has_prefix(ct, armor_header())
    &&& ct.len() > pt.len()
    &&& opens_to(ct, pt, keys)
    &&& closed_to_others(ct, keys)
}

/// Whether `f` is the error a backend's encryption for `keys` may give: the
/// first key that does not parse; a missing-recipients report without keys;
/// for a hybrid backend, the missing KMS.
pub open spec fn encrypted_err(b: BackendView, f: Fault, keys: Seq<Seq<char>>) -> bool {
    if recipients_check(keys) is Err {
        f == recipients_check(keys)->Err_0
    } else if keys.len() == 0 {
        f is EncryptionFailed
    } else {
        b matches BackendView::Hybrid(p, _) && f == Fault::EncryptionFailed(kms_missing_text(p))
    }
}

/// What a backend's encryption of `pt` for `keys` may give.
pub open spec fn backend_encrypted(
    b: BackendView,
    r: Result<String, Error>,
    pt: Seq<char>,
    keys: Seq<Seq<char>>,
) -> bool {
    match r {
        Ok(ct) => encrypted_ok(b, ct@, pt, keys),
        Err(e) => encrypted_err(b, e@, keys),
    }
}

/// Whether decrypting `ct` would fall back to the KMS on a backend without
/// one: an envelope with a KMS part whose age part does not open.
pub open spec fn kms_fallback_missing(b: BackendView, ct: Seq<char>, secret: Seq<char>) -> bool {
    &&& b is Age
    &&& parse_envelope(ct) matches Some(env)
    &&& env.kms is Some
    &&& age_decrypt_result(env.age, secret) is Err
}

/// What a backend's decryption of `ct` with identity `secret` gives: for an
/// envelope, its age part, else the KMS part, else an error; otherwise raw
/// age decryption.
pub open spec fn backend_decrypted(b: BackendView, ct: Seq<char>, secret: Seq<char>) -> Result<
    Seq<char>,
    Fault,
> {
    match parse_envelope(ct) {
        Some(env) => match age_decrypt_result(env.age, secret) {
            Ok(p) => Ok(p),
            Err(_) => if env.kms is Some {
                match b {
                    BackendView::Hybrid(p, _) => Err(Fault::DecryptionFailed(kms_missing_text(p))),
                    BackendView::Age => Err(Fault::DecryptionFailed(no_path_text())),
                }
            } else {
                Err(Fault::DecryptionFailed(no_path_text()))
            },
        },
        None => age_decrypt_result(ct, secret),
    }
}

/// The name of a backend.
pub open spec fn backend_name(b: BackendView) -> Seq<char> {
    match b {
        BackendView::Age => "age"@,
        BackendView::Hybrid(KmsProvider::Aws, _) => "hybrid+aws"@,
        BackendView::Hybrid(KmsProvider::Gcp, _) => "hybrid+gcp"@,
    }
}

/// What encrypting `pt` for `keys` gives when the KMS part is `kms_part`:
/// for age alone as `backend_encrypted` says; for a hybrid backend the age
/// part's error, else the KMS part's error, else the sealed envelope of an
/// age ciphertext that every recipient's identity opens to `pt` and the KMS
/// ciphertext, under the backend's provider.
pub open spec fn encrypted_with_kms(
    b: BackendView,
    r: Result<String, Error>,
    pt: Seq<char>,
    keys: Seq<Seq<char>>,
    kms_part: Result<Seq<char>, Fault>,
) -> bool {
    match b {
        BackendView::Age => backend_encrypted(b, r, pt, keys),
        BackendView::Hybrid(p, _) => if age_part_fails(keys) {
            r matches Err(e) && (if recipients_check(keys) is Err {
                e@ == recipients_check(keys)->Err_0
            } else {
                e@ is EncryptionFailed
            })
        } else {
            match kms_part {
                Err(f) => r matches Err(e) && e@ == f,
                Ok(kct) => r matches Ok(ct) && exists|act: Seq<char>|
                    #![trigger opens_to(act, pt, keys)]
                    {
                        &&& has_prefix(act, armor_header())
                        &&& opens_to(act, pt, keys)
                        &&& closed_to_others(act, keys)
                        &&& ct@ == sealed_text(
                            EnvelopeView {
                                version: ENVELOPE_V2@,
                                age: act,
                                kms: Some(kct),
                                provider: Some(provider_name(p)),
                            },
                        )
                    },
            }
        },
    }
}

/// Whether decrypting `ct` would reach the KMS part of an envelope: its age
/// part does not open with `secret`, and it has a KMS part.
pub open spec fn reaches_kms(ct: Seq<char>, secret: Seq<char>) -> bool {
    &&& parse_envelope(ct) matches Some(env)
    &&& age_decrypt_result(env.age, secret) is Err
    &&& env.kms is Some
}

/// What decrypting `ct` with `secret` gives when the KMS part decrypts as
/// `kms_decrypted` says: for an envelope its age part, else its KMS part,
/// else an error; otherwise raw age decryption.
pub open spec fn decrypted_with_kms(
    ct: Seq<char>,
    secret: Seq<char>,
    kms_decrypted: spec_fn(Seq<char>) -> Result<Seq<char>, Fault>,
) -> Result<Seq<char>, Fault> {
    match parse_envelope(ct) {
        Some(env) => match age_decrypt_result(env.age, secret) {
            Ok(p) => Ok(p),
            Err(_) => match env.kms {
                Some(k) => kms_decrypted(k),
                None => Err(Fault::DecryptionFailed(no_path_text())),
            },
        },
        None => age_decrypt_result(ct, secret),
    }
}

/// The view of a backend result.
pub open spec fn backend_result_view(r: Result<CipherBackend, Error>) -> Result<BackendView, Fault> {
    match r {
        Ok(b) => Ok(b@),
        Err(e) => Err(e@),
    }
}

impl CipherBackend {
    /// Create a cipher backend from configuration.
    pub fn from_config(config: &Config) -> (r: Result<Self, Error>)
        ensures
            backend_result_view(r) == backend_for(config_cipher(*config), config_kms_key(*config)),
    {
        if let Some(cipher) = config.cipher() {
            if str_eq(cipher, "gpg") {
                return Err(
                    Error::Cipher(
                        CipherError::EncryptionFailed(
                            String::from_str(
                                "GPG support not compiled. Rebuild with: cargo install dugout --features gpg",
                            ),
                        ),
                    ),
                );
            } else if !str_eq(cipher, "age") {
                let mut m = String::from_str("unknown cipher: ");
                m.append(cipher);
                m.append(". Supported: age, gpg");
                return Err(Error::Cipher(CipherError::EncryptionFailed(m)));
            }
        }
        if let Some(kms_key) = config.kms_key() {
            match KmsProvider::detect(kms_key) {
                Some(provider) => {
                    return Ok(CipherBackend::Hybrid { provider, key: kms_key.to_string() });
                },
                None => {
                    let mut m = String::from_str("unrecognized KMS key format: ");
                    m.append(kms_key);
                    m.append(
                        ". Expected AWS ARN (arn:aws:kms:...) or GCP resource (projects/...)",
                    );
                    return Err(Error::Cipher(CipherError::EncryptionFailed(m)));
                },
            }
        }
        Ok(CipherBackend::Age)
    }

    /// Encrypt plaintext with age for all recipients.
    fn encrypt_age(plaintext: &str, recipients: &[String]) -> (r: Result<String, Error>)
        requires
            keys_encryptable(keys_view(recipients@)),
        ensures
            age_encrypted(r, plaintext@, keys_view(recipients@)),
    {
        Age.encrypt(plaintext, recipients)
    }

    /// The message for a KMS provider this build does not include.
    fn kms_missing(provider: &KmsProvider) -> (m: String)
        ensures
            m@ == kms_missing_text(*provider),
    {
        let mut m = String::from_str(provider.name());
        m.append(" KMS not compiled. Rebuild with: cargo install dugout --features ");
        m.append(provider.name());
        m
    }

    /// Encrypt plaintext with the configured KMS, which this build does not
    /// include.
    fn encrypt_kms(&self, plaintext: &str) -> (r: Result<String, Error>)
        requires
            self is Hybrid,
        ensures
            r matches Err(e) && e@ == Fault::EncryptionFailed(kms_missing_text(self->provider)),
    {
        match self {
            CipherBackend::Hybrid { provider, .. } => Err(
                Error::Cipher(CipherError::EncryptionFailed(Self::kms_missing(provider))),
            ),
            CipherBackend::Age => {
                assert(false);
                Err(Error::Cipher(CipherError::EncryptionFailed(String::new())))
            },
        }
    }

    /// Decrypt a KMS ciphertext with the configured KMS, which this build
    /// does not include.
    fn decrypt_kms(&self, ciphertext: &str) -> (r: Result<String, Error>)
        requires
            self is Hybrid,
        ensures
            r matches Err(e) && e@ == Fault::DecryptionFailed(kms_missing_text(self->provider)),
    {
        match self {
            CipherBackend::Hybrid { provider, .. } => Err(
                Error::Cipher(CipherError::DecryptionFailed(Self::kms_missing(provider))),
            ),
            CipherBackend::Age => {
                assert(false);
                Err(Error::Cipher(CipherError::DecryptionFailed(String::new())))
            },
        }
    }

    /// Encrypt plaintext for the given recipients: raw age ciphertext, or
    /// for a hybrid backend an envelope with the age and KMS ciphertexts.
    pub fn encrypt(&self, plaintext: &str, recipients: &[String]) -> (r: Result<String, Error>)
        requires
            keys_encryptable(keys_view(recipients@)),
        ensures
            backend_encrypted(self@, r, plaintext@, keys_view(recipients@)),
    {
        match self {
            CipherBackend::Age => Self::encrypt_age(plaintext, recipients),
            CipherBackend::Hybrid { provider, .. } => {
                let age_ct = match Self::encrypt_age(plaintext, recipients) {
                    Ok(ct) => ct,
                    Err(e) => return Err(e),
                };
                let kms_ct = match self.encrypt_kms(plaintext) {
                    Ok(ct) => ct,
                    Err(e) => return Err(e),
                };
                Envelope::new(age_ct, Some(kms_ct), Some(provider)).seal()
            },
        }
    }

    /// Decrypt ciphertext with the identity. For an envelope, age is tried
    /// first, then the KMS; raw age ciphertext is decrypted directly.
    pub fn decrypt(&self, ciphertext: &str, identity: &Identity) -> (r: Result<String, Error>)
        requires
            !kms_fallback_missing(self@, ciphertext@, identity@.secret),
        ensures
            text_result(r) == backend_decrypted(self@, ciphertext@, identity@.secret),
            sealed_reads_back(ciphertext@),
    {
        if let Some(env) = Envelope::parse(ciphertext) {
            if let Ok(result) = Age.decrypt(env.age.as_str(), identity) {
                return Ok(result);
            }
            if let Some(kms_ct) = &env.kms {
                return self.decrypt_kms(kms_ct.as_str());
            }
            return Err(
                Error::Cipher(
                    CipherError::DecryptionFailed(
                        String::from_str("envelope decryption failed: no valid path"),
                    ),
                ),
            );
        }
        Age.decrypt(ciphertext, identity)
    }

    /// Encrypt as `encrypt` does, with `kms` as the KMS of a hybrid backend.
    pub fn encrypt_with_kms<K: KmsBackend>(&self, plaintext: &str, recipients: &[String], kms: &K) -> (r:
        Result<String, Error>)
        requires
            keys_encryptable(keys_view(recipients@)),
        ensures
            encrypted_with_kms(
                self@,
                r,
                plaintext@,
                keys_view(recipients@),
                kms.encrypted(plaintext@),
            ),
    {
        match self {
            CipherBackend::Age => Self::encrypt_age(plaintext, recipients),
            CipherBackend::Hybrid { provider, .. } => {
                let age_ct = match Self::encrypt_age(plaintext, recipients) {
                    Ok(ct) => ct,
                    Err(e) => return Err(e),
                };
                let kms_ct = match kms.encrypt(plaintext) {
                    Ok(ct) => ct,
                    Err(e) => return Err(e),
                };
                let env = Envelope::new(age_ct, Some(kms_ct), Some(provider));
                let r = env.seal();
                assert(opens_to(env@.age, plaintext@, keys_view(recipients@)));
                r
            },
        }
    }

    /// Decrypt as `decrypt` does, with `kms` as the KMS that opens the KMS
    /// part of an envelope whose age part does not open. Only a hybrid
    /// backend has a KMS to fall back to.
    pub fn decrypt_with_kms<K: KmsBackend>(&self, ciphertext: &str, identity: &Identity, kms: &K) -> (r:
        Result<String, Error>)
        requires
            reaches_kms(ciphertext@, identity@.secret) ==> self is Hybrid && kms.accepts(
                parse_envelope(ciphertext@)->0.kms->0,
            ),
        ensures
            text_result(r) == decrypted_with_kms(
                ciphertext@,
                identity@.secret,
                |k: Seq<char>| kms.decrypted(k),
            ),
            sealed_reads_back(ciphertext@),
    {
        if let Some(env) = Envelope::parse(ciphertext) {
            if let Ok(result) = Age.decrypt(env.age.as_str(), identity) {
                return Ok(result);
            }
            if let Some(kms_ct) = &env.kms {
                return kms.decrypt(kms_ct.as_str());
            }
            return Err(
                Error::Cipher(
                    CipherError::DecryptionFailed(
                        String::from_str("envelope decryption failed: no valid path"),
                    ),
                ),
            );
        }
        Age.decrypt(ciphertext, identity)
    }

    /// Decrypt as `decrypt` does, or `None` where that would fall back to a
    /// KMS the backend does not have.
    pub fn try_decrypt(&self, ciphertext: &str, identity: &Identity) -> (r: Option<
        Result<String, Error>,
    >)
        ensures
            r is None <==> kms_fallback_missing(self@, ciphertext@, identity@.secret),
            r matches Some(d) ==> text_result(d) == backend_decrypted(
                self@,
                ciphertext@,
                identity@.secret,
            ),
    {
        if self.would_fall_back(ciphertext, identity) {
            None
        } else {
            Some(self.decrypt(ciphertext, identity))
        }
    }

    /// Whether decrypting would fall back to a KMS the backend does not have.
    pub fn would_fall_back(&self, ciphertext: &str, identity: &Identity) -> (b: bool)
        ensures
            b == kms_fallback_missing(self@, ciphertext@, identity@.secret),
    {
        match self {
            CipherBackend::Hybrid { .. } => false,
            CipherBackend::Age => match Envelope::parse(ciphertext) {
                Some(env) => env.kms.is_some() && Age.decrypt(env.age.as_str(), identity).is_err(),
                None => false,
            },
        }
    }

    /// Backend name for display.
    pub fn name(&self) -> (s: &'static str)
        ensures
            s@ == backend_name(self@),
    {
        match self {
            CipherBackend::Age => "age",
            CipherBackend::Hybrid { provider, .. } => match provider {
                KmsProvider::Aws => "hybrid+aws",
                KmsProvider::Gcp => "hybrid+gcp",
            },
        }
    }
}

/// Hybrid encryption reads back: for a ciphertext that a hybrid backend
/// made from `pt` for `keys`, with `kct` as the KMS part, decrypting with the
/// identity of a recipient gives `pt` through the age part, on either kind
/// of backend; with an identity whose key bytes no recipient key carries,
/// the age part does not open and the
/// KMS part is decrypted instead, which gives `pt` when the KMS decrypts its
/// own ciphertext. The envelope is read back as every decryption reads it.
pub proof fn lemma_hybrid_round_trip(
    p: KmsProvider,
    ct: Seq<char>,
    pt: Seq<char>,
    keys: Seq<Seq<char>>,
    kct: Seq<char>,
    secret: Seq<char>,
    kms_decrypted: spec_fn(Seq<char>) -> Result<Seq<char>, Fault>,
    b: BackendView,
)
    requires
        exists|act: Seq<char>|
            #![trigger opens_to(act, pt, keys)]
            {
                &&& has_prefix(act, armor_header())
                &&& opens_to(act, pt, keys)
                &&& closed_to_others(act, keys)
                &&& ct == sealed_text(
                    EnvelopeView {
                        version: ENVELOPE_V2@,
                        age: act,
                        kms: Some(kct),
                        provider: Some(provider_name(p)),
                    },
                )
            },
        sealed_reads_back(ct),
        age_identity_public(secret) is Ok,
    ensures
        keys.contains(age_identity_public(secret)->Ok_0) ==> decrypted_with_kms(ct, secret, kms_decrypted)
            == Ok::<Seq<char>, Fault>(pt) && backend_decrypted(b, ct, secret) == Ok::<
            Seq<char>,
            Fault,
        >(pt),
        !crate::cipher::age::holds_key(keys, age_identity_public(secret)->Ok_0) && kms_decrypted(kct) == Ok::<
            Seq<char>,
            Fault,
        >(pt) ==> decrypted_with_kms(ct, secret, kms_decrypted) == Ok::<Seq<char>, Fault>(pt),
{
    let act = choose|act: Seq<char>|
        #![trigger opens_to(act, pt, keys)]
        {
            &&& has_prefix(act, armor_header())
            &&& opens_to(act, pt, keys)
            &&& closed_to_others(act, keys)
            &&& ct == sealed_text(
                EnvelopeView {
                    version: ENVELOPE_V2@,
                    age: act,
                    kms: Some(kct),
                    provider: Some(provider_name(p)),
                },
            )
        };
    let e = EnvelopeView {
        version: ENVELOPE_V2@,
        age: act,
        kms: Some(kct),
        provider: Some(provider_name(p)),
    };
    assert(parse_envelope(ct) == Some(e));
    if keys.contains(age_identity_public(secret)->Ok_0) {
        assert(age_decrypt_result(act, secret) == Ok::<Seq<char>, Fault>(pt));
    }
    if !crate::cipher::age::holds_key(keys, age_identity_public(secret)->Ok_0) {
        assert(crate::cipher::age::age_opened(act, secret) is Err);
    }
}

} // verus!
