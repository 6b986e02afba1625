//! The age backend: x25519 public-key encryption with ASCII armor.
use std::io::{Read, Write};

use age::x25519;
use bech32::FromBase32;
use vstd::prelude::*;
use vstd::utf8::{decode_utf8, valid_utf8};

use crate::cipher::kms::{utf8_error_text, utf8_string};
use crate::cipher::Cipher;
use crate::domain::identity::Identity;
use crate::error::{CipherError, Error, Fault};
use crate::text::has_prefix;

verus! {

/// Whether `key` parses as an age x25519 recipient (`age1...`).
pub uninterp spec fn age_recipient_valid(key: Seq<char>) -> bool;

/// Parsing `secret` as an x25519 secret key (`AGE-SECRET-KEY-1...`): the
/// matching public key in `age1...` form, or the parser's message.
pub uninterp spec fn age_identity_public(secret: Seq<char>) -> Result<Seq<char>, Seq<char>>;

/// The error of `age::Decryptor`.
#[verifier::external_type_specification]
#[verifier::external_body]
pub struct ExDecryptError(age::DecryptError);

/// How opening age text fails, by the kind of failure age reports.
#[derive(Debug, Clone, Copy, PartialEq, Eq, Structural)]
pub enum AgeFailure {
    /// The payload did not decrypt.
    DecryptionFailed,
    /// A passphrase stanza asked for too much work.
    ExcessiveWork,
    /// The header is malformed.
    InvalidHeader,
    /// The header's MAC does not match.
    InvalidMac,
    /// Reading the header failed.
    Io,
    /// A file key did not decrypt.
    KeyDecryptionFailed,
    /// No stanza opens with the identity.
    NoMatchingKeys,
    /// The text is not an age file.
    UnknownFormat,
    /// Reading the decrypted payload failed.
    Stream,
}

/// Opening the armored age text `ct` with the x25519 identity `secret`: the
/// plaintext bytes, or the kind of failure.
pub uninterp spec fn age_opened(ct: Seq<char>, secret: Seq<char>) -> Result<Seq<u8>, AgeFailure>;

/// The library's message for a kind of failure.
pub open spec fn failure_text(f: AgeFailure) -> Seq<char> {
    match f {
        AgeFailure::DecryptionFailed => "age: the payload did not decrypt"@,
        AgeFailure::ExcessiveWork => "age: too much work asked of the passphrase"@,
        AgeFailure::InvalidHeader => "age: invalid header"@,
        AgeFailure::InvalidMac => "age: header MAC mismatch"@,
        AgeFailure::Io => "age: could not read the header"@,
        AgeFailure::KeyDecryptionFailed => "age: a file key did not decrypt"@,
        AgeFailure::NoMatchingKeys => "age: no identity matched a recipient"@,
        AgeFailure::UnknownFormat => "age: unknown format"@,
        AgeFailure::Stream => "age: could not read the decrypted payload"@,
    }
}

/// Decrypting the armored age text `ct` with the x25519 identity `secret`:
/// the plaintext as UTF-8 text, or the error for the failure.
pub open spec fn age_decrypt_result(ct: Seq<char>, secret: Seq<char>) -> Result<Seq<char>, Fault> {
    match age_opened(ct, secret) {
        Ok(b) => if valid_utf8(b) {
            Ok(decode_utf8(b))
        } else {
            Err(Fault::DecryptionFailed("UTF-8 error: "@ + utf8_error_text(b)))
        },
        Err(AgeFailure::Stream) => Err(Fault::Io(failure_text(AgeFailure::Stream))),
        Err(f) => Err(Fault::DecryptionFailed(failure_text(f))),
    }
}

/// What `bech32::decode` followed by `Vec::<u8>::from_base32` gives for a
/// text in the Bech32 variant: its human-readable part and data bytes.
pub uninterp spec fn bech32_decoded(text: Seq<char>) -> Option<(Seq<char>, Seq<u8>)>;

/// The RFC 7748 function `x25519(k, u)` on 32-byte strings.
pub uninterp spec fn x25519_fn(k: Seq<u8>, u: Seq<u8>) -> Seq<u8>;

/// The scalar that small-order keys are detected with.
pub open spec fn probe_scalar() -> Seq<u8> {
    Seq::new(32, |i: int| 1u8)
}

/// Whether a recipient key is of small order: its point times the probe
/// scalar is the all-zero string. X25519 clamps every scalar to a multiple
/// of 8 below 8 times the prime subgroup order, so a point gives all zeros
/// for one clamped scalar exactly when it does for every clamped scalar,
/// among them the ephemeral one that age draws.
pub open spec fn small_order(key: Seq<char>) -> bool {
    &&& bech32_decoded(key) matches Some((_, b))
    &&& b.len() == 32
    &&& forall|i: int| 0 <= i < 32 ==> #[trigger] x25519_fn(probe_scalar(), b)[i] == 0u8
}

/// A key that age parses but whose encryption panics.
pub open spec fn weak_recipient(key: Seq<char>) -> bool {
    age_recipient_valid(key) && small_order(key)
}

/// The public keys in a list that no weak recipient is among.
pub open spec fn no_weak_keys(keys: Seq<Seq<char>>) -> bool {
    forall|i: int| 0 <= i < keys.len() ==> !weak_recipient(#[trigger] keys[i])
}

/// The start of the binary age format's header.
pub open spec fn age_magic() -> Seq<char> {
    "age-encryption.org/"@
}

/// Whether `ct` is no age file: it starts neither with the armor line nor
/// with the binary header's magic.
pub open spec fn not_age_text(ct: Seq<char>) -> bool {
    !has_prefix(ct, armor_header()) && !has_prefix(ct, age_magic())
}

/// The first line of ASCII-armored age output.
pub open spec fn armor_header() -> Seq<char> {
    "-----BEGIN AGE ENCRYPTED FILE-----"@
}

/// Whether `ct` decrypts to `pt` for every identity whose public key is one of `keys`.
pub open spec fn opens_to(ct: Seq<char>, pt: Seq<char>, keys: Seq<Seq<char>>) -> bool {
    forall|secret: Seq<char>|
        (age_identity_public(secret) matches Ok(pk) && keys.contains(pk)) ==> #[trigger] age_decrypt_result(
            ct,
            secret,
        ) == Ok::<Seq<char>, Fault>(pt)
}

/// Whether `ct` opens for no identity whose public key is not one of `keys`,
/// the keys compared by the bytes they carry (a key text may be written in
/// upper case, which Bech32 accepts; the public key an identity renders is
/// lower case).
pub open spec fn closed_to_others(ct: Seq<char>, keys: Seq<Seq<char>>) -> bool {
    forall|secret: Seq<char>|
        (age_identity_public(secret) matches Ok(pk) && !holds_key(keys, pk)) ==> #[trigger] age_opened(
            ct,
            secret,
        ) is Err
}

/// The key bytes a Bech32 key text carries, whatever the case of its letters.
pub open spec fn key_bytes(key: Seq<char>) -> Option<Seq<u8>> {
    match bech32_decoded(key) {
        Some((_, b)) => Some(b),
        None => None,
    }
}

/// Whether one of `keys` carries the same key bytes as `pk`: the same
/// public key, written in either case.
pub open spec fn holds_key(keys: Seq<Seq<char>>, pk: Seq<char>) -> bool {
    exists|i: int| 0 <= i < keys.len() && #[trigger] key_bytes(keys[i]) == key_bytes(pk)
}

/// The views of a slice of strings.
pub open spec fn keys_view(keys: Seq<String>) -> Seq<Seq<char>> {
    keys.map_values(|k: String| k@)
}

/// The view of a string result whose error is a plain message.
pub open spec fn message_result(r: Result<String, String>) -> Result<Seq<char>, Seq<char>> {
    match r {
        Ok(s) => Ok(s@),
        Err(m) => Err(m@),
    }
}

/// The view of a string result whose error is a library error.
pub open spec fn text_result(r: Result<String, Error>) -> Result<Seq<char>, Fault> {
    match r {
        Ok(s) => Ok(s@),
        Err(e) => Err(e@),
    }
}

/// Whether `key` parses as an `x25519::Recipient` (`str::parse`).
/// A parsed key is the Bech32 text, under the `age` prefix, of 32 bytes
/// (`util::parse_bech32` in age).
#[verifier::external_body]
fn recipient_parses(key: &str) -> (b: bool)
    ensures
        b == age_recipient_valid(key@),
        b ==> (bech32_decoded(key@) matches Some((hrp, bytes)) && hrp == "age"@ && bytes.len()
            == 32),
{
    key.parse::<x25519::Recipient>().is_ok()
}

/// Parses `secret` as an `x25519::Identity` and renders `to_public()` with
/// its `Display`; a failed parse gives the parser's message. A rendered
/// public key is the Bech32 text that `x25519::Recipient` parses back.
#[verifier::external_body]
pub(crate) fn secret_public_key(secret: &str) -> (r: Result<String, String>)
    ensures
        message_result(r) == age_identity_public(secret@),
        r matches Ok(pk) ==> age_recipient_valid(pk@),
{
    secret.parse::<x25519::Identity>().map(|id| id.to_public().to_string()).map_err(
        |e| e.to_string(),
    )
}

/// Encrypts `plaintext` with `age::Encryptor::with_recipients` for the
/// parsed `recipients`, through an ASCII-armor writer. With at least one
/// recipient the encryptor is built and writing into memory cannot fail; the
/// armor starts with its header line and is longer than the plaintext (it
/// holds the header, a stanza per recipient and the sealed payload). The
/// file key is wrapped for each recipient and no one else, so each matching
/// identity opens the result and any identity whose public key bytes are not
/// those of a recipient fails (the key bytes enter the wrapping key's salt). With none,
/// `with_recipients` reports missing recipients, in a message that depends
/// on the locale and is not stated here. A recipient of small order makes
/// `wrap_file_key` panic; such keys are left out.
#[verifier::external_body]
fn encrypt_armored(plaintext: &str, recipients: &[String]) -> (r: Result<String, String>)
    requires
        forall|i: int| 0 <= i < recipients@.len() ==> age_recipient_valid(#[trigger] recipients@[i]@),
        no_weak_keys(keys_view(recipients@)),
    ensures
        r is Ok <==> recipients@.len() > 0,
        r matches Ok(ct) ==> has_prefix(ct@, armor_header()),
        r matches Ok(ct) ==> ct@.len() > plaintext@.len(),
        r matches Ok(ct) ==> opens_to(ct@, plaintext@, keys_view(recipients@)),
        r matches Ok(ct) ==> closed_to_others(ct@, keys_view(recipients@)),
{
    let rs: Vec<x25519::Recipient> = recipients.iter().map(|k| k.parse().unwrap()).collect();
    let enc = age::Encryptor::with_recipients(rs.iter().map(|r| r as &dyn age::Recipient))
        .map_err(|e| e.to_string())?;
    let mut out: Vec<u8> = Vec::new();
    let armor = age::armor::ArmoredWriter::wrap_output(&mut out, age::armor::Format::AsciiArmor)
        .unwrap();
    let mut w = enc.wrap_output(armor).unwrap();
    w.write_all(plaintext.as_bytes()).unwrap();
    w.finish().unwrap().finish().unwrap();
    Ok(String::from_utf8(out).unwrap())
}

/// The kind of an `age::DecryptError`.
#[verifier::external_body]
fn failure_kind(e: age::DecryptError) -> AgeFailure {
    match e {
        age::DecryptError::DecryptionFailed => AgeFailure::DecryptionFailed,
        age::DecryptError::ExcessiveWork { .. } => AgeFailure::ExcessiveWork,
        age::DecryptError::InvalidHeader => AgeFailure::InvalidHeader,
        age::DecryptError::InvalidMac => AgeFailure::InvalidMac,
        age::DecryptError::Io(_) => AgeFailure::Io,
        age::DecryptError::KeyDecryptionFailed => AgeFailure::KeyDecryptionFailed,
        age::DecryptError::NoMatchingKeys => AgeFailure::NoMatchingKeys,
        age::DecryptError::UnknownFormat => AgeFailure::UnknownFormat,
    }
}

/// The view of an opening result.
pub open spec fn opened_view(r: Result<Vec<u8>, AgeFailure>) -> Result<Seq<u8>, AgeFailure> {
    match r {
        Ok(b) => Ok(b@),
        Err(f) => Err(f),
    }
}

/// Opens the armored age text `ct` with `age::Decryptor` and the parsed
/// identity `secret`, reading the whole plaintext; a failure of the
/// decryptor is reported by its kind, one of the stream as `Stream`. The
/// armor reader passes text through unless its first bytes are the armor
/// line, and the header reader wants the magic `age-encryption.org/`, so a
/// text with neither start fails.
#[verifier::external_body]
fn age_open(ct: &str, secret: &str) -> (r: Result<Vec<u8>, AgeFailure>)
    requires
        age_identity_public(secret@) is Ok,
    ensures
        opened_view(r) == age_opened(ct@, secret@),
        not_age_text(ct@) ==> r is Err,
{
    let id: x25519::Identity = secret.parse().unwrap();
    let dec = age::Decryptor::new(age::armor::ArmoredReader::new(ct.as_bytes()))
        .map_err(failure_kind)?;
    let mut rd = dec.decrypt(std::iter::once(&id as &dyn age::Identity)).map_err(failure_kind)?;
    let mut out: Vec<u8> = Vec::new();
    rd.read_to_end(&mut out).map_err(|_| AgeFailure::Stream)?;
    Ok(out)
}

/// The library's message for a kind of failure.
fn failure_message(f: AgeFailure) -> (m: String)
    ensures
        m@ == failure_text(f),
{
    String::from_str(match f {
        AgeFailure::DecryptionFailed => "age: the payload did not decrypt",
        AgeFailure::ExcessiveWork => "age: too much work asked of the passphrase",
        AgeFailure::InvalidHeader => "age: invalid header",
        AgeFailure::InvalidMac => "age: header MAC mismatch",
        AgeFailure::Io => "age: could not read the header",
        AgeFailure::KeyDecryptionFailed => "age: a file key did not decrypt",
        AgeFailure::NoMatchingKeys => "age: no identity matched a recipient",
        AgeFailure::UnknownFormat => "age: unknown format",
        AgeFailure::Stream => "age: could not read the decrypted payload",
    })
}

/// Decrypts the armored age text `ct` with the identity `secret`: the
/// plaintext as UTF-8 text, or the error for the failure.
pub(crate) fn decrypt_armored(ct: &str, secret: &str) -> (r: Result<String, Error>)
    requires
        age_identity_public(secret@) is Ok,
    ensures
        text_result(r) == age_decrypt_result(ct@, secret@),
        not_age_text(ct@) ==> age_opened(ct@, secret@) is Err && r is Err,
{
    match age_open(ct, secret) {
        Ok(b) => match utf8_string(b) {
            Ok(t) => Ok(t),
            Err(m) => {
                let mut msg = String::from_str("UTF-8 error: ");
                msg.append(m.as_str());
                Err(Error::Cipher(CipherError::DecryptionFailed(msg)))
            },
        },
        Err(AgeFailure::Stream) => Err(Error::Io(failure_message(AgeFailure::Stream))),
        Err(f) => Err(Error::Cipher(CipherError::DecryptionFailed(failure_message(f)))),
    }
}

/// `bech32::decode` of `text` in the Bech32 variant, its data turned into
/// bytes with `Vec::<u8>::from_base32`.
#[verifier::external_body]
fn bech32_bytes(text: &str) -> (r: Option<(String, Vec<u8>)>)
    ensures
        match bech32_decoded(text@) {
            Some((h, b)) => r matches Some((rh, rb)) && rh@ == h && rb@ == b,
            None => r is None,
        },
{
    match bech32::decode(text).ok()? {
        (hrp, data, bech32::Variant::Bech32) => Vec::<u8>::from_base32(&data).ok().map(|d| (hrp, d)),
        (_, _, bech32::Variant::Bech32m) => None,
    }
}

/// `x25519_dalek::x25519`.
#[verifier::external_body]
fn x25519_mul(k: [u8; 32], u: [u8; 32]) -> (r: [u8; 32])
    ensures
        r@ == x25519_fn(k@, u@),
{
    x25519_dalek::x25519(k, u)
}

/// Whether a key is of small order, by the probe.
pub fn recipient_small_order(key: &str) -> (b: bool)
    ensures
        b == small_order(key@),
{
    let (_, bytes) = match bech32_bytes(key) {
        Some(d) => d,
        None => return false,
    };
    if bytes.len() != 32 {
        return false;
    }
    let mut u: [u8; 32] = [0u8; 32];
    let mut i: usize = 0;
    while i < 32
        invariant
            i <= 32,
            bytes@.len() == 32,
            forall|j: int| 0 <= j < i ==> u@[j] == bytes@[j],
        decreases 32 - i,
    {
        u.set(i, bytes[i]);
        i = i + 1;
    }
    assert(u@ =~= bytes@);
    let k: [u8; 32] = [1u8; 32];
    assert(k@ =~= probe_scalar());
    let p = x25519_mul(k, u);
    let mut j: usize = 0;
    assert(small_order(key@) == (forall|t: int|
        0 <= t < 32 ==> #[trigger] x25519_fn(probe_scalar(), bytes@)[t] == 0u8));
    while j < 32
        invariant
            j <= 32,
            bytes@.len() == 32,
            p@ == x25519_fn(probe_scalar(), bytes@),
            small_order(key@) == (forall|t: int|
                0 <= t < 32 ==> #[trigger] x25519_fn(probe_scalar(), bytes@)[t] == 0u8),
            forall|t: int| 0 <= t < j ==> x25519_fn(probe_scalar(), bytes@)[t] == 0u8,
        decreases 32 - j,
    {
        if p[j] != 0 {
            assert(x25519_fn(probe_scalar(), bytes@)[j as int] != 0u8);
            return false;
        }
        j = j + 1;
    }
    true
}

/// Whether a key parses as a recipient and is of small order: encrypting
/// for it would panic.
pub fn is_weak_recipient(key: &str) -> (b: bool)
    ensures
        b == weak_recipient(key@),
{
    recipient_parses(key) && recipient_small_order(key)
}

/// Whether no key in the list is a weak recipient.
pub fn has_no_weak_keys(keys: &[String]) -> (b: bool)
    ensures
        b == no_weak_keys(keys_view(keys@)),
{
    let mut i: usize = 0;
    while i < keys.len()
        invariant
            i <= keys@.len(),
            forall|j: int| 0 <= j < i ==> !weak_recipient(#[trigger] keys_view(keys@)[j]),
        decreases keys@.len() - i,
    {
        if is_weak_recipient(keys[i].as_str()) {
            assert(keys_view(keys@)[i as int] == keys@[i as int]@);
            return false;
        }
        assert(keys_view(keys@)[i as int] == keys@[i as int]@);
        i = i + 1;
    }
    true
}

/// The result of checking that every recipient key parses.
pub open spec fn recipients_check(keys: Seq<Seq<char>>) -> Result<(), Fault>
    decreases keys.len(),
{
    if keys.len() == 0 {
        Ok(())
    } else if !age_recipient_valid(keys[0]) {
        Err(Fault::InvalidPublicKey(keys[0]))
    } else {
        recipients_check(keys.drop_first())
    }
}

/// The public key check: `Ok` exactly for a parsable `age1...` key, else
/// `InvalidPublicKey` carrying the key.
pub open spec fn recipient_check(key: Seq<char>) -> Result<(), Fault> {
    if age_recipient_valid(key) {
        Ok(())
    } else {
        Err(Fault::InvalidPublicKey(key))
    }
}

/// Parse a public key string as an age recipient.
///
/// Returns `CipherError::InvalidPublicKey` if the key format is invalid.
pub fn parse_recipient(key: &str) -> (r: Result<(), Error>)
    ensures
        crate::error::unit_view(r) == recipient_check(key@),
{
    if recipient_parses(key) {
        Ok(())
    } else {
        Err(Error::Cipher(CipherError::InvalidPublicKey(key.to_string())))
    }
}

proof fn lemma_recipients_check_step(keys: Seq<Seq<char>>, i: int)
    requires
        0 <= i < keys.len(),
        forall|j: int| 0 <= j < i ==> age_recipient_valid(#[trigger] keys[j]),
    ensures
        recipients_check(keys) == recipients_check(keys.skip(i)),
    decreases i,
{
    if i > 0 {
        assert(keys.drop_first().skip(i - 1) =~= keys.skip(i));
        lemma_recipients_check_step(keys.drop_first(), i - 1);
    } else {
        assert(keys.skip(0) =~= keys);
    }
}

proof fn lemma_recipients_check_ok(keys: Seq<Seq<char>>)
    requires
        forall|j: int| 0 <= j < keys.len() ==> age_recipient_valid(#[trigger] keys[j]),
    ensures
        recipients_check(keys) == Ok::<(), Fault>(()),
    decreases keys.len(),
{
    if keys.len() > 0 {
        assert(age_recipient_valid(keys[0]));
        assert forall|j: int| 0 <= j < keys.drop_first().len() implies age_recipient_valid(
            #[trigger] keys.drop_first()[j],
        ) by {
            assert(keys.drop_first()[j] == keys[j + 1]);
        }
        lemma_recipients_check_ok(keys.drop_first());
    }
}

/// The recipient check passes exactly when every key parses.
pub proof fn lemma_recipients_check_all(keys: Seq<Seq<char>>)
    ensures
        recipients_check(keys) is Ok <==> forall|j: int| 0 <= j < keys.len() ==> age_recipient_valid(
            #[trigger] keys[j],
        ),
    decreases keys.len(),
{
    if keys.len() > 0 {
        lemma_recipients_check_all(keys.drop_first());
        if recipients_check(keys) is Ok {
            assert forall|j: int| 0 <= j < keys.len() implies age_recipient_valid(#[trigger] keys[j]) by {
                if j > 0 {
                    assert(keys[j] == keys.drop_first()[j - 1]);
                }
            }
        }
        if forall|j: int| 0 <= j < keys.len() ==> age_recipient_valid(#[trigger] keys[j]) {
            lemma_recipients_check_ok(keys);
        }
    }
}

/// Checks every recipient key in order; the first that does not parse is
/// reported.
pub fn check_recipients(keys: &[String]) -> (r: Result<(), Error>)
    ensures
        crate::error::unit_view(r) == recipients_check(keys_view(keys@)),
        r is Ok <==> forall|i: int| 0 <= i < keys@.len() ==> age_recipient_valid(#[trigger] keys@[i]@),
{
    let ghost ks = keys_view(keys@);
    let mut i: usize = 0;
    while i < keys.len()
        invariant
            i <= keys@.len(),
            ks == keys_view(keys@),
            forall|j: int| 0 <= j < i ==> age_recipient_valid(#[trigger] keys@[j]@),
        decreases keys@.len() - i,
    {
        if !recipient_parses(keys[i].as_str()) {
            proof {
                assert forall|j: int| 0 <= j < i implies age_recipient_valid(#[trigger] ks[j]) by {
                    assert(ks[j] == keys@[j]@);
                }
                lemma_recipients_check_step(ks, i as int);
                assert(ks.skip(i as int)[0] == keys@[i as int]@);
            }
            return Err(Error::Cipher(CipherError::InvalidPublicKey(keys[i].clone())));
        }
        i = i + 1;
    }
    proof {
        assert forall|j: int| 0 <= j < ks.len() implies age_recipient_valid(#[trigger] ks[j]) by {
            assert(ks[j] == keys@[j]@);
        }
        lemma_recipients_check_ok(ks);
    }
    Ok(())
}

/// Age-based cryptographic backend using x25519 keys.
pub struct Age;

impl Cipher for Age {
    type Recipient = String;

    type Identity = Identity;

    open spec fn encryptable(&self, recipients: Seq<String>) -> bool {
        recipients_check(keys_view(recipients)) is Ok ==> no_weak_keys(keys_view(recipients))
    }

    fn name(&self) -> (s: &'static str)
        ensures
            s@ == "age"@,
    {
        "age"
    }

    /// Encrypts for recipients given as `age1...` public keys.
    fn encrypt(&self, plaintext: &str, recipients: &[String]) -> (r: Result<String, Error>)
        ensures
            recipients_check(keys_view(recipients@)) is Err ==> text_result(r) == Err::<
                Seq<char>,
                Fault,
            >(recipients_check(keys_view(recipients@))->Err_0),
            recipients_check(keys_view(recipients@)) is Ok && recipients@.len() == 0 ==> (r matches Err(
                e,
            ) && e@ is EncryptionFailed),
            recipients_check(keys_view(recipients@)) is Ok && recipients@.len() > 0 ==> (r matches Ok(
                ct,
            ) && has_prefix(ct@, armor_header()) && ct@.len() > plaintext@.len() && opens_to(
                ct@,
                plaintext@,
                keys_view(recipients@),
            ) && closed_to_others(ct@, keys_view(recipients@))),
    {
        match check_recipients(recipients) {
            Err(e) => Err(e),
            Ok(()) => match encrypt_armored(plaintext, recipients) {
                Ok(ct) => Ok(ct),
                Err(m) => Err(Error::Cipher(CipherError::EncryptionFailed(m))),
            },
        }
    }

    /// Decrypts armored age text with the identity.
    fn decrypt(&self, encrypted: &str, identity: &Identity) -> (r: Result<String, Error>)
        ensures
            text_result(r) == age_decrypt_result(encrypted@, identity@.secret),
            not_age_text(encrypted@) ==> r is Err,
    {
        identity.decrypt_age(encrypted)
    }
}

} // verus!
