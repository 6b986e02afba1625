//! The vault: the configuration, the identity that opens it, and every
//! secret and team operation on them. Reading and writing the vault file is
//! left to the caller, which saves the configuration after each change.
use vstd::prelude::*;

use crate::cipher::age::{
    age_decrypt_result, age_identity_public, age_recipient_valid, closed_to_others, keys_view,
    lemma_recipients_check_all, no_weak_keys, opens_to, text_result, weak_recipient,
};
use crate::cipher::backend::{
    backend_decrypted, backend_for, config_cipher, config_kms_key, encrypted_err, encrypted_ok,
    keys_encryptable, kms_fallback_missing, BackendView, CipherBackend,
};
use crate::config::{config_check, Config, ConfigView, KmsConfig, CONFIG_VERSION};
use crate::domain::identity::{Identity, IdentityView};
use crate::domain::recipient::Recipient;
use crate::domain::secret::Secret;
use crate::error::{ConfigError, Error, Fault, SecretError};
use crate::fingerprint::{fingerprint, fingerprint_of, is_sorting_of};
use crate::strmap::{
    has_key, index_of_key, key_in_prefix, lemma_pairs_map_at, lemma_prefix_full, lemma_prefix_step,
    pairs_map, pairs_view, sorted_keys, strings_view, StrMap,
};
use crate::validation::{
    key_check, member_check, validate_key, validate_member_name, validate_value, value_check,
};
use crate::cipher::age::{parse_recipient, recipient_check};
use crate::domain::sync::SyncResult;
use crate::domain::env::Env;
use crate::domain::diff::{is_diff_of, Diff};
use crate::strmap::collect_map;

verus! {

/// The primary interface for all dugout operations.
pub struct Vault {
    config: Config,
    project_id: String,
    identity: Identity,
    backend: CipherBackend,
    vault_name: Option<String>,
}

/// What a vault is.
pub struct VaultView {
    pub config: ConfigView,
    pub project_id: Seq<char>,
    pub identity: IdentityView,
    pub backend: BackendView,
    pub vault_name: Option<Seq<char>>,
}

impl View for Vault {
    type V = VaultView;

    closed spec fn view(&self) -> VaultView {
        VaultView {
            config: self.config@,
            project_id: self.project_id@,
            identity: self.identity@,
            backend: self.backend@,
            vault_name: match self.vault_name {
                Some(n) => Some(n@),
                None => None,
            },
        }
    }
}

/// The second components of a sequence of pairs.
pub open spec fn values_of(ps: Seq<(Seq<char>, Seq<char>)>) -> Seq<Seq<char>> {
    ps.map_values(|p: (Seq<char>, Seq<char>)| p.1)
}

/// The first components of a sequence of pairs.
pub open spec fn keys_of(ps: Seq<(Seq<char>, Seq<char>)>) -> Seq<Seq<char>> {
    ps.map_values(|p: (Seq<char>, Seq<char>)| p.0)
}

/// The secrets of a vault, as a map from key to ciphertext.
pub open spec fn secret_map(v: VaultView) -> Map<Seq<char>, Seq<char>> {
    pairs_map(v.config.secrets)
}

/// The recipients of a vault, as a map from name to public key.
pub open spec fn recipient_map(v: VaultView) -> Map<Seq<char>, Seq<char>> {
    pairs_map(v.config.recipients)
}

/// The public keys secrets are encrypted for, in recipient-name order.
pub open spec fn recipient_keys(v: VaultView) -> Seq<Seq<char>> {
    values_of(v.config.recipients)
}

/// `h` is the fingerprint of `keys`: the hash of their sorted order.
pub open spec fn is_fingerprint(h: Seq<char>, keys: Seq<Seq<char>>) -> bool {
    exists|s: Seq<Seq<char>>| is_sorting_of(s, keys) && h == fingerprint_of(s)
}

/// Whether an identity's public key is among `keys`.
pub open spec fn identity_among(secret: Seq<char>, keys: Seq<Seq<char>>) -> bool {
    age_identity_public(secret) matches Ok(pk) && keys.contains(pk)
}

/// Whether the vault's own identity is one of its recipients.
pub open spec fn has_access(v: VaultView) -> bool {
    identity_among(v.identity.secret, recipient_keys(v))
}

/// `w` is `v` with possibly other secrets and recipient hash.
pub open spec fn same_but_secrets_and_hash(v: VaultView, w: VaultView) -> bool {
    &&& w.project_id == v.project_id
    &&& w.identity == v.identity
    &&& w.backend == v.backend
    &&& w.vault_name == v.vault_name
    &&& w.config.version == v.config.version
    &&& w.config.cipher == v.config.cipher
    &&& w.config.kms == v.config.kms
    &&& w.config.recipients == v.config.recipients
}

/// `w` is `v` with possibly other secrets.
pub open spec fn same_but_secrets(v: VaultView, w: VaultView) -> bool {
    same_but_secrets_and_hash(v, w) && w.config.recipients_hash == v.config.recipients_hash
}

/// `w`'s recipient hash is the fingerprint of its recipients' keys.
pub open spec fn hash_current(w: VaultView) -> bool {
    w.config.recipients_hash matches Some(h) && is_fingerprint(h, recipient_keys(w))
}

/// The checks before a secret is set: a valid key, a non-empty value, no
/// secret of that key unless forced, at least one recipient.
pub open spec fn set_check(v: VaultView, key: Seq<char>, value: Seq<char>, force: bool) -> Result<
    (),
    Fault,
> {
    if key_check(key) is Err {
        key_check(key)
    } else if value_check(key, value) is Err {
        value_check(key, value)
    } else if secret_map(v).contains_key(key) && !force {
        Err(Fault::AlreadyExists(key))
    } else if v.config.recipients.len() == 0 {
        Err(Fault::NoRecipients)
    } else {
        Ok(())
    }
}

/// What reading a secret gives: its decryption, or `NotFound`.
pub open spec fn get_outcome(v: VaultView, key: Seq<char>) -> Result<Seq<char>, Fault> {
    if secret_map(v).contains_key(key) {
        backend_decrypted(v.backend, secret_map(v)[key], v.identity.secret)
    } else {
        Err(Fault::NotFound(key))
    }
}

/// Whether decrypting `ct` with the vault's identity stays within what the
/// backend can do.
pub open spec fn decryptable(v: VaultView, ct: Seq<char>) -> bool {
    !kms_fallback_missing(v.backend, ct, v.identity.secret)
}

/// Whether reading the secret `key` stays within what the backend can do.
pub open spec fn get_defined(v: VaultView, key: Seq<char>) -> bool {
    secret_map(v).contains_key(key) ==> decryptable(v, secret_map(v)[key])
}

/// Whether each of the ciphertexts in `ps` can be decrypted with `secret`
/// within what backend `b` can do.
pub open spec fn secrets_decryptable(
    b: BackendView,
    secret: Seq<char>,
    ps: Seq<(Seq<char>, Seq<char>)>,
) -> bool {
    forall|i: int| 0 <= i < ps.len() ==> !#[trigger] kms_fallback_missing(b, ps[i].1, secret)
}

/// Whether every secret can be decrypted within what the backend can do.
pub open spec fn all_decryptable(v: VaultView) -> bool {
    secrets_decryptable(v.backend, v.identity.secret, v.config.secrets)
}

/// The views of a sequence of secrets.
pub open spec fn secrets_view(s: Seq<Secret>) -> Seq<(Seq<char>, Seq<char>)> {
    s.map_values(|x: Secret| x@)
}

/// Decrypting the given secrets in order: their keys with plaintexts, or
/// the first error.
pub open spec fn decrypt_each(
    b: BackendView,
    secret: Seq<char>,
    ps: Seq<(Seq<char>, Seq<char>)>,
) -> Result<Seq<(Seq<char>, Seq<char>)>, Fault>
    decreases ps.len(),
{
    if ps.len() == 0 {
        Ok(Seq::empty())
    } else {
        match decrypt_each(b, secret, ps.drop_last()) {
            Err(f) => Err(f),
            Ok(done) => match backend_decrypted(b, ps.last().1, secret) {
                Ok(p) => Ok(done.push((ps.last().0, p))),
                Err(f) => Err(f),
            },
        }
    }
}

/// What decrypting all of a vault's secrets gives.
pub open spec fn decrypt_all_outcome(v: VaultView) -> Result<Seq<(Seq<char>, Seq<char>)>, Fault> {
    decrypt_each(v.backend, v.identity.secret, v.config.secrets)
}

/// The view of a decrypted list.
pub open spec fn pairs_result(r: Result<Vec<(String, String)>, Error>) -> Result<
    Seq<(Seq<char>, Seq<char>)>,
    Fault,
> {
    match r {
        Ok(v) => Ok(pairs_view(v@)),
        Err(e) => Err(e@),
    }
}

/// Whether every secret of `v` decrypts.
pub open spec fn all_decrypt(v: VaultView) -> bool {
    forall|i: int|
        0 <= i < v.config.secrets.len() ==> #[trigger] backend_decrypted(
            v.backend,
            v.config.secrets[i].1,
            v.identity.secret,
        ) is Ok
}

/// Whether re-encrypting `v`'s secrets for `keys` can succeed: every secret
/// decrypts, and if there are any, the backend encrypts for `keys`.
pub open spec fn reencrypt_succeeds_for(v: VaultView, keys: Seq<Seq<char>>) -> bool {
    all_decrypt(v) && (v.config.secrets.len() == 0 || (v.backend is Age
        && !crate::cipher::backend::age_part_fails(keys)))
}

/// Whether re-encrypting `v`'s secrets for its recipients can succeed.
pub open spec fn reencrypt_succeeds(v: VaultView) -> bool {
    reencrypt_succeeds_for(v, recipient_keys(v))
}

/// `w`'s secrets are `v`'s re-encrypted for `w`'s recipients: the same
/// keys, each ciphertext freshly encrypted from the plaintext `v`'s
/// identity read, and the recipient hash refreshed.
pub open spec fn secrets_reencrypted(v: VaultView, w: VaultView) -> bool {
    &&& hash_current(w)
    &&& secret_map(w).dom() == secret_map(v).dom()
    &&& forall|k: Seq<char>|
        #[trigger] secret_map(w).contains_key(k) ==> (backend_decrypted(
            v.backend,
            secret_map(v)[k],
            v.identity.secret,
        ) matches Ok(p) && encrypted_ok(v.backend, secret_map(w)[k], p, recipient_keys(w)))
}

/// `w` is `v` with every secret re-encrypted for the same recipients.
pub open spec fn reencrypted(v: VaultView, w: VaultView) -> bool {
    same_but_secrets_and_hash(v, w) && secrets_reencrypted(v, w)
}

/// Whether `f` is an error that re-encrypting `v`'s secrets for `keys` may
/// give: the first secret that does not decrypt, or the backend's
/// encryption error.
pub open spec fn reencrypt_error_for(v: VaultView, f: Fault, keys: Seq<Seq<char>>) -> bool {
    (exists|i: int|
        0 <= i < v.config.secrets.len() && #[trigger] backend_decrypted(
            v.backend,
            v.config.secrets[i].1,
            v.identity.secret,
        ) == Err::<Seq<char>, Fault>(f) && forall|j: int|
            0 <= j < i ==> #[trigger] backend_decrypted(
                v.backend,
                v.config.secrets[j].1,
                v.identity.secret,
            ) is Ok) || encrypted_err(v.backend, f, keys)
}

/// Whether `f` is an error that re-encrypting `v` may give.
pub open spec fn reencrypt_error(v: VaultView, f: Fault) -> bool {
    reencrypt_error_for(v, f, recipient_keys(v))
}

/// `w` is `v` with possibly other recipients, secrets and hash.
pub open spec fn same_core(v: VaultView, w: VaultView) -> bool {
    &&& w.project_id == v.project_id
    &&& w.identity == v.identity
    &&& w.backend == v.backend
    &&& w.vault_name == v.vault_name
    &&& w.config.version == v.config.version
    &&& w.config.cipher == v.config.cipher
    &&& w.config.kms == v.config.kms
}

/// What a team change from `v` to `w` does to the secrets: nothing without
/// secrets; otherwise they are re-encrypted for `w`'s recipients, and on a
/// failure they stay as they were.
pub open spec fn team_reencrypt(v: VaultView, w: VaultView, r: Result<(), Error>) -> bool {
    if v.config.secrets.len() == 0 {
        r is Ok && w.config.secrets == v.config.secrets && w.config.recipients_hash
            == v.config.recipients_hash
    } else {
        &&& (r is Ok <==> reencrypt_succeeds_for(v, recipient_keys(w)))
        &&& (r is Ok ==> secrets_reencrypted(v, w))
        &&& (r matches Err(e) ==> reencrypt_error_for(v, e@, recipient_keys(w))
            && w.config.secrets == v.config.secrets && w.config.recipients_hash
            == v.config.recipients_hash)
    }
}

/// Whether the secrets need re-encrypting: there are some, and the stored
/// recipient hash is missing or not the fingerprint of the recipients.
pub open spec fn needs_sync_spec(v: VaultView) -> bool {
    v.config.secrets.len() > 0 && match v.config.recipients_hash {
        Some(h) => !is_fingerprint(h, recipient_keys(v)),
        None => true,
    }
}

/// The recipients with a valid key, in name order.
pub open spec fn valid_recipients(ps: Seq<(Seq<char>, Seq<char>)>) -> Seq<(Seq<char>, Seq<char>)> {
    ps.filter(key_is_valid())
}

/// The test for a recipient whose key is valid.
pub open spec fn key_is_valid() -> spec_fn((Seq<char>, Seq<char>)) -> bool {
    |p: (Seq<char>, Seq<char>)| crate::cipher::age::age_recipient_valid(p.1)
}

/// The views of a sequence of recipients.
pub open spec fn recipients_view(s: Seq<Recipient>) -> Seq<(Seq<char>, Seq<char>)> {
    s.map_values(|x: Recipient| x@)
}

/// The checks before one `.env` entry is imported: a valid key, a
/// non-empty value, at least one recipient.
pub open spec fn import_check(v: VaultView, key: Seq<char>, value: Seq<char>) -> Result<(), Fault> {
    if key_check(key) is Err {
        key_check(key)
    } else if value_check(key, value) is Err {
        value_check(key, value)
    } else if v.config.recipients.len() == 0 {
        Err(Fault::NoRecipients)
    } else {
        Ok(())
    }
}

/// The secrets after storing ciphertext `cts[i]` for the key of each entry
/// `es[i]` in order, a later entry overriding an earlier one.
pub open spec fn import_map(
    m: Map<Seq<char>, Seq<char>>,
    es: Seq<(Seq<char>, Seq<char>)>,
    cts: Seq<Seq<char>>,
) -> Map<Seq<char>, Seq<char>>
    decreases es.len(),
{
    if es.len() == 0 {
        m
    } else {
        import_map(m, es.drop_last(), cts.drop_last()).insert(es.last().0, cts.last())
    }
}

/// `cts` are ciphertexts the backend may make for the values of `es`, each
/// entry having passed its checks.
pub open spec fn imports_ok(v: VaultView, es: Seq<(Seq<char>, Seq<char>)>, cts: Seq<Seq<char>>) -> bool {
    &&& cts.len() == es.len()
    &&& forall|j: int|
        #![trigger cts[j]]
        #![trigger es[j]]
        0 <= j < es.len() ==> entry_passes(v, es[j]) && encrypted_ok(
            v.backend,
            cts[j],
            es[j].1,
            recipient_keys(v),
        )
}

/// Whether an entry passes the checks before it is imported.
pub open spec fn entry_passes(v: VaultView, e: (Seq<char>, Seq<char>)) -> bool {
    import_check(v, e.0, e.1) is Ok
}

/// Whether every public key of a map parses, none being weak: once every
/// key parses, encrypting for them does not panic.
pub open spec fn map_keys_usable(m: Map<Seq<char>, Seq<char>>) -> bool {
    (forall|k: Seq<char>| m.contains_key(k) ==> age_recipient_valid(#[trigger] m[k])) ==> (forall|
        k: Seq<char>,
    |
        m.contains_key(k) ==> !weak_recipient(#[trigger] m[k]))
}

/// Whether encrypting for the vault's recipients stays clear of the keys
/// that make age panic.
pub open spec fn keys_usable(v: VaultView) -> bool {
    keys_encryptable(recipient_keys(v))
}

/// Whether re-encrypting the vault encrypts anything: it has a secret, and
/// the first one decrypts.
pub open spec fn reencrypt_touches(v: VaultView) -> bool {
    v.config.secrets.len() > 0 && backend_decrypted(
        v.backend,
        v.config.secrets[0].1,
        v.identity.secret,
    ) is Ok
}

/// Whether re-encrypting the vault stays clear of the keys that make age
/// panic.
pub open spec fn reencrypt_safe(v: VaultView) -> bool {
    reencrypt_touches(v) ==> keys_usable(v)
}

/// For sorted pairs, the values are usable exactly when the map is.
proof fn lemma_usable_map(ps: Seq<(Seq<char>, Seq<char>)>)
    requires
        sorted_keys(ps),
    ensures
        keys_encryptable(values_of(ps)) == map_keys_usable(pairs_map(ps)),
{
    let vals = values_of(ps);
    let m = pairs_map(ps);
    lemma_recipients_check_all(vals);
    assert forall|i: int| 0 <= i < vals.len() implies m.contains_key(ps[i].0) && #[trigger] vals[i]
        == m[ps[i].0] by {
        lemma_pairs_map_at(ps, i);
    }
    assert forall|k: Seq<char>| m.contains_key(k) implies exists|j: int|
        0 <= j < vals.len() && #[trigger] vals[j] == m[k] by {
        let j = index_of_key(ps, k);
        assert(has_key(ps, k));
        assert(0 <= j < ps.len() && ps[j].0 == k);
        assert(vals[j] == m[k]);
    }
    let allv_s = forall|j: int| 0 <= j < vals.len() ==> age_recipient_valid(#[trigger] vals[j]);
    let allv_m = forall|k: Seq<char>| m.contains_key(k) ==> age_recipient_valid(#[trigger] m[k]);
    let now_s = forall|j: int| 0 <= j < vals.len() ==> !weak_recipient(#[trigger] vals[j]);
    let now_m = forall|k: Seq<char>| m.contains_key(k) ==> !weak_recipient(#[trigger] m[k]);
    if allv_s {
        assert forall|k: Seq<char>| m.contains_key(k) implies age_recipient_valid(#[trigger] m[k]) by {
            let j = choose|j: int| 0 <= j < vals.len() && #[trigger] vals[j] == m[k];
        }
    }
    if allv_m {
        assert forall|j: int| 0 <= j < vals.len() implies age_recipient_valid(#[trigger] vals[j]) by {
            assert(m.contains_key(ps[j].0));
        }
    }
    if now_s {
        assert forall|k: Seq<char>| m.contains_key(k) implies !weak_recipient(#[trigger] m[k]) by {
            let j = choose|j: int| 0 <= j < vals.len() && #[trigger] vals[j] == m[k];
        }
    }
    if now_m {
        assert forall|j: int| 0 <= j < vals.len() implies !weak_recipient(#[trigger] vals[j]) by {
            assert(m.contains_key(ps[j].0));
        }
    }
    assert(no_weak_keys(vals) == now_s);
}

/// The first identity, from position `i` on, whose public key is among `keys`.
pub open spec fn first_access_from(ids: Seq<IdentityView>, keys: Seq<Seq<char>>, i: int) -> Option<
    int,
>
    decreases ids.len() - i,
{
    if i < 0 || i >= ids.len() {
        None
    } else if identity_among(ids[i].secret, keys) {
        Some(i)
    } else {
        first_access_from(ids, keys, i + 1)
    }
}

/// The position found is within range and has access.
pub proof fn lemma_first_access_from(ids: Seq<IdentityView>, keys: Seq<Seq<char>>, j: int)
    ensures
        first_access_from(ids, keys, j) matches Some(i) ==> j <= i < ids.len() && identity_among(
            ids[i].secret,
            keys,
        ),
    decreases ids.len() - j,
{
    if 0 <= j < ids.len() && !identity_among(ids[j].secret, keys) {
        lemma_first_access_from(ids, keys, j + 1);
    }
}

/// The first identity whose public key is among `keys`.
pub open spec fn first_with_access(ids: Seq<IdentityView>, keys: Seq<Seq<char>>) -> Option<int> {
    first_access_from(ids, keys, 0)
}

/// The views of a sequence of identities.
pub open spec fn identities_view(ids: Seq<Identity>) -> Seq<IdentityView> {
    ids.map_values(|i: Identity| i@)
}

/// The view of an optional name.
pub open spec fn name_view(n: Option<&str>) -> Option<Seq<char>> {
    match n {
        Some(s) => Some(s@),
        None => None,
    }
}

/// Importing one more checked entry keeps the import record valid.
proof fn lemma_imports_ok_push(
    v: VaultView,
    es: Seq<(Seq<char>, Seq<char>)>,
    cts: Seq<Seq<char>>,
    e: (Seq<char>, Seq<char>),
    ct: Seq<char>,
)
    requires
        imports_ok(v, es, cts),
        entry_passes(v, e),
        encrypted_ok(v.backend, ct, e.1, recipient_keys(v)),
    ensures
        imports_ok(v, es.push(e), cts.push(ct)),
{
    let nes = es.push(e);
    let ncts = cts.push(ct);
    assert forall|j: int|
        #![trigger ncts[j]]
        #![trigger nes[j]]
        0 <= j < nes.len() implies entry_passes(v, nes[j]) && encrypted_ok(
            v.backend,
            ncts[j],
            nes[j].1,
            recipient_keys(v),
        ) by {
        if j < es.len() {
            assert(nes[j] == es[j]);
            assert(ncts[j] == cts[j]);
        }
    }
}

/// Zeroes the bytes of a string and empties it (`zeroize::Zeroize`).
#[verifier::external_body]
fn wipe(s: &mut String)
    ensures
        final(s)@ == Seq::<char>::empty(),
{
    zeroize::Zeroize::zeroize(s);
}

/// Once decrypting a prefix fails, decrypting any longer prefix fails the same way.
proof fn lemma_decrypt_each_err(
    b: BackendView,
    secret: Seq<char>,
    ps: Seq<(Seq<char>, Seq<char>)>,
    i: int,
    j: int,
    f: Fault,
)
    requires
        0 <= i <= j <= ps.len(),
        decrypt_each(b, secret, ps.take(i)) == Err::<Seq<(Seq<char>, Seq<char>)>, Fault>(f),
    ensures
        decrypt_each(b, secret, ps.take(j)) == Err::<Seq<(Seq<char>, Seq<char>)>, Fault>(f),
    decreases j - i,
{
    if j > i {
        lemma_decrypt_each_err(b, secret, ps, i, j - 1, f);
        assert(ps.take(j).drop_last() =~= ps.take(j - 1));
    }
}

/// Whether a file name is a vault file: `.dugout.toml` or `.dugout.<name>.toml`.
pub open spec fn is_vault_file(name: Seq<char>) -> bool {
    name == ".dugout.toml"@ || (crate::text::has_prefix(name, ".dugout."@) && crate::text::has_suffix(
        name,
        ".toml"@,
    ))
}

/// Whether a file name is a vault file.
pub fn is_vault_file_name(name: &str) -> (b: bool)
    ensures
        b == is_vault_file(name@),
{
    crate::text::str_eq(name, ".dugout.toml") || (crate::text::starts_with_str(name, ".dugout.")
        && crate::text::ends_with_str(name, ".toml"))
}

/// Whether `s` is one of `v`.
fn contains_string(v: &[String], s: &str) -> (b: bool)
    ensures
        b == strings_view(v@).contains(s@),
{
    let mut i: usize = 0;
    while i < v.len()
        invariant
            i <= v@.len(),
            forall|j: int| 0 <= j < i ==> strings_view(v@)[j] != s@,
        decreases v@.len() - i,
    {
        if crate::text::str_eq(v[i].as_str(), s) {
            assert(strings_view(v@)[i as int] == s@);
            return true;
        }
        i = i + 1;
    }
    false
}

/// The position of the first identity whose public key is among `keys`.
fn position_with_access(ids: &Vec<Identity>, keys: &Vec<String>) -> (r: Option<usize>)
    ensures
        match first_with_access(identities_view(ids@), strings_view(keys@)) {
            Some(i) => r == Some(i as usize),
            None => r is None,
        },
{
    let ghost iv = identities_view(ids@);
    let ghost ks = strings_view(keys@);
    let mut i: usize = 0;
    while i < ids.len()
        invariant
            i <= ids@.len(),
            iv == identities_view(ids@),
            ks == strings_view(keys@),
            first_with_access(iv, ks) == first_access_from(iv, ks, i as int),
        decreases ids@.len() - i,
    {
        let pk = ids[i].public_key();
        assert(iv[i as int] == ids@[i as int]@);
        if contains_string(keys.as_slice(), pk.as_str()) {
            return Some(i);
        }
        i = i + 1;
    }
    None
}

impl Vault {
    /// The configuration.
    pub fn config(&self) -> (c: &Config)
        ensures
            c@ == self@.config,
    {
        &self.config
    }

    /// The vault's identity.
    pub fn identity(&self) -> (i: &Identity)
        ensures
            i@ == self@.identity,
    {
        &self.identity
    }

    /// The project identifier.
    pub fn project_id(&self) -> (p: &str)
        ensures
            p@ == self@.project_id,
    {
        self.project_id.as_str()
    }

    /// The vault name (`None` is the default vault).
    pub fn vault_name(&self) -> (n: Option<&str>)
        ensures
            match (n, self@.vault_name) {
                (Some(a), Some(b)) => a@ == b,
                (None, None) => true,
                _ => false,
            },
    {
        match &self.vault_name {
            Some(n) => Some(n.as_str()),
            None => None,
        }
    }

    /// The recipients' public keys, in name order.
    fn recipient_key_list(&self) -> (r: Vec<String>)
        ensures
            strings_view(r@) == recipient_keys(self@),
    {
        let r = self.config.recipients.values();
        assert(self.config.recipients.value_seq() =~= values_of(self.config.recipients.pairs()));
        r
    }

    /// SHA-256 fingerprint of the current recipient set: the public keys
    /// sorted, joined with newlines, hashed. The order of the recipients
    /// does not matter.
    pub fn recipients_fingerprint(&self) -> (h: String)
        ensures
            is_fingerprint(h@, recipient_keys(self@)),
    {
        let keys = self.recipient_key_list();
        fingerprint(keys.as_slice())
    }

    /// Store the fingerprint of the current recipients.
    fn update_recipients_hash(&mut self)
        ensures
            same_but_secrets_and_hash(old(self)@, final(self)@),
            final(self)@.config.secrets == old(self)@.config.secrets,
            hash_current(final(self)@),
    {
        let h = self.recipients_fingerprint();
        self.config.dugout.recipients_hash = Some(h);
    }

    /// Set a secret, encrypting it for all recipients.
    ///
    /// Returns a `ValidationError` for an invalid key or an empty value,
    /// `SecretError::AlreadyExists` if the key exists and `force` is false,
    /// `ConfigError::NoRecipients` without recipients, or the backend's
    /// error; the vault is then unchanged.
    pub fn set(&mut self, key: &str, value: &str, force: bool) -> (r: Result<Secret, Error>)
        requires
            set_check(old(self)@, key@, value@, force) is Ok ==> keys_usable(old(self)@),
        ensures
            match set_check(old(self)@, key@, value@, force) {
                Err(f) => r matches Err(e) && e@ == f && final(self)@ == old(self)@,
                Ok(_) => match r {
                    Ok(s) => {
                        &&& s@.0 == key@
                        &&& encrypted_ok(
                            old(self)@.backend,
                            s@.1,
                            value@,
                            recipient_keys(old(self)@),
                        )
                        &&& same_but_secrets_and_hash(old(self)@, final(self)@)
                        &&& secret_map(final(self)@) == secret_map(old(self)@).insert(key@, s@.1)
                        &&& hash_current(final(self)@)
                    },
                    Err(e) => encrypted_err(old(self)@.backend, e@, recipient_keys(old(self)@))
                        && final(self)@ == old(self)@,
                },
            },
    {
        match validate_key(key) {
            Err(e) => return Err(e),
            Ok(()) => {},
        }
        match validate_value(key, value) {
            Err(e) => return Err(e),
            Ok(()) => {},
        }
        if self.config.secrets.contains_key(key) && !force {
            return Err(Error::Secret(SecretError::AlreadyExists(key.to_string())));
        }
        let recipients = self.recipient_key_list();
        if recipients.len() == 0 {
            return Err(Error::Config(ConfigError::NoRecipients));
        }
        assert(keys_view(recipients@) =~= strings_view(recipients@));
        let encrypted = match self.backend.encrypt(value, recipients.as_slice()) {
            Ok(ct) => ct,
            Err(e) => return Err(e),
        };
        self.config.secrets.insert(key.to_string(), encrypted.clone());
        self.update_recipients_hash();
        Ok(Secret::new(key.to_string(), encrypted))
    }

    /// Get a decrypted secret.
    ///
    /// Returns `SecretError::NotFound` if the key does not exist, or the
    /// backend's error if decryption fails.
    pub fn get(&self, key: &str) -> (r: Result<String, Error>)
        requires
            get_defined(self@, key@),
        ensures
            text_result(r) == get_outcome(self@, key@),
    {
        match self.config.secrets.get(key) {
            None => Err(Error::Secret(SecretError::NotFound(key.to_string()))),
            Some(ct) => self.backend.decrypt(ct.as_str(), &self.identity),
        }
    }

    /// Get a decrypted secret as `get` does, or `None` where decrypting it
    /// would need a KMS the backend does not have.
    pub fn try_get(&self, key: &str) -> (r: Option<Result<String, Error>>)
        ensures
            r is None <==> !get_defined(self@, key@),
            r matches Some(g) ==> text_result(g) == get_outcome(self@, key@),
    {
        match self.config.secrets.get(key) {
            None => Some(self.get(key)),
            Some(ct) => {
                if self.backend.would_fall_back(ct.as_str(), &self.identity) {
                    None
                } else {
                    Some(self.get(key))
                }
            },
        }
    }

    /// Remove a secret.
    ///
    /// Returns `SecretError::NotFound` if the key does not exist; the vault
    /// is then unchanged.
    pub fn remove(&mut self, key: &str) -> (r: Result<(), Error>)
        ensures
            secret_map(old(self)@).contains_key(key@) ==> (r is Ok && same_but_secrets(
                old(self)@,
                final(self)@,
            ) && secret_map(final(self)@) == secret_map(old(self)@).remove(key@)),
            !secret_map(old(self)@).contains_key(key@) ==> (r matches Err(e) && e@ == Fault::NotFound(
                key@,
            ) && final(self)@ == old(self)@),
    {
        match self.config.secrets.remove(key) {
            Some(_) => Ok(()),
            None => Err(Error::Secret(SecretError::NotFound(key.to_string()))),
        }
    }

    /// All secrets, in key order.
    pub fn list(&self) -> (r: Vec<Secret>)
        ensures
            secrets_view(r@) == self@.config.secrets,
    {
        let n = self.config.secrets.len();
        let ghost ps = self.config.secrets.pairs();
        let mut r: Vec<Secret> = Vec::new();
        let mut i: usize = 0;
        while i < n
            invariant
                n == ps.len(),
                ps == self.config.secrets.pairs(),
                i <= n,
                secrets_view(r@) == ps.take(i as int),
            decreases n - i,
        {
            let (k, v) = self.config.secrets.entry_at(i);
            let ghost before = r@;
            r.push(Secret::new(k.clone(), v.clone()));
            assert(secrets_view(r@) =~= secrets_view(before).push(ps[i as int]));
            assert(ps.take(i + 1) =~= ps.take(i as int).push(ps[i as int]));
            i = i + 1;
        }
        assert(ps.take(n as int) =~= ps);
        r
    }

    /// Decrypt all secrets, in key order.
    ///
    /// Returns the first decryption error.
    pub fn decrypt_all(&self) -> (r: Result<Vec<(String, String)>, Error>)
        requires
            all_decryptable(self@),
        ensures
            pairs_result(r) == decrypt_all_outcome(self@),
    {
        let n = self.config.secrets.len();
        let ghost ps = self.config.secrets.pairs();
        let ghost b = self.backend@;
        let ghost sk = self.identity@.secret;
        let mut out: Vec<(String, String)> = Vec::new();
        let mut i: usize = 0;
        assert(ps.take(0) =~= Seq::<(Seq<char>, Seq<char>)>::empty());
        assert(pairs_view(out@) =~= Seq::<(Seq<char>, Seq<char>)>::empty());
        while i < n
            invariant
                n == ps.len(),
                ps == self.config.secrets.pairs(),
                ps == self@.config.secrets,
                b == self@.backend,
                sk == self@.identity.secret,
                all_decryptable(self@),
                i <= n,
                decrypt_each(b, sk, ps.take(i as int)) == Ok::<
                    Seq<(Seq<char>, Seq<char>)>,
                    Fault,
                >(pairs_view(out@)),
            decreases n - i,
        {
            let (k, ct) = self.config.secrets.entry_at(i);
            assert(ps.take(i + 1).drop_last() =~= ps.take(i as int));
            assert(ps.take(i + 1).last() == ps[i as int]);
            assert(!kms_fallback_missing(b, ps[i as int].1, sk));
            match self.backend.decrypt(ct.as_str(), &self.identity) {
                Ok(p) => {
                    let ghost before = out@;
                    out.push((k.clone(), p));
                    assert(pairs_view(out@) =~= pairs_view(before).push(pairs_view(out@).last()));
                },
                Err(e) => {
                    proof {
                        lemma_decrypt_each_err(b, sk, ps, i + 1, n as int, e@);
                        assert(ps.take(n as int) =~= ps);
                    }
                    return Err(e);
                },
            }
            i = i + 1;
        }
        assert(ps.take(n as int) =~= ps);
        Ok(out)
    }

    /// Re-encrypt all secrets for the current recipients.
    ///
    /// Each secret is decrypted with the vault's identity and encrypted
    /// afresh; the plaintext is wiped once encrypted. On any error the
    /// vault is unchanged.
    pub fn reencrypt_all(&mut self) -> (r: Result<(), Error>)
        requires
            all_decryptable(old(self)@),
            reencrypt_safe(old(self)@),
        ensures
            r is Ok <==> reencrypt_succeeds(old(self)@),
            r is Ok ==> reencrypted(old(self)@, final(self)@),
            r matches Err(e) ==> reencrypt_error(old(self)@, e@) && final(self)@ == old(self)@,
    {
        let recipients = self.recipient_key_list();
        let n = self.config.secrets.len();
        let ghost ps = self.config.secrets.pairs();
        let ghost b = self.backend@;
        let ghost sk = self.identity@.secret;
        let ghost keys = recipient_keys(self@);
        let ghost v0 = self@;
        let mut updated = StrMap::new();
        let mut i: usize = 0;
        while i < n
            invariant
                n == ps.len(),
                ps == self.config.secrets.pairs(),
                self@ == v0,
                ps == v0.config.secrets,
                b == v0.backend,
                sk == v0.identity.secret,
                keys == recipient_keys(v0),
                strings_view(recipients@) == keys,
                crate::strmap::sorted_keys(ps),
                all_decryptable(v0),
                reencrypt_safe(v0),
                i <= n,
                forall|j: int| 0 <= j < i ==> #[trigger] backend_decrypted(b, ps[j].1, sk) is Ok,
                i > 0 ==> (b is Age && !crate::cipher::backend::age_part_fails(keys)),
                forall|k: Seq<char>| #[trigger]
                    updated@.contains_key(k) <==> key_in_prefix(ps, i as int, k),
                forall|k: Seq<char>| #[trigger]
                    updated@.contains_key(k) ==> (backend_decrypted(b, pairs_map(ps)[k], sk) matches Ok(
                        p,
                    ) && encrypted_ok(b, updated@[k], p, keys)),
            decreases n - i,
        {
            let (k, ct) = self.config.secrets.entry_at(i);
            assert(!kms_fallback_missing(b, ps[i as int].1, sk));
            let mut plaintext = match self.backend.decrypt(ct.as_str(), &self.identity) {
                Ok(p) => p,
                Err(e) => {
                    assert(backend_decrypted(b, ps[i as int].1, sk) == Err::<Seq<char>, Fault>(e@));
                    return Err(e);
                },
            };
            let ghost pt = plaintext@;
            assert(backend_decrypted(b, ps[0].1, sk) is Ok);
            assert(keys_view(recipients@) =~= strings_view(recipients@));
            let enc = self.backend.encrypt(plaintext.as_str(), recipients.as_slice());
            wipe(&mut plaintext);
            match enc {
                Ok(ct2) => {
                    proof {
                        lemma_pairs_map_at(ps, i as int);
                        assert forall|q: Seq<char>|
                            key_in_prefix(ps, i + 1, q) <==> (key_in_prefix(ps, i as int, q) || ps[i as int].0
                                == q) by {
                            lemma_prefix_step(ps, i as int, q);
                        }
                    }
                    updated.insert(k.clone(), ct2);
                },
                Err(e) => {
                    return Err(e);
                },
            }
            i = i + 1;
        }
        let ghost um = updated@;
        self.config.secrets = updated;
        assert(secret_map(self@) == um);
        self.update_recipients_hash();
        proof {
            let w = self@;
            assert(secret_map(w) == um);
            assert forall|q: Seq<char>| secret_map(w).contains_key(q) <==> secret_map(v0).contains_key(q) by {
                lemma_prefix_full(ps, q);
                assert(um.contains_key(q) <==> key_in_prefix(ps, n as int, q));
            }
            assert(secret_map(w).dom() =~= secret_map(v0).dom());
        }
        Ok(())
    }

    /// Add a team member and re-encrypt all secrets for the new team.
    ///
    /// Returns a `ValidationError` for an unacceptable name or
    /// `CipherError::InvalidPublicKey` for an invalid key, with the vault
    /// unchanged; the member stays added if re-encryption then fails.
    pub fn add_recipient(&mut self, name: &str, key: &str) -> (r: Result<(), Error>)
        requires
            all_decryptable(old(self)@),
            member_check(name@) is Ok && recipient_check(key@) is Ok && reencrypt_touches(old(self)@)
                ==> map_keys_usable(recipient_map(old(self)@).insert(name@, key@)),
        ensures
            match member_check(name@) {
                Err(f) => r matches Err(e) && e@ == f && final(self)@ == old(self)@,
                Ok(_) => match recipient_check(key@) {
                    Err(f) => r matches Err(e) && e@ == f && final(self)@ == old(self)@,
                    Ok(_) => {
                        &&& same_core(old(self)@, final(self)@)
                        &&& recipient_map(final(self)@) == recipient_map(old(self)@).insert(
                            name@,
                            key@,
                        )
                        &&& team_reencrypt(old(self)@, final(self)@, r)
                    },
                },
            },
    {
        match validate_member_name(name) {
            Err(e) => return Err(e),
            Ok(()) => {},
        }
        match parse_recipient(key) {
            Err(e) => return Err(e),
            Ok(()) => {},
        }
        self.config.recipients.insert(name.to_string(), key.to_string());
        proof {
            lemma_usable_map(self.config.recipients.pairs());
        }
        self.reencrypt_if_any()
    }

    /// Re-encrypt after a team change, when there are secrets.
    fn reencrypt_if_any(&mut self) -> (r: Result<(), Error>)
        requires
            all_decryptable(old(self)@),
            reencrypt_safe(old(self)@),
        ensures
            same_core(old(self)@, final(self)@),
            final(self)@.config.recipients == old(self)@.config.recipients,
            team_reencrypt(old(self)@, final(self)@, r),
    {
        if !self.config.secrets.is_empty() {
            self.reencrypt_all()
        } else {
            Ok(())
        }
    }

    /// Remove a team member and re-encrypt all secrets without them.
    ///
    /// Returns `ConfigError::RecipientNotFound` if there is no such member,
    /// with the vault unchanged.
    pub fn remove_recipient(&mut self, name: &str) -> (r: Result<(), Error>)
        requires
            all_decryptable(old(self)@),
            recipient_map(old(self)@).contains_key(name@) && reencrypt_touches(old(self)@)
                ==> map_keys_usable(recipient_map(old(self)@).remove(name@)),
        ensures
            recipient_map(old(self)@).contains_key(name@) ==> {
                &&& same_core(old(self)@, final(self)@)
                &&& recipient_map(final(self)@) == recipient_map(old(self)@).remove(name@)
                &&& team_reencrypt(old(self)@, final(self)@, r)
            },
            !recipient_map(old(self)@).contains_key(name@) ==> (r matches Err(e) && e@
                == Fault::RecipientNotFound(name@) && final(self)@ == old(self)@),
    {
        match self.config.recipients.remove(name) {
            None => Err(Error::Config(ConfigError::RecipientNotFound(name.to_string()))),
            Some(_) => {
                proof {
                    lemma_usable_map(self.config.recipients.pairs());
                }
                self.reencrypt_if_any()
            },
        }
    }

    /// All team members with a valid public key, in name order.
    pub fn recipients(&self) -> (r: Vec<Recipient>)
        ensures
            recipients_view(r@) == valid_recipients(self@.config.recipients),
    {
        let n = self.config.recipients.len();
        let ghost ps = self.config.recipients.pairs();
        let mut r: Vec<Recipient> = Vec::new();
        let mut i: usize = 0;
        while i < n
            invariant
                n == ps.len(),
                ps == self.config.recipients.pairs(),
                i <= n,
                recipients_view(r@) == valid_recipients(ps.take(i as int)),
            decreases n - i,
        {
            let (name, key) = self.config.recipients.entry_at(i);
            proof {
                assert(ps.take(i + 1) =~= ps.take(i as int).push(ps[i as int]));
                ps.take(i as int).lemma_filter_push(ps[i as int], key_is_valid());
            }
            match Recipient::new(name.clone(), key.clone()) {
                Ok(x) => {
                    let ghost before = r@;
                    r.push(x);
                    assert(recipients_view(r@) =~= recipients_view(before).push(x@));
                },
                Err(_) => {},
            }
            i = i + 1;
        }
        assert(ps.take(n as int) =~= ps);
        r
    }

    /// Whether secrets need re-encrypting for the current recipients: false
    /// without secrets; true when the stored hash is missing or differs from
    /// the current fingerprint.
    pub fn needs_sync(&self) -> (b: bool)
        ensures
            b == needs_sync_spec(self@),
    {
        if self.config.secrets.is_empty() {
            return false;
        }
        match &self.config.dugout.recipients_hash {
            Some(stored) => {
                let current = self.recipients_fingerprint();
                let same = crate::text::str_eq(stored.as_str(), current.as_str());
                proof {
                    let keys = recipient_keys(self@);
                    if is_fingerprint(stored@, keys) {
                        let s1 = choose|s: Seq<Seq<char>>|
                            is_sorting_of(s, keys) && current@ == fingerprint_of(s);
                        let s2 = choose|s: Seq<Seq<char>>|
                            is_sorting_of(s, keys) && stored@ == fingerprint_of(s);
                        crate::fingerprint::lemma_sorted_unique(s1, s2);
                    }
                }
                !same
            },
            None => true,
        }
    }

    /// Re-encrypt for the current recipients if the fingerprint has changed
    /// or `force` is set, then store the fingerprint. The counts are those
    /// before the sync.
    pub fn sync(&mut self, force: bool) -> (r: Result<SyncResult, Error>)
        requires
            all_decryptable(old(self)@),
            force || needs_sync_spec(old(self)@) ==> reencrypt_safe(old(self)@),
        ensures
            match r {
                Ok(res) => res.secrets == old(self)@.config.secrets.len() && res.recipients
                    == old(self)@.config.recipients.len(),
                Err(_) => true,
            },
            !(force || needs_sync_spec(old(self)@)) ==> (r matches Ok(res) && !res.was_needed
                && final(self)@ == old(self)@),
            r is Ok ==> all_decryptable(final(self)@) && !needs_sync_spec(final(self)@),
            (force || needs_sync_spec(old(self)@)) ==> {
                &&& (r is Ok <==> reencrypt_succeeds(old(self)@))
                &&& (r matches Ok(res) ==> res.was_needed && same_but_secrets_and_hash(
                    old(self)@,
                    final(self)@,
                ) && hash_current(final(self)@) && (old(self)@.config.secrets.len() > 0
                    ==> secrets_reencrypted(old(self)@, final(self)@))
                    && (old(self)@.config.secrets.len() == 0 ==> final(self)@.config.secrets
                    == old(self)@.config.secrets))
                &&& (r matches Err(e) ==> reencrypt_error(old(self)@, e@) && final(self)@ == old(
                    self,
                )@)
            },
    {
        let secrets = self.config.secrets.len();
        let recipients = self.config.recipients.len();
        let needed = force || self.needs_sync();
        if !needed {
            return Ok(SyncResult { secrets, recipients, was_needed: false });
        }
        let ghost v0 = self@;
        if secrets > 0 {
            match self.reencrypt_all() {
                Ok(()) => {},
                Err(e) => return Err(e),
            }
        }
        self.update_recipients_hash();
        let _ = self.config.secrets.is_empty();
        proof {
            if secrets > 0 {
                lemma_reencrypted_decryptable(v0, self@);
            }
        }
        Ok(SyncResult { secrets, recipients, was_needed: true })
    }

    /// Whether encrypting for the vault's recipients stays clear of the keys
    /// that make age panic.
    pub fn keys_usable_now(&self) -> (b: bool)
        ensures
            b == keys_usable(self@),
    {
        let keys = self.recipient_key_list();
        assert(keys_view(keys@) =~= strings_view(keys@));
        usable_keys(keys.as_slice())
    }

    /// Whether the recipients, once `name` has the key `key` (or, without a
    /// key, once `name` has left), stay clear of the keys that make age panic.
    pub fn team_usable(&self, name: &str, key: Option<&str>) -> (b: bool)
        ensures
            b == map_keys_usable(
                match key {
                    Some(k) => recipient_map(self@).insert(name@, k@),
                    None => recipient_map(self@).remove(name@),
                },
            ),
    {
        let mut m = self.config.recipients.duplicate();
        match key {
            Some(k) => {
                m.insert(name.to_string(), k.to_string());
            },
            None => {
                m.remove(name);
            },
        }
        let vals = m.values();
        proof {
            lemma_usable_map(m.pairs());
            assert(m.value_seq() =~= values_of(m.pairs()));
            assert(keys_view(vals@) =~= strings_view(vals@));
        }
        usable_keys(vals.as_slice())
    }

    /// Set a secret as `set` does, or `None` (vault unchanged) where a
    /// recipient key would make encryption panic.
    pub fn try_set(&mut self, key: &str, value: &str, force: bool) -> (r: Option<Result<Secret, Error>>)
        ensures
            r is None <==> !keys_usable(old(self)@),
            r is None ==> final(self)@ == old(self)@,
            r matches Some(x) ==> match set_check(old(self)@, key@, value@, force) {
                Err(f) => x matches Err(e) && e@ == f && final(self)@ == old(self)@,
                Ok(_) => match x {
                    Ok(s) => {
                        &&& s@.0 == key@
                        &&& encrypted_ok(
                            old(self)@.backend,
                            s@.1,
                            value@,
                            recipient_keys(old(self)@),
                        )
                        &&& same_but_secrets_and_hash(old(self)@, final(self)@)
                        &&& secret_map(final(self)@) == secret_map(old(self)@).insert(key@, s@.1)
                        &&& hash_current(final(self)@)
                    },
                    Err(e) => encrypted_err(old(self)@.backend, e@, recipient_keys(old(self)@))
                        && final(self)@ == old(self)@,
                },
            },
    {
        if self.keys_usable_now() {
            Some(self.set(key, value, force))
        } else {
            None
        }
    }

    /// Whether every secret can be decrypted within what the backend can do.
    pub fn can_decrypt_all(&self) -> (b: bool)
        ensures
            b == all_decryptable(self@),
    {
        let n = self.config.secrets.len();
        let ghost ps = self.config.secrets.pairs();
        let mut i: usize = 0;
        while i < n
            invariant
                n == ps.len(),
                ps == self@.config.secrets,
                ps == self.config.secrets.pairs(),
                i <= n,
                forall|j: int|
                    0 <= j < i ==> !#[trigger] kms_fallback_missing(
                        self@.backend,
                        ps[j].1,
                        self@.identity.secret,
                    ),
            decreases n - i,
        {
            let (_, ct) = self.config.secrets.entry_at(i);
            if self.backend.would_fall_back(ct.as_str(), &self.identity) {
                return false;
            }
            i = i + 1;
        }
        true
    }

    /// Decrypt all secrets as `decrypt_all` does, or `None` where one would
    /// need a KMS the backend does not have.
    pub fn try_decrypt_all(&self) -> (r: Option<Result<Vec<(String, String)>, Error>>)
        ensures
            r is None <==> !all_decryptable(self@),
            r matches Some(d) ==> pairs_result(d) == decrypt_all_outcome(self@),
    {
        if self.can_decrypt_all() {
            Some(self.decrypt_all())
        } else {
            None
        }
    }

    /// Re-encrypt as `reencrypt_all` does, or `None` (vault unchanged) where
    /// a secret would need a KMS the backend does not have.
    pub fn try_reencrypt_all(&mut self) -> (r: Option<Result<(), Error>>)
        ensures
            r is None <==> !(all_decryptable(old(self)@) && keys_usable(old(self)@)),
            r is None ==> final(self)@ == old(self)@,
            r matches Some(x) ==> (x is Ok <==> reencrypt_succeeds(old(self)@)),
            r matches Some(x) ==> (x is Ok ==> reencrypted(old(self)@, final(self)@)),
            r matches Some(Err(e)) ==> reencrypt_error(old(self)@, e@) && final(self)@ == old(
                self,
            )@,
    {
        if self.can_decrypt_all() && self.keys_usable_now() {
            Some(self.reencrypt_all())
        } else {
            None
        }
    }

    /// Add a team member as `add_recipient` does, or `None` (vault
    /// unchanged) where a secret would need a KMS the backend does not have.
    pub fn try_add_recipient(&mut self, name: &str, key: &str) -> (r: Option<Result<(), Error>>)
        ensures
            r is None <==> !(all_decryptable(old(self)@) && map_keys_usable(
                recipient_map(old(self)@).insert(name@, key@),
            )),
            r is None ==> final(self)@ == old(self)@,
            r matches Some(x) ==> match member_check(name@) {
                Err(f) => x matches Err(e) && e@ == f && final(self)@ == old(self)@,
                Ok(_) => match recipient_check(key@) {
                    Err(f) => x matches Err(e) && e@ == f && final(self)@ == old(self)@,
                    Ok(_) => {
                        &&& same_core(old(self)@, final(self)@)
                        &&& recipient_map(final(self)@) == recipient_map(old(self)@).insert(
                            name@,
                            key@,
                        )
                        &&& team_reencrypt(old(self)@, final(self)@, x)
                    },
                },
            },
    {
        if self.can_decrypt_all() && self.team_usable(name, Some(key)) {
            Some(self.add_recipient(name, key))
        } else {
            None
        }
    }

    /// Remove a team member as `remove_recipient` does, or `None` (vault
    /// unchanged) where a secret would need a KMS the backend does not have.
    pub fn try_remove_recipient(&mut self, name: &str) -> (r: Option<Result<(), Error>>)
        ensures
            r is None <==> !(all_decryptable(old(self)@) && map_keys_usable(
                recipient_map(old(self)@).remove(name@),
            )),
            r is None ==> final(self)@ == old(self)@,
            r matches Some(x) ==> (recipient_map(old(self)@).contains_key(name@) ==> {
                &&& same_core(old(self)@, final(self)@)
                &&& recipient_map(final(self)@) == recipient_map(old(self)@).remove(name@)
                &&& team_reencrypt(old(self)@, final(self)@, x)
            }),
            r matches Some(x) ==> (!recipient_map(old(self)@).contains_key(name@) ==> (x matches Err(
                e,
            ) && e@ == Fault::RecipientNotFound(name@) && final(self)@ == old(self)@)),
    {
        if self.can_decrypt_all() && self.team_usable(name, None) {
            Some(self.remove_recipient(name))
        } else {
            None
        }
    }

    /// Sync as `sync` does, or `None` (vault unchanged) where a secret would
    /// need a KMS the backend does not have.
    pub fn try_sync(&mut self, force: bool) -> (r: Option<Result<SyncResult, Error>>)
        ensures
            r is None <==> !(all_decryptable(old(self)@) && keys_usable(old(self)@)),
            r is None ==> final(self)@ == old(self)@,
            r matches Some(Ok(res)) ==> res.secrets == old(self)@.config.secrets.len()
                && res.recipients == old(self)@.config.recipients.len(),
            r matches Some(x) ==> (!(force || needs_sync_spec(old(self)@)) ==> (x matches Ok(res)
                && !res.was_needed && final(self)@ == old(self)@)),
            r matches Some(x) ==> ((force || needs_sync_spec(old(self)@)) ==> {
                &&& (x is Ok <==> reencrypt_succeeds(old(self)@))
                &&& (x is Ok ==> hash_current(final(self)@))
                &&& (x matches Err(e) ==> reencrypt_error(old(self)@, e@) && final(self)@ == old(
                    self,
                )@)
            }),
    {
        if self.can_decrypt_all() && self.keys_usable_now() {
            Some(self.sync(force))
        } else {
            None
        }
    }

    /// Import as `import` does, or `None` (vault unchanged) where a recipient
    /// key would make encryption panic.
    pub fn try_import(&mut self, env: &Env) -> (r: Option<Result<Vec<String>, Error>>)
        ensures
            r is None <==> !keys_usable(old(self)@),
            r is None ==> final(self)@ == old(self)@,
            r matches Some(x) ==> match x {
                Ok(imported) => {
                    &&& strings_view(imported@) == keys_of(env.pairs())
                    &&& exists|cts: Seq<Seq<char>>|
                        #[trigger] imports_ok(old(self)@, env.pairs(), cts) && secret_map(
                            final(self)@,
                        ) == import_map(secret_map(old(self)@), env.pairs(), cts)
                    &&& same_but_secrets_and_hash(old(self)@, final(self)@)
                    &&& hash_current(final(self)@)
                },
                Err(e) => exists|i: int, cts: Seq<Seq<char>>|
                    {
                        &&& 0 <= i < env.pairs().len()
                        &&& #[trigger] imports_ok(old(self)@, env.pairs().take(i), cts)
                        &&& secret_map(final(self)@) == import_map(
                            secret_map(old(self)@),
                            env.pairs().take(i),
                            cts,
                        )
                        &&& same_but_secrets(old(self)@, final(self)@)
                        &&& match import_check(old(self)@, env.pairs()[i].0, env.pairs()[i].1) {
                            Err(f) => e@ == f,
                            Ok(_) => encrypted_err(old(self)@.backend, e@, recipient_keys(old(self)@)),
                        }
                    },
            },
    {
        if self.keys_usable_now() {
            Some(self.import(env))
        } else {
            None
        }
    }

    /// Import the entries of a `.env` file, encrypting each value.
    ///
    /// Returns the imported keys in order. Stops at the first entry with an
    /// invalid key or empty value, without recipients, or whose encryption
    /// fails; the entries before it stay imported.
    pub fn import(&mut self, env: &Env) -> (r: Result<Vec<String>, Error>)
        requires
            env.pairs().len() > 0 && entry_passes(old(self)@, env.pairs()[0]) ==> keys_usable(
                old(self)@,
            ),
        ensures
            match r {
                Ok(imported) => {
                    &&& strings_view(imported@) == keys_of(env.pairs())
                    &&& exists|cts: Seq<Seq<char>>|
                        #[trigger] imports_ok(old(self)@, env.pairs(), cts) && secret_map(
                            final(self)@,
                        ) == import_map(secret_map(old(self)@), env.pairs(), cts)
                    &&& same_but_secrets_and_hash(old(self)@, final(self)@)
                    &&& hash_current(final(self)@)
                },
                Err(e) => exists|i: int, cts: Seq<Seq<char>>|
                    {
                        &&& 0 <= i < env.pairs().len()
                        &&& #[trigger] imports_ok(old(self)@, env.pairs().take(i), cts)
                        &&& secret_map(final(self)@) == import_map(
                            secret_map(old(self)@),
                            env.pairs().take(i),
                            cts,
                        )
                        &&& same_but_secrets(old(self)@, final(self)@)
                        &&& match import_check(old(self)@, env.pairs()[i].0, env.pairs()[i].1) {
                            Err(f) => e@ == f,
                            Ok(_) => encrypted_err(old(self)@.backend, e@, recipient_keys(old(self)@)),
                        }
                    },
            },
    {
        let entries = env.entries();
        let ghost es = pairs_view(entries@);
        let ghost v0 = self@;
        let ghost mut cts: Seq<Seq<char>> = Seq::empty();
        let mut imported: Vec<String> = Vec::new();
        let mut i: usize = 0;
        assert(es.take(0) =~= Seq::<(Seq<char>, Seq<char>)>::empty());
        assert(strings_view(imported@) =~= keys_of(es.take(0)));
        while i < entries.len()
            invariant
                i <= es.len(),
                es == pairs_view(entries@),
                es == env.pairs(),
                v0 == old(self)@,
                imports_ok(v0, es.take(i as int), cts),
                secret_map(self@) == import_map(secret_map(v0), es.take(i as int), cts),
                same_but_secrets(v0, self@),
                es.len() > 0 && entry_passes(v0, es[0]) ==> keys_usable(v0),
                strings_view(imported@) == keys_of(es.take(i as int)),
            decreases es.len() - i,
        {
            let (key, value) = &entries[i];
            assert(es[i as int] == (key@, value@));
            match validate_key(key.as_str()) {
                Err(e) => {
                    assert(imports_ok(old(self)@, env.pairs().take(i as int), cts));
                    assert(secret_map(self@) == import_map(
                        secret_map(old(self)@),
                        env.pairs().take(i as int),
                        cts,
                    ));
                    assert(import_check(old(self)@, env.pairs()[i as int].0, env.pairs()[i as int].1)
                        == Err::<(), Fault>(e@));
                    return Err(e);
                },
                Ok(()) => {},
            }
            match validate_value(key.as_str(), value.as_str()) {
                Err(e) => {
                    assert(imports_ok(old(self)@, env.pairs().take(i as int), cts));
                    assert(secret_map(self@) == import_map(
                        secret_map(old(self)@),
                        env.pairs().take(i as int),
                        cts,
                    ));
                    assert(import_check(old(self)@, env.pairs()[i as int].0, env.pairs()[i as int].1)
                        == Err::<(), Fault>(e@));
                    return Err(e);
                },
                Ok(()) => {},
            }
            let recipients = self.recipient_key_list();
            if recipients.len() == 0 {
                assert(imports_ok(v0, es.take(i as int), cts));
                return Err(Error::Config(ConfigError::NoRecipients));
            }
            proof {
                if i > 0 {
                    assert(es.take(i as int)[0] == es[0]);
                }
                assert(keys_view(recipients@) =~= strings_view(recipients@));
            }
            let encrypted = match self.backend.encrypt(value.as_str(), recipients.as_slice()) {
                Ok(ct) => ct,
                Err(e) => {
                    assert(imports_ok(v0, es.take(i as int), cts));
                    return Err(e);
                },
            };
            let ghost ct = encrypted@;
            self.config.secrets.insert(key.clone(), encrypted);
            let ghost before = imported@;
            imported.push(key.clone());
            proof {
                let nes = es.take(i + 1);
                let ncts = cts.push(ct);
                assert(nes.drop_last() =~= es.take(i as int));
                assert(ncts.drop_last() =~= cts);
                assert(nes.last() == es[i as int]);
                assert(nes =~= es.take(i as int).push((key@, value@)));
                assert(key_check(key@) is Ok);
                assert(value_check(key@, value@) is Ok);
                assert(recipient_keys(v0).len() > 0);
                lemma_imports_ok_push(v0, es.take(i as int), cts, (key@, value@), ct);
                assert(ncts.len() == nes.len());
                assert(imports_ok(v0, nes, ncts));
                assert(strings_view(imported@) =~= strings_view(before).push(key@));
                assert(keys_of(nes) =~= keys_of(es.take(i as int)).push(key@));
                cts = ncts;
            }
            i = i + 1;
        }
        assert(es.take(i as int) =~= es);
        self.update_recipients_hash();
        Ok(imported)
    }

    /// Export all decrypted secrets as `.env` content for the path `.env`.
    pub fn export(&self) -> (r: Result<Env, Error>)
        requires
            all_decryptable(self@),
        ensures
            match decrypt_all_outcome(self@) {
                Ok(ps) => r matches Ok(env) && env.pairs() == ps && env.path_view() == ".env"@,
                Err(f) => r matches Err(e) && e@ == f,
            },
    {
        match self.decrypt_all() {
            Ok(pairs) => Ok(Env::from_pairs(pairs, String::from_str(".env"))),
            Err(e) => Err(e),
        }
    }

    /// Export as `export` does, or `None` where a secret would need a KMS
    /// the backend does not have.
    pub fn try_export(&self) -> (r: Option<Result<Env, Error>>)
        ensures
            r is None <==> !all_decryptable(self@),
            r matches Some(x) ==> match decrypt_all_outcome(self@) {
                Ok(ps) => x matches Ok(env) && env.pairs() == ps && env.path_view() == ".env"@,
                Err(f) => x matches Err(e) && e@ == f,
            },
    {
        if self.can_decrypt_all() {
            Some(self.export())
        } else {
            None
        }
    }

    /// Compare the vault's secrets with the entries of a `.env` file (no
    /// entries when there is no file).
    pub fn diff(&self, env_entries: &[(String, String)]) -> (r: Result<Diff, Error>)
        requires
            all_decryptable(self@),
        ensures
            match decrypt_all_outcome(self@) {
                Ok(ps) => r matches Ok(d) && is_diff_of(
                    d@,
                    collect_map(ps),
                    collect_map(pairs_view(env_entries@)),
                ),
                Err(f) => r matches Err(e) && e@ == f,
            },
    {
        match self.decrypt_all() {
            Ok(pairs) => Ok(Diff::compute(pairs.as_slice(), env_entries)),
            Err(e) => Err(e),
        }
    }

    /// Compare as `diff` does, or `None` where a secret would need a KMS the
    /// backend does not have.
    pub fn try_diff(&self, env_entries: &[(String, String)]) -> (r: Option<Result<Diff, Error>>)
        ensures
            r is None <==> !all_decryptable(self@),
            r matches Some(x) ==> match decrypt_all_outcome(self@) {
                Ok(ps) => x matches Ok(d) && is_diff_of(
                    d@,
                    collect_map(ps),
                    collect_map(pairs_view(env_entries@)),
                ),
                Err(f) => x matches Err(e) && e@ == f,
            },
    {
        if self.can_decrypt_all() {
            Some(self.diff(env_entries))
        } else {
            None
        }
    }

    /// The vault files among the names of a directory's entries, sorted.
    pub fn find_vault_files(names: &[String]) -> (r: Vec<String>)
        ensures
            is_sorting_of(
                strings_view(r@),
                strings_view(names@).filter(|n: Seq<char>| is_vault_file(n)),
            ),
    {
        let ghost all = strings_view(names@);
        let mut found: Vec<String> = Vec::new();
        let mut i: usize = 0;
        assert(all.take(0) =~= Seq::<Seq<char>>::empty());
        assert(strings_view(found@) =~= all.take(0).filter(|n: Seq<char>| is_vault_file(n))) by {
            reveal_with_fuel(Seq::filter, 1);
        }
        while i < names.len()
            invariant
                i <= names@.len(),
                all == strings_view(names@),
                strings_view(found@) == all.take(i as int).filter(|n: Seq<char>| is_vault_file(n)),
            decreases names@.len() - i,
        {
            proof {
                assert(all.take(i + 1) =~= all.take(i as int).push(all[i as int]));
                all.take(i as int).lemma_filter_push(all[i as int], |n: Seq<char>| is_vault_file(n));
            }
            assert(all[i as int] == names@[i as int]@);
            if is_vault_file_name(names[i].as_str()) {
                let ghost before = found@;
                found.push(names[i].clone());
                assert(strings_view(found@) =~= strings_view(before).push(all[i as int]));
            }
            i = i + 1;
        }
        assert(all.take(i as int) =~= all);
        crate::fingerprint::sorted_strings(found.as_slice())
    }

    /// Whether there is more than one vault file among the names.
    pub fn has_multiple_vaults(names: &[String]) -> (b: bool)
        ensures
            b == (strings_view(names@).filter(|n: Seq<char>| is_vault_file(n)).len() > 1),
    {
        let files = Self::find_vault_files(names);
        proof {
            broadcast use vstd::seq_lib::group_to_multiset_ensures;

            let f = strings_view(names@).filter(|n: Seq<char>| is_vault_file(n));
            assert(strings_view(files@).to_multiset().len() == f.to_multiset().len());
        }
        files.len() > 1
    }

    /// Open a vault from its loaded configuration.
    ///
    /// The configuration is validated first. The identity is the first of
    /// `candidates` (in the order they were found: the environment, the
    /// project key, the global key) that is one of the recipients, else
    /// `ConfigError::AccessDenied`. Then the backend is chosen.
    pub fn open_vault(
        vault: Option<&str>,
        config: Config,
        project_id: String,
        candidates: Vec<Identity>,
    ) -> (r: Result<Self, Error>)
        ensures
            match config_check(config@.version, config@.recipients, config@.secrets) {
                Err(f) => r matches Err(e) && e@ == f,
                Ok(_) => match first_with_access(
                    identities_view(candidates@),
                    values_of(config@.recipients),
                ) {
                    None => r matches Err(e) && e@ == Fault::AccessDenied,
                    Some(i) => match backend_for(config@.cipher, config@.kms) {
                        Err(f) => r matches Err(e) && e@ == f,
                        Ok(b) => r matches Ok(v) && v@ == VaultView {
                            config: config@,
                            project_id: project_id@,
                            identity: identities_view(candidates@)[i],
                            backend: b,
                            vault_name: name_view(vault),
                        },
                    },
                },
            },
    {
        match config.validate() {
            Err(e) => return Err(e),
            Ok(()) => {},
        }
        let keys = config.recipients.values();
        assert(config.recipients.value_seq() =~= values_of(config.recipients.pairs()));
        let i = match position_with_access(&candidates, &keys) {
            Some(i) => i,
            None => return Err(Error::Config(ConfigError::AccessDenied)),
        };
        proof {
            lemma_first_access_from(identities_view(candidates@), strings_view(keys@), 0);
        }
        let mut candidates = candidates;
        let ghost cv = identities_view(candidates@);
        let identity = candidates.remove(i);
        assert(identity@ == cv[i as int]);
        let backend = match CipherBackend::from_config(&config) {
            Ok(b) => b,
            Err(e) => return Err(e),
        };
        let vault_name = match vault {
            Some(n) => Some(n.to_string()),
            None => None,
        };
        Ok(Vault { config, project_id, identity, backend, vault_name })
    }

    /// Open the default vault.
    pub fn open(config: Config, project_id: String, candidates: Vec<Identity>) -> (r: Result<
        Self,
        Error,
    >)
        ensures
            match config_check(config@.version, config@.recipients, config@.secrets) {
                Err(f) => r matches Err(e) && e@ == f,
                Ok(_) => match first_with_access(
                    identities_view(candidates@),
                    values_of(config@.recipients),
                ) {
                    None => r matches Err(e) && e@ == Fault::AccessDenied,
                    Some(i) => match backend_for(config@.cipher, config@.kms) {
                        Err(f) => r matches Err(e) && e@ == f,
                        Ok(b) => r matches Ok(v) && v@ == VaultView {
                            config: config@,
                            project_id: project_id@,
                            identity: identities_view(candidates@)[i],
                            backend: b,
                            vault_name: None,
                        },
                    },
                },
            },
    {
        Self::open_vault(None, config, project_id, candidates)
    }

    /// The configuration a new vault starts with: version, the KMS key if
    /// given, and `name` as the one recipient with the identity's public
    /// key. It is what the vault file holds before the backend is chosen.
    pub fn init_config(name: &str, kms_key: Option<String>, identity: &Identity) -> (r: Result<
        Config,
        Error,
    >)
        ensures
            match member_check(name@) {
                Err(f) => r matches Err(e) && e@ == f,
                Ok(_) => r matches Ok(c) && {
                    &&& c@.version == CONFIG_VERSION@
                    &&& c@.recipients_hash is None
                    &&& c@.cipher is None
                    &&& c@.kms == crate::config::opt_text(kms_key)
                    &&& pairs_map(c@.recipients) == Map::<Seq<char>, Seq<char>>::empty().insert(
                        name@,
                        age_identity_public(identity@.secret)->Ok_0,
                    )
                    &&& c@.secrets.len() == 0
                    &&& config_cipher(c) == c@.cipher
                    &&& config_kms_key(c) == c@.kms
                },
            },
    {
        match validate_member_name(name) {
            Err(e) => return Err(e),
            Ok(()) => {},
        }
        let mut config = Config::new();
        match kms_key {
            Some(key) => {
                config.kms = Some(KmsConfig { key });
            },
            None => {},
        }
        let public_key = identity.public_key();
        config.recipients.insert(name.to_string(), public_key);
        Ok(config)
    }

    /// Initialize a new vault whose first recipient is `name` with the
    /// identity's public key, with hybrid encryption if a KMS key is given.
    pub fn init_vault(
        vault: Option<&str>,
        name: &str,
        kms_key: Option<String>,
        project_id: String,
        identity: Identity,
    ) -> (r: Result<Self, Error>)
        ensures
            match member_check(name@) {
                Err(f) => r matches Err(e) && e@ == f,
                Ok(_) => match backend_for(None, crate::config::opt_text(kms_key)) {
                    Err(f) => r matches Err(e) && e@ == f,
                    Ok(b) => r matches Ok(v) && {
                        &&& v@.config.version == CONFIG_VERSION@
                        &&& v@.config.recipients_hash is None
                        &&& v@.config.cipher is None
                        &&& v@.config.kms == crate::config::opt_text(kms_key)
                        &&& recipient_map(v@) == Map::<Seq<char>, Seq<char>>::empty().insert(
                            name@,
                            age_identity_public(identity@.secret)->Ok_0,
                        )
                        &&& v@.config.secrets.len() == 0
                        &&& v@.project_id == project_id@
                        &&& v@.identity == identity@
                        &&& v@.backend == b
                        &&& v@.vault_name == name_view(vault)
                    },
                },
            },
    {
        let config = match Self::init_config(name, kms_key, &identity) {
            Ok(c) => c,
            Err(e) => return Err(e),
        };
        let backend = match CipherBackend::from_config(&config) {
            Ok(b) => b,
            Err(e) => return Err(e),
        };
        let vault_name = match vault {
            Some(n) => Some(n.to_string()),
            None => None,
        };
        Ok(Vault { config, project_id, identity, backend, vault_name })
    }

    /// Initialize the default vault.
    pub fn init(name: &str, kms_key: Option<String>, project_id: String, identity: Identity) -> (r:
        Result<Self, Error>)
        ensures
            match member_check(name@) {
                Err(f) => r matches Err(e) && e@ == f,
                Ok(_) => match backend_for(None, crate::config::opt_text(kms_key)) {
                    Err(f) => r matches Err(e) && e@ == f,
                    Ok(b) => r matches Ok(v) && {
                        &&& v@.config.version == CONFIG_VERSION@
                        &&& v@.config.recipients_hash is None
                        &&& v@.config.cipher is None
                        &&& v@.config.kms == crate::config::opt_text(kms_key)
                        &&& recipient_map(v@) == Map::<Seq<char>, Seq<char>>::empty().insert(
                            name@,
                            age_identity_public(identity@.secret)->Ok_0,
                        )
                        &&& v@.config.secrets.len() == 0
                        &&& v@.project_id == project_id@
                        &&& v@.identity == identity@
                        &&& v@.backend == b
                        &&& v@.vault_name is None
                    },
                },
            },
    {
        Self::init_vault(None, name, kms_key, project_id, identity)
    }
}

/// A set secret reads back: once `set` has stored `ct` for `key`, reading
/// `key` with an identity among the recipients gives the value that was set.
pub proof fn lemma_set_then_get(
    before: VaultView,
    after: VaultView,
    key: Seq<char>,
    value: Seq<char>,
    ct: Seq<char>,
)
    requires
        encrypted_ok(before.backend, ct, value, recipient_keys(before)),
        same_but_secrets_and_hash(before, after),
        secret_map(after) == secret_map(before).insert(key, ct),
        has_access(before),
    ensures
        get_defined(after, key),
        get_outcome(after, key) == Ok::<Seq<char>, Fault>(value),
{
    lemma_armored_not_envelope(ct);
    assert(secret_map(after)[key] == ct);
    let pk = age_identity_public(after.identity.secret)->Ok_0;
    assert(age_decrypt_result(ct, after.identity.secret) == Ok::<Seq<char>, Fault>(value));
}

/// A removed secret is gone: reading it gives `NotFound`.
pub proof fn lemma_remove_then_get(before: VaultView, after: VaultView, key: Seq<char>)
    requires
        secret_map(after) == secret_map(before).remove(key),
    ensures
        get_outcome(after, key) == Err::<Seq<char>, Fault>(Fault::NotFound(key)),
{
}

/// Armored age text is no envelope.
proof fn lemma_armored_not_envelope(ct: Seq<char>)
    requires
        crate::text::has_prefix(ct, crate::cipher::age::armor_header()),
    ensures
        crate::cipher::envelope::parse_envelope(ct) is None,
{
    reveal_strlit("-----BEGIN AGE ENCRYPTED FILE-----");
    let h = crate::cipher::age::armor_header();
    assert(h[0] == '-');
    assert(ct.take(h.len() as int)[0] == ct[0]);
}

/// Re-encryption keeps every value: after `reencrypt_all`, any identity
/// among the recipients opens each secret to what the vault's identity read
/// before, and reading a secret through a vault whose identity is a
/// recipient gives the same as before.
pub proof fn lemma_reencrypt_keeps_values(
    before: VaultView,
    after: VaultView,
    key: Seq<char>,
    other: Seq<char>,
)
    requires
        reencrypted(before, after),
        secret_map(before).contains_key(key),
        identity_among(other, recipient_keys(before)),
    ensures
        secret_map(after).contains_key(key),
        age_decrypt_result(secret_map(after)[key], other) == get_outcome(before, key),
        has_access(before) ==> get_defined(after, key) && get_outcome(after, key) == get_outcome(
            before,
            key,
        ),
{
    assert(secret_map(after).dom().contains(key));
    let ct = secret_map(after)[key];
    lemma_armored_not_envelope(ct);
}

/// A key stored under some name is among the recipient keys.
proof fn lemma_mapped_key_listed(ps: Seq<(Seq<char>, Seq<char>)>, name: Seq<char>)
    requires
        pairs_map(ps).contains_key(name),
    ensures
        values_of(ps).contains(pairs_map(ps)[name]),
{
    let j = crate::strmap::index_of_key(ps, name);
    assert(has_key(ps, name));
    assert(0 <= j < ps.len() && ps[j].0 == name);
    assert(values_of(ps)[j] == pairs_map(ps)[name]);
}

/// An added member can read: after a member with public key `key` is added
/// and the secrets re-encrypted, that member's identity opens every secret
/// to the value the vault's identity read before.
pub proof fn lemma_added_member_reads(
    before: VaultView,
    after: VaultView,
    name: Seq<char>,
    key: Seq<char>,
    k: Seq<char>,
    member: Seq<char>,
)
    requires
        recipient_map(after) == recipient_map(before).insert(name, key),
        secrets_reencrypted(before, after),
        age_identity_public(member) == Ok::<Seq<char>, Seq<char>>(key),
        secret_map(before).contains_key(k),
    ensures
        secret_map(after).contains_key(k),
        age_decrypt_result(secret_map(after)[k], member) == get_outcome(before, k),
{
    lemma_mapped_key_listed(after.config.recipients, name);
    assert(secret_map(after).dom().contains(k));
}

/// A sync leaves the vault in sync: once the stored hash is the fingerprint
/// of the recipients, nothing needs re-encrypting.
pub proof fn lemma_synced_needs_no_sync(v: VaultView)
    requires
        hash_current(v),
    ensures
        !needs_sync_spec(v),
{
}

/// The value of the last entry with key `k`, if any.
pub open spec fn lookup_last(ps: Seq<(Seq<char>, Seq<char>)>, k: Seq<char>) -> Option<Seq<char>>
    decreases ps.len(),
{
    if ps.len() == 0 {
        None
    } else if ps.last().0 == k {
        Some(ps.last().1)
    } else {
        lookup_last(ps.drop_last(), k)
    }
}

/// Where the import put the secret of `k`: the entry that holds its last
/// value, and that entry's ciphertext.
proof fn lemma_import_map_last(
    m: Map<Seq<char>, Seq<char>>,
    es: Seq<(Seq<char>, Seq<char>)>,
    cts: Seq<Seq<char>>,
    k: Seq<char>,
) -> (j: int)
    requires
        cts.len() == es.len(),
        lookup_last(es, k) is Some,
    ensures
        0 <= j < es.len(),
        es[j].0 == k,
        es[j].1 == lookup_last(es, k)->0,
        import_map(m, es, cts).contains_key(k),
        import_map(m, es, cts)[k] == cts[j],
    decreases es.len(),
{
    let n = es.len() - 1;
    if es.last().0 == k {
        n
    } else {
        let j = lemma_import_map_last(m, es.drop_last(), cts.drop_last(), k);
        assert(es.drop_last()[j] == es[j]);
        assert(cts.drop_last()[j] == cts[j]);
        j
    }
}

/// Imported secrets read back: after an import, reading a key that the
/// imported entries hold gives the value of the last entry with that key,
/// for a vault whose identity is one of its recipients.
pub proof fn lemma_import_then_get(
    before: VaultView,
    after: VaultView,
    es: Seq<(Seq<char>, Seq<char>)>,
    cts: Seq<Seq<char>>,
    k: Seq<char>,
)
    requires
        imports_ok(before, es, cts),
        secret_map(after) == import_map(secret_map(before), es, cts),
        same_but_secrets_and_hash(before, after),
        has_access(before),
        lookup_last(es, k) is Some,
    ensures
        get_defined(after, k),
        get_outcome(after, k) == Ok::<Seq<char>, Fault>(lookup_last(es, k)->0),
{
    let j = lemma_import_map_last(secret_map(before), es, cts, k);
    let ct = cts[j];
    assert(encrypted_ok(before.backend, ct, es[j].1, recipient_keys(before)));
    lemma_armored_not_envelope(ct);
    assert(secret_map(after)[k] == ct);
    let pk = age_identity_public(after.identity.secret)->Ok_0;
    assert(age_decrypt_result(ct, after.identity.secret) == Ok::<Seq<char>, Fault>(es[j].1));
}

/// Removing a member that was just added, under a name that was free,
/// leaves the members as they were.
pub proof fn lemma_add_then_remove_member(
    before: VaultView,
    mid: VaultView,
    after: VaultView,
    name: Seq<char>,
    key: Seq<char>,
)
    requires
        !recipient_map(before).contains_key(name),
        recipient_map(mid) == recipient_map(before).insert(name, key),
        recipient_map(after) == recipient_map(mid).remove(name),
    ensures
        recipient_map(after) == recipient_map(before),
{
    assert(recipient_map(after) =~= recipient_map(before));
}

/// Removing a secret that was just set, under a key that was free, leaves
/// the secrets as they were.
pub proof fn lemma_set_then_remove(
    before: VaultView,
    mid: VaultView,
    after: VaultView,
    key: Seq<char>,
    ct: Seq<char>,
)
    requires
        !secret_map(before).contains_key(key),
        secret_map(mid) == secret_map(before).insert(key, ct),
        secret_map(after) == secret_map(mid).remove(key),
    ensures
        secret_map(after) == secret_map(before),
{
    assert(secret_map(after) =~= secret_map(before));
}

/// Re-encrypted secrets are armored age text, which no backend needs a KMS
/// to open.
proof fn lemma_reencrypted_decryptable(v: VaultView, w: VaultView)
    requires
        secrets_reencrypted(v, w),
        sorted_keys(w.config.secrets),
    ensures
        all_decryptable(w),
{
    let ps = w.config.secrets;
    assert forall|i: int| 0 <= i < ps.len() implies !#[trigger] kms_fallback_missing(
        w.backend,
        ps[i].1,
        w.identity.secret,
    ) by {
        lemma_pairs_map_at(ps, i);
        assert(secret_map(w).contains_key(ps[i].0));
        lemma_armored_not_envelope(ps[i].1);
    }
}

/// A removed member is locked out: once a member has been removed and the
/// secrets re-encrypted, an identity whose public key no remaining member
/// holds (compared by key bytes, so in either case) opens none of the secrets.
pub proof fn lemma_removed_member_locked_out(
    before: VaultView,
    after: VaultView,
    name: Seq<char>,
    member: Seq<char>,
    k: Seq<char>,
)
    requires
        recipient_map(after) == recipient_map(before).remove(name),
        secrets_reencrypted(before, after),
        age_identity_public(member) matches Ok(pk) && !crate::cipher::age::holds_key(
            recipient_keys(after),
            pk,
        ),
        secret_map(after).contains_key(k),
    ensures
        crate::cipher::age::age_opened(secret_map(after)[k], member) is Err,
        age_decrypt_result(secret_map(after)[k], member) is Err,
{
    assert(secret_map(after).contains_key(k));
}

/// Whether encrypting for `keys` stays clear of the keys that make age panic.
fn usable_keys(keys: &[String]) -> (b: bool)
    ensures
        b == keys_encryptable(keys_view(keys@)),
{
    match crate::cipher::age::check_recipients(keys) {
        Err(_) => true,
        Ok(()) => crate::cipher::age::has_no_weak_keys(keys),
    }
}

} // verus!
