//! The vault configuration: what a `.dugout.toml` file holds, and its checks.
use vstd::prelude::*;

use crate::cipher::age::{age_recipient_valid, parse_recipient};
use crate::constants::{acceptable_vault, opt_view, vault_file, vault_path, CONFIG_FILE};
use crate::error::{unit_view, ConfigError, Error, Fault};
use crate::strmap::StrMap;
use crate::text::{
    chars_of, lemma_lines_append, lemma_lines_cons, lemma_lines_push_newline,
    lemma_trim_strip_cr, lines, strip_cr, trim,
};
use crate::validation::{key_check, validate_key};

verus! {

/// The configuration version written by this library.
pub const CONFIG_VERSION: &'static str = "0.1.0";

/// Metadata section of the configuration.
#[derive(Debug, Clone)]
pub struct Meta {
    /// Configuration version.
    pub version: String,
    /// SHA-256 of the sorted recipient public keys, for sync detection.
    pub recipients_hash: Option<String>,
    /// Explicit cipher choice (`age` or `gpg`), if any.
    pub cipher: Option<String>,
}

/// KMS configuration for hybrid encryption.
#[derive(Debug, Clone)]
pub struct KmsConfig {
    /// KMS key identifier: an AWS ARN or a GCP resource name.
    pub key: String,
}

/// Project configuration stored in `.dugout.toml`.
#[derive(Debug)]
pub struct Config {
    /// Metadata about the vault configuration.
    pub dugout: Meta,
    /// Optional KMS configuration for hybrid encryption.
    pub kms: Option<KmsConfig>,
    /// Recipient names to age public keys.
    pub recipients: StrMap,
    /// Secret keys to their encrypted values.
    pub secrets: StrMap,
}

/// The first recipient, in name order, whose key does not parse.
pub open spec fn first_bad_recipient(ps: Seq<(Seq<char>, Seq<char>)>) -> Option<
    (Seq<char>, Seq<char>),
>
    decreases ps.len(),
{
    if ps.len() == 0 {
        None
    } else if !age_recipient_valid(ps[0].1) {
        Some(ps[0])
    } else {
        first_bad_recipient(ps.drop_first())
    }
}

/// The first failing secret key check, in key order.
pub open spec fn first_bad_key(ps: Seq<(Seq<char>, Seq<char>)>) -> Option<Fault>
    decreases ps.len(),
{
    if ps.len() == 0 {
        None
    } else if key_check(ps[0].0) is Err {
        Some(key_check(ps[0].0)->Err_0)
    } else {
        first_bad_key(ps.drop_first())
    }
}

/// A numeric identifier of a semantic version: ASCII digits, without a
/// leading zero unless it is `0` itself.
pub open spec fn numeric_part(p: Seq<char>) -> bool {
    &&& p.len() > 0
    &&& forall|i: int| 0 <= i < p.len() ==> '0' <= #[trigger] p[i] <= '9'
    &&& (p.len() > 1 ==> p[0] != '0')
}

/// The version core `MAJOR.MINOR.PATCH`: three numeric identifiers
/// separated by dots.
pub open spec fn version_core(c: Seq<char>) -> bool {
    let ps = crate::text::split_on(c, '.');
    ps.len() == 3 && numeric_part(ps[0]) && numeric_part(ps[1]) && numeric_part(ps[2])
}

/// A character of a pre-release or build identifier: ASCII letters, digits
/// and `-`.
pub open spec fn ident_char(c: char) -> bool {
    ('0' <= c <= '9') || ('a' <= c <= 'z') || ('A' <= c <= 'Z') || c == '-'
}

/// Whether every character is a digit.
pub open spec fn all_digits(p: Seq<char>) -> bool {
    forall|i: int| 0 <= i < p.len() ==> '0' <= #[trigger] p[i] <= '9'
}

/// A build identifier: a non-empty run of identifier characters.
pub open spec fn build_ident(p: Seq<char>) -> bool {
    p.len() > 0 && forall|i: int| 0 <= i < p.len() ==> ident_char(#[trigger] p[i])
}

/// A pre-release identifier: a build identifier that, if all digits, has no
/// leading zero.
pub open spec fn pre_ident(p: Seq<char>) -> bool {
    build_ident(p) && (all_digits(p) ==> numeric_part(p))
}

/// Whether the dot-separated identifiers of `s` are pre-release identifiers
/// (`pre`) or build identifiers.
pub open spec fn idents_ok(s: Seq<char>, pre: bool) -> bool {
    let ps = crate::text::split_on(s, '.');
    forall|i: int|
        0 <= i < ps.len() ==> (if pre {
            pre_ident(#[trigger] ps[i])
        } else {
            build_ident(ps[i])
        })
}

/// A semantic version (SemVer 2.0.0): the core `MAJOR.MINOR.PATCH`, then
/// optionally `-` and dot-separated pre-release identifiers, then optionally
/// `+` and dot-separated build identifiers.
pub open spec fn is_semver(v: Seq<char>) -> bool {
    let (main, build) = match crate::text::split_once(v, '+') {
        Some((m, b)) => (m, Some(b)),
        None => (v, None),
    };
    let (core, pre) = match crate::text::split_once(main, '-') {
        Some((c, p)) => (c, Some(p)),
        None => (main, None),
    };
    &&& version_core(core)
    &&& (pre matches Some(p) ==> idents_ok(p, true))
    &&& (build matches Some(b) ==> idents_ok(b, false))
}

/// Whether the characters form a numeric identifier.
fn numeric_chars(p: &[char]) -> (b: bool)
    ensures
        b == numeric_part(p@),
{
    if p.len() == 0 {
        return false;
    }
    let mut i: usize = 0;
    while i < p.len()
        invariant
            i <= p@.len(),
            forall|j: int| 0 <= j < i ==> '0' <= #[trigger] p@[j] <= '9',
        decreases p@.len() - i,
    {
        if !('0' <= p[i] && p[i] <= '9') {
            return false;
        }
        i = i + 1;
    }
    !(p.len() > 1 && p[0] == '0')
}

/// Whether the characters form a build identifier, or, with `pre`, a
/// pre-release identifier.
fn ident_chars(p: &[char], pre: bool) -> (b: bool)
    ensures
        b == (if pre {
            pre_ident(p@)
        } else {
            build_ident(p@)
        }),
{
    if p.len() == 0 {
        return false;
    }
    let mut digits = true;
    let mut i: usize = 0;
    while i < p.len()
        invariant
            i <= p@.len(),
            p@.len() > 0,
            forall|j: int| 0 <= j < i ==> ident_char(#[trigger] p@[j]),
            digits == forall|j: int| 0 <= j < i ==> '0' <= #[trigger] p@[j] <= '9',
        decreases p@.len() - i,
    {
        let c = p[i];
        if !(('0' <= c && c <= '9') || ('a' <= c && c <= 'z') || ('A' <= c && c <= 'Z') || c
            == '-') {
            assert(!ident_char(p@[i as int]));
            return false;
        }
        digits = digits && '0' <= c && c <= '9';
        i = i + 1;
    }
    if pre && digits {
        numeric_chars(p)
    } else {
        true
    }
}

/// Whether the dot-separated identifiers of `v` are all identifiers of the
/// kind `pre` asks for.
fn idents_chars(v: &[char], pre: bool) -> (b: bool)
    ensures
        b == idents_ok(v@, pre),
{
    let ps = crate::text::split_chars(v, '.');
    let ghost pv = crate::text::vecs_view(ps@);
    let mut i: usize = 0;
    while i < ps.len()
        invariant
            i <= ps@.len(),
            pv == crate::text::vecs_view(ps@),
            pv == crate::text::split_on(v@, '.'),
            forall|j: int|
                0 <= j < i ==> (if pre {
                    pre_ident(#[trigger] pv[j])
                } else {
                    build_ident(pv[j])
                }),
        decreases ps@.len() - i,
    {
        assert(pv[i as int] == ps@[i as int]@);
        if !ident_chars(ps[i].as_slice(), pre) {
            return false;
        }
        i = i + 1;
    }
    true
}

/// Whether `v` is a semantic version (SemVer 2.0.0).
pub fn semver(v: &str) -> (b: bool)
    ensures
        b == is_semver(v@),
{
    let cs = chars_of(v);
    let n = cs.len();
    assert(cs@.skip(0) =~= cs@);
    let plus = crate::text::find_char(cs.as_slice(), '+', 0);
    let main = crate::text::slice_chars(cs.as_slice(), 0, plus);
    assert(main@ =~= cs@.take(plus as int));
    if plus < n {
        let build = crate::text::slice_chars(cs.as_slice(), plus + 1, n);
        assert(build@ =~= cs@.skip(plus + 1));
        if !idents_chars(build.as_slice(), false) {
            return false;
        }
    }
    assert(main@.skip(0) =~= main@);
    let m = main.len();
    let minus = crate::text::find_char(main.as_slice(), '-', 0);
    let core = crate::text::slice_chars(main.as_slice(), 0, minus);
    assert(core@ =~= main@.take(minus as int));
    if minus < m {
        let pre = crate::text::slice_chars(main.as_slice(), minus + 1, m);
        assert(pre@ =~= main@.skip(minus + 1));
        if !idents_chars(pre.as_slice(), true) {
            return false;
        }
    }
    let ps = crate::text::split_chars(core.as_slice(), '.');
    let ghost pv = crate::text::vecs_view(ps@);
    if ps.len() != 3 {
        return false;
    }
    assert(pv[0] == ps@[0]@ && pv[1] == ps@[1]@ && pv[2] == ps@[2]@);
    numeric_chars(ps[0].as_slice()) && numeric_chars(ps[1].as_slice()) && numeric_chars(
        ps[2].as_slice(),
    )
}

/// The outcome of validating a configuration with this version, these
/// recipients and these secrets (each in key order).
pub open spec fn config_check(
    version: Seq<char>,
    recipients: Seq<(Seq<char>, Seq<char>)>,
    secrets: Seq<(Seq<char>, Seq<char>)>,
) -> Result<(), Fault> {
    if version.len() == 0 {
        Err(Fault::MissingField("version"@))
    } else if !is_semver(version) {
        Err(Fault::InvalidValue("version"@, "not a valid semver: "@ + version))
    } else if recipients.len() == 0 {
        Err(Fault::NoRecipients)
    } else if first_bad_recipient(recipients) is Some {
        let (name, key) = first_bad_recipient(recipients)->0;
        Err(
            Fault::InvalidValue(
                "recipients"@,
                "invalid age public key for recipient '"@ + name + "': "@ + key,
            ),
        )
    } else if first_bad_key(secrets) is Some {
        Err(first_bad_key(secrets)->0)
    } else {
        Ok(())
    }
}

/// What a configuration holds.
pub struct ConfigView {
    pub version: Seq<char>,
    pub recipients_hash: Option<Seq<char>>,
    pub cipher: Option<Seq<char>>,
    pub kms: Option<Seq<char>>,
    /// Recipient names and public keys, in name order.
    pub recipients: Seq<(Seq<char>, Seq<char>)>,
    /// Secret keys and ciphertexts, in key order.
    pub secrets: Seq<(Seq<char>, Seq<char>)>,
}

/// The view of an optional string.
pub open spec fn opt_text(o: Option<String>) -> Option<Seq<char>> {
    match o {
        Some(s) => Some(s@),
        None => None,
    }
}

impl View for Config {
    type V = ConfigView;

    open spec fn view(&self) -> ConfigView {
        ConfigView {
            version: self.dugout.version@,
            recipients_hash: opt_text(self.dugout.recipients_hash),
            cipher: opt_text(self.dugout.cipher),
            kms: match self.kms {
                Some(k) => Some(k.key@),
                None => None,
            },
            recipients: self.recipients.pairs(),
            secrets: self.secrets.pairs(),
        }
    }
}

impl Config {
    /// A new empty configuration with the current version.
    pub fn new() -> (c: Self)
        ensures
            c.dugout.version@ == CONFIG_VERSION@,
            c.dugout.recipients_hash is None,
            c.dugout.cipher is None,
            c.kms is None,
            c.recipients@ == Map::<Seq<char>, Seq<char>>::empty(),
            c.secrets@ == Map::<Seq<char>, Seq<char>>::empty(),
            c.recipients.pairs().len() == 0,
            c.secrets.pairs().len() == 0,
    {
        Config {
            dugout: Meta {
                version: String::from_str(CONFIG_VERSION),
                recipients_hash: None,
                cipher: None,
            },
            kms: None,
            recipients: StrMap::new(),
            secrets: StrMap::new(),
        }
    }

    /// Path to the configuration file of a vault.
    pub fn config_path_for(vault: Option<&str>) -> (p: String)
        requires
            acceptable_vault(opt_view(vault)),
        ensures
            p@ == vault_file(opt_view(vault)),
    {
        vault_path(vault)
    }

    /// Path to the default configuration file.
    pub fn config_path() -> (p: String)
        ensures
            p@ == CONFIG_FILE@,
    {
        vault_path(None)
    }

    /// Whether KMS hybrid mode is configured.
    pub fn has_kms(&self) -> (b: bool)
        ensures
            b == self.kms is Some,
    {
        self.kms.is_some()
    }

    /// The KMS key, if configured.
    pub fn kms_key(&self) -> (k: Option<&str>)
        ensures
            match (k, self.kms) {
                (Some(s), Some(c)) => s@ == c.key@,
                (None, None) => true,
                _ => false,
            },
    {
        match &self.kms {
            Some(c) => Some(c.key.as_str()),
            None => None,
        }
    }

    /// The explicit cipher choice, if any.
    pub fn cipher(&self) -> (c: Option<&str>)
        ensures
            match (c, self.dugout.cipher) {
                (Some(s), Some(t)) => s@ == t@,
                (None, None) => true,
                _ => false,
            },
    {
        match &self.dugout.cipher {
            Some(c) => Some(c.as_str()),
            None => None,
        }
    }

    /// Validate the configuration: a semantic version (SemVer 2.0.0, with
    /// optional pre-release and build parts), at least one recipient, every
    /// recipient key a valid age public key, every secret key a valid name.
    pub fn validate(&self) -> (r: Result<(), Error>)
        ensures
            unit_view(r) == config_check(
                self.dugout.version@,
                self.recipients.pairs(),
                self.secrets.pairs(),
            ),
    {
        if self.dugout.version.as_str().is_empty() {
            return Err(Error::Config(ConfigError::MissingField { field: String::from_str("version") }));
        }
        if !semver(self.dugout.version.as_str()) {
            let mut reason = String::from_str("not a valid semver: ");
            reason.append(self.dugout.version.as_str());
            return Err(
                Error::Config(
                    ConfigError::InvalidValue { field: String::from_str("version"), reason },
                ),
            );
        }
        let n = self.recipients.len();
        if n == 0 {
            return Err(Error::Config(ConfigError::NoRecipients));
        }
        let ghost rp = self.recipients.pairs();
        let mut i: usize = 0;
        assert(rp.skip(0) =~= rp);
        while i < n
            invariant
                n == rp.len(),
                rp == self.recipients.pairs(),
                i <= n,
                n > 0,
                self.dugout.version@.len() > 0,
                is_semver(self.dugout.version@),
                first_bad_recipient(rp) == first_bad_recipient(rp.skip(i as int)),
            decreases n - i,
        {
            proof {
                assert(rp.skip(i as int).drop_first() =~= rp.skip(i + 1));
            }
            let (name, key) = self.recipients.entry_at(i);
            assert(rp.skip(i as int)[0] == (name@, key@));
            if parse_recipient(key.as_str()).is_err() {
                assert(!age_recipient_valid(key@));
                assert(first_bad_recipient(rp) == Some((name@, key@)));
                let mut reason = String::from_str("invalid age public key for recipient '");
                reason.append(name.as_str());
                reason.append("': ");
                reason.append(key.as_str());
                return Err(
                    Error::Config(
                        ConfigError::InvalidValue { field: String::from_str("recipients"), reason },
                    ),
                );
            }
            i = i + 1;
        }
        proof {
            assert(rp.skip(n as int).len() == 0);
            assert(first_bad_recipient(rp) is None);
        }
        let m = self.secrets.len();
        let ghost sp = self.secrets.pairs();
        let mut j: usize = 0;
        assert(sp.skip(0) =~= sp);
        while j < m
            invariant
                m == sp.len(),
                sp == self.secrets.pairs(),
                j <= m,
                self.recipients.pairs().len() > 0,
                self.dugout.version@.len() > 0,
                is_semver(self.dugout.version@),
                first_bad_recipient(self.recipients.pairs()) is None,
                first_bad_key(sp) == first_bad_key(sp.skip(j as int)),
            decreases m - j,
        {
            proof {
                assert(sp.skip(j as int).drop_first() =~= sp.skip(j + 1));
            }
            let (key, _) = self.secrets.entry_at(j);
            assert(sp.skip(j as int)[0].0 == key@);
            let r = validate_key(key.as_str());
            if r.is_err() {
                assert(first_bad_key(sp) == Some(key_check(key@)->Err_0));
                return r;
            }
            j = j + 1;
        }
        proof {
            assert(sp.skip(m as int).len() == 0);
        }
        Ok(())
    }
}

impl Default for Config {
    fn default() -> (c: Self)
        ensures
            c.dugout.version@ == CONFIG_VERSION@,
            c.kms is None,
            c.recipients.pairs().len() == 0,
            c.secrets.pairs().len() == 0,
    {
        Self::new()
    }
}

/// Whether some line of `text`, trimmed, is `entry`.
pub open spec fn has_line(text: Seq<char>, entry: Seq<char>) -> bool {
    exists|i: int| 0 <= i < lines(text).len() && trim(#[trigger] lines(text)[i]) == entry
}

/// `text` with `entry` added as a line of its own.
pub open spec fn with_line(text: Seq<char>, entry: Seq<char>) -> Seq<char> {
    (if text.len() > 0 && text.last() != '\n' {
        text.push('\n')
    } else {
        text
    }) + entry + seq!['\n']
}

/// A `.gitignore` text after adding each of `entries` that no line of the
/// original `existing` text already holds.
pub open spec fn gitignore_with(existing: Seq<char>, entries: Seq<Seq<char>>) -> Seq<char>
    decreases entries.len(),
{
    if entries.len() == 0 {
        existing
    } else {
        let before = gitignore_with(existing, entries.drop_last());
        if has_line(existing, entries.last()) {
            before
        } else {
            with_line(before, entries.last())
        }
    }
}

/// The `.gitignore` entries that keep `.env` files out of git.
pub open spec fn gitignore_entries() -> Seq<Seq<char>> {
    seq![".env"@, ".env.*"@, "!.env.example"@]
}

fn text_has_line(text: &str, entry: &str) -> (b: bool)
    ensures
        b == has_line(text@, entry@),
{
    let cs = chars_of(text);
    let ls = crate::text::lines_of(cs.as_slice());
    let ghost lv = crate::text::vecs_view(ls@);
    let mut i: usize = 0;
    while i < ls.len()
        invariant
            i <= ls@.len(),
            lv == crate::text::vecs_view(ls@),
            lv == lines(text@),
            forall|j: int| 0 <= j < i ==> trim(#[trigger] lv[j]) != entry@,
        decreases ls@.len() - i,
    {
        assert(lv[i as int] == ls@[i as int]@);
        let t = crate::text::trim_chars(ls[i].as_slice());
        let ts = crate::text::string_of(t.as_slice());
        if crate::text::str_eq(ts.as_str(), entry) {
            return true;
        }
        i = i + 1;
    }
    false
}

/// The `.gitignore` text with `.env`, `.env.*` and `!.env.example` added
/// where no line of `existing` already holds them.
pub fn gitignore_update(existing: &str) -> (r: String)
    ensures
        r@ == gitignore_with(existing@, gitignore_entries()),
{
    let entries: [&str; 3] = [".env", ".env.*", "!.env.example"];
    let ghost es = gitignore_entries();
    assert(entries@.map_values(|e: &str| e@) =~= es);
    let mut updated = existing.to_string();
    let mut i: usize = 0;
    assert(es.take(0) =~= Seq::<Seq<char>>::empty());
    while i < 3
        invariant
            i <= 3,
            es == gitignore_entries(),
            entries@.map_values(|e: &str| e@) == es,
            updated@ == gitignore_with(existing@, es.take(i as int)),
        decreases 3 - i,
    {
        let entry = entries[i];
        assert(es[i as int] == entry@);
        assert(es.take(i + 1).drop_last() =~= es.take(i as int));
        assert(es.take(i + 1).last() == entry@);
        if !text_has_line(existing, entry) {
            let ghost before = updated@;
            if !updated.as_str().is_empty() {
                let cs = chars_of(updated.as_str());
                if cs[cs.len() - 1] != '\n' {
                    crate::text::push_char(&mut updated, '\n');
                }
            }
            updated.append(entry);
            crate::text::push_char(&mut updated, '\n');
            assert(updated@ =~= with_line(before, entry@));
        }
        i = i + 1;
    }
    assert(es.take(3) =~= es);
    updated
}

/// An entry that reads back as a line of its own: not empty, without a line
/// break or a trailing `\r`, and unchanged by trimming.
pub open spec fn plain_entry(e: Seq<char>) -> bool {
    &&& e.len() > 0
    &&& !e.contains('\n')
    &&& e.last() != '\r'
    &&& trim(e) == e
}

/// Adding a plain entry keeps the text as its start, adds the entry as a
/// line, and keeps every line the text had.
proof fn lemma_with_line(t: Seq<char>, e: Seq<char>)
    requires
        plain_entry(e),
    ensures
        with_line(t, e).len() >= t.len(),
        with_line(t, e).take(t.len() as int) == t,
        has_line(with_line(t, e), e),
        forall|f: Seq<char>| has_line(t, f) ==> #[trigger] has_line(with_line(t, e), f),
{
    let t2 = if t.len() > 0 && t.last() != '\n' {
        t.push('\n')
    } else {
        t
    };
    let tail = e + seq!['\n'];
    let w = with_line(t, e);
    assert(w =~= t2 + tail);
    assert(w.take(t.len() as int) =~= t);
    lemma_lines_append(t2, tail);
    lemma_lines_cons(e, Seq::<char>::empty());
    assert(e + seq!['\n'] + Seq::<char>::empty() =~= tail);
    assert(lines(Seq::<char>::empty()).len() == 0);
    assert(lines(tail) =~= seq![e]);
    let lw = lines(w);
    assert(lw =~= lines(t2) + seq![e]);
    assert(lw[lines(t2).len() as int] == e);
    assert(trim(lw[lines(t2).len() as int]) == e);
    if t.len() > 0 && t.last() != '\n' {
        lemma_lines_push_newline(t);
    }
    assert forall|f: Seq<char>| has_line(t, f) implies #[trigger] has_line(w, f) by {
        let lt = lines(t);
        let i = choose|i: int| 0 <= i < lt.len() && trim(#[trigger] lt[i]) == f;
        if t.len() > 0 && t.last() != '\n' && i == lt.len() - 1 {
            assert(lw[i] == strip_cr(lt[i]));
            lemma_trim_strip_cr(lt[i]);
        } else {
            assert(lw[i] == lt[i]);
        }
    }
}

proof fn lemma_gitignore_with(x: Seq<char>, es: Seq<Seq<char>>)
    requires
        forall|k: int| 0 <= k < es.len() ==> plain_entry(#[trigger] es[k]),
    ensures
        forall|k: int| 0 <= k < es.len() ==> has_line(gitignore_with(x, es), #[trigger] es[k]),
        forall|f: Seq<char>| has_line(x, f) ==> #[trigger] has_line(gitignore_with(x, es), f),
        gitignore_with(x, es).len() >= x.len(),
        gitignore_with(x, es).take(x.len() as int) == x,
    decreases es.len(),
{
    if es.len() == 0 {
        assert(x.take(x.len() as int) =~= x);
    } else {
        let init = es.drop_last();
        let e = es.last();
        assert forall|k: int| 0 <= k < init.len() implies plain_entry(#[trigger] init[k]) by {
            assert(init[k] == es[k]);
        }
        lemma_gitignore_with(x, init);
        let before = gitignore_with(x, init);
        assert(plain_entry(es[es.len() - 1]));
        if !has_line(x, e) {
            lemma_with_line(before, e);
            let w = with_line(before, e);
            assert(w.take(x.len() as int) =~= before.take(x.len() as int)) by {
                assert forall|k: int| 0 <= k < x.len() implies w[k] == before[k] by {
                    assert(w.take(before.len() as int)[k] == w[k]);
                }
            }
        }
        assert forall|k: int| 0 <= k < es.len() implies has_line(
            gitignore_with(x, es),
            #[trigger] es[k],
        ) by {
            if k < es.len() - 1 {
                assert(es[k] == init[k]);
                assert(has_line(before, init[k]));
            }
        }
    }
}

proof fn lemma_gitignore_with_present(y: Seq<char>, es: Seq<Seq<char>>)
    requires
        forall|k: int| 0 <= k < es.len() ==> has_line(y, #[trigger] es[k]),
    ensures
        gitignore_with(y, es) == y,
    decreases es.len(),
{
    if es.len() > 0 {
        let init = es.drop_last();
        assert forall|k: int| 0 <= k < init.len() implies has_line(y, #[trigger] init[k]) by {
            assert(init[k] == es[k]);
        }
        lemma_gitignore_with_present(y, init);
        assert(has_line(y, es[es.len() - 1]));
    }
}

proof fn lemma_gitignore_entries_plain()
    ensures
        forall|k: int| 0 <= k < gitignore_entries().len() ==> plain_entry(#[trigger] gitignore_entries()[k]),
{
    reveal_strlit(".env");
    reveal_strlit(".env.*");
    reveal_strlit("!.env.example");
    let es = gitignore_entries();
    assert forall|k: int| 0 <= k < es.len() implies plain_entry(#[trigger] es[k]) by {
        let e = es[k];
        assert forall|j: int| 0 <= j < e.len() implies e[j] != '\n' by {
            assert(e[j] == '.' || e[j] == 'e' || e[j] == 'n' || e[j] == 'v' || e[j] == '*'
                || e[j] == '!' || e[j] == 'x' || e[j] == 'a' || e[j] == 'm' || e[j] == 'p'
                || e[j] == 'l');
        }
        assert(trim(e) == e);
    }
}

/// Updating a `.gitignore` keeps `.env` files out of git: afterwards each of
/// `.env`, `.env.*` and `!.env.example` is a line of the text, every line
/// the text held before is still there, and the old text stands unchanged
/// at its start.
pub proof fn lemma_gitignore_update_covers(existing: Seq<char>)
    ensures
        forall|k: int|
            0 <= k < gitignore_entries().len() ==> has_line(
                gitignore_with(existing, gitignore_entries()),
                #[trigger] gitignore_entries()[k],
            ),
        forall|f: Seq<char>|
            has_line(existing, f) ==> #[trigger] has_line(
                gitignore_with(existing, gitignore_entries()),
                f,
            ),
        gitignore_with(existing, gitignore_entries()).take(existing.len() as int) == existing,
{
    lemma_gitignore_entries_plain();
    lemma_gitignore_with(existing, gitignore_entries());
}

/// Updating a `.gitignore` a second time changes nothing.
pub proof fn lemma_gitignore_update_idempotent(existing: Seq<char>)
    ensures
        gitignore_with(gitignore_with(existing, gitignore_entries()), gitignore_entries())
            == gitignore_with(existing, gitignore_entries()),
{
    lemma_gitignore_update_covers(existing);
    lemma_gitignore_with_present(
        gitignore_with(existing, gitignore_entries()),
        gitignore_entries(),
    );
}

} // verus!
