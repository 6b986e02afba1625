//! KMS providers and the hybrid envelope holding age and KMS ciphertexts.
use vstd::prelude::*;

use crate::error::{CipherError, Error};
use crate::text::{contains_str, has_infix, has_prefix, starts_with_str, str_eq};

verus! {

/// Version tag of the hybrid envelope format.
pub const ENVELOPE_V2: &'static str = "dugout-envelope-v2";

/// Supported KMS providers.
#[derive(Debug, Clone, PartialEq, Eq, Structural)]
pub enum KmsProvider {
    Aws,
    Gcp,
}

/// The provider a key identifier names: `arn:aws:kms:...` is AWS,
/// `projects/.../cryptoKeys/...` is GCP.
pub open spec fn detect_provider(key: Seq<char>) -> Option<KmsProvider> {
    if has_prefix(key, "arn:aws:kms:"@) {
        Some(KmsProvider::Aws)
    } else if has_prefix(key, "projects/"@) && has_infix(key, "/cryptoKeys/"@) {
        Some(KmsProvider::Gcp)
    } else {
        None
    }
}

/// A provider's display name.
pub open spec fn provider_name(p: KmsProvider) -> Seq<char> {
    match p {
        KmsProvider::Aws => "aws"@,
        KmsProvider::Gcp => "gcp"@,
    }
}

impl KmsProvider {
    /// Auto-detect the provider from a key identifier.
    pub fn detect(key: &str) -> (r: Option<Self>)
        ensures
            r == detect_provider(key@),
    {
        if starts_with_str(key, "arn:aws:kms:") {
            return Some(KmsProvider::Aws);
        }
        if starts_with_str(key, "projects/") && contains_str(key, "/cryptoKeys/") {
            return Some(KmsProvider::Gcp);
        }
        None
    }

    /// Provider display name.
    pub fn name(&self) -> (s: &'static str)
        ensures
            s@ == provider_name(*self),
    {
        match self {
            KmsProvider::Aws => "aws",
            KmsProvider::Gcp => "gcp",
        }
    }
}

/// A JSON value as the envelope reader distinguishes them.
pub enum JsonValue {
    Text(String),
    Null,
    Other,
}

/// The view of a JSON value.
pub enum JsonValueView {
    Text(Seq<char>),
    Null,
    Other,
}

impl View for JsonValue {
    type V = JsonValueView;

    open spec fn view(&self) -> JsonValueView {
        match self {
            JsonValue::Text(s) => JsonValueView::Text(s@),
            JsonValue::Null => JsonValueView::Null,
            JsonValue::Other => JsonValueView::Other,
        }
    }
}

/// The members of a JSON object, each key with its value's view.
pub type Members = Seq<(Seq<char>, JsonValueView)>;

/// A JSON document as the envelope reader reads it: an object's members, or
/// an array's elements.
pub enum JsonDoc {
    Object(Vec<(String, JsonValue)>),
    Array(Vec<JsonValue>),
}

/// The view of a JSON document.
pub enum JsonDocView {
    Object(Members),
    Array(Seq<JsonValueView>),
}

/// The view of a parsed document.
pub open spec fn doc_view(r: Option<JsonDoc>) -> Option<JsonDocView> {
    match r {
        Some(JsonDoc::Object(ms)) => Some(JsonDocView::Object(members_view(Some(ms))->0)),
        Some(JsonDoc::Array(xs)) => Some(JsonDocView::Array(xs@.map_values(|x: JsonValue| x@))),
        None => None,
    }
}

/// The members of a document that is an object.
pub open spec fn doc_members(d: Option<JsonDocView>) -> Option<Members> {
    match d {
        Some(JsonDocView::Object(ms)) => Some(ms),
        _ => None,
    }
}

/// The view of parsed object members.
pub open spec fn members_view(r: Option<Vec<(String, JsonValue)>>) -> Option<Members> {
    match r {
        Some(v) => Some(v@.map_values(|m: (String, JsonValue)| (m.0@, m.1@))),
        None => None,
    }
}

/// How `serde_json` writes one character inside a string literal: `"` and
/// `\\` behind a backslash, the control characters with a short escape where
/// JSON has one and as `\u00XX` (lowercase hexadecimal) otherwise, anything
/// else as itself.
pub open spec fn json_char(c: char) -> Seq<char> {
    if c == '"' {
        seq!['\\', '"']
    } else if c == '\\' {
        seq!['\\', '\\']
    } else if c == '\u{8}' {
        seq!['\\', 'b']
    } else if c == '\t' {
        seq!['\\', 't']
    } else if c == '\n' {
        seq!['\\', 'n']
    } else if c == '\u{c}' {
        seq!['\\', 'f']
    } else if c == '\r' {
        seq!['\\', 'r']
    } else if (c as u32) < 0x20 {
        seq![
            '\\',
            'u',
            '0',
            '0',
            crate::cipher::kms::hex_digit((c as u32) as int / 16),
            crate::cipher::kms::hex_digit((c as u32) as int % 16),
        ]
    } else {
        seq![c]
    }
}

/// The characters of a string literal's body, each written as `json_char`.
pub open spec fn json_escaped(s: Seq<char>) -> Seq<char>
    decreases s.len(),
{
    if s.len() == 0 {
        Seq::empty()
    } else {
        json_escaped(s.drop_last()) + json_char(s.last())
    }
}

/// The text that `serde_json::to_string` gives for the string `s`: a JSON
/// string literal.
#[verifier::opaque]
pub open spec fn json_quoted(s: Seq<char>) -> Seq<char> {
    seq!['"'] + json_escaped(s) + seq!['"']
}

/// The JSON document that `text` is, as parsed by `serde_json::from_str`
/// into a `serde_json::Value`, when it is an object or an array; `None` for
/// any other text.
pub uninterp spec fn json_document(text: Seq<char>) -> Option<JsonDocView>;

/// The members of a JSON object written member by member: each key and
/// string value as `serde_json::to_string` quotes them, joined by `:`, the
/// members separated by `,`.
pub open spec fn members_text(ps: Seq<(Seq<char>, Seq<char>)>) -> Seq<char>
    decreases ps.len(),
{
    if ps.len() == 0 {
        Seq::empty()
    } else if ps.len() == 1 {
        json_quoted(ps[0].0) + ":"@ + json_quoted(ps[0].1)
    } else {
        members_text(ps.drop_last()) + ","@ + json_quoted(ps.last().0) + ":"@ + json_quoted(
            ps.last().1,
        )
    }
}

/// The JSON object text with string members `ps`, in order.
pub open spec fn object_text(ps: Seq<(Seq<char>, Seq<char>)>) -> Seq<char> {
    "{"@ + members_text(ps) + "}"@
}

/// Whether no key occurs twice.
pub open spec fn distinct_keys(ps: Seq<(Seq<char>, Seq<char>)>) -> bool {
    forall|i: int, j: int| 0 <= i < j < ps.len() ==> #[trigger] ps[i].0 != #[trigger] ps[j].0
}

/// The value of key `k` among string members `ps`, as a JSON value.
pub open spec fn lookup_text(ps: Seq<(Seq<char>, Seq<char>)>, k: Seq<char>) -> Option<JsonValueView>
    decreases ps.len(),
{
    if ps.len() == 0 {
        None
    } else if ps.last().0 == k {
        Some(JsonValueView::Text(ps.last().1))
    } else {
        lookup_text(ps.drop_last(), k)
    }
}

/// Whether `ct`, if it is the sealed text of a current envelope, parses back
/// as that envelope.
pub open spec fn sealed_reads_back(ct: Seq<char>) -> bool {
    forall|e: EnvelopeView|
        #![trigger sealed_text(e)]
        ct == sealed_text(e) && e.version == ENVELOPE_V2@ ==> parse_envelope(ct) == Some(e)
}

/// JSON whitespace.
pub open spec fn is_json_ws(c: char) -> bool {
    c == ' ' || c == '\t' || c == '\n' || c == '\r'
}

/// `serde_json::to_string` of a string slice, which cannot fail: the
/// string in quotes, with `format_escaped_str`'s escapes.
#[verifier::external_body]
fn json_string(s: &str) -> (r: String)
    ensures
        r@ == json_quoted(s@),
{
    serde_json::to_string(s).unwrap()
}

/// Parses `text` with `serde_json::from_str` as a `serde_json::Value` and,
/// for an object or an array, tells each member's or element's value apart
/// as a string, `null`, or anything else. A text that is empty, or whose
/// first character is neither `{`, `[` nor JSON whitespace, is no object or
/// array. Repeated keys keep the last value, as `serde_json::Map` does. An
/// object written with distinct keys and string values, each quoted by
/// `serde_json::to_string`, reads back as those members: the serializer
/// writes standard JSON string escapes, which the parser reads back, and
/// the map keeps one entry per key.
#[verifier::external_body]
fn json_members(text: &str) -> (r: Option<JsonDoc>)
    ensures
        doc_view(r) == json_document(text@),
        r is Some ==> text@.len() > 0 && (text@[0] == '{' || text@[0] == '[' || is_json_ws(text@[0])),
        forall|ps: Seq<(Seq<char>, Seq<char>)>|
            #![trigger object_text(ps)]
            text@ == object_text(ps) && distinct_keys(ps) ==> (doc_members(doc_view(r)) is Some
                && forall|k: Seq<char>| member(doc_members(doc_view(r))->0, k) == lookup_text(ps, k)),
{
    let to = |v: serde_json::Value| match v {
        serde_json::Value::String(s) => JsonValue::Text(s),
        serde_json::Value::Null => JsonValue::Null,
        _ => JsonValue::Other,
    };
    match serde_json::from_str(text).ok()? {
        serde_json::Value::Object(m) => Some(JsonDoc::Object(m.into_iter().map(|(k, v)| (k, to(v))).collect())),
        serde_json::Value::Array(a) => Some(JsonDoc::Array(a.into_iter().map(to).collect())),
        _ => None,
    }
}

/// Hybrid envelope containing both age and KMS ciphertext.
#[derive(Debug)]
pub struct Envelope {
    /// The format version (`dugout-envelope-v2`).
    pub version: String,
    /// Age-encrypted ciphertext (always present).
    pub age: String,
    /// KMS-encrypted ciphertext (present when KMS is configured).
    pub kms: Option<String>,
    /// KMS provider name (`aws` or `gcp`).
    pub provider: Option<String>,
}

/// What an envelope holds.
pub struct EnvelopeView {
    pub version: Seq<char>,
    pub age: Seq<char>,
    pub kms: Option<Seq<char>>,
    pub provider: Option<Seq<char>>,
}

/// The view of an optional string.
pub open spec fn opt_string_view(o: Option<String>) -> Option<Seq<char>> {
    match o {
        Some(s) => Some(s@),
        None => None,
    }
}

impl View for Envelope {
    type V = EnvelopeView;

    open spec fn view(&self) -> EnvelopeView {
        EnvelopeView {
            version: self.version@,
            age: self.age@,
            kms: opt_string_view(self.kms),
            provider: opt_string_view(self.provider),
        }
    }
}

/// An optional member `,"name":<json string>` of a sealed envelope.
pub open spec fn optional_member(name: Seq<char>, v: Option<Seq<char>>) -> Seq<char> {
    match v {
        Some(s) => ","@ + json_quoted(name) + ":"@ + json_quoted(s),
        None => Seq::empty(),
    }
}

/// The JSON text of an envelope: its members in declaration order, the
/// optional ones only when present.
pub open spec fn sealed_text(e: EnvelopeView) -> Seq<char> {
    "{"@ + json_quoted("version"@) + ":"@ + json_quoted(e.version) + ","@ + json_quoted("age"@)
        + ":"@ + json_quoted(e.age) + optional_member("kms"@, e.kms) + optional_member(
        "provider"@,
        e.provider,
    ) + "}"@
}

/// The first member named `k`.
pub open spec fn member(ms: Members, k: Seq<char>) -> Option<JsonValueView>
    decreases ms.len(),
{
    if ms.len() == 0 {
        None
    } else if ms[0].0 == k {
        Some(ms[0].1)
    } else {
        member(ms.drop_first(), k)
    }
}

/// A required string member.
pub open spec fn required_text(v: Option<JsonValueView>) -> Option<Seq<char>> {
    match v {
        Some(JsonValueView::Text(s)) => Some(s),
        _ => None,
    }
}

/// An optional string member: absent or `null` is `Some(None)`, a string is
/// `Some(Some(s))`, anything else does not fit.
pub open spec fn optional_text(v: Option<JsonValueView>) -> Option<Option<Seq<char>>> {
    match v {
        None => Some(None),
        Some(JsonValueView::Null) => Some(None),
        Some(JsonValueView::Text(s)) => Some(Some(s)),
        Some(JsonValueView::Other) => None,
    }
}

/// The envelope that the members of a JSON object describe, if any.
pub open spec fn envelope_from(ms: Members) -> Option<EnvelopeView> {
    match (
        required_text(member(ms, "version"@)),
        required_text(member(ms, "age"@)),
        optional_text(member(ms, "kms"@)),
        optional_text(member(ms, "provider"@)),
    ) {
        (Some(v), Some(a), Some(k), Some(p)) => Some(EnvelopeView { version: v, age: a, kms: k, provider: p }),
        _ => None,
    }
}

/// The envelope that the elements of a JSON array describe, field by field
/// in declaration order: exactly four elements, the first two strings, the
/// last two strings or `null`.
pub open spec fn envelope_from_elements(xs: Seq<JsonValueView>) -> Option<EnvelopeView> {
    if xs.len() != 4 {
        None
    } else {
        match (
            required_text(Some(xs[0])),
            required_text(Some(xs[1])),
            optional_text(Some(xs[2])),
            optional_text(Some(xs[3])),
        ) {
            (Some(v), Some(a), Some(k), Some(p)) => Some(EnvelopeView { version: v, age: a, kms: k, provider: p }),
            _ => None,
        }
    }
}

/// The envelope that a JSON document describes, if any.
pub open spec fn envelope_from_doc(d: Option<JsonDocView>) -> Option<EnvelopeView> {
    match d {
        Some(JsonDocView::Object(ms)) => envelope_from(ms),
        Some(JsonDocView::Array(xs)) => envelope_from_elements(xs),
        None => None,
    }
}

/// What parsing a ciphertext as an envelope gives: an object, or an array
/// of its fields in order, describing an envelope whose version is
/// `dugout-envelope-v2`.
pub open spec fn parse_envelope(ct: Seq<char>) -> Option<EnvelopeView> {
    if ct.len() == 0 || (ct[0] != '{' && ct[0] != '[' && !is_json_ws(ct[0])) {
        None
    } else {
        match envelope_from_doc(json_document(ct)) {
            Some(e) => if e.version == ENVELOPE_V2@ {
                Some(e)
            } else {
                None
            },
            None => None,
        }
    }
}

/// The view of an optional envelope.
pub open spec fn opt_envelope_view(o: Option<Envelope>) -> Option<EnvelopeView> {
    match o {
        Some(e) => Some(e@),
        None => None,
    }
}

/// The first member named `k`.
fn find_member<'a>(ms: &'a Vec<(String, JsonValue)>, k: &str) -> (r: Option<&'a JsonValue>)
    ensures
        match r {
            Some(v) => member(members_view(Some(*ms))->0, k@) == Some(v@),
            None => member(members_view(Some(*ms))->0, k@) is None,
        },
{
    let ghost all = members_view(Some(*ms))->0;
    let mut i: usize = 0;
    assert(all.skip(0) =~= all);
    while i < ms.len()
        invariant
            i <= ms@.len(),
            all == members_view(Some(*ms))->0,
            member(all, k@) == member(all.skip(i as int), k@),
        decreases ms@.len() - i,
    {
        let (name, v) = &ms[i];
        assert(all.skip(i as int).drop_first() =~= all.skip(i + 1));
        assert(all.skip(i as int)[0] == (name@, v@));
        if str_eq(name.as_str(), k) {
            return Some(v);
        }
        i = i + 1;
    }
    None
}

/// A required string member.
fn take_text(v: Option<&JsonValue>) -> (r: Option<String>)
    ensures
        opt_string_view(r) == required_text(
            match v {
                Some(x) => Some(x@),
                None => None,
            },
        ),
{
    match v {
        Some(JsonValue::Text(s)) => Some(s.clone()),
        _ => None,
    }
}

/// An optional string member.
fn take_optional_text(v: Option<&JsonValue>) -> (r: Option<Option<String>>)
    ensures
        match (
            r,
            optional_text(
                match v {
                    Some(x) => Some(x@),
                    None => None,
                },
            ),
        ) {
            (Some(a), Some(b)) => opt_string_view(a) == b,
            (None, None) => true,
            _ => false,
        },
{
    match v {
        None => Some(None),
        Some(JsonValue::Null) => Some(None),
        Some(JsonValue::Text(s)) => Some(Some(s.clone())),
        Some(JsonValue::Other) => None,
    }
}

impl Envelope {
    /// Create a new hybrid envelope.
    pub fn new(
        age_ciphertext: String,
        kms_ciphertext: Option<String>,
        provider: Option<&KmsProvider>,
    ) -> (e: Self)
        ensures
            e@.version == ENVELOPE_V2@,
            e@.age == age_ciphertext@,
            e@.kms == opt_string_view(kms_ciphertext),
            e@.provider == (match provider {
                Some(p) => Some(provider_name(*p)),
                None => None,
            }),
    {
        Envelope {
            version: String::from_str(ENVELOPE_V2),
            age: age_ciphertext,
            kms: kms_ciphertext,
            provider: match provider {
                Some(p) => Some(String::from_str(p.name())),
                None => None,
            },
        }
    }

    /// Serialize the envelope to its JSON text.
    pub fn seal(&self) -> (r: Result<String, Error>)
        ensures
            r matches Ok(s) && s@ == sealed_text(self@),
    {
        let mut s = String::from_str("{");
        s.append(json_string("version").as_str());
        s.append(":");
        s.append(json_string(self.version.as_str()).as_str());
        s.append(",");
        s.append(json_string("age").as_str());
        s.append(":");
        s.append(json_string(self.age.as_str()).as_str());
        let ghost head = s@;
        if let Some(k) = &self.kms {
            s.append(",");
            s.append(json_string("kms").as_str());
            s.append(":");
            s.append(json_string(k.as_str()).as_str());
        }
        assert(s@ == head + optional_member("kms"@, opt_string_view(self.kms)));
        let ghost mid = s@;
        if let Some(p) = &self.provider {
            s.append(",");
            s.append(json_string("provider").as_str());
            s.append(":");
            s.append(json_string(p.as_str()).as_str());
        }
        assert(s@ == mid + optional_member("provider"@, opt_string_view(self.provider)));
        s.append("}");
        Ok(s)
    }

    /// Try to parse a ciphertext as an envelope, written as a JSON object or
    /// as an array of its four fields in order; `None` for anything else,
    /// such as raw age ciphertext. An object that names a member twice is
    /// read with the last value given for it.
    pub fn parse(ciphertext: &str) -> (r: Option<Self>)
        ensures
            opt_envelope_view(r) == parse_envelope(ciphertext@),
            sealed_reads_back(ciphertext@),
    {
        let jm = json_members(ciphertext);
        proof {
            assert forall|e: EnvelopeView|
                #![trigger sealed_text(e)]
                ciphertext@ == sealed_text(e) && e.version == ENVELOPE_V2@ implies parse_envelope(
                    ciphertext@,
                ) == Some(e) by {
                lemma_sealed_object(e);
                let ps = envelope_pairs(e);
                assert(ciphertext@ == object_text(ps));
                let ms = doc_members(doc_view(jm))->0;
                assert(member(ms, "version"@) == lookup_text(ps, "version"@));
                assert(member(ms, "age"@) == lookup_text(ps, "age"@));
                assert(member(ms, "kms"@) == lookup_text(ps, "kms"@));
                assert(member(ms, "provider"@) == lookup_text(ps, "provider"@));
                assert(ciphertext@[0] == '{');
            }
        }
        let fields = match jm {
            Some(JsonDoc::Object(ms)) => (
                take_text(find_member(&ms, "version")),
                take_text(find_member(&ms, "age")),
                take_optional_text(find_member(&ms, "kms")),
                take_optional_text(find_member(&ms, "provider")),
            ),
            Some(JsonDoc::Array(xs)) => {
                if xs.len() != 4 {
                    return None;
                }
                (
                    take_text(Some(&xs[0])),
                    take_text(Some(&xs[1])),
                    take_optional_text(Some(&xs[2])),
                    take_optional_text(Some(&xs[3])),
                )
            },
            None => return None,
        };
        match fields {
            (Some(v), Some(a), Some(k), Some(p)) => {
                if str_eq(v.as_str(), ENVELOPE_V2) {
                    Some(Envelope { version: v, age: a, kms: k, provider: p })
                } else {
                    None
                }
            },
            _ => None,
        }
    }

    /// Whether a ciphertext looks like an envelope (vs raw age): it starts
    /// with `{` and mentions the envelope version.
    pub fn is_envelope(ciphertext: &str) -> (b: bool)
        ensures
            b == (has_prefix(ciphertext@, "{"@) && has_infix(ciphertext@, ENVELOPE_V2@)),
    {
        starts_with_str(ciphertext, "{") && contains_str(ciphertext, ENVELOPE_V2)
    }

    /// The version tag.
    pub fn version(&self) -> (v: &str)
        ensures
            v@ == self@.version,
    {
        self.version.as_str()
    }
}

/// The members an envelope is written with, in order.
pub open spec fn envelope_pairs(e: EnvelopeView) -> Seq<(Seq<char>, Seq<char>)> {
    let base = seq![("version"@, e.version)].push(("age"@, e.age));
    let withk = match e.kms {
        Some(k) => base.push(("kms"@, k)),
        None => base,
    };
    match e.provider {
        Some(p) => withk.push(("provider"@, p)),
        None => withk,
    }
}

proof fn lemma_members_text_push(ps: Seq<(Seq<char>, Seq<char>)>, k: Seq<char>, v: Seq<char>)
    requires
        ps.len() >= 1,
    ensures
        members_text(ps.push((k, v))) == members_text(ps) + ","@ + json_quoted(k) + ":"@ + json_quoted(v),
{
    assert(ps.push((k, v)).drop_last() =~= ps);
}

proof fn lemma_lookup_push(ps: Seq<(Seq<char>, Seq<char>)>, k: Seq<char>, v: Seq<char>, x: Seq<char>)
    ensures
        lookup_text(ps.push((k, v)), x) == (if k == x {
            Some(JsonValueView::Text(v))
        } else {
            lookup_text(ps, x)
        }),
{
    assert(ps.push((k, v)).drop_last() =~= ps);
}

/// The four member names differ from one another.
proof fn lemma_member_names_differ()
    ensures
        "version"@ != "age"@,
        "version"@ != "kms"@,
        "version"@ != "provider"@,
        "age"@ != "kms"@,
        "age"@ != "provider"@,
        "kms"@ != "provider"@,
{
    reveal_strlit("version");
    reveal_strlit("age");
    reveal_strlit("kms");
    reveal_strlit("provider");
    assert("version"@.len() != "age"@.len());
    assert("version"@.len() != "kms"@.len());
    assert("version"@.len() != "provider"@.len());
    assert("age"@[0] != "kms"@[0]);
    assert("age"@.len() != "provider"@.len());
    assert("kms"@.len() != "provider"@.len());
}

/// The member text of an envelope's pairs is that of a sealed envelope.
#[verifier::spinoff_prover]
#[verifier::rlimit(40)]
proof fn lemma_sealed_members(e: EnvelopeView)
    ensures
        sealed_text(e) == object_text(envelope_pairs(e)),
{
    let one = seq![("version"@, e.version)];
    let base = one.push(("age"@, e.age));
    assert(members_text(one) == json_quoted("version"@) + ":"@ + json_quoted(e.version));
    lemma_members_text_push(one, "age"@, e.age);
    let withk = match e.kms {
        Some(k) => base.push(("kms"@, k)),
        None => base,
    };
    if let Some(k) = e.kms {
        lemma_members_text_push(base, "kms"@, k);
    }
    assert(members_text(withk) =~= members_text(base) + optional_member("kms"@, e.kms));
    if let Some(p) = e.provider {
        lemma_members_text_push(withk, "provider"@, p);
    }
    assert(members_text(envelope_pairs(e)) =~= members_text(withk) + optional_member(
        "provider"@,
        e.provider,
    ));
    assert(sealed_text(e) =~= object_text(envelope_pairs(e)));
}

/// Each member name of an envelope looks up its field.
proof fn lemma_envelope_lookups(e: EnvelopeView)
    ensures
        lookup_text(envelope_pairs(e), "version"@) == Some(JsonValueView::Text(e.version)),
        lookup_text(envelope_pairs(e), "age"@) == Some(JsonValueView::Text(e.age)),
        lookup_text(envelope_pairs(e), "kms"@) == match e.kms {
            Some(k) => Some(JsonValueView::Text(k)),
            None => None::<JsonValueView>,
        },
        lookup_text(envelope_pairs(e), "provider"@) == match e.provider {
            Some(p) => Some(JsonValueView::Text(p)),
            None => None::<JsonValueView>,
        },
{
    lemma_member_names_differ();
    let empty = Seq::<(Seq<char>, Seq<char>)>::empty();
    let one = seq![("version"@, e.version)];
    assert(one =~= empty.push(("version"@, e.version)));
    let base = one.push(("age"@, e.age));
    let withk = match e.kms {
        Some(k) => base.push(("kms"@, k)),
        None => base,
    };
    let ps = envelope_pairs(e);
    let names = seq!["version"@, "age"@, "kms"@, "provider"@];
    assert forall|x: Seq<char>| names.contains(x) implies lookup_text(ps, x) == (if x == "version"@ {
        Some(JsonValueView::Text(e.version))
    } else if x == "age"@ {
        Some(JsonValueView::Text(e.age))
    } else if x == "kms"@ {
        match e.kms {
            Some(k) => Some(JsonValueView::Text(k)),
            None => None::<JsonValueView>,
        }
    } else {
        match e.provider {
            Some(p) => Some(JsonValueView::Text(p)),
            None => None::<JsonValueView>,
        }
    }) by {
        lemma_lookup_push(empty, "version"@, e.version, x);
        lemma_lookup_push(one, "age"@, e.age, x);
        if let Some(k) = e.kms {
            lemma_lookup_push(base, "kms"@, k, x);
        }
        if let Some(p) = e.provider {
            lemma_lookup_push(withk, "provider"@, p, x);
        }
    }
    assert(names[0] == "version"@ && names[1] == "age"@ && names[2] == "kms"@ && names[3]
        == "provider"@);
}

/// The member names of an envelope are distinct.
proof fn lemma_envelope_distinct(e: EnvelopeView)
    ensures
        distinct_keys(envelope_pairs(e)),
{
    lemma_member_names_differ();
    let ps = envelope_pairs(e);
    let base = seq![("version"@, e.version)].push(("age"@, e.age));
    assert(base[0].0 == "version"@ && base[1].0 == "age"@);
    let withk = match e.kms {
        Some(k) => base.push(("kms"@, k)),
        None => base,
    };
    assert forall|i: int, j: int| 0 <= i < j < ps.len() implies #[trigger] ps[i].0
        != #[trigger] ps[j].0 by {
        assert(ps[i].0 == "version"@ || ps[i].0 == "age"@ || ps[i].0 == "kms"@ || ps[i].0
            == "provider"@);
        if i == 0 {
            assert(ps[i].0 == "version"@);
        } else if i == 1 {
            assert(ps[i].0 == "age"@);
        }
        if e.kms is Some && i == 2 {
            assert(ps[i].0 == "kms"@);
        }
    }
}

/// A sealed envelope is the object text of its members, whose keys are
/// distinct, and each key looks up its field.
proof fn lemma_sealed_object(e: EnvelopeView)
    ensures
        sealed_text(e) == object_text(envelope_pairs(e)),
        distinct_keys(envelope_pairs(e)),
        sealed_text(e)[0] == '{',
        lookup_text(envelope_pairs(e), "version"@) == Some(JsonValueView::Text(e.version)),
        lookup_text(envelope_pairs(e), "age"@) == Some(JsonValueView::Text(e.age)),
        lookup_text(envelope_pairs(e), "kms"@) == match e.kms {
            Some(k) => Some(JsonValueView::Text(k)),
            None => None::<JsonValueView>,
        },
        lookup_text(envelope_pairs(e), "provider"@) == match e.provider {
            Some(p) => Some(JsonValueView::Text(p)),
            None => None::<JsonValueView>,
        },
{
    reveal_strlit("{");
    lemma_sealed_members(e);
    lemma_envelope_lookups(e);
    lemma_envelope_distinct(e);
}

} // verus!
