//! Input validation for secret keys, values and member names.
use vstd::prelude::*;

use crate::error::{unit_view, Error, Fault, ValidationError};
use crate::text::{chars_of, decimal, decimal_string, push_char};

verus! {

/// An ASCII decimal digit.
pub open spec fn is_digit(c: char) -> bool {
    '0' <= c <= '9'
}

/// An ASCII upper-case letter.
pub open spec fn is_upper(c: char) -> bool {
    'A' <= c <= 'Z'
}

/// An ASCII lower-case letter.
pub open spec fn is_lower(c: char) -> bool {
    'a' <= c <= 'z'
}

/// A character allowed in a secret key: A-Z, 0-9 or underscore.
pub open spec fn is_key_char(c: char) -> bool {
    is_upper(c) || is_digit(c) || c == '_'
}

/// A valid secret key: non-empty, only A-Z, 0-9 and underscore, not starting with a digit.
pub open spec fn valid_key(s: Seq<char>) -> bool {
    &&& s.len() > 0
    &&& !is_digit(s[0])
    &&& forall|i: int| 0 <= i < s.len() ==> is_key_char(#[trigger] s[i])
}

/// Which characters a name may hold.
pub enum CharRule {
    /// Secret keys.
    Key,
    /// Team member names.
    Member,
}

/// A character allowed in a team member name: A-Z, a-z, 0-9, `_`, `-`, `.`, `@`.
pub open spec fn is_member_char(c: char) -> bool {
    is_upper(c) || is_lower(c) || is_digit(c) || c == '_' || c == '-' || c == '.' || c == '@'
}

/// Whether `c` is allowed under `kind`.
pub open spec fn allowed_by(kind: CharRule, c: char) -> bool {
    match kind {
        CharRule::Key => is_key_char(c),
        CharRule::Member => is_member_char(c),
    }
}

/// Index of the first character of `s` that `kind` does not allow, or `s.len()`.
pub open spec fn first_failing(s: Seq<char>, kind: CharRule) -> nat
    decreases s.len(),
{
    if s.len() == 0 {
        0
    } else if !allowed_by(kind, s[0]) {
        0
    } else {
        1 + first_failing(s.drop_first(), kind)
    }
}

/// What `first_failing` is.
pub proof fn lemma_first_failing(s: Seq<char>, kind: CharRule)
    ensures
        first_failing(s, kind) <= s.len(),
        first_failing(s, kind) < s.len() ==> !allowed_by(kind, s[first_failing(s, kind) as int]),
        forall|k: int| 0 <= k < first_failing(s, kind) ==> allowed_by(kind, #[trigger] s[k]),
    decreases s.len(),
{
    if s.len() > 0 && allowed_by(kind, s[0]) {
        lemma_first_failing(s.drop_first(), kind);
        assert forall|k: int| 0 <= k < first_failing(s, kind) implies allowed_by(kind, #[trigger] s[k]) by {
            if k > 0 {
                assert(s[k] == s.drop_first()[k - 1]);
            }
        }
    }
}

proof fn lemma_first_failing_at(s: Seq<char>, kind: CharRule, i: int)
    requires
        0 <= i <= s.len(),
        forall|k: int| 0 <= k < i ==> allowed_by(kind, #[trigger] s[k]),
        i < s.len() ==> !allowed_by(kind, s[i]),
    ensures
        first_failing(s, kind) == i,
{
    lemma_first_failing(s, kind);
    if first_failing(s, kind) < i {
        assert(allowed_by(kind, s[first_failing(s, kind) as int]));
    }
    if first_failing(s, kind) > i {
        assert(allowed_by(kind, s[i]));
    }
}

/// The reason given for a character that is not allowed at 1-based position `pos`.
pub open spec fn bad_char_reason(c: char, pos: nat, allowed: Seq<char>) -> Seq<char> {
    "invalid character '"@ + seq![c] + "' at position "@ + decimal(pos) + allowed
}

/// What the key rule allows, as stated in error messages.
pub open spec fn key_rule_text() -> Seq<char> {
    ". Only A-Z, 0-9, and underscore are allowed"@
}

/// What the member name rule allows, as stated in error messages.
pub open spec fn member_rule_text() -> Seq<char> {
    ". Allowed: A-Z, a-z, 0-9, _, -, ., @"@
}

fn bad_char_message(c: char, pos: usize, allowed: &str) -> (r: String)
    ensures
        r@ == bad_char_reason(c, pos as nat, allowed@),
{
    let mut r = String::from_str("invalid character '");
    push_char(&mut r, c);
    r.append("' at position ");
    let d = decimal_string(pos);
    r.append(d.as_str());
    r.append(allowed);
    r
}

/// The outcome of validating a secret key.
pub open spec fn key_check(key: Seq<char>) -> Result<(), Fault> {
    if key.len() == 0 {
        Err(Fault::EmptyKey)
    } else if is_digit(key[0]) {
        Err(Fault::InvalidKey(key, "cannot start with a digit"@))
    } else {
        let i = first_failing(key, CharRule::Key);
        if i < key.len() {
            Err(Fault::InvalidKey(key, bad_char_reason(key[i as int], i + 1, key_rule_text())))
        } else {
            Ok(())
        }
    }
}

/// The outcome of validating a secret value.
pub open spec fn value_check(key: Seq<char>, value: Seq<char>) -> Result<(), Fault> {
    if value.len() == 0 {
        Err(Fault::EmptyValue(key))
    } else {
        Ok(())
    }
}

/// Validate a secret key name.
///
/// Secret keys must be valid environment variable names: only A-Z, 0-9 and
/// underscore, not starting with a digit, and not empty.
pub fn validate_key(key: &str) -> (r: Result<(), Error>)
    ensures
        unit_view(r) == key_check(key@),
        r is Ok <==> valid_key(key@),
{
    let cs = chars_of(key);
    if cs.len() == 0 {
        return Err(Error::Validation(ValidationError::EmptyKey));
    }
    let first = cs[0];
    if '0' <= first && first <= '9' {
        return Err(
            Error::Validation(
                ValidationError::InvalidKey {
                    key: String::from_str(key),
                    reason: String::from_str("cannot start with a digit"),
                },
            ),
        );
    }
    let mut i: usize = 0;
    while i < cs.len()
        invariant
            cs@ == key@,
            key@.len() > 0,
            !is_digit(key@[0]),
            i <= cs@.len(),
            forall|k: int| 0 <= k < i ==> is_key_char(#[trigger] cs@[k]),
        decreases cs@.len() - i,
    {
        let c = cs[i];
        if !(('A' <= c && c <= 'Z') || ('0' <= c && c <= '9') || c == '_') {
            proof {
                lemma_first_failing_at(key@, CharRule::Key, i as int);
            }
            assert(!is_key_char(key@[i as int]));
            let reason = bad_char_message(c, i + 1, ". Only A-Z, 0-9, and underscore are allowed");
            return Err(
                Error::Validation(ValidationError::InvalidKey { key: String::from_str(key), reason }),
            );
        }
        i = i + 1;
    }
    proof {
        lemma_first_failing_at(key@, CharRule::Key, i as int);
    }
    Ok(())
}

/// Validate a secret value: it cannot be empty.
pub fn validate_value(key: &str, value: &str) -> (r: Result<(), Error>)
    ensures
        unit_view(r) == value_check(key@, value@),
{
    if value.is_empty() {
        return Err(Error::Validation(ValidationError::EmptyValue(String::from_str(key))));
    }
    Ok(())
}

} // verus!

verus! {

/// The outcome of validating a team member name.
pub open spec fn member_check(name: Seq<char>) -> Result<(), Fault> {
    if name.len() == 0 {
        Err(Fault::InvalidMemberName(name, "cannot be empty"@))
    } else if vstd::utf8::encode_utf8(name).len() > 64 {
        Err(Fault::InvalidMemberName(name, "must be at most 64 characters"@))
    } else if name[0] == '.' {
        Err(Fault::InvalidMemberName(name, "cannot start with '.'"@))
    } else {
        let i = first_failing(name, CharRule::Member);
        if i < name.len() {
            Err(
                Fault::InvalidMemberName(
                    name,
                    bad_char_reason(name[i as int], i + 1, member_rule_text()),
                ),
            )
        } else {
            Ok(())
        }
    }
}

/// Validate a team member name.
///
/// Names appear in output and in request-file paths, so they must be
/// non-empty, at most 64 bytes, not start with '.', and hold only
/// A-Z, a-z, 0-9, `_`, `-`, `.` and `@`.
pub fn validate_member_name(name: &str) -> (r: Result<(), Error>)
    ensures
        unit_view(r) == member_check(name@),
{
    let cs = chars_of(name);
    if cs.len() == 0 {
        return Err(
            Error::Validation(
                ValidationError::InvalidMemberName {
                    name: String::from_str(name),
                    reason: String::from_str("cannot be empty"),
                },
            ),
        );
    }
    if name.as_bytes().len() > 64 {
        return Err(
            Error::Validation(
                ValidationError::InvalidMemberName {
                    name: String::from_str(name),
                    reason: String::from_str("must be at most 64 characters"),
                },
            ),
        );
    }
    if cs[0] == '.' {
        return Err(
            Error::Validation(
                ValidationError::InvalidMemberName {
                    name: String::from_str(name),
                    reason: String::from_str("cannot start with '.'"),
                },
            ),
        );
    }
    let mut i: usize = 0;
    while i < cs.len()
        invariant
            cs@ == name@,
            name@.len() > 0,
            vstd::utf8::encode_utf8(name@).len() <= 64,
            name@[0] != '.',
            i <= cs@.len(),
            forall|k: int| 0 <= k < i ==> is_member_char(#[trigger] cs@[k]),
        decreases cs@.len() - i,
    {
        let c = cs[i];
        if !(('A' <= c && c <= 'Z') || ('a' <= c && c <= 'z') || ('0' <= c && c <= '9') || c
            == '_' || c == '-' || c == '.' || c == '@') {
            proof {
                lemma_first_failing_at(name@, CharRule::Member, i as int);
            }
            let reason = bad_char_message(c, i + 1, ". Allowed: A-Z, a-z, 0-9, _, -, ., @");
            return Err(
                Error::Validation(
                    ValidationError::InvalidMemberName { name: String::from_str(name), reason },
                ),
            );
        }
        i = i + 1;
    }
    proof {
        lemma_first_failing_at(name@, CharRule::Member, i as int);
    }
    Ok(())
}

/// An accepted member name is safe in a file path: it holds no path
/// separator, and does not start with `.`.
pub proof fn lemma_member_name_path_safe(name: Seq<char>)
    requires
        member_check(name) is Ok,
    ensures
        !name.contains('/'),
        !name.contains('\\'),
        name.len() > 0 && name[0] != '.',
{
    lemma_first_failing(name, CharRule::Member);
    assert forall|i: int| 0 <= i < name.len() implies is_member_char(#[trigger] name[i]) by {
        assert(allowed_by(CharRule::Member, name[i]));
    }
    if name.contains('/') {
        let j = choose|j: int| 0 <= j < name.len() && name[j] == '/';
        assert(is_member_char(name[j]));
    }
    if name.contains('\\') {
        let j = choose|j: int| 0 <= j < name.len() && name[j] == '\\';
        assert(is_member_char(name[j]));
    }
}

/// A member name is accepted exactly when it is non-empty, at most 64 bytes
/// long, does not start with `.`, and holds only ASCII letters of either
/// case, digits, `_`, `-`, `.` and `@`.
pub proof fn lemma_member_name_accepted(name: Seq<char>)
    ensures
        member_check(name) is Ok <==> {
            &&& name.len() > 0
            &&& vstd::utf8::encode_utf8(name).len() <= 64
            &&& name[0] != '.'
            &&& forall|i: int|
                0 <= i < name.len() ==> {
                    let c = #[trigger] name[i];
                    ('A' <= c && c <= 'Z') || ('a' <= c && c <= 'z') || ('0' <= c && c <= '9')
                        || c == '_' || c == '-' || c == '.' || c == '@'
                }
        },
{
    lemma_first_failing(name, CharRule::Member);
    if name.len() > 0 && first_failing(name, CharRule::Member) == name.len() {
        assert forall|i: int| 0 <= i < name.len() implies is_member_char(#[trigger] name[i]) by {
            assert(allowed_by(CharRule::Member, name[i]));
        }
    }
    if first_failing(name, CharRule::Member) < name.len() {
        let j = first_failing(name, CharRule::Member) as int;
        assert(!is_member_char(name[j]));
    }
}

} // verus!
