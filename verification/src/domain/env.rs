//! The `.env` file format: parsing, serialization, and typed access.
use vstd::prelude::*;

use crate::strmap::pairs_view;
use crate::text::{
    chars_of, find_char, first_index, is_whitespace, is_ws, lemma_first_index,
    lemma_first_index_at, lemma_lines_cons, lines, lines_of, push_char, slice_chars, split_once, str_eq, string_of,
    strip_cr, trim, trim_chars, trim_end, trim_start, vecs_view,
};
use crate::validation::{is_key_char, valid_key};

verus! {

/// The characters an escaped character is written as inside double quotes.
pub open spec fn escape_char(c: char) -> Seq<char> {
    if c == '\\' {
        seq!['\\', '\\']
    } else if c == '"' {
        seq!['\\', '"']
    } else if c == '\n' {
        seq!['\\', 'n']
    } else if c == '\r' {
        seq!['\\', 'r']
    } else {
        seq![c]
    }
}

/// A value escaped for writing inside double quotes.
pub open spec fn escape(s: Seq<char>) -> Seq<char>
    decreases s.len(),
{
    if s.len() == 0 {
        Seq::empty()
    } else {
        escape_char(s[0]) + escape(s.drop_first())
    }
}

/// The inside of a double-quoted value with its escapes resolved:
/// `\n`, `\r`, `\"` and `\\` stand for one character; any other
/// backslash is kept as it is.
pub open spec fn unescape(s: Seq<char>) -> Seq<char>
    decreases s.len(),
{
    if s.len() == 0 {
        Seq::empty()
    } else if s[0] != '\\' {
        seq![s[0]] + unescape(s.drop_first())
    } else if s.len() == 1 {
        seq!['\\']
    } else {
        let c = s[1];
        let head = if c == 'n' {
            seq!['\n']
        } else if c == 'r' {
            seq!['\r']
        } else if c == '"' {
            seq!['"']
        } else if c == '\\' {
            seq!['\\']
        } else {
            seq!['\\', c]
        };
        head + unescape(s.skip(2))
    }
}

/// A raw value with surrounding quotes removed: double quotes with escapes
/// resolved, single quotes taken literally.
pub open spec fn parse_value(raw: Seq<char>) -> Seq<char> {
    if raw.len() >= 2 && raw[0] == '"' && raw.last() == '"' {
        unescape(raw.subrange(1, raw.len() - 1))
    } else if raw.len() >= 2 && raw[0] == '\'' && raw.last() == '\'' {
        raw.subrange(1, raw.len() - 1)
    } else {
        raw
    }
}

/// Whether a value must be written in double quotes: it is empty, or holds
/// whitespace, `#`, `=`, a quote or a backslash.
pub open spec fn needs_quotes(v: Seq<char>) -> bool {
    ||| v.len() == 0
    ||| exists|i: int| 0 <= i < v.len() && is_ws(#[trigger] v[i])
    ||| v.contains('#')
    ||| v.contains('=')
    ||| v.contains('"')
    ||| v.contains('\'')
    ||| v.contains('\\')
}

/// How a value is written.
pub open spec fn encode_value(v: Seq<char>) -> Seq<char> {
    if needs_quotes(v) {
        seq!['"'] + escape(v) + seq!['"']
    } else {
        v
    }
}

/// The line written for one entry (without its newline).
pub open spec fn env_line(k: Seq<char>, v: Seq<char>) -> Seq<char> {
    k + seq!['='] + encode_value(v)
}

/// The `.env` text of a list of entries: one `KEY=value` line each.
pub open spec fn env_text(ps: Seq<(Seq<char>, Seq<char>)>) -> Seq<char>
    decreases ps.len(),
{
    if ps.len() == 0 {
        Seq::empty()
    } else {
        env_line(ps[0].0, ps[0].1) + seq!['\n'] + env_text(ps.drop_first())
    }
}

/// The entry a line holds, if any: blank lines, comments (`#`) and lines
/// without `=` hold none.
pub open spec fn parse_line(line: Seq<char>) -> Option<(Seq<char>, Seq<char>)> {
    let t = trim(line);
    if t.len() == 0 || t[0] == '#' {
        None
    } else {
        match split_once(t, '=') {
            Some((k, v)) => Some((trim(k), parse_value(trim(v)))),
            None => None,
        }
    }
}

/// The entries a list of lines holds, in order.
pub open spec fn parse_lines(ls: Seq<Seq<char>>) -> Seq<(Seq<char>, Seq<char>)>
    decreases ls.len(),
{
    if ls.len() == 0 {
        Seq::empty()
    } else {
        match parse_line(ls[0]) {
            Some(p) => seq![p] + parse_lines(ls.drop_first()),
            None => parse_lines(ls.drop_first()),
        }
    }
}

/// The entries of a `.env` text.
pub open spec fn parse_env(text: Seq<char>) -> Seq<(Seq<char>, Seq<char>)> {
    parse_lines(lines(text))
}

// ---------------------------------------------------------------------------
// Executable parts
// ---------------------------------------------------------------------------

fn unescape_double_quoted(v: &[char]) -> (r: Vec<char>)
    ensures
        r@ == unescape(v@),
{
    let mut out: Vec<char> = Vec::new();
    let mut i: usize = 0;
    assert(v@.skip(0) =~= v@);
    assert(out@ + unescape(v@) =~= unescape(v@));
    while i < v.len()
        invariant
            i <= v@.len(),
            out@ + unescape(v@.skip(i as int)) == unescape(v@),
        decreases v@.len() - i,
    {
        let ghost s = v@.skip(i as int);
        let ghost old_out = out@;
        let ch = v[i];
        if ch != '\\' {
            out.push(ch);
            proof {
                assert(s.drop_first() =~= v@.skip(i + 1));
                assert(out@ + unescape(v@.skip(i + 1)) =~= old_out + unescape(s));
            }
            i = i + 1;
        } else if i + 1 == v.len() {
            out.push('\\');
            proof {
                assert(v@.skip(i + 1) =~= Seq::<char>::empty());
                assert(out@ + unescape(v@.skip(i + 1)) =~= old_out + unescape(s));
            }
            i = i + 1;
        } else {
            let n = v[i + 1];
            if n == 'n' {
                out.push('\n');
            } else if n == 'r' {
                out.push('\r');
            } else if n == '"' {
                out.push('"');
            } else if n == '\\' {
                out.push('\\');
            } else {
                out.push('\\');
                out.push(n);
            }
            proof {
                assert(s[1] == n);
                assert(s.skip(2) =~= v@.skip(i + 2));
                assert(out@ + unescape(v@.skip(i + 2)) =~= old_out + unescape(s));
            }
            i = i + 2;
        }
    }
    proof {
        assert(v@.skip(i as int) =~= Seq::<char>::empty());
        assert(out@ + Seq::<char>::empty() =~= out@);
    }
    out
}

fn parse_env_value(raw: &[char]) -> (r: Vec<char>)
    ensures
        r@ == parse_value(raw@),
{
    let n = raw.len();
    if n >= 2 && raw[0] == '"' && raw[n - 1] == '"' {
        let inner = slice_chars(raw, 1, n - 1);
        return unescape_double_quoted(inner.as_slice());
    }
    if n >= 2 && raw[0] == '\'' && raw[n - 1] == '\'' {
        return slice_chars(raw, 1, n - 1);
    }
    slice_chars(raw, 0, n)
}

/// Whether a value must be written in double quotes.
fn value_needs_quotes(v: &[char]) -> (b: bool)
    ensures
        b == needs_quotes(v@),
{
    if v.len() == 0 {
        return true;
    }
    let mut i: usize = 0;
    while i < v.len()
        invariant
            i <= v@.len(),
            forall|k: int|
                0 <= k < i ==> !is_ws(#[trigger] v@[k]) && v@[k] != '#' && v@[k] != '=' && v@[k]
                    != '"' && v@[k] != '\'' && v@[k] != '\\',
        decreases v@.len() - i,
    {
        let c = v[i];
        if is_whitespace(c) || c == '#' || c == '=' || c == '"' || c == '\'' || c == '\\' {
            assert(v@[i as int] == c);
            return true;
        }
        i = i + 1;
    }
    false
}

fn escape_env_value(v: &[char]) -> (r: Vec<char>)
    ensures
        r@ == escape(v@),
{
    let mut out: Vec<char> = Vec::new();
    let mut i: usize = 0;
    assert(v@.skip(0) =~= v@);
    assert(out@ + escape(v@) =~= escape(v@));
    while i < v.len()
        invariant
            i <= v@.len(),
            out@ + escape(v@.skip(i as int)) == escape(v@),
        decreases v@.len() - i,
    {
        let ghost s = v@.skip(i as int);
        let ghost old_out = out@;
        let c = v[i];
        if c == '\\' {
            out.push('\\');
            out.push('\\');
        } else if c == '"' {
            out.push('\\');
            out.push('"');
        } else if c == '\n' {
            out.push('\\');
            out.push('n');
        } else if c == '\r' {
            out.push('\\');
            out.push('r');
        } else {
            out.push(c);
        }
        proof {
            assert(s[0] == c);
            assert(s.drop_first() =~= v@.skip(i + 1));
            assert(out@ =~= old_out + escape_char(c));
            assert(out@ + escape(v@.skip(i + 1)) =~= old_out + escape(s));
        }
        i = i + 1;
    }
    proof {
        assert(v@.skip(i as int) =~= Seq::<char>::empty());
        assert(out@ + Seq::<char>::empty() =~= out@);
    }
    out
}

fn parse_env_line(line: &[char]) -> (r: Option<(String, String)>)
    ensures
        match r {
            Some(p) => parse_line(line@) == Some((p.0@, p.1@)),
            None => parse_line(line@) is None,
        },
{
    let t = trim_chars(line);
    if t.len() == 0 || t[0] == '#' {
        return None;
    }
    let eq = find_char(t.as_slice(), '=', 0);
    proof {
        assert(t@.skip(0) =~= t@);
    }
    if eq == t.len() {
        return None;
    }
    let k = slice_chars(t.as_slice(), 0, eq);
    let v = slice_chars(t.as_slice(), eq + 1, t.len());
    proof {
        assert(k@ =~= t@.take(eq as int));
        assert(v@ =~= t@.skip(eq + 1));
    }
    let kt = trim_chars(k.as_slice());
    let vt = trim_chars(v.as_slice());
    let value = parse_env_value(vt.as_slice());
    Some((string_of(kt.as_slice()), string_of(value.as_slice())))
}

/// The entries of a `.env` text, in order.
pub fn parse_env_text(text: &str) -> (r: Vec<(String, String)>)
    ensures
        pairs_view(r@) == parse_env(text@),
{
    let cs = chars_of(text);
    let ls = lines_of(cs.as_slice());
    let ghost lv = vecs_view(ls@);
    let mut r: Vec<(String, String)> = Vec::new();
    let mut i: usize = 0;
    assert(lv.skip(0) =~= lv);
    assert(pairs_view(r@) + parse_lines(lv) =~= parse_lines(lv));
    while i < ls.len()
        invariant
            i <= ls@.len(),
            lv == vecs_view(ls@),
            lv == lines(text@),
            pairs_view(r@) + parse_lines(lv.skip(i as int)) == parse_env(text@),
        decreases ls@.len() - i,
    {
        let ghost rest = lv.skip(i as int);
        let ghost old_r = pairs_view(r@);
        proof {
            assert(rest[0] == ls@[i as int]@);
            assert(rest.drop_first() =~= lv.skip(i + 1));
        }
        match parse_env_line(ls[i].as_slice()) {
            Some(p) => {
                r.push(p);
                proof {
                    assert(pairs_view(r@) =~= old_r.push((r@[r@.len() - 1].0@, r@[r@.len() - 1].1@)));
                    assert(pairs_view(r@) + parse_lines(lv.skip(i + 1)) =~= old_r + parse_lines(
                        rest,
                    ));
                }
            },
            None => {},
        }
        i = i + 1;
    }
    proof {
        assert(lv.skip(i as int) =~= Seq::<Seq<char>>::empty());
        assert(pairs_view(r@) + Seq::<(Seq<char>, Seq<char>)>::empty() =~= pairs_view(r@));
    }
    r
}

/// The `.env` text of a list of entries.
pub fn env_text_of(entries: &[(String, String)]) -> (s: String)
    ensures
        s@ == env_text(pairs_view(entries@)),
{
    let ghost ps = pairs_view(entries@);
    let mut out = String::new();
    let mut i: usize = 0;
    assert(ps.skip(0) =~= ps);
    while i < entries.len()
        invariant
            i <= entries@.len(),
            ps == pairs_view(entries@),
            out@ + env_text(ps.skip(i as int)) == env_text(ps),
        decreases entries@.len() - i,
    {
        let ghost rest = ps.skip(i as int);
        let ghost old_out = out@;
        let (k, v) = &entries[i];
        let vc = chars_of(v.as_str());
        out.append(k.as_str());
        push_char(&mut out, '=');
        if value_needs_quotes(vc.as_slice()) {
            push_char(&mut out, '"');
            let e = escape_env_value(vc.as_slice());
            let es = string_of(e.as_slice());
            out.append(es.as_str());
            push_char(&mut out, '"');
        } else {
            out.append(v.as_str());
        }
        push_char(&mut out, '\n');
        proof {
            assert(rest[0] == (k@, v@));
            assert(rest.drop_first() =~= ps.skip(i + 1));
            assert(out@ =~= old_out + (env_line(k@, v@) + seq!['\n']));
            assert(out@ + env_text(ps.skip(i + 1)) =~= old_out + env_text(rest));
        }
        i = i + 1;
    }
    proof {
        assert(ps.skip(i as int) =~= Seq::<(Seq<char>, Seq<char>)>::empty());
        assert(out@ + Seq::<char>::empty() =~= out@);
    }
    out
}

} // verus!

verus! {

proof fn lemma_unescape_escape_char(c: char, rest: Seq<char>)
    ensures
        unescape(escape_char(c) + rest) == seq![c] + unescape(rest),
{
    let s = escape_char(c) + rest;
    if c == '\\' || c == '"' || c == '\n' || c == '\r' {
        assert(s[0] == '\\');
        assert(s.len() >= 2);
        assert(s.skip(2) =~= rest);
    } else {
        assert(s[0] == c);
        assert(s.drop_first() =~= rest);
    }
}

/// Resolving escapes undoes escaping.
pub proof fn lemma_unescape_escape(v: Seq<char>)
    ensures
        unescape(escape(v)) == v,
    decreases v.len(),
{
    if v.len() > 0 {
        lemma_unescape_escape(v.drop_first());
        lemma_unescape_escape_char(v[0], escape(v.drop_first()));
        assert(seq![v[0]] + v.drop_first() =~= v);
    } else {
        assert(escape(v) =~= Seq::<char>::empty());
        assert(v =~= Seq::<char>::empty());
    }
}

proof fn lemma_escape_no_newline(v: Seq<char>)
    ensures
        !escape(v).contains('\n'),
        escape(v).len() >= v.len(),
    decreases v.len(),
{
    if v.len() > 0 {
        lemma_escape_no_newline(v.drop_first());
        let e = escape_char(v[0]) + escape(v.drop_first());
        assert forall|i: int| 0 <= i < e.len() implies e[i] != '\n' by {
            if i >= escape_char(v[0]).len() {
                assert(e[i] == escape(v.drop_first())[i - escape_char(v[0]).len()]);
            }
        }
    }
}

proof fn lemma_trim_identity(s: Seq<char>)
    requires
        s.len() > 0,
        !is_ws(s[0]),
        !is_ws(s.last()),
    ensures
        trim(s) == s,
{
}

/// A key that a `.env` line carries back unchanged: not empty, no `=` or
/// line break, not starting with `#`, and no whitespace at either end.
pub open spec fn plain_key(k: Seq<char>) -> bool {
    &&& k.len() > 0
    &&& !k.contains('=')
    &&& !k.contains('\n')
    &&& k[0] != '#'
    &&& !is_ws(k[0])
    &&& !is_ws(k.last())
}

/// Keys that pass the key check are plain.
pub proof fn lemma_valid_key_plain(k: Seq<char>)
    requires
        valid_key(k),
    ensures
        plain_key(k),
{
    assert(is_key_char(k[0]));
    assert(is_key_char(k[k.len() - 1]));
    if k.contains('=') {
        let i = choose|i: int| 0 <= i < k.len() && k[i] == '=';
        assert(is_key_char(k[i]));
    }
    if k.contains('\n') {
        let i = choose|i: int| 0 <= i < k.len() && k[i] == '\n';
        assert(is_key_char(k[i]));
    }
}

/// The line of an entry with a plain key: no newline, not ending in `\r`,
/// unchanged by trimming, and parsed back to the entry.
proof fn lemma_env_line(k: Seq<char>, v: Seq<char>)
    requires
        plain_key(k),
    ensures
        !env_line(k, v).contains('\n'),
        env_line(k, v).len() > 0,
        env_line(k, v).last() != '\r',
        parse_line(env_line(k, v)) == Some((k, v)),
{
    let ev = encode_value(v);
    let line = env_line(k, v);
    assert(line[0] == k[0]);
    if needs_quotes(v) {
        lemma_escape_no_newline(v);
        let e = escape(v);
        assert(ev =~= seq!['"'] + e + seq!['"']);
        assert(ev.len() >= 2);
        assert(ev[0] == '"');
        assert(ev.last() == '"');
        assert(ev.subrange(1, ev.len() - 1) =~= e);
        lemma_unescape_escape(v);
        assert forall|i: int| 0 <= i < ev.len() implies ev[i] != '\n' by {
            if 0 < i < ev.len() - 1 {
                assert(ev[i] == e[i - 1]);
            }
        }
        lemma_trim_identity(ev);
        assert(parse_value(ev) == v);
    } else {
        assert(ev == v);
        assert(v.len() > 0);
        assert(!is_ws(v[0]));
        assert(!is_ws(v[v.len() - 1]));
        assert forall|i: int| 0 <= i < v.len() implies v[i] != '\n' by {
            assert(!is_ws(v[i]));
        }
        if v.len() >= 2 && v[0] == '"' {
            assert(v.contains('"'));
        }
        if v.len() >= 2 && v[0] == '\'' {
            assert(v.contains('\''));
        }
        lemma_trim_identity(ev);
        assert(parse_value(ev) == v);
    }
    assert(line.last() == ev.last());
    assert forall|i: int| 0 <= i < line.len() implies line[i] != '\n' by {
        if i < k.len() {
            assert(line[i] == k[i]);
            assert(k[i] != '\n');
        } else if i > k.len() {
            assert(line[i] == ev[i - k.len() - 1]);
        }
    }
    lemma_trim_identity(line);
    assert(line[0] != '#');
    // the first '=' is right after the key
    assert forall|i: int| 0 <= i < k.len() implies line[i] != '=' by {
        assert(line[i] == k[i]);
        assert(k[i] != '=');
    }
    assert(line[k.len() as int] == '=');
    lemma_first_index_at(line, '=', k.len() as int);
    assert(line.take(k.len() as int) =~= k);
    assert(line.skip(k.len() as int + 1) =~= ev);
    lemma_trim_identity(k);
}

/// Writing entries with plain keys (no `=` or line break, not starting with
/// `#`, no whitespace at either end) to `.env` text and reading the text
/// back gives the same entries, in the same order.
pub proof fn lemma_env_roundtrip(ps: Seq<(Seq<char>, Seq<char>)>)
    requires
        forall|i: int| 0 <= i < ps.len() ==> plain_key(#[trigger] ps[i].0),
    ensures
        parse_env(env_text(ps)) == ps,
    decreases ps.len(),
{
    if ps.len() == 0 {
        assert(env_text(ps) =~= Seq::<char>::empty());
        assert(parse_env(env_text(ps)) =~= ps);
    } else {
        let rest = ps.drop_first();
        assert forall|i: int| 0 <= i < rest.len() implies plain_key(#[trigger] rest[i].0) by {
            assert(rest[i] == ps[i + 1]);
        }
        lemma_env_roundtrip(rest);
        assert(plain_key(ps[0].0));
        lemma_env_line(ps[0].0, ps[0].1);
        let line = env_line(ps[0].0, ps[0].1);
        lemma_lines_cons(line, env_text(rest));
        let ls = lines(env_text(ps));
        assert(ls =~= seq![line] + lines(env_text(rest)));
        assert(ls[0] == line);
        assert(ls.drop_first() =~= lines(env_text(rest)));
        assert(parse_lines(ls) == seq![ps[0]] + parse_lines(lines(env_text(rest))));
        assert(seq![ps[0]] + rest =~= ps);
    }
}

} // verus!

verus! {

/// The value of the first entry with key `k`, if any.
pub open spec fn lookup_first(ps: Seq<(Seq<char>, Seq<char>)>, k: Seq<char>) -> Option<Seq<char>>
    decreases ps.len(),
{
    if ps.len() == 0 {
        None
    } else if ps[0].0 == k {
        Some(ps[0].1)
    } else {
        lookup_first(ps.drop_first(), k)
    }
}

/// A parsed `.env` file: its entries in order, and the path it belongs to.
#[derive(Debug, Clone)]
pub struct Env {
    entries: Vec<(String, String)>,
    path: String,
}

impl Env {
    /// The entries in order.
    pub closed spec fn pairs(&self) -> Seq<(Seq<char>, Seq<char>)> {
        pairs_view(self.entries@)
    }

    /// The file path.
    pub closed spec fn path_view(&self) -> Seq<char> {
        self.path@
    }

    /// Parse the contents of a `.env` file.
    ///
    /// Skips empty lines, comments (lines starting with `#`) and lines
    /// without `=`. Keys and values are trimmed; a value in double quotes has
    /// its escapes resolved, a value in single quotes is taken literally.
    pub fn parse(contents: &str, path: String) -> (e: Self)
        ensures
            e.pairs() == parse_env(contents@),
            e.path_view() == path@,
    {
        Env { entries: parse_env_text(contents), path }
    }

    /// Create from key-value pairs.
    pub fn from_pairs(pairs: Vec<(String, String)>, path: String) -> (e: Self)
        ensures
            e.pairs() == pairs_view(pairs@),
            e.path_view() == path@,
    {
        Env { entries: pairs, path }
    }

    /// The value of the first entry with this key.
    pub fn get(&self, key: &str) -> (r: Option<&str>)
        ensures
            match r {
                Some(v) => lookup_first(self.pairs(), key@) == Some(v@),
                None => lookup_first(self.pairs(), key@) is None,
            },
    {
        let mut i: usize = 0;
        let ghost ps = self.pairs();
        assert(ps.skip(0) =~= ps);
        while i < self.entries.len()
            invariant
                i <= ps.len(),
                ps == self.pairs(),
                lookup_first(ps, key@) == lookup_first(ps.skip(i as int), key@),
            decreases ps.len() - i,
        {
            let ghost rest = ps.skip(i as int);
            assert(rest[0] == ps[i as int]);
            assert(rest.drop_first() =~= ps.skip(i + 1));
            if str_eq(self.entries[i].0.as_str(), key) {
                return Some(self.entries[i].1.as_str());
            }
            i = i + 1;
        }
        None
    }

    /// All entries, in order.
    pub fn entries(&self) -> (r: &[(String, String)])
        ensures
            pairs_view(r@) == self.pairs(),
    {
        self.entries.as_slice()
    }

    /// Number of entries.
    pub fn len(&self) -> (n: usize)
        ensures
            n == self.pairs().len(),
    {
        self.entries.len()
    }

    /// Whether there are no entries.
    pub fn is_empty(&self) -> (b: bool)
        ensures
            b == (self.pairs().len() == 0),
    {
        self.entries.len() == 0
    }

    /// The file path.
    pub fn path(&self) -> (p: &str)
        ensures
            p@ == self.path_view(),
    {
        self.path.as_str()
    }

    /// The `.env` text: one `KEY=value` line per entry; values that are
    /// empty or hold whitespace, `#`, `=`, quotes or backslashes are written
    /// in double quotes with `\`, `"`, newline and carriage return escaped.
    pub fn to_env_string(&self) -> (s: String)
        ensures
            s@ == env_text(self.pairs()),
    {
        env_text_of(self.entries.as_slice())
    }
}

/// `trim_start` removes a whitespace prefix: what is left is a suffix of the
/// text, empty or starting with a character that is not whitespace.
proof fn lemma_trim_start_suffix(s: Seq<char>)
    ensures
        trim_start(s).len() <= s.len(),
        trim_start(s) == s.skip(s.len() - trim_start(s).len()),
        trim_start(s).len() > 0 ==> !is_ws(trim_start(s)[0]),
    decreases s.len(),
{
    if s.len() > 0 && is_ws(s[0]) {
        lemma_trim_start_suffix(s.drop_first());
        let n = trim_start(s).len();
        assert(s.drop_first().skip(s.len() - 1 - n) =~= s.skip(s.len() - n));
    } else {
        assert(s.skip(0) =~= s);
    }
}

/// `trim_end` keeps a prefix of the text.
proof fn lemma_trim_end_prefix(s: Seq<char>)
    ensures
        trim_end(s).len() <= s.len(),
        trim_end(s) == s.take(trim_end(s).len() as int),
    decreases s.len(),
{
    if s.len() > 0 && is_ws(s.last()) {
        lemma_trim_end_prefix(s.drop_last());
        let n = trim_end(s).len();
        assert(s.drop_last().take(n as int) =~= s.take(n as int));
    } else {
        assert(s.take(s.len() as int) =~= s);
    }
}

/// A trailing whitespace character does not change the trimmed text.
proof fn lemma_trim_drop_ws_last(a: Seq<char>)
    requires
        a.len() > 0,
        is_ws(a.last()),
    ensures
        trim(a.drop_last()) == trim(a),
    decreases a.len(),
{
    if is_ws(a[0]) {
        if a.len() == 1 {
            assert(a.drop_first() =~= Seq::<char>::empty());
            assert(a.drop_last() =~= Seq::<char>::empty());
        } else {
            lemma_trim_drop_ws_last(a.drop_first());
            assert(a.drop_last().drop_first() =~= a.drop_first().drop_last());
        }
    } else {
        assert(a.len() >= 2);
        assert(trim_start(a) == a);
        assert(trim_start(a.drop_last()) == a.drop_last());
    }
}

/// The key of a line's entry is empty or starts with what the trimmed line
/// starts with.
proof fn lemma_line_key_head(line: Seq<char>)
    ensures
        parse_line(line) matches Some((k, v)) ==> (k.len() == 0 || k[0] == trim(line)[0]),
{
    let ts = trim_start(line);
    let t = trim(line);
    lemma_trim_start_suffix(line);
    lemma_trim_end_prefix(ts);
    if let Some((k, v)) = parse_line(line) {
        let i = first_index(t, '=');
        let k0 = t.take(i as int);
        assert(t.len() > 0 && t[0] == ts[0]);
        if k0.len() > 0 {
            assert(k0[0] == t[0]);
            assert(trim_start(k0) == k0);
            lemma_trim_end_prefix(k0);
            if k.len() > 0 {
                assert(k[0] == k0[0]);
            }
        } else {
            assert(trim_start(k0) == k0);
            assert(trim_end(k0) == k0);
        }
    }
}

/// A line whose trimmed text starts with `#` is a comment: it holds no
/// entry, whatever follows, an `=` included.
pub proof fn lemma_comment_line_holds_nothing(line: Seq<char>)
    requires
        trim(line).len() > 0,
        trim(line)[0] == '#',
    ensures
        parse_line(line) is None,
{
}

/// No entry read from a `.env` text has a key starting with `#`: comment
/// lines are skipped, not read as entries.
pub proof fn lemma_no_comment_keys(text: Seq<char>)
    ensures
        forall|i: int|
            0 <= i < parse_env(text).len() ==> (#[trigger] parse_env(text)[i]).0.len() == 0
                || parse_env(text)[i].0[0] != '#',
{
    lemma_no_comment_keys_lines(lines(text));
}

proof fn lemma_no_comment_keys_lines(ls: Seq<Seq<char>>)
    ensures
        forall|i: int|
            0 <= i < parse_lines(ls).len() ==> (#[trigger] parse_lines(ls)[i]).0.len() == 0
                || parse_lines(ls)[i].0[0] != '#',
    decreases ls.len(),
{
    if ls.len() > 0 {
        lemma_no_comment_keys_lines(ls.drop_first());
        lemma_line_key_head(ls[0]);
        let rest = parse_lines(ls.drop_first());
        if let Some(p) = parse_line(ls[0]) {
            assert forall|i: int|
                0 <= i < parse_lines(ls).len() implies (#[trigger] parse_lines(ls)[i]).0.len() == 0
                || parse_lines(ls)[i].0[0] != '#' by {
                if i > 0 {
                    assert(parse_lines(ls)[i] == rest[i - 1]);
                }
            }
        }
    }
}

/// A comment line in front of a `.env` text adds no entry: the text reads
/// as it does without it.
pub proof fn lemma_comment_line_skipped(comment: Seq<char>, rest: Seq<char>)
    requires
        !comment.contains('\n'),
        trim(comment).len() > 0,
        trim(comment)[0] == '#',
    ensures
        parse_env(comment + seq!['\n'] + rest) == parse_env(rest),
{
    let s = comment + seq!['\n'] + rest;
    assert forall|k: int| 0 <= k < comment.len() implies s[k] != '\n' by {
        assert(s[k] == comment[k]);
        assert(comment.contains(comment[k]));
    }
    lemma_first_index_at(s, '\n', comment.len() as int);
    assert(s.take(comment.len() as int) =~= comment);
    assert(s.skip(comment.len() as int + 1) =~= rest);
    assert(lines(s) == seq![strip_cr(comment)] + lines(rest));
    if comment.len() > 0 && comment.last() == '\r' {
        lemma_trim_drop_ws_last(comment);
    }
    assert(parse_line(strip_cr(comment)) is None);
    assert((seq![strip_cr(comment)] + lines(rest)).drop_first() =~= lines(rest));
}

} // verus!
