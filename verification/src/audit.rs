//! Scanning git history for leaked secrets: `.env` files that were committed,
//! and commits that touched secret-like assignments. The git output is read
//! by the caller; this module decides what it reveals.
use vstd::prelude::*;
use vstd::string::StringSliceAdditionalSpecFns;
use vstd::utf8::{encode_utf8, is_char_boundary};

use crate::error::{Error, Fault};
use crate::text::{
    chars_of, contains_str, ends_with_str, has_infix, has_suffix, lines, lines_of, occurs_at, str_eq,
    string_of, trim, trim_chars, vecs_view,
};

verus! {

/// Severity level of a finding.
#[derive(Debug, Clone, Copy, PartialEq, Eq, Structural, PartialOrd, Ord)]
pub enum Severity {
    /// Low confidence match (common variable name).
    Low,
    /// Medium confidence (looks like a key pattern).
    Medium,
    /// High confidence (matches a known secret format).
    High,
}

/// The rank of a severity: `Low < Medium < High`.
pub open spec fn severity_rank(s: Severity) -> int {
    match s {
        Severity::Low => 0,
        Severity::Medium => 1,
        Severity::High => 2,
    }
}

/// How a severity is shown.
pub open spec fn severity_text(s: Severity) -> Seq<char> {
    match s {
        Severity::Low => "Low"@,
        Severity::Medium => "Medium"@,
        Severity::High => "High"@,
    }
}

impl Severity {
    /// The rank: `Low` 0, `Medium` 1, `High` 2.
    pub fn rank(&self) -> (r: u8)
        ensures
            r == severity_rank(*self),
    {
        match self {
            Severity::Low => 0,
            Severity::Medium => 1,
            Severity::High => 2,
        }
    }

    /// The name of the level.
    pub fn label(&self) -> (s: &'static str)
        ensures
            s@ == severity_text(*self),
    {
        match self {
            Severity::Low => "Low",
            Severity::Medium => "Medium",
            Severity::High => "High",
        }
    }
}

/// A single finding from a git history audit.
#[derive(Debug, Clone)]
pub struct Finding {
    /// Git commit hash.
    pub commit: String,
    /// File path where the finding was detected.
    pub file: String,
    /// Line number, if known.
    pub line: Option<usize>,
    /// The pattern that matched.
    pub pattern: String,
    /// How confident the match is.
    pub severity: Severity,
}

/// What a finding says.
pub struct FindingView {
    pub commit: Seq<char>,
    pub file: Seq<char>,
    pub line: Option<usize>,
    pub pattern: Seq<char>,
    pub severity: Severity,
}

impl View for Finding {
    type V = FindingView;

    open spec fn view(&self) -> FindingView {
        FindingView {
            commit: self.commit@,
            file: self.file@,
            line: self.line,
            pattern: self.pattern@,
            severity: self.severity,
        }
    }
}

/// The views of a sequence of findings.
pub open spec fn findings_view(s: Seq<Finding>) -> Seq<FindingView> {
    s.map_values(|f: Finding| f@)
}

/// A finding's line of text, with `short` standing for its commit.
pub open spec fn finding_text(f: FindingView, short: Seq<char>) -> Seq<char> {
    "["@ + severity_text(f.severity) + "] "@ + f.pattern + " in "@ + f.file + " (commit "@ + short
        + ")"@
}

/// Whether `short` shows the commit `commit`: all of it when it is under
/// eight bytes, else the characters of its first eight bytes.
pub open spec fn commit_shown(commit: Seq<char>, short: Seq<char>) -> bool {
    if encode_utf8(commit).len() < 8 {
        short == commit
    } else {
        encode_utf8(short) == encode_utf8(commit).subrange(0, 8)
    }
}

/// Whether a commit can be shortened: eight bytes end on a character.
pub open spec fn commit_cuttable(commit: Seq<char>) -> bool {
    encode_utf8(commit).len() >= 8 ==> is_char_boundary(encode_utf8(commit), 8)
}

impl Finding {
    /// How the finding is shown:
    /// `[<severity>] <pattern> in <file> (commit <first 8 bytes>)`.
    pub fn describe(&self) -> (s: String)
        requires
            commit_cuttable(self.commit@),
        ensures
            exists|short: Seq<char>| commit_shown(self.commit@, short) && s@ == finding_text(self@, short),
    {
        let c = self.commit.as_str();
        assert(c.spec_bytes() == encode_utf8(self.commit@));
        proof {
            vstd::utf8::encode_utf8_valid_utf8(self.commit@);
        }
        let short = if c.is_char_boundary(8) {
            let (head, _) = c.split_at(8);
            assert(head.spec_bytes() == encode_utf8(head@));
            head
        } else {
            c
        };
        let mut s = String::from_str("[");
        s.append(self.severity.label());
        s.append("] ");
        s.append(self.pattern.as_str());
        s.append(" in ");
        s.append(self.file.as_str());
        s.append(" (commit ");
        s.append(short);
        s.append(")");
        proof {
            if encode_utf8(self.commit@).len() >= 8 {
                assert(encode_utf8(short@) == encode_utf8(self.commit@).subrange(0, 8));
            } else {
                assert(short@ == self.commit@);
            }
            assert(commit_shown(self.commit@, short@));
        }
        assert(s@ == finding_text(self@, short@));
        s
    }
}

/// The secret patterns searched for, with their severity.
pub open spec fn secret_patterns_spec() -> Seq<(Seq<char>, Severity)> {
    seq![
        ("API_KEY="@, Severity::Medium),
        ("SECRET="@, Severity::Medium),
        ("PASSWORD="@, Severity::Medium),
        ("PRIVATE_KEY="@, Severity::High),
        ("TOKEN="@, Severity::Medium),
        ("AWS_SECRET"@, Severity::High),
        ("DB_PASSWORD="@, Severity::Medium),
    ]
}

/// The secret patterns searched for, with their severity, in search order.
pub fn secret_patterns() -> (r: Vec<(&'static str, Severity)>)
    ensures
        r@.map_values(|p: (&'static str, Severity)| (p.0@, p.1)) == secret_patterns_spec(),
{
    let r = vec![
        ("API_KEY=", Severity::Medium),
        ("SECRET=", Severity::Medium),
        ("PASSWORD=", Severity::Medium),
        ("PRIVATE_KEY=", Severity::High),
        ("TOKEN=", Severity::Medium),
        ("AWS_SECRET", Severity::High),
        ("DB_PASSWORD=", Severity::Medium),
    ];
    assert(r@.map_values(|p: (&'static str, Severity)| (p.0@, p.1)) =~= secret_patterns_spec());
    r
}

/// An ASCII hexadecimal digit.
pub open spec fn is_hex_digit(c: char) -> bool {
    ('0' <= c && c <= '9') || ('a' <= c && c <= 'f') || ('A' <= c && c <= 'F')
}

/// A full commit hash: forty hexadecimal digits.
pub open spec fn is_commit_hash(t: Seq<char>) -> bool {
    t.len() == 40 && forall|i: int| 0 <= i < t.len() ==> is_hex_digit(#[trigger] t[i])
}

/// A path of a committed `.env` file: `.env`, `.../.env`, or one with
/// `.env.` in it that is not an `.env.example`.
pub open spec fn is_env_path(t: Seq<char>) -> bool {
    t == ".env"@ || has_suffix(t, "/.env"@) || (has_infix(t, ".env."@) && !has_suffix(
        t,
        ".env.example"@,
    ))
}

/// A `.env` finding.
pub open spec fn env_finding(commit: Seq<char>, file: Seq<char>) -> FindingView {
    FindingView {
        commit,
        file,
        line: None,
        pattern: ".env file"@,
        severity: Severity::High,
    }
}

/// The `.env` files added in the lines of `git log --all
/// --pretty=format:%H --name-only --diff-filter=A` output, with the commit
/// last seen (`current`, empty before any).
pub open spec fn env_findings(ls: Seq<Seq<char>>, current: Seq<char>) -> Seq<FindingView>
    decreases ls.len(),
{
    if ls.len() == 0 {
        Seq::empty()
    } else {
        let t = trim(ls[0]);
        if t.len() == 0 {
            env_findings(ls.drop_first(), current)
        } else if is_commit_hash(t) {
            env_findings(ls.drop_first(), t)
        } else if current.len() > 0 && is_env_path(t) {
            seq![env_finding(current, t)] + env_findings(ls.drop_first(), current)
        } else {
            env_findings(ls.drop_first(), current)
        }
    }
}

fn is_commit_hash_exec(t: &[char]) -> (b: bool)
    ensures
        b == is_commit_hash(t@),
{
    if t.len() != 40 {
        return false;
    }
    let mut i: usize = 0;
    while i < t.len()
        invariant
            i <= t@.len(),
            forall|k: int| 0 <= k < i ==> is_hex_digit(#[trigger] t@[k]),
        decreases t@.len() - i,
    {
        let c = t[i];
        if !(('0' <= c && c <= '9') || ('a' <= c && c <= 'f') || ('A' <= c && c <= 'F')) {
            return false;
        }
        i = i + 1;
    }
    true
}

fn is_env_path_exec(t: &str) -> (b: bool)
    ensures
        b == is_env_path(t@),
{
    str_eq(t, ".env") || ends_with_str(t, "/.env") || (contains_str(t, ".env.") && !ends_with_str(
        t,
        ".env.example",
    ))
}

/// The `.env` files that the history shows were added, from the output of
/// `git log --all --pretty=format:%H --name-only --diff-filter=A`.
pub fn scan_env_files(log: &str) -> (r: Vec<Finding>)
    ensures
        findings_view(r@) == env_findings(lines(log@), Seq::empty()),
{
    let cs = chars_of(log);
    let ls = lines_of(cs.as_slice());
    let ghost lv = vecs_view(ls@);
    let mut findings: Vec<Finding> = Vec::new();
    let mut current = String::new();
    let mut i: usize = 0;
    assert(lv.skip(0) =~= lv);
    assert(findings_view(findings@) + env_findings(lv.skip(0), current@) =~= env_findings(
        lv,
        Seq::empty(),
    ));
    while i < ls.len()
        invariant
            i <= ls@.len(),
            lv == vecs_view(ls@),
            lv == lines(log@),
            findings_view(findings@) + env_findings(lv.skip(i as int), current@) == env_findings(
                lv,
                Seq::empty(),
            ),
        decreases ls@.len() - i,
    {
        let ghost rest = lv.skip(i as int);
        assert(rest[0] == ls@[i as int]@);
        assert(rest.drop_first() =~= lv.skip(i + 1));
        let t = trim_chars(ls[i].as_slice());
        assert(t@ == trim(rest[0]));
        if t.len() == 0 {
            assert(env_findings(rest, current@) == env_findings(lv.skip(i + 1), current@));
        } else if is_commit_hash_exec(t.as_slice()) {
            assert(env_findings(rest, current@) == env_findings(lv.skip(i + 1), t@));
            current = string_of(t.as_slice());
        } else if !current.as_str().is_empty() {
            let ts = string_of(t.as_slice());
            if is_env_path_exec(ts.as_str()) {
                assert(env_findings(rest, current@) == seq![env_finding(current@, t@)] + env_findings(lv.skip(i + 1), current@));
                let ghost before = findings@;
                findings.push(
                    Finding {
                        commit: current.clone(),
                        file: ts,
                        line: None,
                        pattern: String::from_str(".env file"),
                        severity: Severity::High,
                    },
                );
                assert(findings_view(findings@) =~= findings_view(before).push(
                    env_finding(current@, t@),
                ));
                assert(findings_view(findings@) + env_findings(lv.skip(i + 1), current@)
                    =~= findings_view(before) + (seq![env_finding(current@, t@)] + env_findings(
                    lv.skip(i + 1),
                    current@,
                )));
            } else {
                assert(env_findings(rest, current@) == env_findings(lv.skip(i + 1), current@));
            }
        } else {
            assert(env_findings(rest, current@) == env_findings(lv.skip(i + 1), current@));
        }
        i = i + 1;
    }
    assert(lv.skip(i as int) =~= Seq::<Seq<char>>::empty());
    assert(findings_view(findings@) + Seq::<FindingView>::empty() =~= findings_view(findings@));
    findings
}

/// The findings for one searched pattern: each non-empty trimmed line of
/// `git log -S <pattern> --all --pretty=format:%H -- ...` output is a
/// commit that touched it.
pub open spec fn pattern_findings(ls: Seq<Seq<char>>, pattern: Seq<char>, sev: Severity) -> Seq<
    FindingView,
>
    decreases ls.len(),
{
    if ls.len() == 0 {
        Seq::empty()
    } else {
        let rest = pattern_findings(ls.drop_last(), pattern, sev);
        let t = trim(ls.last());
        if t.len() == 0 {
            rest
        } else {
            rest.push(
                FindingView {
                    commit: t,
                    file: "config file"@,
                    line: None,
                    pattern,
                    severity: sev,
                },
            )
        }
    }
}

/// The findings for the searched patterns, in order, each with the log
/// output of its search (as many patterns as there are outputs).
pub open spec fn all_pattern_findings(outputs: Seq<Seq<char>>, i: int) -> Seq<FindingView>
    decreases i,
{
    if i <= 0 {
        Seq::empty()
    } else {
        all_pattern_findings(outputs, i - 1) + pattern_findings(
            lines(outputs[i - 1]),
            secret_patterns_spec()[i - 1].0,
            secret_patterns_spec()[i - 1].1,
        )
    }
}

/// The number of patterns with an output.
pub open spec fn searched(outputs: Seq<Seq<char>>) -> int {
    if outputs.len() < secret_patterns_spec().len() {
        outputs.len() as int
    } else {
        secret_patterns_spec().len() as int
    }
}

/// The views of a sequence of strings.
pub open spec fn texts_view(v: Seq<String>) -> Seq<Seq<char>> {
    v.map_values(|s: String| s@)
}

/// Add the findings of one pattern search.
fn add_pattern_findings(findings: &mut Vec<Finding>, log: &str, pattern: &str, sev: Severity)
    ensures
        findings_view(final(findings)@) == findings_view(old(findings)@) + pattern_findings(
            lines(log@),
            pattern@,
            sev,
        ),
{
    let cs = chars_of(log);
    let ls = lines_of(cs.as_slice());
    let ghost lv = vecs_view(ls@);
    let ghost start = findings_view(findings@);
    let mut i: usize = 0;
    assert(lv.take(0) =~= Seq::<Seq<char>>::empty());
    assert(findings_view(findings@) =~= start + pattern_findings(lv.take(0), pattern@, sev));
    while i < ls.len()
        invariant
            i <= ls@.len(),
            lv == vecs_view(ls@),
            lv == lines(log@),
            findings_view(findings@) == start + pattern_findings(lv.take(i as int), pattern@, sev),
        decreases ls@.len() - i,
    {
        assert(lv.take(i + 1).drop_last() =~= lv.take(i as int));
        assert(lv.take(i + 1).last() == ls@[i as int]@);
        let t = trim_chars(ls[i].as_slice());
        if t.len() > 0 {
            let ghost before = findings@;
            findings.push(
                Finding {
                    commit: string_of(t.as_slice()),
                    file: String::from_str("config file"),
                    line: None,
                    pattern: pattern.to_string(),
                    severity: sev,
                },
            );
            assert(findings_view(findings@) =~= findings_view(before).push(findings_view(findings@).last()));
        }
        i = i + 1;
    }
    assert(lv.take(i as int) =~= lv);
}

/// The commits that touched secret-like assignments: `outputs[i]` is the
/// log output of the search for the `i`-th of `secret_patterns()`.
pub fn scan_secret_patterns(outputs: &[String]) -> (r: Vec<Finding>)
    ensures
        findings_view(r@) == all_pattern_findings(texts_view(outputs@), searched(texts_view(outputs@))),
{
    let patterns = secret_patterns();
    let ghost ov = texts_view(outputs@);
    let n = if outputs.len() < patterns.len() {
        outputs.len()
    } else {
        patterns.len()
    };
    let mut findings: Vec<Finding> = Vec::new();
    let mut i: usize = 0;
    assert(findings_view(findings@) =~= Seq::<FindingView>::empty());
    while i < n
        invariant
            n == searched(ov),
            n <= patterns@.len(),
            n <= outputs@.len(),
            ov == texts_view(outputs@),
            patterns@.map_values(|p: (&'static str, Severity)| (p.0@, p.1)) == secret_patterns_spec(),
            i <= n,
            findings_view(findings@) == all_pattern_findings(ov, i as int),
        decreases n - i,
    {
        let (pattern, sev) = patterns[i];
        assert(secret_patterns_spec()[i as int] == (pattern@, sev));
        assert(ov[i as int] == outputs@[i as int]@);
        add_pattern_findings(&mut findings, outputs[i].as_str(), pattern, sev);
        i = i + 1;
    }
    findings
}

/// The findings of one severity, in order.
pub open spec fn of_severity(fs: Seq<FindingView>, sev: Severity) -> Seq<FindingView> {
    fs.filter(|f: FindingView| f.severity == sev)
}

/// Findings by severity, highest first, keeping their order within a level
/// (as a stable sort by severity does).
pub open spec fn by_severity(fs: Seq<FindingView>) -> Seq<FindingView> {
    of_severity(fs, Severity::High) + of_severity(fs, Severity::Medium) + of_severity(
        fs,
        Severity::Low,
    )
}

/// Append the findings of one severity, in order.
fn append_of_severity(out: &mut Vec<Finding>, fs: &Vec<Finding>, sev: Severity)
    ensures
        findings_view(final(out)@) == findings_view(old(out)@) + of_severity(findings_view(fs@), sev),
{
    let ghost all = findings_view(fs@);
    let ghost start = findings_view(out@);
    let mut i: usize = 0;
    assert(all.take(0) =~= Seq::<FindingView>::empty());
    assert(findings_view(out@) =~= start + of_severity(all.take(0), sev)) by {
        reveal_with_fuel(Seq::filter, 1);
    }
    while i < fs.len()
        invariant
            i <= fs@.len(),
            all == findings_view(fs@),
            findings_view(out@) == start + of_severity(all.take(i as int), sev),
        decreases fs@.len() - i,
    {
        proof {
            assert(all.take(i + 1) =~= all.take(i as int).push(all[i as int]));
            all.take(i as int).lemma_filter_push(all[i as int], |f: FindingView| f.severity == sev);
        }
        if fs[i].severity == sev {
            let ghost before = out@;
            let f = &fs[i];
            out.push(
                Finding {
                    commit: f.commit.clone(),
                    file: f.file.clone(),
                    line: f.line,
                    pattern: f.pattern.clone(),
                    severity: f.severity,
                },
            );
            assert(findings_view(out@) =~= findings_view(before).push(all[i as int]));
        }
        i = i + 1;
    }
    assert(all.take(i as int) =~= all);
}

/// Order findings by severity, highest first, keeping their order within
/// each level.
pub fn sort_by_severity(fs: Vec<Finding>) -> (r: Vec<Finding>)
    ensures
        findings_view(r@) == by_severity(findings_view(fs@)),
{
    let mut out: Vec<Finding> = Vec::new();
    append_of_severity(&mut out, &fs, Severity::High);
    append_of_severity(&mut out, &fs, Severity::Medium);
    append_of_severity(&mut out, &fs, Severity::Low);
    assert(findings_view(out@) =~= by_severity(findings_view(fs@)));
    out
}

/// The error when a git command fails, as outside a repository.
pub open spec fn git_failed_text() -> Seq<char> {
    "git command failed (not a git repository?)"@
}

/// Scan the git history for potential secret leaks: the committed `.env`
/// files (from `env_log`), then the commits touching secret patterns (from
/// `pattern_logs`, one per pattern of `secret_patterns()`), ordered by
/// severity, highest first. `env_ok` and `patterns_ok` say whether each git
/// run exited successfully; if one did not, as outside a git repository,
/// the scan fails.
pub fn scan_git_history(env_log: &str, env_ok: bool, pattern_logs: &[String], patterns_ok: &[bool]) -> (r:
    Result<Vec<Finding>, Error>)
    ensures
        (env_ok && forall|i: int| 0 <= i < patterns_ok@.len() ==> #[trigger] patterns_ok@[i]) ==> (r matches Ok(
            v,
        ) && findings_view(v@) == by_severity(
            env_findings(lines(env_log@), Seq::empty()) + all_pattern_findings(
                texts_view(pattern_logs@),
                searched(texts_view(pattern_logs@)),
            ),
        )),
        !(env_ok && forall|i: int| 0 <= i < patterns_ok@.len() ==> #[trigger] patterns_ok@[i]) ==> (r matches Err(
            e,
        ) && e@ == Fault::Io(git_failed_text())),
{
    let mut ok = env_ok;
    let mut i: usize = 0;
    while i < patterns_ok.len()
        invariant
            i <= patterns_ok@.len(),
            ok == (env_ok && forall|j: int| 0 <= j < i ==> #[trigger] patterns_ok@[j]),
        decreases patterns_ok@.len() - i,
    {
        ok = ok && patterns_ok[i];
        i = i + 1;
    }
    if !ok {
        return Err(Error::Io(String::from_str("git command failed (not a git repository?)")));
    }
    let mut findings = scan_env_files(env_log);
    let more = scan_secret_patterns(pattern_logs);
    let ghost a = findings_view(findings@);
    let ghost b = findings_view(more@);
    let mut more = more;
    findings.append(&mut more);
    assert(findings_view(findings@) =~= a + b);
    Ok(sort_by_severity(findings))
}

/// Findings by severity come highest first: along the result the rank
/// never rises, and each level keeps the findings of that level in order.
pub proof fn lemma_by_severity_ordered(fs: Seq<FindingView>)
    ensures
        forall|i: int, j: int|
            0 <= i < j < by_severity(fs).len() ==> severity_rank(#[trigger] by_severity(fs)[i].severity)
                >= severity_rank(#[trigger] by_severity(fs)[j].severity),
        by_severity(fs).len() == fs.len(),
{
    let h = of_severity(fs, Severity::High);
    let m = of_severity(fs, Severity::Medium);
    let l = of_severity(fs, Severity::Low);
    fs.filter_lemma(|f: FindingView| f.severity == Severity::High);
    fs.filter_lemma(|f: FindingView| f.severity == Severity::Medium);
    fs.filter_lemma(|f: FindingView| f.severity == Severity::Low);
    let r = by_severity(fs);
    assert(r == h + m + l);
    assert forall|i: int, j: int| 0 <= i < j < r.len() implies severity_rank(#[trigger] r[i].severity)
        >= severity_rank(#[trigger] r[j].severity) by {
        if i < h.len() {
            assert(r[i] == h[i]);
        } else if i < h.len() + m.len() {
            assert(r[i] == m[i - h.len()]);
            if j < h.len() + m.len() {
                assert(r[j] == m[j - h.len()]);
            } else {
                assert(r[j] == l[j - h.len() - m.len()]);
            }
        } else {
            assert(r[i] == l[i - h.len() - m.len()]);
            assert(r[j] == l[j - h.len() - m.len()]);
        }
    }
    lemma_levels_partition(fs);
}

/// The three levels together hold as many findings as there are.
proof fn lemma_levels_partition(fs: Seq<FindingView>)
    ensures
        of_severity(fs, Severity::High).len() + of_severity(fs, Severity::Medium).len()
            + of_severity(fs, Severity::Low).len() == fs.len(),
    decreases fs.len(),
{
    if fs.len() > 0 {
        let init = fs.drop_last();
        lemma_levels_partition(init);
        assert(fs == init.push(fs.last()));
        init.lemma_filter_push(fs.last(), |f: FindingView| f.severity == Severity::High);
        init.lemma_filter_push(fs.last(), |f: FindingView| f.severity == Severity::Medium);
        init.lemma_filter_push(fs.last(), |f: FindingView| f.severity == Severity::Low);
    } else {
        reveal_with_fuel(Seq::filter, 1);
    }
}

/// Where a committed `.env` file sits does not matter: `.env` itself, any
/// `<dir>/.env`, and any path with `.env.` somewhere in it that does not end
/// in `.env.example` are committed `.env` files, while an `.env.example`
/// file in any directory is not.
pub proof fn lemma_env_path_anywhere(dir: Seq<char>, rest: Seq<char>)
    ensures
        is_env_path(".env"@),
        is_env_path(dir + "/.env"@),
        !has_suffix(dir + ".env."@ + rest, ".env.example"@) ==> is_env_path(dir + ".env."@ + rest),
        !is_env_path(dir + "/.env.example"@),
        has_suffix(dir, ".env.example"@) ==> !is_env_path(dir),
{
    reveal_strlit(".env");
    reveal_strlit("/.env");
    reveal_strlit(".env.");
    reveal_strlit(".env.example");
    reveal_strlit("/.env.example");
    let p = dir + "/.env"@;
    assert(p.skip(p.len() - 5) =~= "/.env"@);
    let q = dir + ".env."@ + rest;
    assert(q.subrange(dir.len() as int, dir.len() + 5int) =~= ".env."@);
    assert(occurs_at(q, ".env."@, dir.len() as int));
    let x = dir + "/.env.example"@;
    assert(x.skip(x.len() - 12) =~= ".env.example"@);
    if x == ".env"@ {
        assert(x.len() == 4);
    }
    if has_suffix(x, "/.env"@) {
        assert(x.skip(x.len() - 5)[4] == x[x.len() - 1]);
    }
    if has_suffix(dir, ".env.example"@) {
        assert(dir.len() >= 12);
        if dir == ".env"@ {
            assert(false);
        }
        if has_suffix(dir, "/.env"@) {
            assert(dir.skip(dir.len() - 5)[4] == dir[dir.len() - 1]);
            assert(dir.skip(dir.len() - 12)[11] == dir[dir.len() - 1]);
        }
    }
}

/// A commit line followed by the path of an added `.env` file gives one
/// high-severity finding for that commit and file, in whatever directory
/// the file is.
pub proof fn lemma_env_file_found(commit: Seq<char>, path: Seq<char>)
    requires
        is_commit_hash(commit),
        trim(commit) == commit,
        trim(path) == path,
        path.len() > 0,
        !is_commit_hash(path),
        is_env_path(path),
    ensures
        env_findings(seq![commit, path], Seq::empty()) == seq![
            FindingView {
                commit,
                file: path,
                line: None,
                pattern: ".env file"@,
                severity: Severity::High,
            },
        ],
{
    let ls = seq![commit, path];
    assert(ls.drop_first() =~= seq![path]);
    assert(seq![path].drop_first() =~= Seq::<Seq<char>>::empty());
    assert(env_findings(Seq::<Seq<char>>::empty(), commit) == Seq::<FindingView>::empty());
    assert(env_findings(seq![path], commit) =~= seq![env_finding(commit, path)]);
}

} // verus!
