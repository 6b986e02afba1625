//! File names and paths of vaults, request directories and keys.
use vstd::prelude::*;

use crate::text::{
    chars_of, ends_with_chars, has_prefix, has_suffix, slice_chars, split_chars, split_on,
    starts_with_chars, str_eq, string_of, vecs_view,
};

verus! {

/// Configuration file name of the default vault.
pub const CONFIG_FILE: &'static str = ".dugout.toml";

/// Environment variables file name.
pub const ENV_FILE: &'static str = ".env";

/// Key storage directory relative to the home directory.
pub const KEY_DIR: &'static str = ".dugout/keys";

/// Whether a vault name is safe to build a path from: not empty, not `.` or
/// `..`, and without path separators.
pub open spec fn safe_vault_name(name: Seq<char>) -> bool {
    &&& name.len() > 0
    &&& name != "."@
    &&& name != ".."@
    &&& !name.contains('/')
    &&& !name.contains('\\')
}

/// Whether a vault name is safe to build a path from.
pub fn is_safe_vault_name(name: &str) -> (b: bool)
    ensures
        b == safe_vault_name(name@),
{
    let cs = chars_of(name);
    cs.len() > 0 && !str_eq(name, ".") && !str_eq(name, "..") && !crate::text::contains_char(
        cs.as_slice(),
        '/',
    ) && !crate::text::contains_char(cs.as_slice(), '\\')
}

/// Whether an optional vault name denotes the default vault.
pub open spec fn is_default_vault(vault: Option<Seq<char>>) -> bool {
    match vault {
        None => true,
        Some(n) => n == "default"@,
    }
}

/// A vault name the path functions accept: the default, or a safe name.
pub open spec fn acceptable_vault(vault: Option<Seq<char>>) -> bool {
    match vault {
        None => true,
        Some(n) => n == "default"@ || safe_vault_name(n),
    }
}

/// The view of an optional string slice.
pub open spec fn opt_view(v: Option<&str>) -> Option<Seq<char>> {
    match v {
        Some(s) => Some(s@),
        None => None,
    }
}

/// The file of a vault: `.dugout.toml` for the default, `.dugout.<name>.toml` otherwise.
pub open spec fn vault_file(vault: Option<Seq<char>>) -> Seq<char> {
    if is_default_vault(vault) {
        CONFIG_FILE@
    } else {
        ".dugout."@ + vault.unwrap() + ".toml"@
    }
}

/// The request directory of a vault.
pub open spec fn request_path(vault: Option<Seq<char>>) -> Seq<char> {
    if is_default_vault(vault) {
        ".dugout/requests/default"@
    } else {
        ".dugout/requests/"@ + vault.unwrap()
    }
}

fn is_default_name(vault: Option<&str>) -> (b: bool)
    ensures
        b == is_default_vault(opt_view(vault)),
{
    match vault {
        None => true,
        Some(n) => str_eq(n, "default"),
    }
}

/// Vault file path for a vault name (`None` and `"default"` are the default vault).
pub fn vault_path(vault: Option<&str>) -> (p: String)
    requires
        acceptable_vault(opt_view(vault)),
    ensures
        p@ == vault_file(opt_view(vault)),
{
    if is_default_name(vault) {
        String::from_str(CONFIG_FILE)
    } else {
        let name = vault.unwrap();
        let mut p = String::from_str(".dugout.");
        p.append(name);
        p.append(".toml");
        p
    }
}

/// Request directory for a vault name (`None` and `"default"` share `default`).
pub fn request_dir(vault: Option<&str>) -> (p: String)
    requires
        acceptable_vault(opt_view(vault)),
    ensures
        p@ == request_path(opt_view(vault)),
{
    if is_default_name(vault) {
        String::from_str(".dugout/requests/default")
    } else {
        let name = vault.unwrap();
        let mut p = String::from_str(".dugout/requests/");
        p.append(name);
        p
    }
}

/// The last component of a list of path pieces that names something
/// (empty pieces and `.` do not).
pub open spec fn last_component(segs: Seq<Seq<char>>) -> Option<Seq<char>>
    decreases segs.len(),
{
    if segs.len() == 0 {
        None
    } else if segs.last().len() == 0 || segs.last() == "."@ {
        last_component(segs.drop_last())
    } else {
        Some(segs.last())
    }
}

/// The final component of a `/`-separated path, unless it is `..` (`Path::file_name`).
pub open spec fn file_name(path: Seq<char>) -> Option<Seq<char>> {
    match last_component(split_on(path, '/')) {
        Some(n) => if n == ".."@ {
            None
        } else {
            Some(n)
        },
        None => None,
    }
}

/// The final component of a path, if it names a file or directory.
pub fn path_file_name(path: &str) -> (r: Option<String>)
    ensures
        match r {
            Some(n) => file_name(path@) == Some(n@),
            None => file_name(path@) is None,
        },
{
    let cs = chars_of(path);
    let segs = split_chars(cs.as_slice(), '/');
    let ghost sv = vecs_view(segs@);
    let mut i = segs.len();
    assert(sv.take(i as int) =~= sv);
    while i > 0 && (segs[i - 1].len() == 0 || str_eq(string_of(segs[i - 1].as_slice()).as_str(), "."))
        invariant
            i <= segs@.len(),
            sv == vecs_view(segs@),
            last_component(sv) == last_component(sv.take(i as int)),
        decreases i,
    {
        proof {
            assert(sv.take(i as int).last() == segs@[i - 1]@);
            assert(sv.take(i as int).drop_last() =~= sv.take(i - 1));
        }
        i = i - 1;
    }
    if i == 0 {
        proof {
            assert(sv.take(0) =~= Seq::<Seq<char>>::empty());
        }
        return None;
    }
    proof {
        assert(sv.take(i as int).last() == segs@[i - 1]@);
    }
    let name = string_of(segs[i - 1].as_slice());
    if str_eq(name.as_str(), "..") {
        None
    } else {
        Some(name)
    }
}

/// The vault name a vault file denotes: `None` for `.dugout.toml` or for a
/// file that is not a vault file, `Some(name)` for `.dugout.<name>.toml`.
pub open spec fn vault_name_of(path: Seq<char>) -> Option<Seq<char>> {
    match file_name(path) {
        None => None,
        Some(f) => {
            let p = ".dugout."@;
            let q = ".toml"@;
            if f == CONFIG_FILE@ {
                None
            } else if has_prefix(f, p) && has_suffix(f, q) && f.len() > p.len() + q.len() {
                Some(f.subrange(p.len() as int, f.len() - q.len()))
            } else {
                None
            }
        },
    }
}

/// Extract the vault name from a vault file path.
pub fn vault_name_from_path(path: &str) -> (r: Option<String>)
    ensures
        match r {
            Some(n) => vault_name_of(path@) == Some(n@),
            None => vault_name_of(path@) is None,
        },
{
    let f = match path_file_name(path) {
        Some(f) => f,
        None => return None,
    };
    if str_eq(f.as_str(), CONFIG_FILE) {
        return None;
    }
    let fc = chars_of(f.as_str());
    let p = chars_of(".dugout.");
    let q = chars_of(".toml");
    if starts_with_chars(fc.as_slice(), p.as_slice()) && ends_with_chars(fc.as_slice(), q.as_slice())
        && fc.len() - q.len() > p.len() {
        let mid = slice_chars(fc.as_slice(), p.len(), fc.len() - q.len());
        Some(string_of(mid.as_slice()))
    } else {
        None
    }
}

/// A vault's file names the vault: for a safe name other than `default`,
/// the name read back from its vault file is that name.
pub proof fn lemma_vault_name_roundtrip(name: Seq<char>)
    requires
        safe_vault_name(name),
        name != "default"@,
    ensures
        vault_name_of(vault_file(Some(name))) == Some(name),
{
    reveal_strlit(".dugout.");
    reveal_strlit(".toml");
    reveal_strlit(".dugout.toml");
    reveal_strlit("..");
    reveal_strlit(".");
    let p = ".dugout."@;
    let q = ".toml"@;
    let f = p + name + q;
    assert(vault_file(Some(name)) == f);
    assert(!f.contains('/')) by {
        if f.contains('/') {
            let j = choose|j: int| 0 <= j < f.len() && f[j] == '/';
            if j < p.len() {
                assert(f[j] == p[j]);
            } else if j < p.len() + name.len() {
                assert(f[j] == name[j - p.len()]);
            } else {
                assert(f[j] == q[j - p.len() - name.len()]);
            }
        }
    }
    crate::text::lemma_first_index(f, '/');
    assert(split_on(f, '/') == seq![f]);
    assert(seq![f].drop_last() =~= Seq::<Seq<char>>::empty());
    assert(f.len() > 2);
    assert(f != "."@);
    assert(f != ".."@);
    assert(file_name(f) == Some(f));
    assert(f.len() != CONFIG_FILE@.len());
    assert(f.take(p.len() as int) =~= p);
    assert(f.skip(f.len() - q.len()) =~= q);
    assert(f.subrange(p.len() as int, f.len() - q.len()) =~= name);
}

} // verus!
