//! Project type detection, and the default command for each kind. What is on
//! disk and which tools are installed is looked up by the caller.
use vstd::prelude::*;

use crate::strmap::strings_view;
use crate::text::{
    chars_of, contains_str, has_infix, has_prefix, lines, lines_of, split_on, split_chars,
    str_eq, string_of, trim, trim_chars, vecs_view,
};

verus! {

/// Detected project type.
#[derive(Debug, Clone, Copy, PartialEq, Eq, Structural)]
pub enum ProjectKind {
    Python,
    Node,
    Deno,
    Rust,
    Go,
    Ruby,
    Elixir,
    Docker,
    Make,
    Just,
}

/// The kind that the files present in a directory indicate, in the order
/// Python, Deno, Node, Rust, Go, Ruby, Elixir, Docker, Make, Just.
pub open spec fn kind_of(names: Seq<Seq<char>>) -> Option<ProjectKind> {
    if names.contains("pyproject.toml"@) {
        Some(ProjectKind::Python)
    } else if names.contains("deno.json"@) || names.contains("deno.jsonc"@) {
        Some(ProjectKind::Deno)
    } else if names.contains("package.json"@) {
        Some(ProjectKind::Node)
    } else if names.contains("Cargo.toml"@) {
        Some(ProjectKind::Rust)
    } else if names.contains("go.mod"@) {
        Some(ProjectKind::Go)
    } else if names.contains("Gemfile"@) {
        Some(ProjectKind::Ruby)
    } else if names.contains("mix.exs"@) {
        Some(ProjectKind::Elixir)
    } else if names.contains("docker-compose.yml"@) || names.contains("docker-compose.yaml"@) {
        Some(ProjectKind::Docker)
    } else if names.contains("Makefile"@) {
        Some(ProjectKind::Make)
    } else if names.contains("justfile"@) {
        Some(ProjectKind::Just)
    } else {
        None
    }
}

/// The display name of a kind.
pub open spec fn kind_name(k: ProjectKind) -> Seq<char> {
    match k {
        ProjectKind::Python => "python"@,
        ProjectKind::Node => "node"@,
        ProjectKind::Deno => "deno"@,
        ProjectKind::Rust => "rust"@,
        ProjectKind::Go => "go"@,
        ProjectKind::Ruby => "ruby"@,
        ProjectKind::Elixir => "elixir"@,
        ProjectKind::Docker => "docker compose"@,
        ProjectKind::Make => "make"@,
        ProjectKind::Just => "just"@,
    }
}

/// What the default command depends on: files of the project directory,
/// their contents, and the tools on the `PATH`.
#[derive(Debug, Clone)]
pub struct ProjectContext {
    pub has_manage_py: bool,
    pub has_app_py: bool,
    pub has_main_py: bool,
    /// Contents of `pyproject.toml`, if readable.
    pub pyproject: Option<String>,
    /// Contents of `package.json`, if readable.
    pub package_json: Option<String>,
    /// Contents of `deno.json`, else of `deno.jsonc`, if readable.
    pub deno_json: Option<String>,
    pub has_main_ts: bool,
    pub has_config_ru: bool,
    pub has_runtime_exs: bool,
    pub has_uv: bool,
    pub has_python3: bool,
    pub has_bun: bool,
    pub has_bundle: bool,
}

/// Whether optional file contents contain `t`.
pub open spec fn mentions(o: Option<String>, t: Seq<char>) -> bool {
    o matches Some(s) && has_infix(s@, t)
}

/// The Python entry point arguments, if any.
pub open spec fn python_entry(c: ProjectContext) -> Option<Seq<Seq<char>>> {
    if c.has_manage_py {
        Some(seq!["manage.py"@, "runserver"@])
    } else if c.has_app_py {
        Some(seq!["app.py"@])
    } else if c.has_main_py {
        Some(seq!["main.py"@])
    } else {
        None
    }
}

/// The default command of a kind in a context.
pub open spec fn command_of(k: ProjectKind, c: ProjectContext) -> Seq<Seq<char>> {
    match k {
        ProjectKind::Python => {
            let dev = mentions(c.pyproject, "[tool.hatch.envs"@) || (mentions(
                c.pyproject,
                "scripts"@,
            ) && mentions(c.pyproject, "dev"@));
            if c.has_uv {
                if dev {
                    seq!["uv"@, "run"@, "dev"@]
                } else if python_entry(c) is Some {
                    seq!["uv"@, "run"@, "python"@] + python_entry(c)->0
                } else {
                    seq!["uv"@, "run"@, "--no-project"@, "python"@]
                }
            } else {
                let py = if c.has_python3 {
                    "python3"@
                } else {
                    "python"@
                };
                if python_entry(c) is Some {
                    seq![py] + python_entry(c)->0
                } else {
                    seq![py]
                }
            }
        },
        ProjectKind::Node => {
            let tool = if c.has_bun {
                "bun"@
            } else {
                "npm"@
            };
            let script = if mentions(c.package_json, "\"dev\""@) {
                "dev"@
            } else {
                "start"@
            };
            seq![tool, "run"@, script]
        },
        ProjectKind::Deno => if mentions(c.deno_json, "\"dev\""@) {
            seq!["deno"@, "task"@, "dev"@]
        } else if c.has_main_ts {
            seq!["deno"@, "run"@, "main.ts"@]
        } else {
            seq!["deno"@, "repl"@]
        },
        ProjectKind::Rust => seq!["cargo"@, "run"@],
        ProjectKind::Go => seq!["go"@, "run"@, "."@],
        ProjectKind::Ruby => if c.has_config_ru {
            let tool = if c.has_bundle {
                "bundle"@
            } else {
                "ruby"@
            };
            seq![tool, "exec"@, "rails"@, "server"@]
        } else {
            seq!["ruby"@, "main.rb"@]
        },
        ProjectKind::Elixir => if c.has_runtime_exs {
            seq!["mix"@, "phx.server"@]
        } else {
            seq!["iex"@, "-S"@, "mix"@]
        },
        ProjectKind::Docker => seq!["docker"@, "compose"@, "up"@],
        ProjectKind::Make => seq!["make"@, "dev"@],
        ProjectKind::Just => seq!["just"@, "dev"@],
    }
}

fn has_name(names: &[String], n: &str) -> (b: bool)
    ensures
        b == strings_view(names@).contains(n@),
{
    let mut i: usize = 0;
    while i < names.len()
        invariant
            i <= names@.len(),
            forall|j: int| 0 <= j < i ==> strings_view(names@)[j] != n@,
        decreases names@.len() - i,
    {
        if str_eq(names[i].as_str(), n) {
            assert(strings_view(names@)[i as int] == n@);
            return true;
        }
        i = i + 1;
    }
    false
}

fn mentions_exec(o: &Option<String>, t: &str) -> (b: bool)
    ensures
        b == mentions(*o, t@),
{
    match o {
        Some(s) => contains_str(s.as_str(), t),
        None => false,
    }
}

fn strings(v: Vec<&str>) -> (r: Vec<String>)
    ensures
        strings_view(r@) == v@.map_values(|s: &str| s@),
{
    let mut r: Vec<String> = Vec::new();
    let mut i: usize = 0;
    while i < v.len()
        invariant
            i <= v@.len(),
            strings_view(r@) == v@.map_values(|s: &str| s@).take(i as int),
        decreases v@.len() - i,
    {
        let ghost before = r@;
        r.push(v[i].to_string());
        assert(strings_view(r@) =~= strings_view(before).push(v@[i as int]@));
        assert(v@.map_values(|s: &str| s@).take(i + 1) =~= v@.map_values(|s: &str| s@).take(
            i as int,
        ).push(v@[i as int]@));
        i = i + 1;
    }
    assert(v@.map_values(|s: &str| s@).take(i as int) =~= v@.map_values(|s: &str| s@));
    r
}

impl ProjectKind {
    /// Detect the project type from the names of the files present in a
    /// directory.
    pub fn detect_in(names: &[String]) -> (r: Option<Self>)
        ensures
            r == kind_of(strings_view(names@)),
    {
        if has_name(names, "pyproject.toml") {
            return Some(ProjectKind::Python);
        }
        if has_name(names, "deno.json") || has_name(names, "deno.jsonc") {
            return Some(ProjectKind::Deno);
        }
        if has_name(names, "package.json") {
            return Some(ProjectKind::Node);
        }
        if has_name(names, "Cargo.toml") {
            return Some(ProjectKind::Rust);
        }
        if has_name(names, "go.mod") {
            return Some(ProjectKind::Go);
        }
        if has_name(names, "Gemfile") {
            return Some(ProjectKind::Ruby);
        }
        if has_name(names, "mix.exs") {
            return Some(ProjectKind::Elixir);
        }
        if has_name(names, "docker-compose.yml") || has_name(names, "docker-compose.yaml") {
            return Some(ProjectKind::Docker);
        }
        if has_name(names, "Makefile") {
            return Some(ProjectKind::Make);
        }
        if has_name(names, "justfile") {
            return Some(ProjectKind::Just);
        }
        None
    }

    /// Display name for user-facing messages.
    pub fn display_name(&self) -> (s: &'static str)
        ensures
            s@ == kind_name(*self),
    {
        match self {
            ProjectKind::Python => "python",
            ProjectKind::Node => "node",
            ProjectKind::Deno => "deno",
            ProjectKind::Rust => "rust",
            ProjectKind::Go => "go",
            ProjectKind::Ruby => "ruby",
            ProjectKind::Elixir => "elixir",
            ProjectKind::Docker => "docker compose",
            ProjectKind::Make => "make",
            ProjectKind::Just => "just",
        }
    }

    /// The default command for this project type in its context.
    pub fn command(&self, ctx: &ProjectContext) -> (r: Vec<String>)
        ensures
            strings_view(r@) == command_of(*self, *ctx),
    {
        let v: Vec<&str> = match self {
            ProjectKind::Python => {
                let entry: Option<Vec<&str>> = if ctx.has_manage_py {
                    Some(vec!["manage.py", "runserver"])
                } else if ctx.has_app_py {
                    Some(vec!["app.py"])
                } else if ctx.has_main_py {
                    Some(vec!["main.py"])
                } else {
                    None
                };
                let dev = mentions_exec(&ctx.pyproject, "[tool.hatch.envs") || (mentions_exec(
                    &ctx.pyproject,
                    "scripts",
                ) && mentions_exec(&ctx.pyproject, "dev"));
                if ctx.has_uv {
                    if dev {
                        vec!["uv", "run", "dev"]
                    } else if let Some(args) = entry {
                        let mut cmd = vec!["uv", "run", "python"];
                        let mut args = args;
                        cmd.append(&mut args);
                        cmd
                    } else {
                        vec!["uv", "run", "--no-project", "python"]
                    }
                } else {
                    let py = if ctx.has_python3 {
                        "python3"
                    } else {
                        "python"
                    };
                    if let Some(args) = entry {
                        let mut cmd = vec![py];
                        let mut args = args;
                        cmd.append(&mut args);
                        cmd
                    } else {
                        vec![py]
                    }
                }
            },
            ProjectKind::Node => {
                let tool = if ctx.has_bun {
                    "bun"
                } else {
                    "npm"
                };
                let script = if mentions_exec(&ctx.package_json, "\"dev\"") {
                    "dev"
                } else {
                    "start"
                };
                vec![tool, "run", script]
            },
            ProjectKind::Deno => {
                if mentions_exec(&ctx.deno_json, "\"dev\"") {
                    vec!["deno", "task", "dev"]
                } else if ctx.has_main_ts {
                    vec!["deno", "run", "main.ts"]
                } else {
                    vec!["deno", "repl"]
                }
            },
            ProjectKind::Rust => vec!["cargo", "run"],
            ProjectKind::Go => vec!["go", "run", "."],
            ProjectKind::Ruby => {
                if ctx.has_config_ru {
                    let tool = if ctx.has_bundle {
                        "bundle"
                    } else {
                        "ruby"
                    };
                    vec![tool, "exec", "rails", "server"]
                } else {
                    vec!["ruby", "main.rb"]
                }
            },
            ProjectKind::Elixir => {
                if ctx.has_runtime_exs {
                    vec!["mix", "phx.server"]
                } else {
                    vec!["iex", "-S", "mix"]
                }
            },
            ProjectKind::Docker => vec!["docker", "compose", "up"],
            ProjectKind::Make => vec!["make", "dev"],
            ProjectKind::Just => vec!["just", "dev"],
        };
        let r = strings(v);
        assert(strings_view(r@) =~= command_of(*self, *ctx));
        r
    }
}

/// The keys a `.env` template lists: of its lines that are not comments
/// (starting with `#`) and not blank, the trimmed text before the first
/// `=`, where not empty.
pub open spec fn template_keys(ls: Seq<Seq<char>>) -> Seq<Seq<char>>
    decreases ls.len(),
{
    if ls.len() == 0 {
        Seq::empty()
    } else {
        let rest = template_keys(ls.drop_last());
        let l = ls.last();
        if has_prefix(l, "#"@) || trim(l).len() == 0 {
            rest
        } else {
            let k = trim(split_on(l, '=')[0]);
            if k.len() == 0 {
                rest
            } else {
                rest.push(k)
            }
        }
    }
}

/// The keys listed in the contents of a `.env` template; the caller tries
/// `.env.example`, `.env.template` and `.env.sample` in turn and takes the
/// first that lists any.
pub fn env_template_keys(content: &str) -> (r: Vec<String>)
    ensures
        strings_view(r@) == template_keys(lines(content@)),
{
    let cs = chars_of(content);
    let ls = lines_of(cs.as_slice());
    let ghost lv = vecs_view(ls@);
    let mut keys: Vec<String> = Vec::new();
    let mut i: usize = 0;
    assert(lv.take(0) =~= Seq::<Seq<char>>::empty());
    assert(strings_view(keys@) =~= Seq::<Seq<char>>::empty());
    while i < ls.len()
        invariant
            i <= ls@.len(),
            lv == vecs_view(ls@),
            lv == lines(content@),
            strings_view(keys@) == template_keys(lv.take(i as int)),
        decreases ls@.len() - i,
    {
        assert(lv.take(i + 1).drop_last() =~= lv.take(i as int));
        assert(lv.take(i + 1).last() == ls@[i as int]@);
        let l = &ls[i];
        let comment = l.len() > 0 && l[0] == '#';
        proof {
            reveal_strlit("#");
            assert("#"@.len() == 1);
            assert("#"@[0] == '#');
            if l@.len() > 0 {
                assert(l@.take(1) =~= seq![l@[0]]);
                assert(l@[0] == '#' <==> l@.take(1) =~= "#"@);
            }
        }
        assert(comment == has_prefix(l@, "#"@));
        let blank = trim_chars(l.as_slice()).len() == 0;
        if !comment && !blank {
            let parts = split_chars(l.as_slice(), '=');
            proof {
                crate::text::lemma_split_on_nonempty(l@, '=');
            }
            assert(vecs_view(parts@)[0] == parts@[0]@);
            let k = trim_chars(parts[0].as_slice());
            if k.len() > 0 {
                let ghost before = keys@;
                keys.push(string_of(k.as_slice()));
                assert(strings_view(keys@) =~= strings_view(before).push(k@));
            }
        }
        i = i + 1;
    }
    assert(lv.take(i as int) =~= lv);
    keys
}

/// The keys of the first template, in order, whose contents are known and
/// list any.
pub open spec fn first_template(ts: Seq<Option<Seq<char>>>) -> Option<Seq<Seq<char>>>
    decreases ts.len(),
{
    if ts.len() == 0 {
        None
    } else if ts[0] matches Some(c) && template_keys(lines(c)).len() > 0 {
        Some(template_keys(lines(ts[0]->0)))
    } else {
        first_template(ts.drop_first())
    }
}

/// The views of optional contents.
pub open spec fn contents_view(ts: Seq<Option<String>>) -> Seq<Option<Seq<char>>> {
    ts.map_values(|o: Option<String>| match o {
        Some(s) => Some(s@),
        None => None,
    })
}

impl ProjectKind {
    /// The secrets a project's `.env` template asks for: given the contents
    /// of `.env.example`, `.env.template` and `.env.sample` (`None` where a
    /// file cannot be read), the keys of the first that lists any.
    pub fn env_template_in(templates: &[Option<String>]) -> (r: Option<Vec<String>>)
        ensures
            match first_template(contents_view(templates@)) {
                Some(ks) => r matches Some(v) && strings_view(v@) == ks,
                None => r is None,
            },
    {
        let ghost ts = contents_view(templates@);
        let mut i: usize = 0;
        assert(ts.skip(0) =~= ts);
        while i < templates.len()
            invariant
                i <= templates@.len(),
                ts == contents_view(templates@),
                first_template(ts) == first_template(ts.skip(i as int)),
            decreases templates@.len() - i,
        {
            assert(ts.skip(i as int)[0] == ts[i as int]);
            assert(ts.skip(i as int).drop_first() =~= ts.skip(i + 1));
            if let Some(content) = &templates[i] {
                let keys = env_template_keys(content.as_str());
                if keys.len() > 0 {
                    return Some(keys);
                }
            }
            i = i + 1;
        }
        None
    }
}

/// A Node project is run as `<runner> run <script>`: the runner is `bun`
/// when it is installed and `npm` otherwise, and the script is `dev` when
/// `package.json` has a `"dev"` entry and `start` otherwise, whichever
/// runner is used.
pub proof fn lemma_node_command(c: ProjectContext)
    ensures
        command_of(ProjectKind::Node, c).len() == 3,
        command_of(ProjectKind::Node, c)[0] == (if c.has_bun {
            "bun"@
        } else {
            "npm"@
        }),
        command_of(ProjectKind::Node, c)[1] == "run"@,
        (c.package_json matches Some(pj) && has_infix(pj@, "\"dev\""@)) ==> command_of(
            ProjectKind::Node,
            c,
        )[2] == "dev"@,
        !(c.package_json matches Some(pj) && has_infix(pj@, "\"dev\""@)) ==> command_of(
            ProjectKind::Node,
            c,
        )[2] == "start"@,
{
}

/// The script a Node project runs depends on `package.json` alone, not on
/// which runner is installed.
pub proof fn lemma_node_script_ignores_runner(c1: ProjectContext, c2: ProjectContext)
    requires
        c1.package_json == c2.package_json,
    ensures
        command_of(ProjectKind::Node, c1)[2] == command_of(ProjectKind::Node, c2)[2],
{
    lemma_node_command(c1);
    lemma_node_command(c2);
}

} // verus!
