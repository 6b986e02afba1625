use dugout::audit::{scan_env_files, scan_git_history, scan_secret_patterns, secret_patterns, Finding, Severity};
use dugout::detect::{env_template_keys, ProjectContext, ProjectKind};

#[test]
fn test_severity_ordering() {
    assert!(Severity::Low < Severity::Medium);
    assert!(Severity::Medium < Severity::High);
    assert!(Severity::High > Severity::Low);
}

#[test]
fn test_finding_display() {
    let finding = Finding {
        commit: "abc123def456".to_string(),
        file: "config/secrets.yml".to_string(),
        line: Some(42),
        pattern: "AWS_SECRET_KEY".to_string(),
        severity: Severity::High,
    };
    let display = finding.describe();
    assert!(display.contains("High"));
    assert!(display.contains("AWS_SECRET_KEY"));
    assert!(display.contains("config/secrets.yml"));
    assert!(display.contains("abc123de"));
}

#[test]
fn test_finding_without_line() {
    let finding = Finding {
        commit: "abc123".to_string(),
        file: "test.txt".to_string(),
        line: None,
        pattern: "password".to_string(),
        severity: Severity::Low,
    };
    let _display = finding.describe();
}

#[test]
fn finding_text_exact() {
    let finding = Finding {
        commit: "0123456789abcdef".to_string(),
        file: "a.env".to_string(),
        line: None,
        pattern: ".env file".to_string(),
        severity: Severity::Medium,
    };
    assert_eq!(finding.describe(), "[Medium] .env file in a.env (commit 01234567)");
}

const HASH1: &str = "0123456789abcdef0123456789abcdef01234567";
const HASH2: &str = "fedcba9876543210fedcba9876543210fedcba98";

#[test]
fn env_files_in_history() {
    let log = format!(
        "{}\n.env\nsrc/main.rs\n\n{}\nconfig/.env\n.env.example\n.env.local\n",
        HASH1, HASH2
    );
    let found = scan_env_files(&log);
    let files: Vec<(&str, &str)> =
        found.iter().map(|f| (f.commit.as_str(), f.file.as_str())).collect();
    assert_eq!(files, vec![(HASH1, ".env"), (HASH2, "config/.env"), (HASH2, ".env.local")]);
    assert!(found.iter().all(|f| f.severity == Severity::High && f.pattern == ".env file"));
}

#[test]
fn env_files_need_a_commit_first() {
    assert!(scan_env_files(".env\n").is_empty());
}

#[test]
fn history_sorted_by_severity() {
    let env_log = format!("{}\n.env\n", HASH1);
    let mut outputs: Vec<String> = vec![String::new(); secret_patterns().len()];
    outputs[0] = " c1 \n\nc2\n".to_string();
    outputs[3] = "c3\n".to_string();
    let found = scan_secret_patterns(&outputs);
    let got: Vec<(&str, &str)> = found.iter().map(|f| (f.commit.as_str(), f.pattern.as_str())).collect();
    assert_eq!(got, vec![("c1", "API_KEY="), ("c2", "API_KEY="), ("c3", "PRIVATE_KEY=")]);
    let oks = vec![true; outputs.len()];
    let all = scan_git_history(&env_log, true, &outputs, &oks).unwrap();
    let order: Vec<(&str, Severity)> = all.iter().map(|f| (f.commit.as_str(), f.severity)).collect();
    assert_eq!(
        order,
        vec![(HASH1, Severity::High), ("c3", Severity::High), ("c1", Severity::Medium), ("c2", Severity::Medium)]
    );
}

#[test]
fn test_display_names() {
    assert_eq!(ProjectKind::Python.display_name(), "python");
    assert_eq!(ProjectKind::Node.display_name(), "node");
    assert_eq!(ProjectKind::Deno.display_name(), "deno");
    assert_eq!(ProjectKind::Rust.display_name(), "rust");
    assert_eq!(ProjectKind::Go.display_name(), "go");
    assert_eq!(ProjectKind::Ruby.display_name(), "ruby");
    assert_eq!(ProjectKind::Elixir.display_name(), "elixir");
    assert_eq!(ProjectKind::Docker.display_name(), "docker compose");
    assert_eq!(ProjectKind::Make.display_name(), "make");
    assert_eq!(ProjectKind::Just.display_name(), "just");
}

fn names(v: &[&str]) -> Vec<String> {
    v.iter().map(|s| s.to_string()).collect()
}

#[test]
fn detect_priority() {
    assert_eq!(ProjectKind::detect_in(&names(&["package.json", "pyproject.toml"])), Some(ProjectKind::Python));
    assert_eq!(ProjectKind::detect_in(&names(&["package.json", "deno.json"])), Some(ProjectKind::Deno));
    assert_eq!(ProjectKind::detect_in(&names(&["docker-compose.yaml"])), Some(ProjectKind::Docker));
    assert_eq!(ProjectKind::detect_in(&names(&["justfile"])), Some(ProjectKind::Just));
    assert_eq!(ProjectKind::detect_in(&names(&["README.md"])), None);
}

fn bare() -> ProjectContext {
    ProjectContext {
        has_manage_py: false,
        has_app_py: false,
        has_main_py: false,
        pyproject: None,
        package_json: None,
        deno_json: None,
        has_main_ts: false,
        has_config_ru: false,
        has_runtime_exs: false,
        has_uv: false,
        has_python3: false,
        has_bun: false,
        has_bundle: false,
    }
}

#[test]
fn commands() {
    let c = bare();
    assert_eq!(ProjectKind::Rust.command(&c), vec!["cargo", "run"]);
    assert_eq!(ProjectKind::Go.command(&c), vec!["go", "run", "."]);
    assert_eq!(ProjectKind::Python.command(&c), vec!["python"]);
    let mut c2 = bare();
    c2.has_uv = true;
    c2.has_manage_py = true;
    assert_eq!(ProjectKind::Python.command(&c2), vec!["uv", "run", "python", "manage.py", "runserver"]);
    let mut c3 = bare();
    c3.package_json = Some("{\"scripts\":{\"dev\":\"vite\"}}".to_string());
    c3.has_bun = true;
    assert_eq!(ProjectKind::Node.command(&c3), vec!["bun", "run", "dev"]);
    assert_eq!(ProjectKind::Deno.command(&c), vec!["deno", "repl"]);
}

#[test]
fn template_keys() {
    let keys = env_template_keys("# comment\nA=1\n\n B = 2\n=x\nC\n");
    assert_eq!(keys, vec!["A", "B", "C"]);
}

#[test]
fn test_detect_python() {
    assert_eq!(ProjectKind::detect_in(&names(&["pyproject.toml"])), Some(ProjectKind::Python));
}

#[test]
fn test_detect_node() {
    assert_eq!(ProjectKind::detect_in(&names(&["package.json"])), Some(ProjectKind::Node));
}

#[test]
fn test_detect_deno() {
    assert_eq!(ProjectKind::detect_in(&names(&["deno.json"])), Some(ProjectKind::Deno));
}

#[test]
fn test_detect_rust() {
    assert_eq!(ProjectKind::detect_in(&names(&["Cargo.toml"])), Some(ProjectKind::Rust));
}

#[test]
fn test_detect_go() {
    assert_eq!(ProjectKind::detect_in(&names(&["go.mod"])), Some(ProjectKind::Go));
}

#[test]
fn test_detect_ruby() {
    assert_eq!(ProjectKind::detect_in(&names(&["Gemfile"])), Some(ProjectKind::Ruby));
}

#[test]
fn test_detect_elixir() {
    assert_eq!(ProjectKind::detect_in(&names(&["mix.exs"])), Some(ProjectKind::Elixir));
}

#[test]
fn test_detect_priority() {
    assert_eq!(
        ProjectKind::detect_in(&names(&["pyproject.toml", "package.json"])),
        Some(ProjectKind::Python)
    );
}

#[test]
fn test_detect_deno_over_node() {
    assert_eq!(ProjectKind::detect_in(&names(&["deno.json", "package.json"])), Some(ProjectKind::Deno));
}

#[test]
fn test_detect_none() {
    assert_eq!(ProjectKind::detect_in(&names(&[])), None);
}

#[test]
fn test_command_generation() {
    let py_cmd = ProjectKind::Python.command(&bare());
    assert!(py_cmd[0] == "uv" || py_cmd[0] == "python3" || py_cmd[0] == "python");
    assert_eq!(ProjectKind::Rust.command(&bare()), vec!["cargo", "run"]);
    assert_eq!(ProjectKind::Go.command(&bare()), vec!["go", "run", "."]);
}

#[test]
fn test_detect_docker_compose_yml() {
    assert_eq!(ProjectKind::detect_in(&names(&["docker-compose.yml"])), Some(ProjectKind::Docker));
}

#[test]
fn test_detect_docker_compose_yaml() {
    assert_eq!(ProjectKind::detect_in(&names(&["docker-compose.yaml"])), Some(ProjectKind::Docker));
}

#[test]
fn test_detect_makefile() {
    assert_eq!(ProjectKind::detect_in(&names(&["Makefile"])), Some(ProjectKind::Make));
}

#[test]
fn test_detect_justfile() {
    assert_eq!(ProjectKind::detect_in(&names(&["justfile"])), Some(ProjectKind::Just));
}

#[test]
fn test_all_variants_have_commands() {
    let kinds = [
        ProjectKind::Python,
        ProjectKind::Node,
        ProjectKind::Deno,
        ProjectKind::Rust,
        ProjectKind::Go,
        ProjectKind::Ruby,
        ProjectKind::Elixir,
        ProjectKind::Docker,
        ProjectKind::Make,
        ProjectKind::Just,
    ];
    for kind in &kinds {
        let cmd = kind.command(&bare());
        assert!(!cmd.is_empty(), "{:?} returned empty command", kind);
        assert!(!cmd[0].is_empty(), "{:?} returned empty binary name", kind);
    }
}

#[test]
fn template_in_takes_first_listing_any() {
    let ts = vec![None, Some("# only a comment\n".to_string()), Some("X=1\nY=\n".to_string())];
    assert_eq!(ProjectKind::env_template_in(&ts), Some(vec!["X".to_string(), "Y".to_string()]));
    assert_eq!(ProjectKind::env_template_in(&[Some("\n".to_string()), None]), None);
    assert_eq!(ProjectKind::env_template_in(&[]), None);
}

#[test]
fn history_fails_when_git_fails() {
    let outputs: Vec<String> = vec![String::new(); secret_patterns().len()];
    let mut oks = vec![true; outputs.len()];
    assert!(scan_git_history("", false, &outputs, &oks).is_err());
    oks[2] = false;
    match scan_git_history("", true, &outputs, &oks) {
        Err(dugout::error::Error::Io(m)) => assert_eq!(m, "git command failed (not a git repository?)"),
        other => panic!("unexpected {:?}", other.map(|v| v.len())),
    }
    oks[2] = true;
    assert_eq!(scan_git_history("", true, &outputs, &oks).unwrap().len(), 0);
}
