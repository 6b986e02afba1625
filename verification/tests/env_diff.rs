use dugout::domain::diff::{Diff, DiffEntry, EntryStatus};
use dugout::domain::env::Env;

#[test]
fn test_env_from_pairs() {
    let pairs = vec![
        ("KEY1".to_string(), "value1".to_string()),
        ("KEY2".to_string(), "value2".to_string()),
    ];
    let env = Env::from_pairs(pairs, ".env".to_string());
    assert_eq!(env.len(), 2);
    assert_eq!(env.path(), ".env");
}

#[test]
fn test_env_get() {
    let pairs = vec![
        ("API_KEY".to_string(), "secret123".to_string()),
        ("DB_URL".to_string(), "postgres://".to_string()),
    ];
    let env = Env::from_pairs(pairs, ".env".to_string());
    assert_eq!(env.get("API_KEY"), Some("secret123"));
    assert_eq!(env.get("DB_URL"), Some("postgres://"));
    assert_eq!(env.get("NONEXISTENT"), None);
}

#[test]
fn test_env_display() {
    let pairs = vec![
        ("SIMPLE".to_string(), "value".to_string()),
        ("WITH_SPACE".to_string(), "value with spaces".to_string()),
    ];
    let env = Env::from_pairs(pairs, ".env".to_string());
    let output = env.to_env_string();
    assert!(output.contains("SIMPLE=value\n"));
    assert!(output.contains("WITH_SPACE=\"value with spaces\"\n"));
}

#[test]
fn test_env_display_escapes_special_chars() {
    let pairs = vec![("SPECIAL".to_string(), "line1\nline2 \"quoted\" \\ tail".to_string())];
    let env = Env::from_pairs(pairs, ".env".to_string());
    let output = env.to_env_string();
    assert!(output.contains("SPECIAL=\"line1\\nline2 \\\"quoted\\\" \\\\ tail\""));
}

#[test]
fn test_env_empty() {
    let env = Env::from_pairs(vec![], ".env".to_string());
    assert!(env.is_empty());
    assert_eq!(env.len(), 0);
    assert_eq!(env.entries().len(), 0);
}

#[test]
fn env_parse_skips_comments_and_strips_quotes() {
    let content = "# c\nAPI_KEY=secret\nQUOTED=\"value in quotes\"\nSINGLE='single quotes'\nNONE=no quotes\n";
    let env = Env::parse(content, ".env".to_string());
    assert_eq!(env.len(), 4);
    assert_eq!(env.get("API_KEY"), Some("secret"));
    assert_eq!(env.get("QUOTED"), Some("value in quotes"));
    assert_eq!(env.get("SINGLE"), Some("single quotes"));
    assert_eq!(env.get("NONE"), Some("no quotes"));
}

#[test]
fn env_parse_unescapes_double_quoted() {
    let content = "ESCAPED=\"line1\\nline2\\\"quoted\\\"\\\\tail\"\n";
    let env = Env::parse(content, ".env".to_string());
    assert_eq!(env.get("ESCAPED"), Some("line1\nline2\"quoted\"\\tail"));
}

#[test]
fn env_text_reads_back() {
    let pairs = vec![
        ("KEY1".to_string(), "value1".to_string()),
        ("KEY2".to_string(), "value with space".to_string()),
        ("KEY3".to_string(), "a\"b\\c\nd".to_string()),
    ];
    let env = Env::from_pairs(pairs.clone(), ".env".to_string());
    let back = Env::parse(&env.to_env_string(), ".env".to_string());
    assert_eq!(back.entries(), &pairs[..]);
}

fn pairs(v: &[(&str, &str)]) -> Vec<(String, String)> {
    v.iter().map(|(a, b)| (a.to_string(), b.to_string())).collect()
}

#[test]
fn test_diff_all_synced() {
    let vault = pairs(&[("API_KEY", "secret123"), ("DB_URL", "postgres://")]);
    let env = vault.clone();
    let diff = Diff::compute(&vault, &env);
    assert_eq!(diff.len(), 2);
    assert!(diff.is_synced());
    assert_eq!(diff.synced().len(), 2);
    assert_eq!(diff.modified().len(), 0);
    assert_eq!(diff.vault_only().len(), 0);
    assert_eq!(diff.env_only().len(), 0);
}

#[test]
fn test_diff_modified() {
    let vault = pairs(&[("API_KEY", "secret123")]);
    let env = pairs(&[("API_KEY", "different")]);
    let diff = Diff::compute(&vault, &env);
    assert_eq!(diff.len(), 1);
    assert!(!diff.is_synced());
    assert_eq!(diff.modified().len(), 1);
    assert_eq!(diff.modified()[0].key(), "API_KEY");
}

#[test]
fn test_diff_vault_only() {
    let vault = pairs(&[("API_KEY", "secret123"), ("VAULT_SECRET", "value")]);
    let env = pairs(&[("API_KEY", "secret123")]);
    let diff = Diff::compute(&vault, &env);
    assert_eq!(diff.len(), 2);
    assert!(!diff.is_synced());
    assert_eq!(diff.vault_only().len(), 1);
    assert_eq!(diff.vault_only()[0].key(), "VAULT_SECRET");
}

#[test]
fn test_diff_env_only() {
    let vault = pairs(&[("API_KEY", "secret123")]);
    let env = pairs(&[("API_KEY", "secret123"), ("UNTRACKED", "value")]);
    let diff = Diff::compute(&vault, &env);
    assert_eq!(diff.len(), 2);
    assert!(!diff.is_synced());
    assert_eq!(diff.env_only().len(), 1);
    assert_eq!(diff.env_only()[0].key(), "UNTRACKED");
}

#[test]
fn test_diff_mixed() {
    let vault = pairs(&[("SYNCED", "same"), ("MODIFIED", "old"), ("VAULT_ONLY", "secret")]);
    let env = pairs(&[("SYNCED", "same"), ("MODIFIED", "new"), ("ENV_ONLY", "local")]);
    let diff = Diff::compute(&vault, &env);
    assert_eq!(diff.len(), 4);
    assert!(!diff.is_synced());
    assert_eq!(diff.synced().len(), 1);
    assert_eq!(diff.modified().len(), 1);
    assert_eq!(diff.vault_only().len(), 1);
    assert_eq!(diff.env_only().len(), 1);
}

#[test]
fn test_diff_empty() {
    let vault: Vec<(String, String)> = vec![];
    let env: Vec<(String, String)> = vec![];
    let diff = Diff::compute(&vault, &env);
    assert!(diff.is_empty());
    assert!(diff.is_synced());
    assert_eq!(diff.len(), 0);
}

#[test]
fn test_diff_entry_is_synced() {
    let synced = DiffEntry::new("KEY".to_string(), EntryStatus::Synced);
    let modified = DiffEntry::new("KEY".to_string(), EntryStatus::Modified);
    assert!(synced.is_synced());
    assert!(!modified.is_synced());
}

#[test]
fn diff_entries_sorted_and_later_value_counts() {
    let vault = pairs(&[("B", "1"), ("A", "x"), ("A", "2")]);
    let env = pairs(&[("C", "3"), ("A", "2")]);
    let diff = Diff::compute(&vault, &env);
    let keys: Vec<&str> = diff.entries().iter().map(|e| e.key()).collect();
    assert_eq!(keys, vec!["A", "B", "C"]);
    assert_eq!(diff.entries()[0].status(), &EntryStatus::Synced);
    assert_eq!(diff.entries()[1].status(), &EntryStatus::VaultOnly);
    assert_eq!(diff.entries()[2].status(), &EntryStatus::EnvOnly);
}

#[test]
fn test_env_load_and_entries() {
    let content = "API_KEY=secret123\nDB_URL=postgres://localhost/db\n";
    let env = Env::parse(content, "/tmp/x/.env".to_string());

    assert_eq!(env.len(), 2);
    assert!(!env.is_empty());
    assert_eq!(env.entries().len(), 2);
    assert_eq!(env.path(), "/tmp/x/.env");
}

#[test]
fn test_env_handles_comments() {
    let content = "# This is a comment\nAPI_KEY=secret\n# Another comment\nDB_URL=postgres://\n";
    let env = Env::parse(content, ".env".to_string());

    assert_eq!(env.len(), 2);
    assert_eq!(env.get("API_KEY"), Some("secret"));
    assert_eq!(env.get("DB_URL"), Some("postgres://"));
}

#[test]
fn test_env_handles_quotes() {
    let content = "QUOTED=\"value in quotes\"\nSINGLE='single quotes'\nNONE=no quotes\n";
    let env = Env::parse(content, ".env".to_string());

    assert_eq!(env.get("QUOTED"), Some("value in quotes"));
    assert_eq!(env.get("SINGLE"), Some("single quotes"));
    assert_eq!(env.get("NONE"), Some("no quotes"));
}

#[test]
fn test_env_unescapes_double_quoted_values() {
    let content = "ESCAPED=\"line1\\nline2\\\"quoted\\\"\\\\tail\"\n";
    let env = Env::parse(content, ".env".to_string());

    assert_eq!(env.get("ESCAPED"), Some("line1\nline2\"quoted\"\\tail"));
}

#[test]
fn test_env_save_roundtrip() {
    let pairs = vec![
        ("KEY1".to_string(), "value1".to_string()),
        ("KEY2".to_string(), "value with space".to_string()),
    ];
    let env = Env::from_pairs(pairs, ".env".to_string());

    let loaded = Env::parse(&env.to_env_string(), ".env".to_string());
    assert_eq!(loaded.len(), 2);
    assert_eq!(loaded.get("KEY1"), Some("value1"));
    assert_eq!(loaded.get("KEY2"), Some("value with space"));
}

#[test]
fn env_text_round_trips_plain_lowercase_keys() {
    let pairs = vec![
        ("lower_key".to_string(), "value with space".to_string()),
        ("Mixed.Case-key".to_string(), "a\"b".to_string()),
    ];
    let env = Env::from_pairs(pairs.clone(), ".env".to_string());
    let back = Env::parse(&env.to_env_string(), ".env".to_string());
    assert_eq!(back.entries(), &pairs[..]);
}

#[test]
fn diff_is_synced_exactly_when_nothing_differs() {
    let p = |k: &str, v: &str| (k.to_string(), v.to_string());
    let cases = vec![
        (vec![], vec![]),
        (vec![p("A", "1"), p("B", "2")], vec![p("A", "1"), p("B", "2")]),
        (vec![p("A", "1")], vec![p("A", "2")]),
        (vec![p("A", "1")], vec![]),
        (vec![], vec![p("B", "2")]),
        (vec![p("A", "1"), p("C", "3")], vec![p("A", "1"), p("B", "2")]),
    ];
    for (vault, env) in cases {
        let d = Diff::compute(&vault, &env);
        let none_differ = d.modified().is_empty() && d.vault_only().is_empty() && d.env_only().is_empty();
        assert_eq!(d.is_synced(), none_differ);
        assert_eq!(d.is_synced(), d.entries().iter().all(|e| e.is_synced()));
        assert_eq!(d.is_synced(), vault == env);
    }
}
