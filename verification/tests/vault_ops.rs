use dugout::cipher::Cipher;
use bech32::ToBase32;
use age::secrecy::ExposeSecret;
use dugout::config::{gitignore_update, Config};
use dugout::domain::env::Env;
use dugout::domain::identity::{Identity, IdentitySource};
use dugout::vault::Vault;

fn new_identity() -> (Identity, String, age::x25519::Identity) {
    let id = age::x25519::Identity::generate();
    let secret = id.to_string().expose_secret().to_string();
    let pk = id.to_public().to_string();
    let identity =
        Identity::from_parts(secret, IdentitySource::Environment { name: "T".to_string() }).unwrap();
    (identity, pk, id)
}

fn new_vault() -> Vault {
    let (identity, _, _) = new_identity();
    Vault::init("alice", None, "proj".to_string(), identity).unwrap()
}

#[test]
fn identity_public_key_and_path() {
    let (identity, pk, _) = new_identity();
    assert_eq!(identity.public_key(), pk);
    assert!(pk.starts_with("age1"));
    assert_eq!(identity.path(), "<env:T>");
    assert!(Identity::from_parts("nope".to_string(), IdentitySource::Filesystem("f".to_string())).is_err());
}

#[test]
fn vault_set_and_get() {
    let mut vault = new_vault();
    let s = vault.set("API_KEY", "secret123", false).unwrap();
    assert_eq!(s.key(), "API_KEY");
    assert!(s.encrypted().starts_with("-----BEGIN AGE ENCRYPTED FILE-----"));
    assert_eq!(vault.get("API_KEY").unwrap(), "secret123");
    assert!(vault.config().dugout.recipients_hash.is_some());
    assert!(!vault.needs_sync());
}

#[test]
fn vault_set_refuses_existing_without_force() {
    let mut vault = new_vault();
    vault.set("K", "one", false).unwrap();
    assert!(vault.set("K", "two", false).is_err());
    assert_eq!(vault.get("K").unwrap(), "one");
    vault.set("K", "two", true).unwrap();
    assert_eq!(vault.get("K").unwrap(), "two");
    assert!(vault.set("bad-key", "v", false).is_err());
    assert!(vault.set("K2", "", false).is_err());
}

#[test]
fn vault_remove_and_list() {
    let mut vault = new_vault();
    vault.set("B_KEY", "v", false).unwrap();
    vault.set("A_KEY", "v", false).unwrap();
    vault.set("TEMP", "v", false).unwrap();
    vault.remove("TEMP").unwrap();
    assert!(vault.get("TEMP").is_err());
    assert!(vault.remove("TEMP").is_err());
    let keys: Vec<String> = vault.list().iter().map(|s| s.key().to_string()).collect();
    assert_eq!(keys, vec!["A_KEY", "B_KEY"]);
}

#[test]
fn vault_team_changes_reencrypt() {
    let mut vault = new_vault();
    vault.set("SHARED", "value", false).unwrap();
    let (_, bob_pk, bob) = new_identity();
    vault.add_recipient("bob", &bob_pk).unwrap();
    assert_eq!(vault.recipients().len(), 2);
    let ct = vault.config().secrets.get("SHARED").unwrap().clone();
    let dec = age::Decryptor::new(age::armor::ArmoredReader::new(ct.as_bytes())).unwrap();
    let mut reader = dec.decrypt(std::iter::once(&bob as &dyn age::Identity)).unwrap();
    let mut bob_reads = String::new();
    std::io::Read::read_to_string(&mut reader, &mut bob_reads).unwrap();
    assert_eq!(bob_reads, "value");
    assert_eq!(vault.get("SHARED").unwrap(), "value");
    vault.remove_recipient("bob").unwrap();
    assert_eq!(vault.recipients().len(), 1);
    assert!(vault.remove_recipient("bob").is_err());
    assert!(vault.add_recipient("../x", &bob_pk).is_err());
    assert!(vault.add_recipient("carol", "age1notakey").is_err());
    let all = vault.decrypt_all().unwrap();
    assert_eq!(all, vec![("SHARED".to_string(), "value".to_string())]);
}

#[test]
fn vault_sync_and_fingerprint() {
    let mut vault = new_vault();
    vault.set("A", "1", false).unwrap();
    let before = vault.recipients_fingerprint();
    assert_eq!(before.len(), 64);
    let r = vault.sync(false).unwrap();
    assert!(!r.was_needed);
    let r = vault.sync(true).unwrap();
    assert!(r.was_needed);
    assert_eq!(r.secrets, 1);
    assert_eq!(r.recipients, 1);
    assert_eq!(vault.get("A").unwrap(), "1");
}

#[test]
fn vault_import_export_diff() {
    let mut vault = new_vault();
    let env = Env::parse("IMPORT_ONE=value1\nIMPORT_TWO=value2\n", ".env.test".to_string());
    let imported = vault.import(&env).unwrap();
    assert_eq!(imported, vec!["IMPORT_ONE", "IMPORT_TWO"]);
    assert_eq!(vault.get("IMPORT_ONE").unwrap(), "value1");
    let exported = vault.export().unwrap();
    assert!(exported.to_env_string().contains("IMPORT_TWO=value2"));
    assert_eq!(exported.path(), ".env");
    let local = vec![("IMPORT_ONE".to_string(), "changed".to_string())];
    let diff = vault.diff(&local).unwrap();
    assert_eq!(diff.modified().len(), 1);
    assert_eq!(diff.vault_only().len(), 1);
}

#[test]
fn vault_open_needs_a_member_identity() {
    let (identity, pk, _) = new_identity();
    let (outsider, _, _) = new_identity();
    let mut config = Config::new();
    config.recipients.insert("alice".to_string(), pk);
    assert!(Vault::open(config, "p".to_string(), vec![outsider]).is_err());
    let mut config = Config::new();
    let (again, pk2, _) = new_identity();
    config.recipients.insert("alice".to_string(), pk2);
    let (other, _, _) = new_identity();
    let v = Vault::open_vault(Some("dev"), config, "p".to_string(), vec![identity, other, again]).unwrap();
    assert_eq!(v.vault_name(), Some("dev"));
    assert!(Vault::open(Config::new(), "p".to_string(), vec![]).is_err());
}

#[test]
fn vault_files_and_gitignore() {
    let names: Vec<String> = [".dugout.prod.toml", "x.toml", ".dugout.toml", ".env"].iter().map(|s| s.to_string()).collect();
    assert_eq!(Vault::find_vault_files(&names), vec![".dugout.prod.toml", ".dugout.toml"]);
    assert!(Vault::has_multiple_vaults(&names));
    assert_eq!(gitignore_update(""), ".env\n.env.*\n!.env.example\n");
    assert_eq!(gitignore_update("target\n.env"), "target\n.env\n.env.*\n!.env.example\n");
}

#[test]
fn gitignore_update_twice_changes_nothing() {
    for existing in ["", "node_modules", "  .env  \r\nbuild/\n", "!.env.example\r"] {
        let once = gitignore_update(existing);
        assert!(once.starts_with(existing));
        for entry in [".env", ".env.*", "!.env.example"] {
            assert!(once.lines().any(|l| l.trim() == entry));
        }
        assert_eq!(gitignore_update(&once), once);
    }
    assert_eq!(gitignore_update("  .env  \r\nbuild/\n"), "  .env  \r\nbuild/\n.env.*\n!.env.example\n");
}

#[test]
fn config_validation() {
    let (_, pk, _) = new_identity();
    let mut config = Config::new();
    assert!(config.validate().is_err());
    config.recipients.insert("alice".to_string(), pk);
    assert!(config.validate().is_ok());
    config.secrets.insert("invalid-key-name".to_string(), "x".to_string());
    assert!(config.validate().is_err());
}

#[test]
fn test_config_validate_valid() {
    let identity = age::x25519::Identity::generate();
    let pubkey = identity.to_public().to_string();

    let mut config = Config::new();
    config.recipients.insert("alice".to_string(), pubkey);

    let result = config.validate();
    assert!(result.is_ok());
}

#[test]
fn test_config_validate_missing_recipients() {
    let config = Config::new();
    let result = config.validate();
    assert!(result.is_err());
}

#[test]
fn test_config_validate_bad_secret_key() {
    let identity = age::x25519::Identity::generate();
    let pubkey = identity.to_public().to_string();

    let mut config = Config::new();
    config.recipients.insert("alice".to_string(), pubkey);
    config.secrets.insert("invalid-key-name".to_string(), "encrypted_value".to_string());

    let result = config.validate();
    assert!(result.is_err());
}

fn setup_test_vault() -> Vault {
    new_vault()
}

fn set_and_get_case() {
    let mut vault = setup_test_vault();
    vault.set("API_KEY", "secret123", false).unwrap();
    let value = vault.get("API_KEY").unwrap();
    assert_eq!(value.as_str(), "secret123");
}

fn remove_case() {
    let mut vault = setup_test_vault();
    vault.set("TEMP_SECRET", "value", false).unwrap();
    vault.remove("TEMP_SECRET").unwrap();
    assert!(vault.get("TEMP_SECRET").is_err());
    let secrets = vault.list();
    let keys: Vec<String> = secrets.iter().map(|s| s.key().to_string()).collect();
    assert!(!keys.contains(&"TEMP_SECRET".to_string()));
}

fn list_case() {
    let mut vault = setup_test_vault();
    vault.set("KEY_ONE", "value1", false).unwrap();
    vault.set("KEY_TWO", "value2", false).unwrap();
    vault.set("KEY_THREE", "value3", false).unwrap();
    let secrets = vault.list();
    assert_eq!(secrets.len(), 3);
    let keys: Vec<String> = secrets.iter().map(|s| s.key().to_string()).collect();
    assert!(keys.contains(&"KEY_ONE".to_string()));
    assert!(keys.contains(&"KEY_TWO".to_string()));
    assert!(keys.contains(&"KEY_THREE".to_string()));
}

#[test]
fn vault_test_vault_set_and_get() {
    set_and_get_case();
}

#[test]
fn vault_test_vault_remove() {
    remove_case();
}

#[test]
fn vault_test_vault_list() {
    list_case();
}

fn add_recipient_case() {
    let mut vault = setup_test_vault();
    vault.set("SHARED_SECRET", "value", false).unwrap();
    let identity = age::x25519::Identity::generate();
    let pubkey = identity.to_public().to_string();
    vault.add_recipient("bob", &pubkey).unwrap();
    let recipients = vault.recipients();
    assert_eq!(recipients.len(), 2);
    assert!(recipients.iter().any(|r| r.name() == "bob"));
    let value = vault.get("SHARED_SECRET").unwrap();
    assert_eq!(value.as_str(), "value");
}

fn remove_recipient_case() {
    let mut vault = setup_test_vault();
    let identity = age::x25519::Identity::generate();
    let pubkey = identity.to_public().to_string();
    vault.add_recipient("bob", &pubkey).unwrap();
    assert_eq!(vault.recipients().len(), 2);
    vault.remove_recipient("bob").unwrap();
    let recipients = vault.recipients();
    assert_eq!(recipients.len(), 1);
    assert!(recipients.iter().all(|r| r.name() != "bob"));
}

fn reencrypt_after_team_change_case() {
    let mut vault = setup_test_vault();
    vault.set("TEAM_SECRET", "original", false).unwrap();
    let identity = age::x25519::Identity::generate();
    let pubkey = identity.to_public().to_string();
    vault.add_recipient("bob", &pubkey).unwrap();
    let value = vault.get("TEAM_SECRET").unwrap();
    assert_eq!(value.as_str(), "original");
    let all_secrets = vault.decrypt_all().unwrap();
    assert_eq!(all_secrets.len(), 1);
    assert_eq!(all_secrets[0].0, "TEAM_SECRET");
    assert_eq!(all_secrets[0].1.as_str(), "original");
}

#[test]
fn vault_test_vault_add_recipient() {
    add_recipient_case();
}

#[test]
fn vault_test_vault_remove_recipient() {
    remove_recipient_case();
}

#[test]
fn vault_test_vault_reencrypt_after_team_change() {
    reencrypt_after_team_change_case();
}

#[test]
fn team_test_vault_add_recipient() {
    add_recipient_case();
}

#[test]
fn team_test_vault_remove_recipient() {
    remove_recipient_case();
}

#[test]
fn team_test_vault_reencrypt_after_team_change() {
    reencrypt_after_team_change_case();
}

#[test]
fn test_vault_open_denies_non_member_identity() {
    let vault = setup_test_vault();
    let alice = Identity::from_parts(
        vault.identity().expose_secret().to_string(),
        IdentitySource::Environment { name: "T".to_string() },
    )
    .unwrap();

    let outsider = age::x25519::Identity::generate();
    let outsider_key = outsider.to_public().to_string();

    // the vault file as `init` wrote it: alice as the one recipient
    let mut cfg = Config::new();
    cfg.recipients.insert("alice".to_string(), alice.public_key());
    assert!(vault.config().recipients.contains_key("alice"));
    cfg.recipients.clear();
    cfg.recipients.insert("bob".to_string(), outsider_key);

    match Vault::open(cfg, "proj".to_string(), vec![alice]) {
        Err(e) => assert!(matches!(
            e,
            dugout::error::Error::Config(dugout::error::ConfigError::AccessDenied)
        )),
        Ok(_) => panic!("a non-member identity opened the vault"),
    }
}

fn import_case() {
    let mut vault = setup_test_vault();
    let env_content = "IMPORT_ONE=value1\nIMPORT_TWO=value2\n";
    let env = Env::parse(env_content, ".env.test".to_string());
    let imported = vault.import(&env).unwrap();
    assert_eq!(imported.len(), 2);
    assert_eq!(vault.get("IMPORT_ONE").unwrap().as_str(), "value1");
    assert_eq!(vault.get("IMPORT_TWO").unwrap().as_str(), "value2");
}

fn export_roundtrip_case() {
    let mut vault = setup_test_vault();
    vault.set("EXPORT_KEY", "export_value", false).unwrap();
    vault.set("ANOTHER_KEY", "another_value", false).unwrap();
    let env = vault.export().unwrap();
    let exported = env.to_env_string();
    assert!(exported.contains("EXPORT_KEY=export_value"));
    assert!(exported.contains("ANOTHER_KEY=another_value"));
}

#[test]
fn vault_test_vault_import() {
    import_case();
}

#[test]
fn vault_test_vault_export_roundtrip() {
    export_roundtrip_case();
}

#[test]
fn lifecycle_test_vault_import() {
    import_case();
}

#[test]
fn lifecycle_test_vault_export_roundtrip() {
    export_roundtrip_case();
}

#[test]
fn secrets_test_vault_set_and_get() {
    set_and_get_case();
}

#[test]
fn secrets_test_vault_remove() {
    remove_case();
}

#[test]
fn secrets_test_vault_list() {
    list_case();
}

#[test]
fn import_reads_back_last_value_of_each_key() {
    let mut vault = setup_test_vault();
    vault.set("KEEP", "old", false).unwrap();
    let env = Env::parse("A=1\nB=two words\nA=3\n", ".env".to_string());
    let imported = vault.import(&env).unwrap();
    assert_eq!(imported, vec!["A", "B", "A"]);
    assert_eq!(vault.get("A").unwrap(), "3");
    assert_eq!(vault.get("B").unwrap(), "two words");
    assert_eq!(vault.get("KEEP").unwrap(), "old");
}

#[test]
fn add_then_remove_member_and_set_then_remove_secret_undo() {
    let mut vault = setup_test_vault();
    vault.set("KEPT", "v", false).unwrap();
    let names = |v: &Vault| v.recipients().iter().map(|r| r.name().to_string()).collect::<Vec<_>>();
    let keys = |v: &Vault| v.list().iter().map(|s| s.key().to_string()).collect::<Vec<_>>();
    let before_members = names(&vault);
    let before_secrets = keys(&vault);
    let (_, pk, _) = new_identity();
    vault.add_recipient("bob", &pk).unwrap();
    vault.remove_recipient("bob").unwrap();
    assert_eq!(names(&vault), before_members);
    vault.set("TEMP", "x", false).unwrap();
    vault.remove("TEMP").unwrap();
    assert_eq!(keys(&vault), before_secrets);
    assert_eq!(vault.get("KEPT").unwrap(), "v");
}

#[test]
fn vault_declines_small_order_recipients() {
    let weak = bech32::encode("age", [0u8; 32].to_base32(), bech32::Variant::Bech32).unwrap();
    let mut vault = setup_test_vault();
    vault.set("A", "1", false).unwrap();
    assert!(vault.try_add_recipient("eve", &weak).is_none());
    assert_eq!(vault.recipients().len(), 1);
    let mut cfg = vault.config().recipients.to_pairs();
    cfg.push(("eve".to_string(), weak));
    let mut config = Config::new();
    for (n, k) in cfg {
        config.recipients.insert(n, k);
    }
    let alice = Identity::from_parts(
        vault.identity().expose_secret().to_string(),
        IdentitySource::Environment { name: "T".to_string() },
    )
    .unwrap();
    let mut v2 = Vault::open(config, "proj".to_string(), vec![alice]).unwrap();
    assert!(v2.try_set("B", "2", false).is_none());
    assert!(v2.try_import(&Env::parse("C=3\n", ".env".to_string())).is_none());
    assert!(v2.try_sync(true).is_none());
    assert!(v2.try_remove_recipient("eve").is_some());
    assert!(v2.try_set("B", "2", false).unwrap().is_ok());
}

#[test]
fn config_version_must_be_semver() {
    let (_, pk, _) = new_identity();
    let mut config = Config::new();
    config.recipients.insert("alice".to_string(), pk);
    assert!(config.validate().is_ok());
    for bad in [
        "a.b", "1.2", "01.0.0", "1.0.0.0", "1..0", "1.0.x", "", "1.0.0-", "1.0.0+",
        "1.0.0-01", "1.0.0-alpha..1", "1.0.0-al_pha", "1.0.0+build+2", "-1.0.0",
    ] {
        config.dugout.version = bad.to_string();
        assert!(config.validate().is_err(), "{} accepted", bad);
    }
    for good in [
        "0.1.0", "1.10.3", "0.0.0", "12.0.7", "1.0.0-alpha", "1.0.0+build",
        "1.0.0-alpha.1+sha.5114f85", "1.0.0-0.3.7", "1.0.0-x.7.z.92", "1.0.0+001",
        "1.0.0-alpha-beta", "2.0.0-rc.1+build.01-x",
    ] {
        config.dugout.version = good.to_string();
        assert!(config.validate().is_ok(), "{} refused", good);
    }
}

#[test]
fn removed_member_cannot_open_secrets() {

    let mut vault = setup_test_vault();
    vault.set("S", "secret", false).unwrap();
    let (bob, pk, _) = new_identity();
    vault.add_recipient("bob", &pk).unwrap();
    let ct = vault.config().secrets.get("S").unwrap().clone();
    assert_eq!(dugout::cipher::age::Age.decrypt(&ct, &bob).unwrap(), "secret");
    vault.remove_recipient("bob").unwrap();
    let ct = vault.config().secrets.get("S").unwrap().clone();
    assert!(dugout::cipher::age::Age.decrypt(&ct, &bob).is_err());
    assert_eq!(vault.get("S").unwrap(), "secret");
}

#[test]
fn init_keeps_the_kms_key() {
    let (identity, _, _) = new_identity();
    let v = Vault::init("alice", Some("arn:aws:kms:us-east-1:1:key/k".to_string()), "p".to_string(), identity)
        .unwrap();
    assert_eq!(v.config().kms_key(), Some("arn:aws:kms:us-east-1:1:key/k"));
}

#[test]
fn sync_then_sync_needs_nothing() {
    let mut vault = setup_test_vault();
    vault.set("A", "1", false).unwrap();
    let (_, pk, _) = new_identity();
    let mut cfg = Config::new();
    for (n, k) in vault.config().recipients.to_pairs() {
        cfg.recipients.insert(n, k);
    }
    cfg.recipients.insert("bob".to_string(), pk);
    for (k, v) in vault.config().secrets.to_pairs() {
        cfg.secrets.insert(k, v);
    }
    cfg.dugout.recipients_hash = vault.config().dugout.recipients_hash.clone();
    let alice = Identity::from_parts(
        vault.identity().expose_secret().to_string(),
        IdentitySource::Environment { name: "T".to_string() },
    )
    .unwrap();
    let mut vault = Vault::open(cfg, "proj".to_string(), vec![alice]).unwrap();
    assert!(vault.needs_sync());
    let r = vault.sync(false).unwrap();
    assert!(r.was_needed);
    let again = vault.sync(false).unwrap();
    assert!(!again.was_needed);
    assert_eq!(vault.get("A").unwrap(), "1");
}

#[test]
fn init_config_is_what_init_stores() {
    let (identity, pk, _) = new_identity();
    let c = Vault::init_config("alice", Some("projects/p/locations/l/keyRings/r/cryptoKeys/k".to_string()), &identity)
        .unwrap();
    assert_eq!(c.recipients.get("alice"), Some(&pk));
    assert_eq!(c.kms_key(), Some("projects/p/locations/l/keyRings/r/cryptoKeys/k"));
    assert_eq!(c.secrets.len(), 0);
    assert!(Vault::init_config("../x", None, &identity).is_err());
    // a KMS key of no known form is refused only when the backend is chosen
    assert!(Vault::init_config("alice", Some("nope".to_string()), &identity).is_ok());
    assert!(Vault::init("alice", Some("nope".to_string()), "p".to_string(), identity).is_err());
}
