use dugout::config::Config;
use dugout::constants::{request_dir, vault_name_from_path, vault_path};
use dugout::domain::identity::Identity;
use dugout::store::{identity_file, Keychain, SERVICE_NAME};

#[test]
fn test_vault_path_default() {
    assert_eq!(vault_path(None), ".dugout.toml");
}

#[test]
fn test_vault_path_named() {
    assert_eq!(vault_path(Some("dev")), ".dugout.dev.toml");
    assert_eq!(vault_path(Some("prod")), ".dugout.prod.toml");
}

#[test]
fn test_request_dir_default() {
    assert_eq!(request_dir(None), ".dugout/requests/default");
}

#[test]
fn test_request_dir_named() {
    assert_eq!(request_dir(Some("prod")), ".dugout/requests/prod");
}

#[test]
fn test_vault_name_from_path_default() {
    assert_eq!(vault_name_from_path(".dugout.toml"), None);
}

#[test]
fn test_vault_name_from_path_named() {
    assert_eq!(vault_name_from_path(".dugout.dev.toml"), Some("dev".to_string()));
}

#[test]
fn test_vault_name_from_path_empty_name() {
    assert_eq!(vault_name_from_path(".dugout..toml"), None);
}

#[test]
fn test_vault_name_from_path_invalid() {
    assert_eq!(vault_name_from_path("config.toml"), None);
    assert_eq!(vault_name_from_path(".env"), None);
    assert_eq!(vault_name_from_path("dugout.toml"), None);
}

#[test]
fn test_config_path_for_vault() {
    assert_eq!(Config::config_path_for(None), ".dugout.toml");
    assert_eq!(Config::config_path_for(Some("dev")), ".dugout.dev.toml");
}

#[test]
fn test_keychain_backend_creation() {
    let keychain = Keychain::new().unwrap();
    assert_eq!(keychain.service(), SERVICE_NAME);
}

#[test]
fn default_alias_shares_the_default_file() {
    assert_eq!(vault_path(Some("default")), ".dugout.toml");
    assert_eq!(request_dir(Some("default")), ".dugout/requests/default");
}

#[test]
fn vault_name_from_nested_path() {
    assert_eq!(vault_name_from_path("some/dir/.dugout.prod.toml"), Some("prod".to_string()));
}

#[test]
fn key_paths_under_home() {
    assert_eq!(Identity::base_dir("/home/u"), "/home/u/.dugout/keys");
    assert_eq!(Identity::project_dir("/home/u", "app"), "/home/u/.dugout/keys/app");
    assert_eq!(Identity::global_path("/home/u/"), "/home/u/.dugout/identity.key");
    assert_eq!(identity_file("/h", "app"), "/h/.dugout/keys/app/identity.key");
    assert_eq!(identity_file("/h", "global"), "/h/.dugout/identity.key");
}
