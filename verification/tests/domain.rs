use dugout::domain::identity::{Identity, IdentitySource};
use dugout::config::Config;
use dugout::domain::recipient::Recipient;
use dugout::domain::secret::Secret;
use dugout::domain::vault_info::VaultInfo;
use dugout::validation::{validate_key, validate_member_name, validate_value};

#[test]
fn test_secret_new() {
    let secret = Secret::new("API_KEY".to_string(), "age-encryption-v1...".to_string());
    assert_eq!(secret.key(), "API_KEY");
    assert_eq!(secret.encrypted(), "age-encryption-v1...");
}

#[test]
fn test_secret_display() {
    let secret = Secret::new("DATABASE_URL".to_string(), "encrypted_value".to_string());
    assert_eq!(secret.describe(), "DATABASE_URL");
}

#[test]
fn test_vault_info_creation() {
    let info = VaultInfo {
        name: "dev".to_string(),
        path: ".dugout.dev.toml".to_string(),
        secret_count: 5,
        recipient_count: 2,
        has_access: true,
    };
    assert_eq!(info.name, "dev");
    assert_eq!(info.path, ".dugout.dev.toml");
    assert_eq!(info.secret_count, 5);
    assert_eq!(info.recipient_count, 2);
    assert!(info.has_access);
}

#[test]
fn test_recipient_new_invalid_key() {
    let result = Recipient::new("bob".to_string(), "not-a-valid-key".to_string());
    assert!(result.is_err());
}

#[test]
fn recipient_new_valid_key() {
    let id = age::x25519::Identity::generate();
    let pk = id.to_public().to_string();
    let r = Recipient::new("alice".to_string(), pk.clone()).unwrap();
    assert_eq!(r.name(), "alice");
    assert_eq!(r.public_key(), pk);
}

#[test]
fn vault_info_for_config() {
    let id = age::x25519::Identity::generate();
    let pk = id.to_public().to_string();
    let mut config = Config::new();
    config.recipients.insert("alice".to_string(), pk.clone());
    config.secrets.insert("A".to_string(), "x".to_string());
    let info = VaultInfo::for_vault(None, "./.dugout.toml".to_string(), &config, Some(&pk));
    assert_eq!(info.name, "default");
    assert_eq!(info.secret_count, 1);
    assert_eq!(info.recipient_count, 1);
    assert!(info.has_access);
    let other = VaultInfo::for_vault(Some("dev".to_string()), "p".to_string(), &config, Some("age1x"));
    assert_eq!(other.name, "dev");
    assert!(!other.has_access);
}

#[test]
fn test_valid_keys() {
    assert!(validate_key("DATABASE_URL").is_ok());
    assert!(validate_key("API_KEY").is_ok());
    assert!(validate_key("SECRET_123").is_ok());
    assert!(validate_key("_PRIVATE").is_ok());
    assert!(validate_key("A").is_ok());
}

#[test]
fn test_invalid_keys() {
    assert!(validate_key("").is_err());
    assert!(validate_key("123_KEY").is_err());
    assert!(validate_key("API-KEY").is_err());
    assert!(validate_key("API.KEY").is_err());
    assert!(validate_key("API KEY").is_err());
    assert!(validate_key("API@KEY").is_err());
}

#[test]
fn test_valid_values() {
    assert!(validate_value("KEY", "value").is_ok());
    assert!(validate_value("KEY", "with spaces").is_ok());
    assert!(validate_value("KEY", "123").is_ok());
}

#[test]
fn test_invalid_values() {
    assert!(validate_value("KEY", "").is_err());
}

#[test]
fn test_validate_member_name_rejects_path_separators() {
    let result = validate_member_name("../bob");
    assert!(result.is_err());
}

#[test]
fn member_names() {
    assert!(validate_member_name("alice@example.com").is_ok());
    assert!(validate_member_name("bob-2_x.y").is_ok());
    assert!(validate_member_name("").is_err());
    assert!(validate_member_name(".hidden").is_err());
    assert!(validate_member_name(&"a".repeat(65)).is_err());
    assert!(validate_member_name(&"a".repeat(64)).is_ok());
}

#[test]
fn lowercase_keys_are_refused() {
    assert!(validate_key("api_key").is_err());
}

#[test]
fn test_recipient_new_valid() {
    let identity = age::x25519::Identity::generate();
    let pubkey = identity.to_public().to_string();

    let recipient = Recipient::new("alice".to_string(), pubkey.clone());
    assert!(recipient.is_ok());

    let recipient = recipient.unwrap();
    assert_eq!(recipient.name(), "alice");
    assert_eq!(recipient.public_key(), &pubkey);
}

#[test]
fn test_recipient_new_empty_name() {
    let identity = age::x25519::Identity::generate();
    let pubkey = identity.to_public().to_string();

    let recipient = Recipient::new("".to_string(), pubkey);
    assert!(recipient.is_ok());
}

#[test]
fn test_generate_and_load() {
    let key_file = "/tmp/test-project/identity.key".to_string();

    let identity1 = Identity::generate(IdentitySource::Filesystem(key_file.clone()));
    let pubkey1 = identity1.public_key();

    // what a key file holds is the secret key text
    let identity2 =
        Identity::from_parts(identity1.expose_secret().to_string(), IdentitySource::Filesystem(key_file))
            .unwrap();
    let pubkey2 = identity2.public_key();

    assert_eq!(pubkey1, pubkey2);
}

#[test]
fn test_public_key() {
    let identity = Identity::generate(IdentitySource::Filesystem("/tmp/p/identity.key".to_string()));
    let pubkey = identity.public_key();
    assert!(pubkey.starts_with("age1"));
}
