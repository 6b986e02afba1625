use dugout::store::{init_key_choice, InitKey};
use age::secrecy::ExposeSecret;
use dugout::domain::identity::{Identity, IdentitySource};
use dugout::error::{Error, StoreError};
use dugout::store::{Keychain, KeychainFailure, ITEM_NOT_FOUND, USER_CANCELED};

fn secret_key() -> (String, String) {
    let id = age::x25519::Identity::generate();
    (id.to_string().expose_secret().to_string(), id.to_public().to_string())
}

fn failure(code: i32, message: &str) -> KeychainFailure {
    KeychainFailure { code, message: message.to_string() }
}

#[test]
fn generated_identity_reads_back() {
    let id = Identity::generate(IdentitySource::Filesystem("/k/identity.key".to_string()));
    assert!(id.expose_secret().starts_with("AGE-SECRET-KEY-1"));
    assert!(id.public_key().starts_with("age1"));
    assert_eq!(id.path(), "/k/identity.key");
    let again =
        Identity::from_parts(id.expose_secret().to_string(), IdentitySource::Filesystem("x".to_string()))
            .unwrap();
    assert_eq!(again.public_key(), id.public_key());
    let other = Identity::generate(IdentitySource::Filesystem("y".to_string()));
    assert_ne!(other.public_key(), id.public_key());
}

#[test]
fn environment_identity_precedence() {
    let (a, pa) = secret_key();
    let (b, pb) = secret_key();
    let inline = Identity::from_env_values(Some(format!("  {}\n", a)), Some(Some(b.clone()))).unwrap();
    assert_eq!(inline.public_key(), pa);
    assert_eq!(inline.path(), "<env:DUGOUT_IDENTITY>");
    let from_file =
        Identity::from_env_values(Some("not a key".to_string()), Some(Some(format!("{}\n", b)))).unwrap();
    assert_eq!(from_file.public_key(), pb);
    assert_eq!(from_file.path(), "<env:DUGOUT_IDENTITY_FILE>");
    assert!(Identity::from_env_values(None, Some(Some("garbage".to_string()))).is_none());
    assert!(Identity::from_env_values(Some("bad".to_string()), Some(None)).is_none());
    assert!(Identity::from_env_values(None, None).is_none());
}

#[test]
fn keychain_store_decisions() {
    assert_eq!(Keychain::store_plan("proj", false, false).unwrap(), false);
    assert_eq!(Keychain::store_plan("proj", true, true).unwrap(), true);
    match Keychain::store_plan("proj", true, false) {
        Err(Error::Store(StoreError::KeychainError(m))) => assert_eq!(
            m,
            "Identity 'proj' already exists in Keychain. Use --force to overwrite."
        ),
        other => panic!("unexpected {:?}", other),
    }
    assert!(Keychain::stored(Ok(())).is_ok());
    assert!(matches!(
        Keychain::stored(Err(failure(USER_CANCELED, "cancelled"))),
        Err(Error::Store(StoreError::KeychainAccessDenied))
    ));
    match Keychain::stored(Err(failure(-1, "busy"))) {
        Err(Error::Store(StoreError::KeychainError(m))) => assert_eq!(
            m,
            "Keychain storage failed: busy. Use --filesystem flag to store locally instead."
        ),
        other => panic!("unexpected {:?}", other),
    }
}

fn load_err(r: Result<Identity, Error>) -> Error {
    match r {
        Err(e) => e,
        Ok(_) => panic!("expected an error"),
    }
}

#[test]
fn keychain_load_and_delete() {
    let (a, pa) = secret_key();
    let id = Keychain::loaded("proj", Ok(format!("{}\n", a).into_bytes())).unwrap();
    assert_eq!(id.public_key(), pa);
    assert_eq!(id.path(), "<keychain:proj>");
    match load_err(Keychain::loaded("proj", Err(failure(ITEM_NOT_FOUND, "missing")))) {
        Error::Store(StoreError::NoPrivateKey(m)) => assert_eq!(m, "keychain:proj"),
        other => panic!("unexpected {:?}", other),
    }
    assert!(matches!(
        Keychain::loaded("proj", Err(failure(USER_CANCELED, "no"))),
        Err(Error::Store(StoreError::KeychainAccessDenied))
    ));
    match load_err(Keychain::loaded("proj", Err(failure(-2, "locked")))) {
        Error::Store(StoreError::KeychainError(m)) => assert_eq!(m, "Keychain error: locked"),
        other => panic!("unexpected {:?}", other),
    }
    match load_err(Keychain::loaded("proj", Ok(vec![0xff]))) {
        Error::Store(StoreError::InvalidFormat(m)) => {
            assert!(m.starts_with("Invalid UTF-8 in Keychain data: "))
        }
        other => panic!("unexpected {:?}", other),
    }
    assert!(matches!(
        Keychain::loaded("proj", Ok(b"not a key".to_vec())),
        Err(Error::Store(StoreError::InvalidFormat(_)))
    ));
    assert!(Keychain::deleted(Ok(())).is_ok());
    assert!(Keychain::deleted(Err(failure(ITEM_NOT_FOUND, "gone"))).is_ok());
    assert!(matches!(
        Keychain::deleted(Err(failure(USER_CANCELED, "no"))),
        Err(Error::Store(StoreError::KeychainAccessDenied))
    ));
    match Keychain::deleted(Err(failure(-3, "x"))) {
        Err(Error::Store(StoreError::KeychainError(m))) => assert_eq!(m, "Failed to delete from Keychain: x"),
        other => panic!("unexpected {:?}", other),
    }
    assert!(Keychain::found(&Ok(vec![1])));
    assert!(!Keychain::found(&Err(failure(ITEM_NOT_FOUND, ""))));
}

#[test]
fn init_key_prefers_project_then_global() {

    assert_eq!(init_key_choice(true, true), InitKey::Project);
    assert_eq!(init_key_choice(true, false), InitKey::Project);
    assert_eq!(init_key_choice(false, true), InitKey::Global);
    assert_eq!(init_key_choice(false, false), InitKey::Generate);
}
