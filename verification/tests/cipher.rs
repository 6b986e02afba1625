use dugout::cipher::age::{has_no_weak_keys, is_weak_recipient, recipient_small_order};
use bech32::ToBase32;
use age::secrecy::ExposeSecret;
use dugout::cipher::age::Age;
use dugout::cipher::Cipher;
use dugout::cipher::backend::CipherBackend;
use dugout::cipher::envelope::{Envelope, KmsProvider};
use dugout::cipher::kms::{GcpKms, KmsBackend, StubKms};
use dugout::config::{Config, KmsConfig};

#[test]
fn test_detect_aws_arn() {
    let key = "arn:aws:kms:us-east-1:123456789012:key/abc-123";
    assert_eq!(KmsProvider::detect(key), Some(KmsProvider::Aws));
}

#[test]
fn test_detect_aws_alias() {
    let key = "arn:aws:kms:eu-west-1:999:alias/my-key";
    assert_eq!(KmsProvider::detect(key), Some(KmsProvider::Aws));
}

#[test]
fn test_detect_gcp_resource() {
    let key = "projects/my-project/locations/global/keyRings/my-ring/cryptoKeys/my-key";
    assert_eq!(KmsProvider::detect(key), Some(KmsProvider::Gcp));
}

#[test]
fn test_detect_invalid() {
    assert_eq!(KmsProvider::detect("not-a-kms-key"), None);
    assert_eq!(KmsProvider::detect(""), None);
    assert_eq!(KmsProvider::detect("arn:aws:s3:::bucket"), None);
    assert_eq!(KmsProvider::detect("projects/foo"), None);
}

#[test]
fn test_mock_kms_roundtrip() {
    let mock = StubKms;
    let encrypted = mock.encrypt("secret-value").unwrap();
    let decrypted = mock.decrypt(&encrypted).unwrap();
    assert_eq!(decrypted, "secret-value");
}

#[test]
fn test_mock_kms_invalid_ciphertext() {
    let mock = StubKms;
    assert!(mock.decrypt("not-valid-base64!!!").is_err());
}

#[test]
fn stub_kms_text() {
    let mock = StubKms;
    assert_eq!(mock.encrypt("Hi é").unwrap(), "mock-kms:486920c3a9");
    assert_eq!(mock.decrypt("mock-kms:4869").unwrap(), "Hi");
    assert_eq!(mock.decrypt("mock-kms:+9").unwrap(), "\t");
    assert!(mock.decrypt("mock-kms:zz").is_err());
    assert!(mock.decrypt("mock-kms:ff").is_err());
    assert_eq!(mock.provider(), &KmsProvider::Aws);
}

#[test]
fn test_envelope_roundtrip() {
    let envelope = Envelope::new(
        "age-ciphertext-here".to_string(),
        Some("kms-ciphertext-here".to_string()),
        Some(&KmsProvider::Aws),
    );
    let sealed = envelope.seal().unwrap();
    let parsed = Envelope::parse(&sealed).unwrap();
    assert_eq!(parsed.age, "age-ciphertext-here");
    assert_eq!(parsed.kms.unwrap(), "kms-ciphertext-here");
    assert_eq!(parsed.provider.unwrap(), "aws");
}

#[test]
fn test_envelope_age_only() {
    let envelope = Envelope::new("age-ciphertext".to_string(), None, None);
    let sealed = envelope.seal().unwrap();
    assert_eq!(sealed, "{\"version\":\"dugout-envelope-v2\",\"age\":\"age-ciphertext\"}");
    let parsed = Envelope::parse(&sealed).unwrap();
    assert_eq!(parsed.age, "age-ciphertext");
    assert!(parsed.kms.is_none());
    assert!(parsed.provider.is_none());
}

#[test]
fn test_envelope_parse_raw_age_returns_none() {
    let raw = "-----BEGIN AGE ENCRYPTED FILE-----\ntest\n-----END AGE ENCRYPTED FILE-----";
    assert!(Envelope::parse(raw).is_none());
}

#[test]
fn test_envelope_is_envelope() {
    let envelope = Envelope::new("age".to_string(), None, None);
    let sealed = envelope.seal().unwrap();
    assert!(Envelope::is_envelope(&sealed));
    assert!(!Envelope::is_envelope("raw age ciphertext"));
}

#[test]
fn envelope_parse_checks_version_and_members() {
    assert!(Envelope::parse("{\"version\":\"v1\",\"age\":\"a\"}").is_none());
    assert!(Envelope::parse("{\"version\":\"dugout-envelope-v2\"}").is_none());
    assert!(Envelope::parse("{\"version\":\"dugout-envelope-v2\",\"age\":\"a\",\"kms\":3}").is_none());
    let e = Envelope::parse(" {\"age\":\"a\\n\",\"version\":\"dugout-envelope-v2\",\"kms\":null,\"x\":1}").unwrap();
    assert_eq!(e.age, "a\n");
    assert!(e.kms.is_none());
}

#[test]
fn envelope_parse_reads_the_array_form() {
    let e = Envelope::parse("[\"dugout-envelope-v2\",\"ct\",null,null]").unwrap();
    assert_eq!(e.age, "ct");
    assert!(e.kms.is_none() && e.provider.is_none());
    let e = Envelope::parse(" [\"dugout-envelope-v2\",\"ct\",\"k\",\"aws\"]").unwrap();
    assert_eq!(e.kms.as_deref(), Some("k"));
    assert_eq!(e.provider.as_deref(), Some("aws"));
    assert!(Envelope::parse("[\"dugout-envelope-v2\",\"ct\",null]").is_none());
    assert!(Envelope::parse("[\"dugout-envelope-v2\",\"ct\",null,null,null]").is_none());
    assert!(Envelope::parse("[\"v1\",\"ct\",null,null]").is_none());
    assert!(Envelope::parse("[\"dugout-envelope-v2\",null,null,null]").is_none());
    assert!(Envelope::parse("\"dugout-envelope-v2\"").is_none());
}

fn config_with_kms(key: &str) -> Config {
    let mut config = Config::new();
    config.kms = Some(KmsConfig { key: key.to_string() });
    config
}

#[test]
fn test_age_from_config() {
    let config = Config::new();
    let backend = CipherBackend::from_config(&config).unwrap();
    assert_eq!(backend.name(), "age");
}

#[test]
fn test_hybrid_from_config() {
    let config = config_with_kms("arn:aws:kms:us-east-1:123:key/abc");
    let backend = CipherBackend::from_config(&config).unwrap();
    assert_eq!(backend.name(), "hybrid+aws");
}

#[test]
fn test_hybrid_gcp_from_config() {
    let config =
        config_with_kms("projects/my-proj/locations/global/keyRings/ring/cryptoKeys/key");
    let backend = CipherBackend::from_config(&config).unwrap();
    assert_eq!(backend.name(), "hybrid+gcp");
}

#[test]
fn test_invalid_kms_key_format() {
    let config = config_with_kms("not-a-valid-kms-key");
    assert!(CipherBackend::from_config(&config).is_err());
}

#[test]
fn cipher_choice_in_config() {
    let mut config = Config::new();
    config.dugout.cipher = Some("gpg".to_string());
    assert!(CipherBackend::from_config(&config).is_err());
    config.dugout.cipher = Some("rot13".to_string());
    assert!(CipherBackend::from_config(&config).is_err());
    config.dugout.cipher = Some("age".to_string());
    assert_eq!(CipherBackend::from_config(&config).unwrap().name(), "age");
}

#[test]
fn hybrid_encrypt_reports_missing_kms() {
    let config = config_with_kms("arn:aws:kms:us-east-1:123:key/abc");
    let backend = CipherBackend::from_config(&config).unwrap();
    let id = age::x25519::Identity::generate();
    let err = backend.encrypt("x", &[id.to_public().to_string()]).unwrap_err();
    assert!(format!("{:?}", err).contains("aws KMS not compiled"));
}

#[test]
fn gcp_resource_name_parts() {
    let k = GcpKms::new("projects/p/locations/l/keyRings/r/cryptoKeys/k".to_string());
    let (p, l, r, n) = k.parse_resource_name().unwrap();
    assert_eq!((p.as_str(), l.as_str(), r.as_str(), n.as_str()), ("p", "l", "r", "k"));
    assert!(GcpKms::new("projects/p/x".to_string()).parse_resource_name().is_err());
}

fn as_identity(id: &age::x25519::Identity) -> dugout::domain::identity::Identity {
    dugout::domain::identity::Identity::from_parts(
        id.to_string().expose_secret().to_string(),
        dugout::domain::identity::IdentitySource::Environment { name: "TEST".to_string() },
    )
    .unwrap()
}

fn aws_hybrid() -> CipherBackend {
    let mut config = Config::new();
    config.kms = Some(KmsConfig { key: "arn:aws:kms:us-east-1:123:key/abc".to_string() });
    CipherBackend::from_config(&config).unwrap()
}

#[test]
fn test_encrypt_decrypt_roundtrip() {
    let cipher = Age;
    let identity = age::x25519::Identity::generate();
    let recipient = identity.to_public().to_string();

    let plaintext = "Hello, World!";
    let encrypted = cipher.encrypt(plaintext, &[recipient]).unwrap();

    assert_ne!(encrypted, plaintext);
    assert!(encrypted.contains("-----BEGIN AGE ENCRYPTED FILE-----"));

    let decrypted = cipher.decrypt(&encrypted, &as_identity(&identity)).unwrap();
    assert_eq!(decrypted, plaintext);
}

#[test]
fn test_encrypt_decrypt_large_payload() {
    let cipher = Age;
    let identity = age::x25519::Identity::generate();
    let recipient = identity.to_public().to_string();

    let plaintext = "A".repeat(10_000);
    let encrypted = cipher.encrypt(&plaintext, &[recipient]).unwrap();

    let decrypted = cipher.decrypt(&encrypted, &as_identity(&identity)).unwrap();
    assert_eq!(decrypted, plaintext);
    assert_eq!(decrypted.len(), 10_000);
}

#[test]
fn test_encrypt_with_multiple_recipients() {
    let cipher = Age;

    let identity1 = age::x25519::Identity::generate();
    let identity2 = age::x25519::Identity::generate();
    let recipient1 = identity1.to_public().to_string();
    let recipient2 = identity2.to_public().to_string();

    let plaintext = "Shared secret";
    let encrypted = cipher.encrypt(plaintext, &[recipient1, recipient2]).unwrap();

    let decrypted1 = cipher.decrypt(&encrypted, &as_identity(&identity1)).unwrap();
    assert_eq!(decrypted1, plaintext);

    let decrypted2 = cipher.decrypt(&encrypted, &as_identity(&identity2)).unwrap();
    assert_eq!(decrypted2, plaintext);
}

#[test]
fn test_age_encrypt_decrypt() {
    let backend = CipherBackend::Age;
    let identity = age::x25519::Identity::generate();
    let recipient = identity.to_public().to_string();

    let encrypted = backend.encrypt("test secret", &[recipient]).unwrap();
    let decrypted = backend.decrypt(&encrypted, &as_identity(&identity)).unwrap();
    assert_eq!(decrypted, "test secret");
}

// The hybrid cases below run with the stub KMS made explicit: the library
// itself includes no cloud KMS.

#[test]
fn test_hybrid_encrypt_produces_envelope() {
    let backend = aws_hybrid();
    let identity = age::x25519::Identity::generate();
    let recipient = identity.to_public().to_string();

    let encrypted = backend.encrypt_with_kms("my-secret", &[recipient], &StubKms).unwrap();
    let envelope = Envelope::parse(&encrypted).expect("should be envelope");
    assert!(envelope.kms.is_some());
    assert_eq!(envelope.provider.as_deref(), Some("aws"));
}

#[test]
fn test_hybrid_decrypt_via_age() {
    let backend = aws_hybrid();
    let identity = age::x25519::Identity::generate();
    let recipient = identity.to_public().to_string();

    let encrypted = backend.encrypt_with_kms("hybrid-secret", &[recipient], &StubKms).unwrap();
    let decrypted = backend.decrypt_with_kms(&encrypted, &as_identity(&identity), &StubKms).unwrap();
    assert_eq!(decrypted, "hybrid-secret");
}

#[test]
fn test_hybrid_decrypt_via_kms_fallback() {
    let backend = aws_hybrid();
    let identity = age::x25519::Identity::generate();
    let recipient = identity.to_public().to_string();

    let encrypted = backend.encrypt_with_kms("kms-fallback", &[recipient], &StubKms).unwrap();
    let wrong_identity = age::x25519::Identity::generate();
    let decrypted =
        backend.decrypt_with_kms(&encrypted, &as_identity(&wrong_identity), &StubKms).unwrap();
    assert_eq!(decrypted, "kms-fallback");
}

#[test]
fn test_hybrid_backward_compat_raw_age() {
    let age_backend = CipherBackend::Age;
    let identity = age::x25519::Identity::generate();
    let recipient = identity.to_public().to_string();
    let age_encrypted = age_backend.encrypt("old-secret", &[recipient]).unwrap();

    let hybrid_backend = aws_hybrid();
    let decrypted = hybrid_backend.decrypt(&age_encrypted, &as_identity(&identity)).unwrap();
    assert_eq!(decrypted, "old-secret");
}

#[test]
fn test_age_reads_hybrid_envelope() {
    let hybrid_backend = aws_hybrid();
    let identity = age::x25519::Identity::generate();
    let recipient = identity.to_public().to_string();
    let encrypted = hybrid_backend.encrypt_with_kms("cross-compat", &[recipient], &StubKms).unwrap();

    let age_backend = CipherBackend::Age;
    let decrypted = age_backend.decrypt(&encrypted, &as_identity(&identity)).unwrap();
    assert_eq!(decrypted, "cross-compat");
}

#[test]
fn hybrid_without_a_kms_reports_it() {
    let backend = aws_hybrid();
    let identity = age::x25519::Identity::generate();
    let recipient = identity.to_public().to_string();
    match backend.encrypt("s", &[recipient]) {
        Err(dugout::error::Error::Cipher(dugout::error::CipherError::EncryptionFailed(m))) => assert_eq!(
            m,
            "aws KMS not compiled. Rebuild with: cargo install dugout --features aws"
        ),
        other => panic!("unexpected {:?}", other),
    }
}

fn small_order_key() -> String {
    bech32::encode("age", [0u8; 32].to_base32(), bech32::Variant::Bech32).unwrap()
}

#[test]
fn small_order_keys_are_recognised() {
    let weak = small_order_key();
    assert!(weak.parse::<age::x25519::Recipient>().is_ok());
    assert!(recipient_small_order(&weak));
    assert!(is_weak_recipient(&weak));
    let good = age::x25519::Identity::generate().to_public().to_string();
    assert!(!recipient_small_order(&good));
    assert!(!is_weak_recipient(&good));
    assert!(!is_weak_recipient("not a key"));
    assert!(has_no_weak_keys(&[good.clone()]));
    assert!(!has_no_weak_keys(&[good, weak]));
}

#[test]
fn upper_case_recipient_key_is_the_same_key() {
    let identity = age::x25519::Identity::generate();
    let outsider = age::x25519::Identity::generate();
    let upper = identity.to_public().to_string().to_uppercase();
    let ct = Age.encrypt("hello", &[upper]).unwrap();
    assert_eq!(Age.decrypt(&ct, &as_identity(&identity)).unwrap(), "hello");
    assert!(Age.decrypt(&ct, &as_identity(&outsider)).is_err());
}

#[test]
fn outsiders_and_garbage_do_not_open() {
    let identity = age::x25519::Identity::generate();
    let outsider = age::x25519::Identity::generate();
    let ct = Age.encrypt("hello", &[identity.to_public().to_string()]).unwrap();
    assert!(ct.len() > "hello".len());
    match Age.decrypt(&ct, &as_identity(&outsider)) {
        Err(dugout::error::Error::Cipher(dugout::error::CipherError::DecryptionFailed(m))) => {
            assert_eq!(m, "age: no identity matched a recipient")
        }
        other => panic!("unexpected {:?}", other),
    }
    assert!(Age.decrypt("not age at all", &as_identity(&identity)).is_err());
}
