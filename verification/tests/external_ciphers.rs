use dugout::cipher::command::CommandRun;
use dugout::cipher::gpg::Gpg;
use dugout::cipher::kms::{AwsKms, GcpKms, KmsReply};
use dugout::error::{CipherError, Error};

fn enc_msg(r: Result<String, Error>) -> String {
    match r {
        Err(Error::Cipher(CipherError::EncryptionFailed(m))) => m,
        other => panic!("expected an encryption failure, got {:?}", other),
    }
}

fn dec_msg(r: Result<String, Error>) -> String {
    match r {
        Err(Error::Cipher(CipherError::DecryptionFailed(m))) => m,
        other => panic!("expected a decryption failure, got {:?}", other),
    }
}

fn exited(success: bool, stdout: &[u8], stderr: &str) -> CommandRun {
    CommandRun::Exited { success, stdout: stdout.to_vec(), stderr: stderr.to_string() }
}

#[test]
fn gpg_arguments() {
    let rs = vec!["alice@example.com".to_string(), "ABCD1234".to_string()];
    assert_eq!(
        Gpg::encrypt_args(&rs).unwrap(),
        vec![
            "--encrypt", "--armor", "--trust-model", "always", "--batch", "--yes",
            "--recipient", "alice@example.com", "--recipient", "ABCD1234",
        ]
    );
    let none: Vec<String> = vec![];
    assert!(matches!(
        Gpg::encrypt_args(&none),
        Err(Error::Cipher(CipherError::EncryptionFailed(m))) if m == "no recipients provided"
    ));
    assert_eq!(Gpg::decrypt_args(), vec!["--decrypt", "--batch", "--yes", "--quiet"]);
    assert_eq!(Gpg.name(), "gpg");
}

#[test]
fn gpg_outcomes() {
    let armor = "-----BEGIN PGP MESSAGE-----\n...\n";
    assert_eq!(Gpg::encrypt_output(exited(true, armor.as_bytes(), "")).unwrap(), armor);
    assert_eq!(enc_msg(Gpg::encrypt_output(exited(false, b"", "no key"))), "gpg encrypt failed: no key");
    assert_eq!(
        enc_msg(Gpg::encrypt_output(CommandRun::Missing)),
        "gpg CLI not found. Install GnuPG from https://gnupg.org/download/"
    );
    assert_eq!(
        enc_msg(Gpg::encrypt_output(CommandRun::SpawnFailed("denied".to_string()))),
        "failed to spawn gpg: denied"
    );
    assert!(enc_msg(Gpg::encrypt_output(exited(true, &[0xff], "")) ).starts_with("UTF-8 error: "));
    assert_eq!(Gpg::decrypt_output(exited(true, b"secret", "")).unwrap(), "secret");
    assert_eq!(
        dec_msg(Gpg::decrypt_output(exited(false, b"", "bad"))),
        "gpg decrypt failed: bad. Ensure you have the private key in your keyring."
    );
    assert_eq!(
        dec_msg(Gpg::decrypt_output(CommandRun::WriteFailed("pipe".to_string()))),
        "failed to write ciphertext: pipe"
    );
    assert_eq!(
        enc_msg(Gpg::decrypt_output(CommandRun::Missing)),
        "gpg CLI not found. Install GnuPG from https://gnupg.org/download/"
    );
}

#[test]
fn gcp_arguments_and_input() {
    let k = GcpKms::new("projects/p/locations/global/keyRings/r/cryptoKeys/k".to_string());
    assert_eq!(
        k.encrypt_args().unwrap(),
        vec![
            "kms", "encrypt", "--project", "p", "--location", "global", "--keyring", "r", "--key",
            "k", "--plaintext-file", "-", "--ciphertext-file", "-",
        ]
    );
    let (args, blob) = k.decrypt_input("aGVsbG8=").unwrap();
    assert_eq!(&args[..2], &["kms", "decrypt"]);
    assert_eq!(&args[10..], &["--ciphertext-file", "-", "--plaintext-file", "-"]);
    assert_eq!(blob, b"hello".to_vec());
    assert!(matches!(
        k.decrypt_input("not base64!"),
        Err(Error::Cipher(CipherError::DecryptionFailed(m))) if m.starts_with("invalid base64: ")
    ));
    let bad = GcpKms::new("projects/p".to_string());
    assert_eq!(
        enc_msg(bad.encrypt_args().map(|_| String::new())),
        "invalid GCP KMS resource name format: projects/p"
    );
    // the ciphertext is decoded before the name is split
    assert!(matches!(
        bad.decrypt_input("%%%"),
        Err(Error::Cipher(CipherError::DecryptionFailed(_)))
    ));
    assert!(matches!(
        bad.decrypt_input("aGVsbG8="),
        Err(Error::Cipher(CipherError::EncryptionFailed(_)))
    ));
}

#[test]
fn gcp_outcomes() {
    assert_eq!(GcpKms::encrypt_output(exited(true, b"hello", "")).unwrap(), "aGVsbG8=");
    assert_eq!(GcpKms::encrypt_output(exited(true, &[0xff, 0x00], "")).unwrap(), "/wA=");
    assert_eq!(
        enc_msg(GcpKms::encrypt_output(exited(false, b"", "denied"))),
        "gcloud kms encrypt failed: denied"
    );
    assert_eq!(
        enc_msg(GcpKms::encrypt_output(CommandRun::Missing)),
        "gcloud CLI not found. Install it from https://cloud.google.com/sdk/docs/install"
    );
    assert_eq!(
        enc_msg(GcpKms::encrypt_output(CommandRun::WaitFailed("x".to_string()))),
        "gcloud command failed: x"
    );
    assert_eq!(GcpKms::decrypt_output(exited(true, b"plain", "")).unwrap(), "plain");
    assert_eq!(
        dec_msg(GcpKms::decrypt_output(exited(false, b"", "nope"))),
        "gcloud kms decrypt failed: nope"
    );
    assert!(dec_msg(GcpKms::decrypt_output(exited(true, &[0xc3], ""))).starts_with("UTF-8 error: "));
    assert!(matches!(
        GcpKms::decrypt_output(CommandRun::Missing),
        Err(Error::Cipher(CipherError::EncryptionFailed(_)))
    ));
}

#[test]
fn aws_replies() {
    assert_eq!(AwsKms::encrypt_reply(KmsReply::Data(b"hi".to_vec())).unwrap(), "aGk=");
    assert_eq!(enc_msg(AwsKms::encrypt_reply(KmsReply::Empty)), "no ciphertext returned");
    assert_eq!(
        enc_msg(AwsKms::encrypt_reply(KmsReply::CallFailed("throttled".to_string()))),
        "KMS encrypt failed: throttled"
    );
    assert_eq!(
        enc_msg(AwsKms::encrypt_reply(KmsReply::NoRuntime("io".to_string()))),
        "failed to create runtime: io"
    );
    assert_eq!(AwsKms::decrypt_input("aGk=").unwrap(), b"hi".to_vec());
    assert!(matches!(
        AwsKms::decrypt_input("a"),
        Err(Error::Cipher(CipherError::DecryptionFailed(m))) if m.starts_with("invalid base64: ")
    ));
    assert_eq!(AwsKms::decrypt_reply(KmsReply::Data(b"v".to_vec())).unwrap(), "v");
    assert_eq!(dec_msg(AwsKms::decrypt_reply(KmsReply::Empty)), "no plaintext returned");
    assert_eq!(
        dec_msg(AwsKms::decrypt_reply(KmsReply::CallFailed("denied".to_string()))),
        "KMS decrypt failed: denied"
    );
}
