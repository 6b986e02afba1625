//! The GPG backend: the `gpg` command with the keyring of the machine. The
//! caller runs the command; this module says with which arguments, and what
//! its run comes to.
use vstd::prelude::*;

use crate::cipher::age::{keys_view, text_result};
use crate::cipher::command::{joined, CommandRun, RunView};
use crate::cipher::kms::{args_result, decrypted_text, utf8_decrypted};
use crate::error::{CipherError, Error, Fault};

verus! {

/// The message when the `gpg` command cannot be started.
pub const GPG_MISSING: &'static str =
    "gpg CLI not found. Install GnuPG from https://gnupg.org/download/";

/// `--recipient` and the recipient, for each recipient in order.
pub open spec fn recipient_args(rs: Seq<Seq<char>>) -> Seq<Seq<char>>
    decreases rs.len(),
{
    if rs.len() == 0 {
        Seq::empty()
    } else {
        recipient_args(rs.drop_last()) + seq!["--recipient"@, rs.last()]
    }
}

/// The arguments that encrypt standard input to ASCII armor for the
/// recipients (key fingerprints or e-mail addresses), trusting every key and
/// asking nothing; no recipients is an error.
pub open spec fn gpg_encrypt_args(rs: Seq<Seq<char>>) -> Result<Seq<Seq<char>>, Fault> {
    if rs.len() == 0 {
        Err(Fault::EncryptionFailed("no recipients provided"@))
    } else {
        Ok(
            seq!["--encrypt"@, "--armor"@, "--trust-model"@, "always"@, "--batch"@, "--yes"@]
                + recipient_args(rs),
        )
    }
}

/// The arguments that decrypt standard input with the keyring, asking nothing.
pub open spec fn gpg_decrypt_args() -> Seq<Seq<char>> {
    seq!["--decrypt"@, "--batch"@, "--yes"@, "--quiet"@]
}

/// What GPG encryption gives for how its `gpg` run ended.
pub open spec fn gpg_encrypted(run: RunView) -> Result<Seq<char>, Fault> {
    match run {
        RunView::Missing => Err(Fault::EncryptionFailed(GPG_MISSING@)),
        RunView::SpawnFailed(m) => Err(Fault::EncryptionFailed("failed to spawn gpg: "@ + m)),
        RunView::WriteFailed(m) => Err(Fault::EncryptionFailed("failed to write plaintext: "@ + m)),
        RunView::WaitFailed(m) => Err(Fault::EncryptionFailed("gpg command failed: "@ + m)),
        RunView::Exited(success, out, err) => if success {
            match utf8_decrypted(out) {
                Ok(t) => Ok(t),
                Err(_) => Err(
                    Fault::EncryptionFailed(
                        "UTF-8 error: "@ + crate::cipher::kms::utf8_error_text(out),
                    ),
                ),
            }
        } else {
            Err(Fault::EncryptionFailed("gpg encrypt failed: "@ + err))
        },
    }
}

/// The advice that follows a failed decryption.
pub open spec fn gpg_keyring_hint() -> Seq<char> {
    ". Ensure you have the private key in your keyring."@
}

/// What GPG decryption gives for how its `gpg` run ended; a missing command
/// is reported as an encryption failure.
pub open spec fn gpg_decrypted(run: RunView) -> Result<Seq<char>, Fault> {
    match run {
        RunView::Missing => Err(Fault::EncryptionFailed(GPG_MISSING@)),
        RunView::SpawnFailed(m) => Err(Fault::DecryptionFailed("failed to spawn gpg: "@ + m)),
        RunView::WriteFailed(m) => Err(Fault::DecryptionFailed("failed to write ciphertext: "@ + m)),
        RunView::WaitFailed(m) => Err(Fault::DecryptionFailed("gpg command failed: "@ + m)),
        RunView::Exited(success, out, err) => if success {
            utf8_decrypted(out)
        } else {
            Err(Fault::DecryptionFailed("gpg decrypt failed: "@ + err + gpg_keyring_hint()))
        },
    }
}

/// GPG backend, through the `gpg` command.
#[derive(Debug)]
pub struct Gpg;

impl Gpg {
    /// The backend's name.
    pub fn name(&self) -> (s: &'static str)
        ensures
            s@ == "gpg"@,
    {
        "gpg"
    }

    /// The `gpg` arguments that encrypt for `recipients`.
    pub fn encrypt_args(recipients: &[String]) -> (r: Result<Vec<String>, Error>)
        ensures
            args_result(r) == gpg_encrypt_args(keys_view(recipients@)),
    {
        if recipients.len() == 0 {
            return Err(
                Error::Cipher(CipherError::EncryptionFailed(String::from_str("no recipients provided"))),
            );
        }
        let mut v: Vec<String> = vec![
            String::from_str("--encrypt"),
            String::from_str("--armor"),
            String::from_str("--trust-model"),
            String::from_str("always"),
            String::from_str("--batch"),
            String::from_str("--yes"),
        ];
        let ghost head = keys_view(v@);
        let ghost rs = keys_view(recipients@);
        let mut i: usize = 0;
        assert(rs.take(0) =~= Seq::<Seq<char>>::empty());
        assert(keys_view(v@) =~= head + recipient_args(rs.take(0)));
        while i < recipients.len()
            invariant
                i <= recipients@.len(),
                rs == keys_view(recipients@),
                head == seq![
                    "--encrypt"@,
                    "--armor"@,
                    "--trust-model"@,
                    "always"@,
                    "--batch"@,
                    "--yes"@,
                ],
                keys_view(v@) == head + recipient_args(rs.take(i as int)),
            decreases recipients@.len() - i,
        {
            let ghost before = keys_view(v@);
            v.push(String::from_str("--recipient"));
            v.push(recipients[i].clone());
            proof {
                assert(rs.take(i + 1).drop_last() =~= rs.take(i as int));
                assert(rs.take(i + 1).last() == recipients@[i as int]@);
                assert(keys_view(v@) =~= before + seq!["--recipient"@, recipients@[i as int]@]);
            }
            i = i + 1;
        }
        assert(rs.take(i as int) =~= rs);
        Ok(v)
    }

    /// The `gpg` arguments that decrypt.
    pub fn decrypt_args() -> (r: Vec<String>)
        ensures
            keys_view(r@) == gpg_decrypt_args(),
    {
        let v: Vec<String> = vec![
            String::from_str("--decrypt"),
            String::from_str("--batch"),
            String::from_str("--yes"),
            String::from_str("--quiet"),
        ];
        assert(keys_view(v@) =~= gpg_decrypt_args());
        v
    }

    /// The ASCII-armored ciphertext for how the encrypting `gpg` run ended.
    pub fn encrypt_output(run: CommandRun) -> (r: Result<String, Error>)
        ensures
            text_result(r) == gpg_encrypted(run@),
    {
        let fail = |m: String| -> (e: Error)
            ensures
                e@ == Fault::EncryptionFailed(m@),
            { Error::Cipher(CipherError::EncryptionFailed(m)) };
        match run {
            CommandRun::Missing => Err(fail(String::from_str(GPG_MISSING))),
            CommandRun::SpawnFailed(m) => Err(fail(joined("failed to spawn gpg: ", m.as_str()))),
            CommandRun::WriteFailed(m) => Err(fail(joined("failed to write plaintext: ", m.as_str()))),
            CommandRun::WaitFailed(m) => Err(fail(joined("gpg command failed: ", m.as_str()))),
            CommandRun::Exited { success, stdout, stderr } => {
                if !success {
                    Err(fail(joined("gpg encrypt failed: ", stderr.as_str())))
                } else {
                    match crate::cipher::kms::utf8_string(stdout) {
                        Ok(t) => Ok(t),
                        Err(m) => Err(fail(joined("UTF-8 error: ", m.as_str()))),
                    }
                }
            },
        }
    }

    /// The plaintext for how the decrypting `gpg` run ended.
    pub fn decrypt_output(run: CommandRun) -> (r: Result<String, Error>)
        ensures
            text_result(r) == gpg_decrypted(run@),
    {
        let fail = |m: String| -> (e: Error)
            ensures
                e@ == Fault::DecryptionFailed(m@),
            { Error::Cipher(CipherError::DecryptionFailed(m)) };
        match run {
            CommandRun::Missing => Err(
                Error::Cipher(CipherError::EncryptionFailed(String::from_str(GPG_MISSING))),
            ),
            CommandRun::SpawnFailed(m) => Err(fail(joined("failed to spawn gpg: ", m.as_str()))),
            CommandRun::WriteFailed(m) => Err(fail(joined("failed to write ciphertext: ", m.as_str()))),
            CommandRun::WaitFailed(m) => Err(fail(joined("gpg command failed: ", m.as_str()))),
            CommandRun::Exited { success, stdout, stderr } => {
                if !success {
                    let mut m = joined("gpg decrypt failed: ", stderr.as_str());
                    m.append(". Ensure you have the private key in your keyring.");
                    Err(fail(m))
                } else {
                    decrypted_text(stdout)
                }
            },
        }
    }
}

} // verus!
