//! KMS backends for the hybrid envelope, and the stub one that tests use:
//! it "encrypts" to `mock-kms:` and the lowercase hex of the UTF-8 bytes.
use base64::Engine;
use vstd::prelude::*;
use vstd::utf8::{decode_utf8, encode_utf8, valid_utf8};

use crate::cipher::age::{keys_view, text_result};
use crate::cipher::command::{joined, CommandRun, RunView};
use crate::cipher::envelope::KmsProvider;
use crate::error::{CipherError, Error, Fault};
use crate::text::{chars_of, has_prefix, slice_chars, starts_with_str, string_of};

verus! {

/// KMS encrypt and decrypt operations.
pub trait KmsBackend {
    /// Whether the backend can take `ciphertext` to decrypt.
    spec fn accepts(&self, ciphertext: Seq<char>) -> bool;

    /// What encrypting `plaintext` gives.
    spec fn encrypted(&self, plaintext: Seq<char>) -> Result<Seq<char>, Fault>;

    /// What decrypting `ciphertext` gives.
    spec fn decrypted(&self, ciphertext: Seq<char>) -> Result<Seq<char>, Fault>;

    /// Encrypt `plaintext` with the KMS.
    fn encrypt(&self, plaintext: &str) -> (r: Result<String, Error>)
        ensures
            text_result(r) == self.encrypted(plaintext@),
    ;

    /// Decrypt a KMS ciphertext.
    fn decrypt(&self, ciphertext: &str) -> (r: Result<String, Error>)
        requires
            self.accepts(ciphertext@),
        ensures
            text_result(r) == self.decrypted(ciphertext@),
    ;

    /// The provider.
    fn provider(&self) -> &KmsProvider;
}

/// The message of `String::from_utf8`'s error for `bytes`.
pub uninterp spec fn utf8_error_text(bytes: Seq<u8>) -> Seq<char>;

/// `String::from_utf8`: the text the bytes encode, or the error's message.
#[verifier::external_body]
pub(crate) fn utf8_string(bytes: Vec<u8>) -> (r: Result<String, String>)
    ensures
        r is Ok <==> valid_utf8(bytes@),
        r matches Ok(s) ==> s@ == decode_utf8(bytes@),
        r matches Err(m) ==> m@ == utf8_error_text(bytes@),
{
    String::from_utf8(bytes).map_err(|e| e.to_string())
}

/// A character of the standard base64 alphabet.
pub open spec fn base64_char(v: int) -> char {
    if v < 26 {
        (65 + v) as char
    } else if v < 52 {
        (97 + v - 26) as char
    } else if v < 62 {
        (48 + v - 52) as char
    } else if v == 62 {
        '+'
    } else {
        '/'
    }
}

/// The standard base64 text, with padding, of `bytes`: each group of three
/// bytes as four characters of six bits each, a last group of one or two
/// bytes padded with `=`.
pub open spec fn base64_text(bytes: Seq<u8>) -> Seq<char>
    decreases bytes.len(),
{
    if bytes.len() == 0 {
        Seq::empty()
    } else if bytes.len() == 1 {
        seq![base64_char(bytes[0] as int / 4), base64_char((bytes[0] as int % 4) * 16), '=', '=']
    } else if bytes.len() == 2 {
        seq![
            base64_char(bytes[0] as int / 4),
            base64_char((bytes[0] as int % 4) * 16 + bytes[1] as int / 16),
            base64_char((bytes[1] as int % 16) * 4),
            '=',
        ]
    } else {
        seq![
            base64_char(bytes[0] as int / 4),
            base64_char((bytes[0] as int % 4) * 16 + bytes[1] as int / 16),
            base64_char((bytes[1] as int % 16) * 4 + bytes[2] as int / 64),
            base64_char(bytes[2] as int % 64),
        ] + base64_text(bytes.skip(3))
    }
}

/// Decoding `text` as standard base64 with padding: the bytes, or the
/// message of the decoder's error.
pub uninterp spec fn base64_bytes(text: Seq<char>) -> Result<Seq<u8>, Seq<char>>;

/// `base64::engine::general_purpose::STANDARD.encode`. It panics where the
/// length of the text would not fit in `usize`, which the bound on the
/// input rules out.
#[verifier::external_body]
fn base64_encode(bytes: &[u8]) -> (s: String)
    requires
        bytes@.len() <= usize::MAX / 2,
    ensures
        s@ == base64_text(bytes@),
{
    base64::engine::general_purpose::STANDARD.encode(bytes)
}

/// `base64::engine::general_purpose::STANDARD.decode`, its error rendered
/// with `Display`.
#[verifier::external_body]
fn base64_decode(text: &str) -> (r: Result<Vec<u8>, String>)
    ensures
        match base64_bytes(text@) {
            Ok(b) => r matches Ok(v) && v@ == b,
            Err(m) => r matches Err(e) && e@ == m,
        },
{
    base64::engine::general_purpose::STANDARD.decode(text).map_err(|e| e.to_string())
}

/// Bytes that must be UTF-8 text: the text, or `DecryptionFailed` with the
/// decoder's message.
pub open spec fn utf8_decrypted(b: Seq<u8>) -> Result<Seq<char>, Fault> {
    if valid_utf8(b) {
        Ok(decode_utf8(b))
    } else {
        Err(Fault::DecryptionFailed("UTF-8 error: "@ + utf8_error_text(b)))
    }
}

/// The UTF-8 text of bytes a KMS returned.
pub(crate) fn decrypted_text(b: Vec<u8>) -> (r: Result<String, Error>)
    ensures
        text_result(r) == utf8_decrypted(b@),
{
    match utf8_string(b) {
        Ok(s) => Ok(s),
        Err(m) => Err(Error::Cipher(CipherError::DecryptionFailed(joined("UTF-8 error: ", m.as_str())))),
    }
}

/// A stored KMS ciphertext as the blob it encodes: standard base64, or
/// `DecryptionFailed` with the decoder's message.
pub open spec fn blob_of(ct: Seq<char>) -> Result<Seq<u8>, Fault> {
    match base64_bytes(ct) {
        Ok(b) => Ok(b),
        Err(m) => Err(Fault::DecryptionFailed("invalid base64: "@ + m)),
    }
}

/// The view of a result that holds bytes.
pub open spec fn bytes_result(r: Result<Vec<u8>, Error>) -> Result<Seq<u8>, Fault> {
    match r {
        Ok(b) => Ok(b@),
        Err(e) => Err(e@),
    }
}

/// The blob a stored KMS ciphertext encodes.
fn ciphertext_blob(ciphertext: &str) -> (r: Result<Vec<u8>, Error>)
    ensures
        bytes_result(r) == blob_of(ciphertext@),
{
    match base64_decode(ciphertext) {
        Ok(b) => Ok(b),
        Err(m) => Err(Error::Cipher(CipherError::DecryptionFailed(joined("invalid base64: ", m.as_str())))),
    }
}

/// The lowercase hexadecimal digit for `d < 16`.
pub open spec fn hex_digit(d: int) -> char {
    seq!['0', '1', '2', '3', '4', '5', '6', '7', '8', '9', 'a', 'b', 'c', 'd', 'e', 'f'][d]
}

/// Bytes as lowercase hexadecimal, two digits each.
pub open spec fn hex_of(bs: Seq<u8>) -> Seq<char>
    decreases bs.len(),
{
    if bs.len() == 0 {
        Seq::empty()
    } else {
        hex_of(bs.drop_last()) + seq![hex_digit((bs.last() / 16) as int), hex_digit((bs.last() % 16) as int)]
    }
}

/// The value of an ASCII hexadecimal digit byte.
pub open spec fn hex_value(b: u8) -> Option<u8> {
    if 48 <= b <= 57 {
        Some((b - 48) as u8)
    } else if 97 <= b <= 102 {
        Some((b - 87) as u8)
    } else if 65 <= b <= 70 {
        Some((b - 55) as u8)
    } else {
        None
    }
}

/// What `u8::from_str_radix(_, 16)` makes of a two-byte text: two digits,
/// or `+` and one digit.
pub open spec fn pair_value(a: u8, b: u8) -> Option<u8> {
    match (hex_value(a), hex_value(b)) {
        (Some(x), Some(y)) => Some((16 * x + y) as u8),
        _ => if a == 43 && hex_value(b) is Some {
            hex_value(b)
        } else {
            None
        },
    }
}

/// Whether a byte continues a UTF-8 sequence.
pub open spec fn is_continuation(b: u8) -> bool {
    128 <= b < 192
}

/// Reading the hex text `h` two bytes at a time from position `i`: the
/// bytes, `Err` at the first pair that is not a number, or `None` where
/// taking the next two bytes would split a character or run past the end.
pub open spec fn stub_decode(h: Seq<u8>, i: int) -> Option<Result<Seq<u8>, ()>>
    decreases h.len() - i,
{
    if i < 0 || i >= h.len() {
        Some(Ok(Seq::empty()))
    } else if i + 2 > h.len() || (i + 2 < h.len() && is_continuation(h[i + 2])) {
        None
    } else {
        match pair_value(h[i], h[i + 1]) {
            None => Some(Err(())),
            Some(b) => match stub_decode(h, i + 2) {
                None => None,
                Some(Err(())) => Some(Err(())),
                Some(Ok(rest)) => Some(Ok(seq![b] + rest)),
            },
        }
    }
}

/// The prefix of stub ciphertexts.
pub open spec fn stub_prefix() -> Seq<char> {
    "mock-kms:"@
}

/// The hex part of a stub ciphertext.
pub open spec fn stub_body(ct: Seq<char>) -> Seq<u8> {
    encode_utf8(ct.skip(stub_prefix().len() as int))
}

/// Whether decrypting `ct` stays clear of a split character or an odd
/// number of hex bytes.
pub open spec fn stub_decodable(ct: Seq<char>) -> bool {
    has_prefix(ct, stub_prefix()) ==> stub_decode(stub_body(ct), 0) is Some
}

/// What the stub gives for a ciphertext.
pub open spec fn stub_decrypted(ct: Seq<char>) -> Result<Seq<char>, Fault> {
    if !has_prefix(ct, stub_prefix()) {
        Err(Fault::DecryptionFailed("not a mock-kms ciphertext"@))
    } else {
        match stub_decode(stub_body(ct), 0) {
            Some(Ok(bytes)) => if valid_utf8(bytes) {
                Ok(decode_utf8(bytes))
            } else {
                Err(Fault::DecryptionFailed("invalid utf8: "@ + utf8_error_text(bytes)))
            },
            _ => Err(Fault::DecryptionFailed("invalid hex: invalid digit found in string"@)),
        }
    }
}

/// Mock KMS backend: hex encoding behind a prefix, which only checks the
/// plumbing and protects nothing.
#[derive(Debug)]
pub struct StubKms;

fn hex_digit_exec(d: u8) -> (c: char)
    requires
        d < 16,
    ensures
        c == hex_digit(d as int),
{
    let ds: [char; 16] = [
        '0', '1', '2', '3', '4', '5', '6', '7', '8', '9', 'a', 'b', 'c', 'd', 'e', 'f',
    ];
    assert(ds@ == seq!['0', '1', '2', '3', '4', '5', '6', '7', '8', '9', 'a', 'b', 'c', 'd', 'e', 'f']);
    ds[d as usize]
}

fn hex_value_exec(b: u8) -> (r: Option<u8>)
    ensures
        r == hex_value(b),
{
    if 48 <= b && b <= 57 {
        Some(b - 48)
    } else if 97 <= b && b <= 102 {
        Some(b - 87)
    } else if 65 <= b && b <= 70 {
        Some(b - 55)
    } else {
        None
    }
}

fn pair_value_exec(a: u8, b: u8) -> (r: Option<u8>)
    ensures
        r == pair_value(a, b),
{
    match (hex_value_exec(a), hex_value_exec(b)) {
        (Some(x), Some(y)) => Some(16 * x + y),
        _ => if a == 43 {
            hex_value_exec(b)
        } else {
            None
        },
    }
}

/// The stub's ciphertext for `p`.
pub open spec fn stub_encrypted(p: Seq<char>) -> Seq<char> {
    stub_prefix() + hex_of(encode_utf8(p))
}

impl KmsBackend for StubKms {
    open spec fn accepts(&self, ciphertext: Seq<char>) -> bool {
        stub_decodable(ciphertext)
    }

    open spec fn encrypted(&self, plaintext: Seq<char>) -> Result<Seq<char>, Fault> {
        Ok(stub_encrypted(plaintext))
    }

    open spec fn decrypted(&self, ciphertext: Seq<char>) -> Result<Seq<char>, Fault> {
        stub_decrypted(ciphertext)
    }

    /// "Encrypt": the prefix and the lowercase hex of the UTF-8 bytes.
    fn encrypt(&self, plaintext: &str) -> (r: Result<String, Error>)
        ensures
            r matches Ok(s) && s@ == stub_encrypted(plaintext@),
    {
        let bs = plaintext.as_bytes();
        let mut s = String::from_str("mock-kms:");
        let ghost start = s@;
        let mut i: usize = 0;
        assert(bs@.take(0) =~= Seq::<u8>::empty());
        while i < bs.len()
            invariant
                i <= bs@.len(),
                bs@ == encode_utf8(plaintext@),
                s@ == start + hex_of(bs@.take(i as int)),
            decreases bs@.len() - i,
        {
            let b = bs[i];
            assert(bs@.take(i + 1).drop_last() =~= bs@.take(i as int));
            crate::text::push_char(&mut s, hex_digit_exec(b / 16));
            crate::text::push_char(&mut s, hex_digit_exec(b % 16));
            assert(s@ =~= start + hex_of(bs@.take(i + 1)));
            i = i + 1;
        }
        assert(bs@.take(i as int) =~= bs@);
        Ok(s)
    }

    /// "Decrypt" a stub ciphertext.
    fn decrypt(&self, ciphertext: &str) -> (r: Result<String, Error>)
        ensures
            crate::cipher::age::text_result(r) == stub_decrypted(ciphertext@),
    {
        if !starts_with_str(ciphertext, "mock-kms:") {
            return Err(
                Error::Cipher(CipherError::DecryptionFailed(String::from_str("not a mock-kms ciphertext"))),
            );
        }
        let cs = chars_of(ciphertext);
        proof {
            reveal_strlit("mock-kms:");
        }
        let body = string_of(slice_chars(cs.as_slice(), 9, cs.len()).as_slice());
        assert(body@ =~= ciphertext@.skip(9));
        let h = body.as_str().as_bytes();
        assert(h@ == stub_body(ciphertext@));
        let ghost hv = h@;
        let mut out: Vec<u8> = Vec::new();
        let mut i: usize = 0;
        while i < h.len()
            invariant
                hv == h@,
                hv == stub_body(ciphertext@),
                has_prefix(ciphertext@, stub_prefix()),
                i <= hv.len(),
                i % 2 == 0,
                stub_decode(hv, 0) is Some,
                stub_decode(hv, 0) == match stub_decode(hv, i as int) {
                    Some(Ok(rest)) => Some(Ok(out@ + rest)),
                    other => other,
                },
            decreases hv.len() - i,
        {
            let a = h[i];
            let b = h[i + 1];
            match pair_value_exec(a, b) {
                None => {
                    assert(stub_decode(hv, i as int) == Some(Err::<Seq<u8>, ()>(())));
                    assert(stub_decode(hv, 0) == Some(Err::<Seq<u8>, ()>(())));
                    return Err(
                        Error::Cipher(
                            CipherError::DecryptionFailed(
                                String::from_str("invalid hex: invalid digit found in string"),
                            ),
                        ),
                    );
                },
                Some(v) => {
                    let ghost before = out@;
                    out.push(v);
                    proof {
                        assert(out@ == before + seq![v]);
                        if let Some(Ok(rest)) = stub_decode(hv, i + 2) {
                            assert(before + (seq![v] + rest) =~= out@ + rest);
                        }
                    }
                },
            }
            i = i + 2;
        }
        proof {
            assert(out@ + Seq::<u8>::empty() =~= out@);
        }
        match utf8_string(out) {
            Ok(s) => Ok(s),
            Err(m) => {
                let mut msg = String::from_str("invalid utf8: ");
                msg.append(m.as_str());
                Err(Error::Cipher(CipherError::DecryptionFailed(msg)))
            },
        }
    }

    /// The provider the stub stands for.
    fn provider(&self) -> (p: &KmsProvider)
        ensures
            *p == KmsProvider::Aws,
    {
        &KmsProvider::Aws
    }
}


/// Each hex digit is ASCII, and reads back as its value.
proof fn lemma_hex_digit(d: int)
    requires
        0 <= d < 16,
    ensures
        '\0' <= hex_digit(d) <= '\u{7f}',
        hex_value(hex_digit(d) as u8) == Some(d as u8),
        !is_continuation(hex_digit(d) as u8),
{
    let ds = seq!['0', '1', '2', '3', '4', '5', '6', '7', '8', '9', 'a', 'b', 'c', 'd', 'e', 'f'];
    assert(hex_digit(d) == ds[d]);
    if d == 0 {
        assert(ds[d] == '0');
    } else if d == 1 {
        assert(ds[d] == '1');
    } else if d == 2 {
        assert(ds[d] == '2');
    } else if d == 3 {
        assert(ds[d] == '3');
    } else if d == 4 {
        assert(ds[d] == '4');
    } else if d == 5 {
        assert(ds[d] == '5');
    } else if d == 6 {
        assert(ds[d] == '6');
    } else if d == 7 {
        assert(ds[d] == '7');
    } else if d == 8 {
        assert(ds[d] == '8');
    } else if d == 9 {
        assert(ds[d] == '9');
    } else if d == 10 {
        assert(ds[d] == 'a');
    } else if d == 11 {
        assert(ds[d] == 'b');
    } else if d == 12 {
        assert(ds[d] == 'c');
    } else if d == 13 {
        assert(ds[d] == 'd');
    } else if d == 14 {
        assert(ds[d] == 'e');
    } else {
        assert(ds[d] == 'f');
    }
}

/// Hex text has two ASCII digits per byte, high nibble first.
proof fn lemma_hex_of(bs: Seq<u8>)
    ensures
        hex_of(bs).len() == 2 * bs.len(),
        forall|k: int|
            0 <= k < bs.len() ==> #[trigger] hex_of(bs)[2 * k] == hex_digit((bs[k] / 16) as int)
                && hex_of(bs)[2 * k + 1] == hex_digit((bs[k] % 16) as int),
    decreases bs.len(),
{
    if bs.len() > 0 {
        let init = bs.drop_last();
        lemma_hex_of(init);
        assert forall|k: int| 0 <= k < bs.len() implies #[trigger] hex_of(bs)[2 * k] == hex_digit(
            (bs[k] / 16) as int,
        ) && hex_of(bs)[2 * k + 1] == hex_digit((bs[k] % 16) as int) by {
            if k < init.len() {
                assert(init[k] == bs[k]);
                assert(hex_of(init)[2 * k] == hex_digit((init[k] / 16) as int));
            }
        }
    }
}

/// Hex text is ASCII.
proof fn lemma_hex_of_ascii(bs: Seq<u8>)
    ensures
        vstd::utf8::is_ascii_chars(hex_of(bs)),
{
    lemma_hex_of(bs);
    assert forall|i: int| 0 <= i < hex_of(bs).len() implies '\0' <= #[trigger] hex_of(bs)[i]
        <= '\u{7f}' by {
        let k = i / 2;
        if i % 2 == 0 {
            assert(i == 2 * k);
            assert(hex_of(bs)[2 * k] == hex_digit((bs[k] / 16) as int));
            lemma_hex_digit((bs[k] / 16) as int);
        } else {
            assert(i == 2 * k + 1);
            assert(hex_of(bs)[2 * k] == hex_digit((bs[k] / 16) as int));
            lemma_hex_digit((bs[k] % 16) as int);
        }
    }
}

/// Reading back the hex bytes of `bs` from pair `k` on gives `bs` from `k` on.
proof fn lemma_stub_decode_hex(bs: Seq<u8>, hb: Seq<u8>, k: int)
    requires
        0 <= k <= bs.len(),
        hb.len() == 2 * bs.len(),
        forall|j: int|
            0 <= j < bs.len() ==> #[trigger] hb[2 * j] == hex_digit((bs[j] / 16) as int) as u8
                && hb[2 * j + 1] == hex_digit((bs[j] % 16) as int) as u8,
    ensures
        stub_decode(hb, 2 * k) == Some(Ok::<Seq<u8>, ()>(bs.skip(k))),
    decreases bs.len() - k,
{
    if k == bs.len() {
        assert(bs.skip(k) =~= Seq::<u8>::empty());
    } else {
        let b = bs[k];
        lemma_hex_digit((b / 16) as int);
        lemma_hex_digit((b % 16) as int);
        assert(hb[2 * k] == hex_digit((b / 16) as int) as u8);
        if k + 1 < bs.len() {
            assert(hb[2 * (k + 1)] == hex_digit((bs[k + 1] / 16) as int) as u8);
            lemma_hex_digit((bs[k + 1] / 16) as int);
            assert(2 * k + 2 == 2 * (k + 1));
        }
        assert(pair_value(hb[2 * k], hb[2 * k + 1]) == Some(b));
        lemma_stub_decode_hex(bs, hb, k + 1);
        assert(2 * k + 2 == 2 * (k + 1));
        assert(seq![b] + bs.skip(k + 1) =~= bs.skip(k));
    }
}

/// The stub reads back what it wrote: decrypting the stub's encryption of
/// any text gives the text, and never splits a character.
pub proof fn lemma_stub_roundtrip(p: Seq<char>)
    ensures
        stub_decodable(stub_encrypted(p)),
        stub_decrypted(stub_encrypted(p)) == Ok::<Seq<char>, Fault>(p),
{
    reveal_strlit("mock-kms:");
    let bs = encode_utf8(p);
    let hx = hex_of(bs);
    let ct = stub_encrypted(p);
    assert(ct.take(stub_prefix().len() as int) =~= stub_prefix());
    assert(ct.skip(stub_prefix().len() as int) =~= hx);
    lemma_hex_of(bs);
    lemma_hex_of_ascii(bs);
    vstd::utf8::is_ascii_chars_encode_utf8(hx);
    let hb = encode_utf8(hx);
    assert forall|j: int| 0 <= j < bs.len() implies #[trigger] hb[2 * j] == hex_digit(
        (bs[j] / 16) as int,
    ) as u8 && hb[2 * j + 1] == hex_digit((bs[j] % 16) as int) as u8 by {
        assert(hx[2 * j] == hex_digit((bs[j] / 16) as int));
        assert(hb[2 * j] == hx[2 * j] as u8);
        assert(hb[2 * j + 1] == hx[2 * j + 1] as u8);
    }
    lemma_stub_decode_hex(bs, hb, 0);
    assert(bs.skip(0) =~= bs);
    vstd::utf8::encode_utf8_valid_utf8(p);
    vstd::utf8::encode_utf8_decode_utf8(p);
}

/// AWS KMS backend: the key that ciphertexts are made with.
#[derive(Debug)]
pub struct AwsKms {
    key_id: String,
}

impl AwsKms {
    /// An AWS KMS backend for the key ID or ARN.
    pub fn new(key_id: String) -> (k: Self)
        ensures
            k.key_id()@ == key_id@,
    {
        AwsKms { key_id }
    }

    /// The key ID or ARN.
    pub closed spec fn key_id(&self) -> String {
        self.key_id
    }

    /// The key ID or ARN.
    pub fn key(&self) -> (k: &str)
        ensures
            k@ == self.key_id()@,
    {
        self.key_id.as_str()
    }

    /// The stored ciphertext for what the encrypt call came to: the
    /// returned ciphertext blob in standard base64.
    pub fn encrypt_reply(reply: KmsReply) -> (r: Result<String, Error>)
        requires
            reply@ matches ReplyView::Data(b) ==> b.len() <= usize::MAX / 2,
        ensures
            text_result(r) == aws_encrypted(reply@),
    {
        let fail = |m: String| -> (e: Error)
            ensures
                e@ == Fault::EncryptionFailed(m@),
            { Error::Cipher(CipherError::EncryptionFailed(m)) };
        match reply {
            KmsReply::NoRuntime(m) => Err(fail(joined("failed to create runtime: ", m.as_str()))),
            KmsReply::CallFailed(m) => Err(fail(joined("KMS encrypt failed: ", m.as_str()))),
            KmsReply::Empty => Err(fail(String::from_str("no ciphertext returned"))),
            KmsReply::Data(b) => Ok(base64_encode(b.as_slice())),
        }
    }

    /// The blob to hand the decrypt call: the stored ciphertext decoded
    /// from standard base64.
    pub fn decrypt_input(ciphertext: &str) -> (r: Result<Vec<u8>, Error>)
        ensures
            bytes_result(r) == blob_of(ciphertext@),
    {
        ciphertext_blob(ciphertext)
    }

    /// The plaintext for what the decrypt call came to: the returned bytes
    /// as UTF-8 text.
    pub fn decrypt_reply(reply: KmsReply) -> (r: Result<String, Error>)
        ensures
            text_result(r) == aws_decrypted(reply@),
    {
        let fail = |m: String| -> (e: Error)
            ensures
                e@ == Fault::DecryptionFailed(m@),
            { Error::Cipher(CipherError::DecryptionFailed(m)) };
        match reply {
            KmsReply::NoRuntime(m) => Err(fail(joined("failed to create runtime: ", m.as_str()))),
            KmsReply::CallFailed(m) => Err(fail(joined("KMS decrypt failed: ", m.as_str()))),
            KmsReply::Empty => Err(fail(String::from_str("no plaintext returned"))),
            KmsReply::Data(b) => decrypted_text(b),
        }
    }
}

/// What a call to the AWS KMS service came to, as the caller that made it
/// reports it.
#[derive(Debug)]
pub enum KmsReply {
    /// No async runtime could be built for the call, with its message.
    NoRuntime(String),
    /// The call failed, with the service's message.
    CallFailed(String),
    /// The call succeeded but returned no data.
    Empty,
    /// The data the call returned.
    Data(Vec<u8>),
}

/// What a [`KmsReply`] holds, as plain values.
pub enum ReplyView {
    NoRuntime(Seq<char>),
    CallFailed(Seq<char>),
    Empty,
    Data(Seq<u8>),
}

impl View for KmsReply {
    type V = ReplyView;

    open spec fn view(&self) -> ReplyView {
        match self {
            KmsReply::NoRuntime(m) => ReplyView::NoRuntime(m@),
            KmsReply::CallFailed(m) => ReplyView::CallFailed(m@),
            KmsReply::Empty => ReplyView::Empty,
            KmsReply::Data(b) => ReplyView::Data(b@),
        }
    }
}

/// What AWS KMS encryption gives for the reply to its call.
pub open spec fn aws_encrypted(r: ReplyView) -> Result<Seq<char>, Fault> {
    match r {
        ReplyView::NoRuntime(m) => Err(Fault::EncryptionFailed("failed to create runtime: "@ + m)),
        ReplyView::CallFailed(m) => Err(Fault::EncryptionFailed("KMS encrypt failed: "@ + m)),
        ReplyView::Empty => Err(Fault::EncryptionFailed("no ciphertext returned"@)),
        ReplyView::Data(b) => Ok(base64_text(b)),
    }
}

/// What AWS KMS decryption gives for the reply to its call.
pub open spec fn aws_decrypted(r: ReplyView) -> Result<Seq<char>, Fault> {
    match r {
        ReplyView::NoRuntime(m) => Err(Fault::DecryptionFailed("failed to create runtime: "@ + m)),
        ReplyView::CallFailed(m) => Err(Fault::DecryptionFailed("KMS decrypt failed: "@ + m)),
        ReplyView::Empty => Err(Fault::DecryptionFailed("no plaintext returned"@)),
        ReplyView::Data(b) => utf8_decrypted(b),
    }
}

/// GCP Cloud KMS backend: the full resource name of its key.
#[derive(Debug)]
pub struct GcpKms {
    resource_name: String,
}

/// The parts of a GCP key resource name
/// `projects/P/locations/L/keyRings/R/cryptoKeys/K`: `(P, L, R, K)`.
pub open spec fn resource_parts(name: Seq<char>) -> Option<(Seq<char>, Seq<char>, Seq<char>, Seq<char>)> {
    let parts = crate::text::split_on(name, '/');
    if parts.len() == 8 && parts[0] == "projects"@ && parts[2] == "locations"@ && parts[4]
        == "keyRings"@ && parts[6] == "cryptoKeys"@ {
        Some((parts[1], parts[3], parts[5], parts[7]))
    } else {
        None
    }
}

impl GcpKms {
    /// A GCP KMS backend for the key's resource name.
    pub fn new(resource_name: String) -> (k: Self)
        ensures
            k.resource_name()@ == resource_name@,
    {
        GcpKms { resource_name }
    }

    /// The key's resource name.
    pub closed spec fn resource_name(&self) -> String {
        self.resource_name
    }

    /// Split the resource name into project, location, key ring and key.
    pub fn parse_resource_name(&self) -> (r: Result<(String, String, String, String), Error>)
        ensures
            match resource_parts(self.resource_name()@) {
                Some((p, l, k, n)) => r matches Ok(t) && t.0@ == p && t.1@ == l && t.2@ == k
                    && t.3@ == n,
                None => r matches Err(e) && e@ == Fault::EncryptionFailed(
                    "invalid GCP KMS resource name format: "@ + self.resource_name()@,
                ),
            },
    {
        let cs = chars_of(self.resource_name.as_str());
        let parts = crate::text::split_chars(cs.as_slice(), '/');
        let ghost pv = crate::text::vecs_view(parts@);
        if parts.len() == 8 {
            assert(pv[0] == parts@[0]@ && pv[2] == parts@[2]@ && pv[4] == parts@[4]@ && pv[6]
                == parts@[6]@);
            let p0 = string_of(parts[0].as_slice());
            let p2 = string_of(parts[2].as_slice());
            let p4 = string_of(parts[4].as_slice());
            let p6 = string_of(parts[6].as_slice());
            if crate::text::str_eq(p0.as_str(), "projects") && crate::text::str_eq(
                p2.as_str(),
                "locations",
            ) && crate::text::str_eq(p4.as_str(), "keyRings") && crate::text::str_eq(
                p6.as_str(),
                "cryptoKeys",
            ) {
                assert(pv[1] == parts@[1]@ && pv[3] == parts@[3]@ && pv[5] == parts@[5]@ && pv[7]
                    == parts@[7]@);
                return Ok(
                    (
                        string_of(parts[1].as_slice()),
                        string_of(parts[3].as_slice()),
                        string_of(parts[5].as_slice()),
                        string_of(parts[7].as_slice()),
                    ),
                );
            }
        }
        let mut m = String::from_str("invalid GCP KMS resource name format: ");
        m.append(self.resource_name.as_str());
        Err(Error::Cipher(CipherError::EncryptionFailed(m)))
    }

    /// The `gcloud` arguments for a KMS operation on the key.
    fn args(&self, op: &str, input: &str, output: &str) -> (r: Result<Vec<String>, Error>)
        ensures
            args_result(r) == match resource_parts(self.resource_name()@) {
                Some(p) => Ok(gcloud_args(op@, p, input@, output@)),
                None => Err(bad_resource(self.resource_name()@)),
            },
    {
        match self.parse_resource_name() {
            Err(e) => Err(e),
            Ok((project, location, keyring, key)) => {
                let v: Vec<String> = vec![
                    String::from_str("kms"),
                    String::from_str(op),
                    String::from_str("--project"),
                    project,
                    String::from_str("--location"),
                    location,
                    String::from_str("--keyring"),
                    keyring,
                    String::from_str("--key"),
                    key,
                    String::from_str(input),
                    String::from_str("-"),
                    String::from_str(output),
                    String::from_str("-"),
                ];
                assert(keys_view(v@) =~= gcloud_args(
                    op@,
                    resource_parts(self.resource_name()@)->0,
                    input@,
                    output@,
                ));
                Ok(v)
            },
        }
    }

    /// The `gcloud` arguments that encrypt standard input with the key to
    /// standard output.
    pub fn encrypt_args(&self) -> (r: Result<Vec<String>, Error>)
        ensures
            args_result(r) == gcp_encrypt_args(self.resource_name()@),
    {
        self.args("encrypt", "--plaintext-file", "--ciphertext-file")
    }

    /// For decrypting a stored ciphertext: the `gcloud` arguments, and the
    /// blob to write to its standard input. The ciphertext is decoded first.
    pub fn decrypt_input(&self, ciphertext: &str) -> (r: Result<(Vec<String>, Vec<u8>), Error>)
        ensures
            input_result(r) == gcp_decrypt_input(self.resource_name()@, ciphertext@),
    {
        let blob = match ciphertext_blob(ciphertext) {
            Ok(b) => b,
            Err(e) => return Err(e),
        };
        match self.args("decrypt", "--ciphertext-file", "--plaintext-file") {
            Ok(a) => Ok((a, blob)),
            Err(e) => Err(e),
        }
    }

    /// The stored ciphertext for how the `gcloud kms encrypt` run ended: its
    /// output in standard base64.
    pub fn encrypt_output(run: CommandRun) -> (r: Result<String, Error>)
        requires
            run@ matches RunView::Exited(_, out, _) ==> out.len() <= usize::MAX / 2,
        ensures
            text_result(r) == gcp_encrypted(run@),
    {
        let fail = |m: String| -> (e: Error)
            ensures
                e@ == Fault::EncryptionFailed(m@),
            { Error::Cipher(CipherError::EncryptionFailed(m)) };
        match run {
            CommandRun::Missing => Err(fail(String::from_str(GCLOUD_MISSING))),
            CommandRun::SpawnFailed(m) => Err(fail(joined("failed to spawn gcloud: ", m.as_str()))),
            CommandRun::WriteFailed(m) => Err(fail(joined("failed to write plaintext: ", m.as_str()))),
            CommandRun::WaitFailed(m) => Err(fail(joined("gcloud command failed: ", m.as_str()))),
            CommandRun::Exited { success, stdout, stderr } => {
                if !success {
                    Err(fail(joined("gcloud kms encrypt failed: ", stderr.as_str())))
                } else {
                    Ok(base64_encode(stdout.as_slice()))
                }
            },
        }
    }

    /// The plaintext for how the `gcloud kms decrypt` run ended: its output
    /// as UTF-8 text.
    pub fn decrypt_output(run: CommandRun) -> (r: Result<String, Error>)
        ensures
            text_result(r) == gcp_decrypted(run@),
    {
        let fail = |m: String| -> (e: Error)
            ensures
                e@ == Fault::DecryptionFailed(m@),
            { Error::Cipher(CipherError::DecryptionFailed(m)) };
        match run {
            CommandRun::Missing => Err(
                Error::Cipher(CipherError::EncryptionFailed(String::from_str(GCLOUD_MISSING))),
            ),
            CommandRun::SpawnFailed(m) => Err(fail(joined("failed to spawn gcloud: ", m.as_str()))),
            CommandRun::WriteFailed(m) => Err(fail(joined("failed to write ciphertext: ", m.as_str()))),
            CommandRun::WaitFailed(m) => Err(fail(joined("gcloud command failed: ", m.as_str()))),
            CommandRun::Exited { success, stdout, stderr } => {
                if !success {
                    Err(fail(joined("gcloud kms decrypt failed: ", stderr.as_str())))
                } else {
                    decrypted_text(stdout)
                }
            },
        }
    }
}

/// The message when the `gcloud` command cannot be started.
pub const GCLOUD_MISSING: &'static str =
    "gcloud CLI not found. Install it from https://cloud.google.com/sdk/docs/install";

/// The error for a resource name of no known form.
pub open spec fn bad_resource(name: Seq<char>) -> Fault {
    Fault::EncryptionFailed("invalid GCP KMS resource name format: "@ + name)
}

/// `gcloud kms <op>` on the key with the parts `p`, reading from the
/// standard input through the `input` flag and writing through `output`.
pub open spec fn gcloud_args(
    op: Seq<char>,
    p: (Seq<char>, Seq<char>, Seq<char>, Seq<char>),
    input: Seq<char>,
    output: Seq<char>,
) -> Seq<Seq<char>> {
    seq![
        "kms"@,
        op,
        "--project"@,
        p.0,
        "--location"@,
        p.1,
        "--keyring"@,
        p.2,
        "--key"@,
        p.3,
        input,
        "-"@,
        output,
        "-"@,
    ]
}

/// The view of a result that holds a list of strings.
pub open spec fn args_result(r: Result<Vec<String>, Error>) -> Result<Seq<Seq<char>>, Fault> {
    match r {
        Ok(v) => Ok(keys_view(v@)),
        Err(e) => Err(e@),
    }
}

/// The view of a result that holds arguments and input bytes.
pub open spec fn input_result(r: Result<(Vec<String>, Vec<u8>), Error>) -> Result<
    (Seq<Seq<char>>, Seq<u8>),
    Fault,
> {
    match r {
        Ok((a, b)) => Ok((keys_view(a@), b@)),
        Err(e) => Err(e@),
    }
}

/// The arguments for encrypting with the key named `name`.
pub open spec fn gcp_encrypt_args(name: Seq<char>) -> Result<Seq<Seq<char>>, Fault> {
    match resource_parts(name) {
        Some(p) => Ok(gcloud_args("encrypt"@, p, "--plaintext-file"@, "--ciphertext-file"@)),
        None => Err(bad_resource(name)),
    }
}

/// The arguments and input for decrypting `ct` with the key named `name`:
/// the ciphertext is decoded first, then the name is split.
pub open spec fn gcp_decrypt_input(name: Seq<char>, ct: Seq<char>) -> Result<
    (Seq<Seq<char>>, Seq<u8>),
    Fault,
> {
    match blob_of(ct) {
        Err(f) => Err(f),
        Ok(b) => match resource_parts(name) {
            Some(p) => Ok(
                (gcloud_args("decrypt"@, p, "--ciphertext-file"@, "--plaintext-file"@), b),
            ),
            None => Err(bad_resource(name)),
        },
    }
}

/// What GCP KMS encryption gives for how its `gcloud` run ended.
pub open spec fn gcp_encrypted(run: RunView) -> Result<Seq<char>, Fault> {
    match run {
        RunView::Missing => Err(Fault::EncryptionFailed(GCLOUD_MISSING@)),
        RunView::SpawnFailed(m) => Err(Fault::EncryptionFailed("failed to spawn gcloud: "@ + m)),
        RunView::WriteFailed(m) => Err(Fault::EncryptionFailed("failed to write plaintext: "@ + m)),
        RunView::WaitFailed(m) => Err(Fault::EncryptionFailed("gcloud command failed: "@ + m)),
        RunView::Exited(success, out, err) => if success {
            Ok(base64_text(out))
        } else {
            Err(Fault::EncryptionFailed("gcloud kms encrypt failed: "@ + err))
        },
    }
}

/// What GCP KMS decryption gives for how its `gcloud` run ended; a missing
/// command is reported as an encryption failure.
pub open spec fn gcp_decrypted(run: RunView) -> Result<Seq<char>, Fault> {
    match run {
        RunView::Missing => Err(Fault::EncryptionFailed(GCLOUD_MISSING@)),
        RunView::SpawnFailed(m) => Err(Fault::DecryptionFailed("failed to spawn gcloud: "@ + m)),
        RunView::WriteFailed(m) => Err(Fault::DecryptionFailed("failed to write ciphertext: "@ + m)),
        RunView::WaitFailed(m) => Err(Fault::DecryptionFailed("gcloud command failed: "@ + m)),
        RunView::Exited(success, out, err) => if success {
            utf8_decrypted(out)
        } else {
            Err(Fault::DecryptionFailed("gcloud kms decrypt failed: "@ + err))
        },
    }
}


} // verus!
