//! Password-based encryption helpers: a key and initialization vector
//! derived from the password's digest, AES-128-CBC with PKCS#7 padding
//! for the payload, and hexadecimal text for everything that leaves the
//! process. The hex codec is verified here; the digests and the cipher
//! are outside calls whose results are named.

use vstd::prelude::*;

use crate::error::TranscribeError;
use aes::cipher::{block_padding::Pkcs7, BlockModeDecrypt, BlockModeEncrypt, KeyIvInit};
use vstd::string::StringSliceAdditionalSpecFns;

verus! {

/// Whether a character is a hexadecimal digit, either case.
pub open spec fn is_hex_digit(c: char) -> bool {
    ('0' <= c && c <= '9') || ('a' <= c && c <= 'f') || ('A' <= c && c <= 'F')
}

/// Whether a character is a lowercase hexadecimal digit.
pub open spec fn is_lower_hex_digit(c: char) -> bool {
    ('0' <= c && c <= '9') || ('a' <= c && c <= 'f')
}

/// The value of a hexadecimal digit character.
pub open spec fn hex_digit_val(c: char) -> int {
    if '0' <= c && c <= '9' {
        c as int - '0' as int
    } else if 'a' <= c && c <= 'f' {
        c as int - 'a' as int + 10
    } else {
        c as int - 'A' as int + 10
    }
}

/// The lowercase hexadecimal digit character of a value below 16.
pub open spec fn hex_digit_char(v: int) -> char {
    if v == 0 {
        '0'
    } else if v == 1 {
        '1'
    } else if v == 2 {
        '2'
    } else if v == 3 {
        '3'
    } else if v == 4 {
        '4'
    } else if v == 5 {
        '5'
    } else if v == 6 {
        '6'
    } else if v == 7 {
        '7'
    } else if v == 8 {
        '8'
    } else if v == 9 {
        '9'
    } else if v == 10 {
        'a'
    } else if v == 11 {
        'b'
    } else if v == 12 {
        'c'
    } else if v == 13 {
        'd'
    } else if v == 14 {
        'e'
    } else {
        'f'
    }
}

/// Bytes rendered as lowercase hexadecimal, two digits per byte.
pub open spec fn spec_hex_encode(b: Seq<u8>) -> Seq<char>
    decreases b.len(),
{
    if b.len() == 0 {
        Seq::<char>::empty()
    } else {
        spec_hex_encode(b.drop_last()) + seq![
            hex_digit_char(b.last() as int / 16),
            hex_digit_char(b.last() as int % 16),
        ]
    }
}

/// A well-formed hexadecimal string: even length, every character a digit
/// of either case.
pub open spec fn spec_valid_hex(s: Seq<char>) -> bool {
    s.len() % 2 == 0 && forall|i: int| 0 <= i < s.len() ==> is_hex_digit(#[trigger] s[i])
}

/// The bytes a hexadecimal string writes, one per digit pair.
pub open spec fn spec_hex_bytes(s: Seq<char>) -> Seq<u8> {
    Seq::new((s.len() / 2) as nat, |i: int| (hex_digit_val(s[2 * i]) * 16 + hex_digit_val(
        s[2 * i + 1],
    )) as u8)
}

/// The characters of an ASCII string reread as bytes.
pub open spec fn chars_as_bytes(s: Seq<char>) -> Seq<u8> {
    Seq::new(s.len(), |i: int| s[i] as u8)
}

fn lower_hex_str(v: u8) -> (s: &'static str)
    requires
        v < 16,
    ensures
        s@ == seq![hex_digit_char(v as int)],
{
    let s: &'static str = if v == 0 {
        "0"
    } else if v == 1 {
        "1"
    } else if v == 2 {
        "2"
    } else if v == 3 {
        "3"
    } else if v == 4 {
        "4"
    } else if v == 5 {
        "5"
    } else if v == 6 {
        "6"
    } else if v == 7 {
        "7"
    } else if v == 8 {
        "8"
    } else if v == 9 {
        "9"
    } else if v == 10 {
        "a"
    } else if v == 11 {
        "b"
    } else if v == 12 {
        "c"
    } else if v == 13 {
        "d"
    } else if v == 14 {
        "e"
    } else {
        "f"
    };
    proof {
        reveal_strlit("0");
        reveal_strlit("1");
        reveal_strlit("2");
        reveal_strlit("3");
        reveal_strlit("4");
        reveal_strlit("5");
        reveal_strlit("6");
        reveal_strlit("7");
        reveal_strlit("8");
        reveal_strlit("9");
        reveal_strlit("a");
        reveal_strlit("b");
        reveal_strlit("c");
        reveal_strlit("d");
        reveal_strlit("e");
        reveal_strlit("f");
        assert(s@ =~= seq![hex_digit_char(v as int)]);
    }
    s
}

/// Renders bytes as lowercase hexadecimal text.
pub fn hex_encode(bytes: &[u8]) -> (r: String)
    ensures
        r@ == spec_hex_encode(bytes@),
{
    let n = bytes.len();
    let mut s = String::new();
    let mut i: usize = 0;
    while i < n
        invariant
            n == bytes@.len(),
            i <= n,
            s@ == spec_hex_encode(bytes@.subrange(0, i as int)),
        decreases n - i,
    {
        let b = *vstd::slice::slice_index_get(bytes, i);
        s.append(lower_hex_str(b / 16));
        s.append(lower_hex_str(b % 16));
        proof {
            assert(bytes@.subrange(0, i as int + 1).drop_last() =~= bytes@.subrange(0, i as int));
            assert(bytes@.subrange(0, i as int + 1).last() == bytes@[i as int]);
            assert(s@ =~= spec_hex_encode(bytes@.subrange(0, i as int + 1)));
        }
        i = i + 1;
    }
    proof {
        assert(bytes@.subrange(0, n as int) =~= bytes@);
    }
    s
}

fn hex_val_of_char(c: char) -> (r: Option<u8>)
    ensures
        r is Some <==> is_hex_digit(c),
        r matches Some(v) ==> v == hex_digit_val(c) && v < 16,
{
    if c >= '0' && c <= '9' {
        Some((c as u32 - '0' as u32) as u8)
    } else if c >= 'a' && c <= 'f' {
        Some((c as u32 - 'a' as u32 + 10) as u8)
    } else if c >= 'A' && c <= 'F' {
        Some((c as u32 - 'A' as u32 + 10) as u8)
    } else {
        None
    }
}

/// Parses hexadecimal text of either case back to bytes; anything else is
/// rejected.
pub fn hex_decode(text: &str) -> (r: Result<Vec<u8>, TranscribeError>)
    ensures
        r is Ok <==> spec_valid_hex(text@),
        r matches Ok(v) ==> v@ == spec_hex_bytes(text@),
        r is Err ==> r == Err::<Vec<u8>, TranscribeError>(TranscribeError::InvalidHex),
{
    let len = text.unicode_len();
    if len % 2 != 0 {
        return Err(TranscribeError::InvalidHex);
    }
    let mut out: Vec<u8> = Vec::new();
    let mut i: usize = 0;
    while i < len
        invariant
            len == text@.len(),
            len % 2 == 0,
            i <= len,
            i % 2 == 0,
            out@.len() == i as int / 2,
            forall|j: int| 0 <= j < i ==> is_hex_digit(#[trigger] text@[j]),
            forall|j: int|
                0 <= j < i as int / 2 ==> #[trigger] out@[j] == (hex_digit_val(text@[2 * j]) * 16
                    + hex_digit_val(text@[2 * j + 1])) as u8,
        decreases len - i,
    {
        let hi = hex_val_of_char(text.get_char(i));
        let lo = hex_val_of_char(text.get_char(i + 1));
        match (hi, lo) {
            (Some(h), Some(l)) => {
                out.push(h * 16 + l);
            },
            _ => {
                return Err(TranscribeError::InvalidHex);
            },
        }
        i = i + 2;
    }
    proof {
        assert(out@ =~= spec_hex_bytes(text@));
    }
    Ok(out)
}

/// What the SHA-256 hex digest of a byte string is; it depends on the
/// bytes alone.
pub uninterp spec fn sha256_hex_of(data: Seq<u8>) -> Seq<char>;

/// What the MD5 hex digest of a byte string is; it depends on the bytes
/// alone.
pub uninterp spec fn md5_hex_of(data: Seq<u8>) -> Seq<char>;

/// What AES-128-CBC with PKCS#7 padding makes of a message under a key
/// and initialization vector; a pure function of the three.
pub uninterp spec fn aes128_cbc_pkcs7_of(key: Seq<u8>, iv: Seq<u8>, msg: Seq<u8>) -> Seq<u8>;

/// What AES-128-CBC decryption with PKCS#7 unpadding makes of a
/// ciphertext: the plain text, or nothing when the padding does not check
/// out.
pub uninterp spec fn aes128_cbc_unpad_of(key: Seq<u8>, iv: Seq<u8>, ct: Seq<u8>) -> Option<
    Seq<u8>,
>;

/// Relies on crypto_hash::hex_digest with the SHA-256 algorithm: a
/// 32-byte digest of the input alone, rendered as 64 lowercase hex
/// characters.
#[verifier::external_body]
fn sha256_hex(data: &[u8]) -> (r: String)
    ensures
        r@ == sha256_hex_of(data@),
        r@.len() == 64,
        forall|i: int| 0 <= i < r@.len() ==> is_lower_hex_digit(#[trigger] r@[i]),
{
    crypto_hash::hex_digest(crypto_hash::Algorithm::SHA256, data)
}

/// Relies on crypto_hash::hex_digest with the MD5 algorithm: a 16-byte
/// digest of the input alone, rendered as 32 lowercase hex characters.
#[verifier::external_body]
fn md5_hex(data: &[u8]) -> (r: String)
    ensures
        r@ == md5_hex_of(data@),
        r@.len() == 32,
        forall|i: int| 0 <= i < r@.len() ==> is_lower_hex_digit(#[trigger] r@[i]),
{
    crypto_hash::hex_digest(crypto_hash::Algorithm::MD5, data)
}

/// Relies on cbc::Encryptor<aes::Aes128> and cipher's
/// encrypt_padded_vec with PKCS#7: the ciphertext is a function of key,
/// initialization vector and message alone, one padded block longer than
/// the whole blocks of the message.
#[verifier::external_body]
fn aes128_cbc_encrypt(key: &[u8], iv: &[u8], msg: &[u8]) -> (r: Vec<u8>)
    requires
        key@.len() == 16,
        iv@.len() == 16,
    ensures
        r@ == aes128_cbc_pkcs7_of(key@, iv@, msg@),
        r@.len() == (msg@.len() / 16 + 1) * 16,
{
    let enc = cbc::Encryptor::<aes::Aes128>::new_from_slices(key, iv).unwrap();
    let mut buf = vec![0u8; msg.len() + 16];
    buf[..msg.len()].copy_from_slice(msg);
    let n = enc.encrypt_padded::<Pkcs7>(&mut buf, msg.len()).unwrap().len();
    buf.truncate(n);
    buf
}

/// Relies on cbc::Decryptor<aes::Aes128> and cipher's
/// decrypt_padded_vec with PKCS#7: deterministic in key, initialization
/// vector and ciphertext, failing exactly when the unpadding does.
#[verifier::external_body]
fn aes128_cbc_decrypt(key: &[u8], iv: &[u8], ct: &[u8]) -> (r: Option<Vec<u8>>)
    requires
        key@.len() == 16,
        iv@.len() == 16,
    ensures
        r matches Some(v) ==> aes128_cbc_unpad_of(key@, iv@, ct@) == Some(v@),
        r is None ==> aes128_cbc_unpad_of(key@, iv@, ct@) is None,
{
    let dec = match cbc::Decryptor::<aes::Aes128>::new_from_slices(key, iv) {
        Ok(d) => d,
        Err(_) => return None,
    };
    let mut buf = ct.to_vec();
    match dec.decrypt_padded::<Pkcs7>(&mut buf) {
        Ok(pt) => Some(pt.to_vec()),
        Err(_) => None,
    }
}

/// The 32 bytes a password derives: its SHA-256 hex digest read back as
/// bytes, split into a 16-byte key and a 16-byte initialization vector.
pub open spec fn spec_key_iv_bytes(password_bytes: Seq<u8>) -> Seq<u8> {
    spec_hex_bytes(sha256_hex_of(password_bytes))
}

fn key_iv(password: &str) -> (r: (Vec<u8>, Vec<u8>))
    ensures
        r.0@ == spec_key_iv_bytes(password.spec_bytes()).subrange(0, 16),
        r.1@ == spec_key_iv_bytes(password.spec_bytes()).subrange(16, 32),
        r.0@.len() == 16,
        r.1@.len() == 16,
{
    let digest = sha256_hex(password.as_bytes());
    proof {
        assert(spec_valid_hex(digest@)) by {
            assert forall|i: int| 0 <= i < digest@.len() implies is_hex_digit(
                #[trigger] digest@[i],
            ) by {
                assert(is_lower_hex_digit(digest@[i]));
            }
        }
    }
    let ki = match hex_decode(digest.as_str()) {
        Ok(v) => v,
        Err(_) => {
            proof {
                assert(false);
            }
            return (Vec::new(), Vec::new());
        },
    };
    let key = vstd::slice::slice_to_vec(vstd::slice::slice_subrange(ki.as_slice(), 0, 16));
    let iv = vstd::slice::slice_to_vec(vstd::slice::slice_subrange(ki.as_slice(), 16, 32));
    (key, iv)
}

/// Encrypts plain text under a password: AES-128-CBC with PKCS#7 padding
/// under the password-derived key, the ciphertext rendered as lowercase
/// hexadecimal. Plain text beyond 4096 bytes is rejected.
pub fn encrypt(password: &str, plain_text: &[u8]) -> (r: Result<String, TranscribeError>)
    ensures
        r is Ok <==> plain_text@.len() <= 4096,
        r is Err ==> r == Err::<String, TranscribeError>(TranscribeError::InputTooLong),
        r matches Ok(s) ==> s@ == spec_hex_encode(
            aes128_cbc_pkcs7_of(
                spec_key_iv_bytes(password.spec_bytes()).subrange(0, 16),
                spec_key_iv_bytes(password.spec_bytes()).subrange(16, 32),
                plain_text@,
            ),
        ),
{
    if plain_text.len() > 4096 {
        return Err(TranscribeError::InputTooLong);
    }
    let (key, iv) = key_iv(password);
    let ct = aes128_cbc_encrypt(key.as_slice(), iv.as_slice(), plain_text);
    Ok(hex_encode(ct.as_slice()))
}

/// Decrypts hexadecimal ciphertext under a password, failing on text that
/// is not hexadecimal and on ciphertext whose padding does not check out.
pub fn decrypt(password: &str, encrypt_text: &str) -> (r: Result<Vec<u8>, TranscribeError>)
    ensures
        !spec_valid_hex(encrypt_text@) ==> r == Err::<Vec<u8>, TranscribeError>(
            TranscribeError::InvalidHex,
        ),
        r matches Ok(v) ==> spec_valid_hex(encrypt_text@) && aes128_cbc_unpad_of(
            spec_key_iv_bytes(password.spec_bytes()).subrange(0, 16),
            spec_key_iv_bytes(password.spec_bytes()).subrange(16, 32),
            spec_hex_bytes(encrypt_text@),
        ) == Some(v@),
        spec_valid_hex(encrypt_text@) && aes128_cbc_unpad_of(
            spec_key_iv_bytes(password.spec_bytes()).subrange(0, 16),
            spec_key_iv_bytes(password.spec_bytes()).subrange(16, 32),
            spec_hex_bytes(encrypt_text@),
        ) is None ==> r == Err::<Vec<u8>, TranscribeError>(TranscribeError::DecryptionFailed),
        spec_valid_hex(encrypt_text@) && aes128_cbc_unpad_of(
            spec_key_iv_bytes(password.spec_bytes()).subrange(0, 16),
            spec_key_iv_bytes(password.spec_bytes()).subrange(16, 32),
            spec_hex_bytes(encrypt_text@),
        ) is Some ==> r is Ok,
{
    let (key, iv) = key_iv(password);
    let ct = hex_decode(encrypt_text)?;
    match aes128_cbc_decrypt(key.as_slice(), iv.as_slice(), ct.as_slice()) {
        Some(v) => Ok(v),
        None => Err(TranscribeError::DecryptionFailed),
    }
}

/// A short fingerprint of a text: the MD5 hex digest of its SHA-256 hex
/// digest, 32 lowercase hex characters.
pub fn hash(text: &str) -> (r: String)
    ensures
        r@ == md5_hex_of(chars_as_bytes(sha256_hex_of(text.spec_bytes()))),
        r@.len() == 32,
{
    let digest = sha256_hex(text.as_bytes());
    let digest_str = digest.as_str();
    let fingerprint = md5_hex(digest_str.as_bytes());
    proof {
        broadcast use vstd::string::is_ascii_spec_bytes;

        let d = digest@;
        assert(vstd::string::is_ascii(digest_str)) by {
            assert forall|i: int| 0 <= i < d.len() implies ((#[trigger] d[i]) as int) < 128 by {
                assert(is_lower_hex_digit(d[i]));
            }
        }
        assert(digest_str.spec_bytes() =~= chars_as_bytes(d));
    }
    fingerprint
}

} // verus!
