use transcribe::crypto::{decrypt, encrypt, hash, hex_decode, hex_encode};
use transcribe::error::TranscribeError;

/// A deterministic text of the given length, so round trips can be
/// exercised over many sizes.
fn sample_string(len: usize) -> String {
    let alphabet = "abcdefghijklmnopqrstuvwxyzABCDEFGHIJKLMNOPQRSTUVWXYZ0123456789";
    let bytes: Vec<u8> = (0..len)
        .map(|i| alphabet.as_bytes()[(i * 7 + len) % alphabet.len()])
        .collect();
    String::from_utf8(bytes).unwrap()
}

#[test]
fn test_hex_round_trip() {
    assert_eq!(hex_encode(&[]), "");
    assert_eq!(hex_encode(&[0x00, 0xff, 0x1a]), "00ff1a");
    assert_eq!(hex_decode("00ff1a").unwrap(), vec![0x00, 0xff, 0x1a]);
    assert_eq!(hex_decode("00FF1A").unwrap(), vec![0x00, 0xff, 0x1a]);
    for data in [vec![], vec![1u8, 2, 3], vec![250u8; 33]] {
        assert_eq!(hex_decode(&hex_encode(&data)).unwrap(), data);
    }
    assert!(matches!(hex_decode("abc"), Err(TranscribeError::InvalidHex)));
    assert!(matches!(hex_decode("zz"), Err(TranscribeError::InvalidHex)));
}

#[test]
fn test_hash() {
    for i in 1..100 {
        let rs = sample_string(i);
        let (h1, h2) = (hash(&rs), hash(&rs));
        assert_eq!(h1.len(), 32);
        assert_eq!(h1, h2);
    }
}

#[test]
fn test_hash_is_hex_and_input_sensitive() {
    let h = hash("password");
    assert!(h.chars().all(|c| c.is_ascii_hexdigit()));
    assert_ne!(hash("password"), hash("passworD"));
}

#[test]
fn test_encrypt_decrypt() {
    for i in 1..100 {
        let (text, password) = (sample_string(i + 10), sample_string(i));
        let enc_text = encrypt(&password, text.as_bytes()).unwrap();
        let dec_text = decrypt(&password, &enc_text).unwrap();
        assert_eq!(text.as_bytes(), dec_text.as_slice());
    }
}

#[test]
fn test_encrypt_rejects_long_input() {
    let long = vec![0u8; 4097];
    assert!(matches!(encrypt("pw", &long), Err(TranscribeError::InputTooLong)));
    let edge = vec![0u8; 4096];
    assert!(encrypt("pw", &edge).is_ok());
}

#[test]
fn test_decrypt_rejects_bad_input() {
    assert!(matches!(decrypt("pw", "not hex!"), Err(TranscribeError::InvalidHex)));
    let ct = encrypt("right", b"secret payload").unwrap();
    match decrypt("wrong", &ct) {
        Ok(v) => assert_ne!(v.as_slice(), b"secret payload"),
        Err(e) => assert!(matches!(e, TranscribeError::DecryptionFailed)),
    }
}
