use aes_gcm::aead::{Aead, KeyInit};
use base64::Engine;
use secure_note::crypto::{
    decrypt, derive_key, encrypt, encrypt_with, hash_password, hash_password_with_salt, open_sealed,
    verify_password, IV_LEN, PBKDF2_ITER, SALT_LEN, TAG_LEN,
};

const B64: base64::engine::GeneralPurpose = base64::engine::general_purpose::STANDARD;

#[test]
fn format_constants() {
    assert_eq!(SALT_LEN, 32);
    assert_eq!(IV_LEN, 12);
    assert_eq!(TAG_LEN, 16);
    assert_eq!(PBKDF2_ITER, 310_000);
}

#[test]
fn encrypt_then_decrypt_gives_the_plaintext_back() {
    let plain = "Grüße, wörld!\nline two";
    let sealed = encrypt(plain, "correct horse").unwrap();
    assert_ne!(sealed, plain);
    // surrounding whitespace in the stored text is ignored
    let padded = format!("  {}\n", sealed);
    assert_eq!(decrypt(&padded, "correct horse"), Ok(plain.to_string()));
}

#[test]
fn sealed_layout_is_salt_iv_tag_ciphertext() {
    let sealed = encrypt("abc", "pw").unwrap();
    let raw = B64.decode(sealed.as_bytes()).unwrap();
    assert_eq!(raw.len(), SALT_LEN + IV_LEN + TAG_LEN + 3);
    // the ciphertext is not the plaintext
    assert_ne!(&raw[SALT_LEN + IV_LEN + TAG_LEN..], b"abc");
}

#[test]
fn wrong_password_is_refused() {
    let sealed = encrypt("secret", "right").unwrap();
    assert_eq!(decrypt(&sealed, "wrong"), Err("decryption failed — wrong password?"));
}

#[test]
fn bad_base64_is_refused() {
    assert_eq!(decrypt("not base64 !!!", "pw"), Err("base64 error"));
}

#[test]
fn short_ciphertext_is_refused() {
    let short = B64.encode([7u8; SALT_LEN + IV_LEN + TAG_LEN - 1]);
    assert_eq!(decrypt(&short, "pw"), Err("ciphertext too short"));
}

#[test]
fn key_derivation_depends_on_salt() {
    let a = derive_key("pw", b"salt-one").unwrap();
    let b = derive_key("pw", b"salt-two").unwrap();
    assert_ne!(a, b);
    assert_ne!(a, [0u8; 32]);
}

#[test]
fn hash_then_verify() {
    let h = hash_password("hunter2").unwrap();
    let (salt, hash) = h.split_once(':').unwrap();
    assert_eq!(salt.len(), 32);
    assert_eq!(hash.len(), 128);
    assert!(h.chars().all(|c| c == ':' || c.is_ascii_hexdigit()));
    assert!(verify_password("hunter2", &h));
    assert!(!verify_password("hunter3", &h));
}

#[test]
fn malformed_stored_hash_never_verifies() {
    assert!(!verify_password("pw", ""));
    assert!(!verify_password("pw", "no-colon-here"));
    assert!(!verify_password("pw", "abcd:not-hex"));
    // a hash that is not 64 bytes long is refused before any derivation
    assert!(!verify_password("pw", "abcd:00ff"));
}

#[test]
fn non_utf8_plaintext_is_refused() {
    let salt = [3u8; SALT_LEN];
    let iv = [5u8; IV_LEN];
    let key = derive_key("pw", &salt).unwrap();
    let cipher = aes_gcm::Aes256Gcm::new(aes_gcm::Key::<aes_gcm::Aes256Gcm>::from_slice(&key));
    let ct_tag = cipher.encrypt(aes_gcm::Nonce::from_slice(&iv), &[0xffu8, 0xfe][..]).unwrap();
    let (ct, tag) = ct_tag.split_at(ct_tag.len() - TAG_LEN);
    let mut blob = Vec::new();
    blob.extend_from_slice(&salt);
    blob.extend_from_slice(&iv);
    blob.extend_from_slice(tag);
    blob.extend_from_slice(ct);
    assert_eq!(decrypt(&B64.encode(&blob), "pw"), Err("utf-8 decode failed"));
}

#[test]
fn stored_hash_is_lowercase_hex_salt_and_hash() {
    let h = hash_password("pw").unwrap();
    assert_eq!(h.len(), 161);
    assert_eq!(h.as_bytes()[32], b':');
    for (k, c) in h.chars().enumerate() {
        if k != 32 {
            assert!(c.is_ascii_digit() || ('a'..='f').contains(&c), "{}", c);
        }
    }
}

#[test]
fn encrypt_with_given_salt_and_nonce_lays_out_the_aes_output() {
    let salt = [7u8; SALT_LEN];
    let iv = [9u8; IV_LEN];
    let sealed = encrypt_with("hello", "pw", &salt, &iv).unwrap();
    // the same salt and nonce give the same text
    assert_eq!(encrypt_with("hello", "pw", &salt, &iv).unwrap(), sealed);
    let raw = B64.decode(sealed.as_bytes()).unwrap();
    assert_eq!(raw.len(), 60 + 5);
    assert_eq!(&raw[..32], &salt[..]);
    assert_eq!(&raw[32..44], &iv[..]);
    let key = derive_key("pw", &salt).unwrap();
    let cipher = aes_gcm::Aes256Gcm::new(aes_gcm::Key::<aes_gcm::Aes256Gcm>::from_slice(&key));
    let ct_tag = cipher.encrypt(aes_gcm::Nonce::from_slice(&iv), &b"hello"[..]).unwrap();
    let mut expected = raw[60..].to_vec();
    expected.extend_from_slice(&raw[44..60]);
    assert_eq!(expected, ct_tag);
    assert_eq!(decrypt(&sealed, "pw"), Ok("hello".to_string()));
}

#[test]
fn open_sealed_takes_the_decoded_bytes() {
    let sealed = encrypt("note", "pw").unwrap();
    let raw = B64.decode(sealed.as_bytes()).unwrap();
    assert_eq!(open_sealed(&raw, "pw"), Ok("note".to_string()));
    assert_eq!(open_sealed(&raw, "other"), Err("decryption failed — wrong password?"));
    assert_eq!(open_sealed(&raw[..59], "pw"), Err("ciphertext too short"));
}

#[test]
fn hash_with_a_given_salt_is_fixed() {
    let salt = [0xabu8; 16];
    let h = hash_password_with_salt("pw", &salt).unwrap();
    assert_eq!(&h[..33], "abababababababababababababababab:");
    assert_eq!(hash_password_with_salt("pw", &salt).unwrap(), h);
    assert!(verify_password("pw", &h));
    assert!(!verify_password("px", &h));
}
