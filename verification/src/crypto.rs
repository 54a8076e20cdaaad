//! Note encryption and master-password hashing.
//!
//! Encrypted notes are `base64(salt[32] || iv[12] || tag[16] || ciphertext)`,
//! with an AES-256-GCM key derived from the password by PBKDF2-SHA256
//! (310,000 iterations). Password hashes are `hex_salt:hex_hash`.

use aes_gcm::aead::{Aead, KeyInit};
use base64::Engine;
use rand::RngCore;
use subtle::ConstantTimeEq;
use vstd::prelude::*;
use vstd::utf8::*;
use zeroize::Zeroize;
use crate::text::{
    char_is_whitespace, chars_of, find_char, find_from, leading_ws_end, lemma_find_from,
    string_append, string_from_chars, string_from_utf8, string_push, slice_chars, trailing_ws_start,
    trim_chars, trim_spec,
};

verus! {

broadcast use group_utf8_lib;

pub const SALT_LEN: usize = 32;

pub const IV_LEN: usize = 12;

pub const TAG_LEN: usize = 16;

pub const PBKDF2_ITER: u32 = 310_000;

// ─── Outside primitives ───────────────────────────────────────────────────────

/// The bytes PBKDF2 with HMAC-SHA256 derives from a password and a salt.
pub uninterp spec fn pbkdf2_hmac_sha256(password: Seq<u8>, salt: Seq<u8>, rounds: u32, len: usize) -> Seq<u8>;

/// Calls `pbkdf2::pbkdf2::<Hmac<Sha256>>` into a buffer of `len` bytes. The
/// contract claims that it always succeeds (HMAC accepts keys of any length,
/// so its initialisation never fails) and that the result is the derived key.
#[verifier::external_body]
fn pbkdf2_sha256(password: &[u8], salt: &[u8], rounds: u32, len: usize) -> (r: Result<Vec<u8>, ()>)
    ensures
        r is Ok,
        r matches Ok(k) ==> k@ == pbkdf2_hmac_sha256(password@, salt@, rounds, len),
        r matches Ok(k) ==> k.len() == len,
{
    let mut out = vec![0u8; len];
    match pbkdf2::pbkdf2::<hmac::Hmac<sha2::Sha256>>(password, salt, rounds, &mut out) {
        Ok(()) => Ok(out),
        Err(_) => Err(()),
    }
}

/// AES-256-GCM ciphertext with its 16-byte tag appended, for a key, a nonce
/// and a plaintext, with no associated data.
pub uninterp spec fn aes256gcm_seal(key: Seq<u8>, nonce: Seq<u8>, plaintext: Seq<u8>) -> Seq<u8>;

/// AES-256-GCM decryption of ciphertext-with-tag: the plaintext, or `None`
/// when authentication fails.
pub uninterp spec fn aes256gcm_open(key: Seq<u8>, nonce: Seq<u8>, sealed: Seq<u8>) -> Option<Seq<u8>>;

/// The largest plaintext AES-GCM accepts (2^36 bytes).
pub open spec fn aes_gcm_max_plaintext() -> int {
    0x10_0000_0000
}

/// Calls `Aes256Gcm::new` and `Aead::encrypt`. The contract claims: success
/// exactly when the plaintext is at most 2^36 bytes; the result is the
/// ciphertext followed by the 16-byte tag, so 16 bytes longer than the
/// plaintext; and decrypting it with the same key and nonce gives the
/// plaintext back.
#[verifier::external_body]
fn aes_gcm_encrypt(key: &[u8], nonce: &[u8], plaintext: &[u8]) -> (r: Result<Vec<u8>, ()>)
    requires
        key.len() == 32,
        nonce.len() == 12,
    ensures
        r is Ok <==> plaintext.len() <= aes_gcm_max_plaintext(),
        r matches Ok(c) ==> c@ == aes256gcm_seal(key@, nonce@, plaintext@),
        r matches Ok(c) ==> c.len() == plaintext.len() + 16,
        r matches Ok(c) ==> aes256gcm_open(key@, nonce@, c@) == Some(plaintext@),
{
    let cipher = aes_gcm::Aes256Gcm::new(aes_gcm::Key::<aes_gcm::Aes256Gcm>::from_slice(key));
    match cipher.encrypt(aes_gcm::Nonce::from_slice(nonce), plaintext) {
        Ok(c) => Ok(c),
        Err(_) => Err(()),
    }
}

/// Calls `Aes256Gcm::new` and `Aead::decrypt`; the result is the name above.
#[verifier::external_body]
fn aes_gcm_decrypt(key: &[u8], nonce: &[u8], sealed: &[u8]) -> (r: Result<Vec<u8>, ()>)
    requires
        key.len() == 32,
        nonce.len() == 12,
    ensures
        r matches Ok(p) ==> aes256gcm_open(key@, nonce@, sealed@) == Some(p@),
        r is Err ==> aes256gcm_open(key@, nonce@, sealed@) is None,
{
    let cipher = aes_gcm::Aes256Gcm::new(aes_gcm::Key::<aes_gcm::Aes256Gcm>::from_slice(key));
    match cipher.decrypt(aes_gcm::Nonce::from_slice(nonce), sealed) {
        Ok(p) => Ok(p),
        Err(_) => Err(()),
    }
}

/// Standard (padded) base64 text of some bytes.
pub uninterp spec fn base64_encode(bytes: Seq<u8>) -> Seq<char>;

/// Standard base64 decoding of the bytes of a text, or `None` if it is not
/// valid base64.
pub uninterp spec fn base64_decode(text: Seq<u8>) -> Option<Seq<u8>>;

/// Length of the padded base64 text of `n` bytes.
pub open spec fn base64_len(n: int) -> int {
    4 * ((n + 2) / 3)
}

/// A character of the standard base64 alphabet, or the `=` padding.
pub open spec fn is_base64_char(c: char) -> bool {
    ('A' <= c && c <= 'Z') || ('a' <= c && c <= 'z') || ('0' <= c && c <= '9') || c == '+' || c
        == '/' || c == '='
}

/// Calls `base64::engine::general_purpose::STANDARD.encode`. The contract
/// claims that the text is the padded length, uses only the base64 alphabet
/// and padding, and that decoding it gives the bytes back. The encoder panics when the text length
/// does not fit in `usize`, which `requires` rules out.
#[verifier::external_body]
fn b64_encode(bytes: &[u8]) -> (r: String)
    requires
        base64_len(bytes.len() as int) <= usize::MAX,
    ensures
        r@ == base64_encode(bytes@),
        r@.len() == base64_len(bytes.len() as int),
        forall|k: int| 0 <= k < r@.len() ==> is_base64_char(#[trigger] r@[k]),
        base64_decode(encode_utf8(r@)) == Some(bytes@),
{
    base64::engine::general_purpose::STANDARD.encode(bytes)
}

/// Calls `base64::engine::general_purpose::STANDARD.decode`.
#[verifier::external_body]
fn b64_decode(text: &[u8]) -> (r: Option<Vec<u8>>)
    ensures
        r matches Some(v) ==> base64_decode(text@) == Some(v@),
        r is None ==> base64_decode(text@) is None,
{
    match base64::engine::general_purpose::STANDARD.decode(text) {
        Ok(v) => Some(v),
        Err(_) => None,
    }
}

/// A lowercase hex digit.
pub open spec fn hex_digit(v: int) -> char {
    if v < 10 {
        (48 + v) as char
    } else {
        (87 + v) as char
    }
}

/// Lowercase hex text of some bytes, two digits per byte.
pub open spec fn hex_encode_spec(b: Seq<u8>) -> Seq<char>
    decreases b.len(),
{
    if b.len() == 0 {
        Seq::empty()
    } else {
        seq![hex_digit(b[0] as int / 16), hex_digit(b[0] as int % 16)] + hex_encode_spec(b.skip(1))
    }
}

/// Value of a hex digit byte (either case).
pub open spec fn hex_value(c: u8) -> Option<int> {
    if 65 <= c <= 70 {
        Some(c - 55)
    } else if 97 <= c <= 102 {
        Some(c - 87)
    } else if 48 <= c <= 57 {
        Some(c - 48)
    } else {
        None
    }
}

/// Hex decoding: an even number of hex digits, two per byte.
pub open spec fn hex_decode_spec(h: Seq<u8>) -> Option<Seq<u8>>
    decreases h.len(),
{
    if h.len() % 2 != 0 {
        None
    } else if h.len() == 0 {
        Some(Seq::empty())
    } else {
        match (hex_value(h[0]), hex_value(h[1]), hex_decode_spec(h.skip(2))) {
            (Some(a), Some(b), Some(rest)) => Some(seq![(a * 16 + b) as u8] + rest),
            _ => None,
        }
    }
}

/// Calls `hex::encode` (lowercase digits, high nibble first).
#[verifier::external_body]
fn hex_encode(bytes: &[u8]) -> (r: String)
    ensures
        r@ == hex_encode_spec(bytes@),
{
    hex::encode(bytes)
}

/// Calls `hex::decode` (digits of either case; an odd length or another
/// character is an error).
#[verifier::external_body]
fn hex_decode(text: &[u8]) -> (r: Option<Vec<u8>>)
    ensures
        r matches Some(v) ==> hex_decode_spec(text@) == Some(v@),
        r is None ==> hex_decode_spec(text@) is None,
{
    match hex::decode(text) {
        Ok(v) => Some(v),
        Err(_) => None,
    }
}

/// Calls `rand::thread_rng().fill_bytes` on `n` fresh bytes. Nothing but the
/// length is promised: the bytes are random.
#[verifier::external_body]
fn random_bytes(n: usize) -> (r: Vec<u8>)
    ensures
        r.len() == n,
{
    let mut b = vec![0u8; n];
    rand::thread_rng().fill_bytes(&mut b);
    b
}

/// Calls `ConstantTimeEq::ct_eq` on two byte slices: equal lengths and equal
/// bytes.
#[verifier::external_body]
fn ct_equal(a: &[u8], b: &[u8]) -> (r: bool)
    ensures
        r == (a@ == b@),
{
    a.ct_eq(b).into()
}

/// Calls `Zeroize::zeroize` on a byte vector, which zeroes and then clears it.
#[verifier::external_body]
fn wipe(v: &mut Vec<u8>)
    ensures
        final(v)@ == Seq::<u8>::empty(),
{
    v.zeroize();
}

// ─── Helpers ──────────────────────────────────────────────────────────────────

/// Appends `src[a..b]` to `out`.
fn push_range(out: &mut Vec<u8>, src: &[u8], a: usize, b: usize)
    requires
        a <= b <= src.len(),
    ensures
        final(out)@ == old(out)@ + src@.subrange(a as int, b as int),
{
    let mut i = a;
    while i < b
        invariant
            a <= i <= b <= src.len(),
            out@ == old(out)@ + src@.subrange(a as int, i as int),
        decreases b - i,
    {
        out.push(src[i]);
        proof {
            assert(src@.subrange(a as int, i + 1) == src@.subrange(a as int, i as int).push(src@[i as int]));
        }
        i += 1;
    }
}

/// The byte vector holding `src[a..b]`.
fn bytes_range(src: &[u8], a: usize, b: usize) -> (r: Vec<u8>)
    requires
        a <= b <= src.len(),
    ensures
        r@ == src@.subrange(a as int, b as int),
{
    let mut r: Vec<u8> = Vec::new();
    push_range(&mut r, src, a, b);
    r
}

// ─── Key derivation ───────────────────────────────────────────────────────────

/// The note key for a password and a salt.
pub open spec fn note_key(password: Seq<char>, salt: Seq<u8>) -> Seq<u8> {
    pbkdf2_hmac_sha256(encode_utf8(password), salt, PBKDF2_ITER, 32)
}

/// Derive the 32-byte note key from a password and a salt (PBKDF2-SHA256).
pub fn derive_key(password: &str, salt: &[u8]) -> (r: Result<[u8; 32], &'static str>)
    ensures
        r is Ok,
        r matches Ok(k) ==> k@ == note_key(password@, salt@),
        r matches Ok(k) ==> k@ == pbkdf2_hmac_sha256(encode_utf8(password@), salt@, 310_000, 32),
{
    match pbkdf2_sha256(password.as_bytes(), salt, PBKDF2_ITER, 32) {
        Ok(v) => {
            let mut key = [0u8; 32];
            let mut i: usize = 0;
            while i < 32
                invariant
                    i <= 32,
                    v.len() == 32,
                    forall|k: int| 0 <= k < i ==> key@[k] == v@[k],
                decreases 32 - i,
            {
                key[i] = v[i];
                i += 1;
            }
            proof {
                assert(key@ =~= v@);
            }
            Ok(key)
        },
        Err(_) => Err("key derivation failed"),
    }
}

// ─── Note encryption ──────────────────────────────────────────────────────────

/// The stored bytes for a plaintext under a password, salt and nonce:
/// `salt || iv || tag || ciphertext`.
pub open spec fn sealed_blob(plain: Seq<char>, password: Seq<char>, salt: Seq<u8>, iv: Seq<u8>) -> Seq<u8> {
    let ct_tag = aes256gcm_seal(note_key(password, salt), iv, encode_utf8(plain));
    let n = ct_tag.len() - 16;
    salt + iv + ct_tag.subrange(n, ct_tag.len() as int) + ct_tag.subrange(0, n)
}

/// The stored text: the base64 of the sealed bytes.
pub open spec fn sealed_notes(plain: Seq<char>, password: Seq<char>, salt: Seq<u8>, iv: Seq<u8>) -> Seq<char> {
    base64_encode(sealed_blob(plain, password, salt, iv))
}

/// Why a stored text could not be opened.
#[derive(Clone, Copy, PartialEq, Eq, Debug, Structural)]
pub enum OpenFailure {
    Base64,
    TooShort,
    Authentication,
    Utf8,
}

pub open spec fn failure_message(f: OpenFailure) -> Seq<char> {
    match f {
        OpenFailure::Base64 => "base64 error"@,
        OpenFailure::TooShort => "ciphertext too short"@,
        OpenFailure::Authentication => "decryption failed — wrong password?"@,
        OpenFailure::Utf8 => "utf-8 decode failed"@,
    }
}

/// What opening the decoded bytes of a stored text with a password gives:
/// they are split into salt, nonce, tag and ciphertext; the key is derived
/// from the password and the salt, and the AES-GCM plaintext must be UTF-8.
pub open spec fn opened_bytes(buf: Seq<u8>, password: Seq<char>) -> Result<Seq<char>, OpenFailure> {
    if buf.len() < 60 {
        Err(OpenFailure::TooShort)
    } else {
        let salt = buf.subrange(0, 32);
        let iv = buf.subrange(32, 44);
        let tag = buf.subrange(44, 60);
        let ct = buf.subrange(60, buf.len() as int);
        match aes256gcm_open(note_key(password, salt), iv, ct + tag) {
            None => Err(OpenFailure::Authentication),
            Some(p) => if valid_utf8(p) {
                Ok(decode_utf8(p))
            } else {
                Err(OpenFailure::Utf8)
            },
        }
    }
}

/// What opening a stored text with a password gives: the whitespace-trimmed
/// text is base64-decoded and the bytes opened.
pub open spec fn opened_notes(b64: Seq<char>, password: Seq<char>) -> Result<Seq<char>, OpenFailure> {
    match base64_decode(encode_utf8(trim_spec(b64))) {
        None => Err(OpenFailure::Base64),
        Some(buf) => opened_bytes(buf, password),
    }
}

/// Encrypt a plaintext under a password with the given 32-byte salt and
/// 12-byte nonce: the base64 of `salt || iv || tag || ciphertext`, which
/// opens to the plaintext again under the same password.
pub fn encrypt_with(plaintext: &str, password: &str, salt: &[u8], iv: &[u8]) -> (r: Result<String, &'static str>)
    requires
        salt.len() == SALT_LEN,
        iv.len() == IV_LEN,
        plaintext.len() <= aes_gcm_max_plaintext() ==> base64_len(60 + plaintext.len()) <= usize::MAX,
    ensures
        r is Ok <==> encode_utf8(plaintext@).len() <= aes_gcm_max_plaintext(),
        r matches Ok(s) ==> {
            &&& s@ == sealed_notes(plaintext@, password@, salt@, iv@)
            &&& base64_decode(encode_utf8(s@)) == Some(sealed_blob(plaintext@, password@, salt@, iv@))
            &&& aes256gcm_seal(note_key(password@, salt@), iv@, encode_utf8(plaintext@)).len()
                == encode_utf8(plaintext@).len() + 16
            &&& sealed_blob(plaintext@, password@, salt@, iv@).len() == 60 + encode_utf8(plaintext@).len()
            &&& opened_notes(s@, password@) == Ok::<Seq<char>, OpenFailure>(plaintext@)
            &&& s@.len() > 0 && trim_spec(s@) == s@
        },
        r matches Err(e) ==> e@ == "encryption failed"@,
{
    let mut key = match derive_key(password, salt) {
        Ok(k) => k,
        Err(e) => return Err(e),
    };
    let pt = plaintext.as_bytes();
    let sealed = aes_gcm_encrypt(key.as_slice(), iv, pt);
    wipe_key(&mut key);
    let ct_tag = match sealed {
        Ok(c) => c,
        Err(_) => return Err("encryption failed"),
    };
    let ct_len = ct_tag.len() - TAG_LEN;
    let mut out: Vec<u8> = Vec::new();
    push_range(&mut out, salt, 0, SALT_LEN);
    push_range(&mut out, iv, 0, IV_LEN);
    push_range(&mut out, ct_tag.as_slice(), ct_len, ct_tag.len());
    push_range(&mut out, ct_tag.as_slice(), 0, ct_len);
    proof {
        assert(salt@.subrange(0, 32) =~= salt@);
        assert(iv@.subrange(0, 12) =~= iv@);
        assert(out@ =~= sealed_blob(plaintext@, password@, salt@, iv@));
    }
    let s = b64_encode(out.as_slice());
    proof {
        lemma_opens_sealed(plaintext@, password@, salt@, iv@, s@);
        lemma_trim_base64(s@);
        assert(s@ == sealed_notes(plaintext@, password@, salt@, iv@));
        assert(sealed_blob(plaintext@, password@, salt@, iv@).len() == 60 + encode_utf8(plaintext@).len());
    }
    Ok(s)
}

/// Encrypt a plaintext under a password with a fresh random salt and nonce
/// (see `encrypt_with`). Opening the result with the same password gives the
/// plaintext back.
pub fn encrypt(plaintext: &str, password: &str) -> (r: Result<String, &'static str>)
    requires
        plaintext.len() <= aes_gcm_max_plaintext() ==> base64_len(60 + plaintext.len()) <= usize::MAX,
    ensures
        r is Ok <==> encode_utf8(plaintext@).len() <= aes_gcm_max_plaintext(),
        r matches Ok(s) ==> exists|salt: Seq<u8>, iv: Seq<u8>|
            #![trigger sealed_notes(plaintext@, password@, salt, iv)]
            {
                &&& salt.len() == SALT_LEN
                &&& iv.len() == IV_LEN
                &&& s@ == sealed_notes(plaintext@, password@, salt, iv)
                &&& base64_decode(encode_utf8(s@)) == Some(sealed_blob(plaintext@, password@, salt, iv))
                &&& aes256gcm_seal(note_key(password@, salt), iv, encode_utf8(plaintext@)).len()
                    == encode_utf8(plaintext@).len() + 16
                &&& sealed_blob(plaintext@, password@, salt, iv).len() == 60 + encode_utf8(plaintext@).len()
            },
        r matches Ok(s) ==> opened_notes(s@, password@) == Ok::<Seq<char>, OpenFailure>(plaintext@),
        r matches Ok(s) ==> s@.len() > 0 && trim_spec(s@) == s@,
        r matches Err(e) ==> e@ == "encryption failed"@,
{
    let salt = random_bytes(SALT_LEN);
    let iv = random_bytes(IV_LEN);
    encrypt_with(plaintext, password, salt.as_slice(), iv.as_slice())
}

/// Calls `Zeroize::zeroize` on a key array, which zeroes its bytes.
#[verifier::external_body]
fn wipe_key(k: &mut [u8; 32])
    ensures
        final(k)@ == Seq::new(32, |i: int| 0u8),
{
    k.zeroize();
}

proof fn lemma_trim_base64(s: Seq<char>)
    requires
        forall|k: int| 0 <= k < s.len() ==> is_base64_char(#[trigger] s[k]),
    ensures
        trim_spec(s) == s,
{
    if s.len() > 0 {
        assert(is_base64_char(s[0]));
        assert(!char_is_whitespace(s[0]));
        assert(is_base64_char(s[s.len() - 1]));
        assert(!char_is_whitespace(s[s.len() - 1]));
        assert(leading_ws_end(s, 0) == 0);
        assert(trailing_ws_start(s, s.len() as int) == s.len());
        assert(s.subrange(0, s.len() as int) =~= s);
    } else {
        assert(trim_spec(s) =~= s);
    }
}

/// A sealed text opens to its plaintext under the same password.
proof fn lemma_opens_sealed(plain: Seq<char>, password: Seq<char>, salt: Seq<u8>, iv: Seq<u8>, s: Seq<char>)
    requires
        salt.len() == 32,
        iv.len() == 12,
        s == base64_encode(sealed_blob(plain, password, salt, iv)),
        forall|k: int| 0 <= k < s.len() ==> is_base64_char(#[trigger] s[k]),
        base64_decode(encode_utf8(s)) == Some(sealed_blob(plain, password, salt, iv)),
        aes256gcm_open(
            note_key(password, salt),
            iv,
            aes256gcm_seal(note_key(password, salt), iv, encode_utf8(plain)),
        ) == Some(encode_utf8(plain)),
        aes256gcm_seal(note_key(password, salt), iv, encode_utf8(plain)).len() >= 16,
    ensures
        opened_notes(s, password) == Ok::<Seq<char>, OpenFailure>(plain),
{
    lemma_trim_base64(s);
    let buf = sealed_blob(plain, password, salt, iv);
    let ct_tag = aes256gcm_seal(note_key(password, salt), iv, encode_utf8(plain));
    let n = ct_tag.len() - 16;
    assert(buf.subrange(0, 32) =~= salt);
    assert(buf.subrange(32, 44) =~= iv);
    assert(buf.subrange(60, buf.len() as int) + buf.subrange(44, 60) =~= ct_tag);
}

/// Open the decoded bytes of a stored text with a password.
pub fn open_sealed(buf: &[u8], password: &str) -> (r: Result<String, &'static str>)
    ensures
        match opened_bytes(buf@, password@) {
            Ok(p) => r matches Ok(s) && s@ == p,
            Err(f) => r matches Err(e) && e@ == failure_message(f),
        },
{
    if buf.len() < SALT_LEN + IV_LEN + TAG_LEN {
        return Err("ciphertext too short");
    }
    let salt = bytes_range(buf, 0, SALT_LEN);
    let iv = bytes_range(buf, SALT_LEN, SALT_LEN + IV_LEN);
    let mut key = match derive_key(password, salt.as_slice()) {
        Ok(k) => k,
        Err(e) => return Err(e),
    };
    let mut ct_tag: Vec<u8> = Vec::new();
    push_range(&mut ct_tag, buf, SALT_LEN + IV_LEN + TAG_LEN, buf.len());
    push_range(&mut ct_tag, buf, SALT_LEN + IV_LEN, SALT_LEN + IV_LEN + TAG_LEN);
    let plain = aes_gcm_decrypt(key.as_slice(), iv.as_slice(), ct_tag.as_slice());
    wipe_key(&mut key);
    let plain = match plain {
        Ok(p) => p,
        Err(_) => return Err("decryption failed — wrong password?"),
    };
    match string_from_utf8(plain) {
        Some(s) => Ok(s),
        None => Err("utf-8 decode failed"),
    }
}

/// Decrypting opens any notes text in the stored format, whoever wrote it:
/// when the trimmed text is the base64 of `salt || iv || tag || ciphertext`
/// (a 32-byte salt, a 12-byte nonce, a 16-byte tag) and AES-256-GCM under
/// the key PBKDF2-HMAC-SHA256(UTF-8 password as the password, the stored salt
/// as the salt, 310,000 rounds, 32 bytes) and that nonce authenticates
/// `ciphertext || tag` to the UTF-8 of a text, decrypting with that password
/// gives that text.
pub proof fn law_decrypt_opens_the_format(
    t: Seq<char>,
    password: Seq<char>,
    salt: Seq<u8>,
    iv: Seq<u8>,
    tag: Seq<u8>,
    ct: Seq<u8>,
    plain: Seq<char>,
)
    requires
        salt.len() == 32,
        iv.len() == 12,
        tag.len() == 16,
        base64_decode(encode_utf8(trim_spec(t))) == Some(salt + iv + tag + ct),
        aes256gcm_open(pbkdf2_hmac_sha256(encode_utf8(password), salt, 310_000, 32), iv, ct + tag)
            == Some(encode_utf8(plain)),
    ensures
        opened_notes(t, password) == Ok::<Seq<char>, OpenFailure>(plain),
{
    let buf = salt + iv + tag + ct;
    assert(buf.subrange(0, 32) =~= salt);
    assert(buf.subrange(32, 44) =~= iv);
    assert(buf.subrange(44, 60) =~= tag);
    assert(buf.subrange(60, buf.len() as int) =~= ct);
    encode_utf8_valid_utf8(plain);
    encode_utf8_decode_utf8(plain);
}

/// Decrypt a stored text with a password.
pub fn decrypt(b64: &str, password: &str) -> (r: Result<String, &'static str>)
    ensures
        match opened_notes(b64@, password@) {
            Ok(p) => r matches Ok(s) && s@ == p,
            Err(f) => r matches Err(e) && e@ == failure_message(f),
        },
{
    let chars = chars_of(b64);
    let trimmed = string_from_chars(trim_chars(chars.as_slice()).as_slice());
    let buf = match b64_decode(trimmed.as_str().as_bytes()) {
        Some(b) => b,
        None => return Err("base64 error"),
    };
    open_sealed(buf.as_slice(), password)
}

// ─── Password hashing ─────────────────────────────────────────────────────────

/// The stored hash for a password and a 16-byte salt: `hex(salt):hex(hash)`,
/// where the hash is 64 bytes of PBKDF2-SHA256 over the password, salted with
/// the bytes of the hex salt text.
pub open spec fn password_hash_for(password: Seq<char>, salt: Seq<u8>) -> Seq<char> {
    let salt_hex = hex_encode_spec(salt);
    salt_hex + seq![':'] + hex_encode_spec(
        pbkdf2_hmac_sha256(encode_utf8(password), encode_utf8(salt_hex), PBKDF2_ITER, 64),
    )
}

/// Whether a password matches a stored hash: the text before the first `:` is
/// the salt, the rest must be hex for 64 bytes equal to the PBKDF2 hash of the
/// password under that salt.
pub open spec fn password_matches(password: Seq<char>, stored: Seq<char>) -> bool {
    match find_from(stored, 0, ':') {
        None => false,
        Some(k) => {
            let salt_part = stored.subrange(0, k);
            let hash_part = stored.subrange(k + 1, stored.len() as int);
            match hex_decode_spec(encode_utf8(hash_part)) {
                None => false,
                Some(expected) => expected.len() == 64 && pbkdf2_hmac_sha256(
                    encode_utf8(password),
                    encode_utf8(salt_part),
                    PBKDF2_ITER,
                    64,
                ) == expected,
            }
        },
    }
}

pub open spec fn is_hex_digit_char(c: char) -> bool {
    ('0' <= c && c <= '9') || ('a' <= c && c <= 'f')
}

proof fn lemma_hex_digit(v: int)
    requires
        0 <= v < 16,
    ensures
        is_hex_digit_char(hex_digit(v)),
        (hex_digit(v) as u32) < 128,
        hex_value(hex_digit(v) as u8) == Some(v),
{
    if v < 10 {
        assert((48 + v) as char as u32 == 48 + v);
    } else {
        assert((87 + v) as char as u32 == 87 + v);
    }
}

proof fn lemma_hex_encode(b: Seq<u8>)
    ensures
        hex_encode_spec(b).len() == 2 * b.len(),
        forall|k: int| 0 <= k < hex_encode_spec(b).len() ==> is_hex_digit_char(#[trigger] hex_encode_spec(b)[k]),
        is_ascii_chars(hex_encode_spec(b)),
        hex_decode_spec(encode_utf8(hex_encode_spec(b))) == Some(b),
    decreases b.len(),
{
    if b.len() > 0 {
        let hi = b[0] as int / 16;
        let lo = b[0] as int % 16;
        lemma_hex_digit(hi);
        lemma_hex_digit(lo);
        lemma_hex_encode(b.skip(1));
        let rest = hex_encode_spec(b.skip(1));
        let h = hex_encode_spec(b);
        let head = seq![hex_digit(hi), hex_digit(lo)];
        assert(h == head + rest);
        assert forall|k: int| 0 <= k < h.len() implies is_hex_digit_char(#[trigger] h[k]) by {
            if k >= 2 {
                assert(h[k] == rest[k - 2]);
            }
        }
        assert(is_ascii_chars(h)) by {
            assert forall|k: int| 0 <= k < h.len() implies '\0' <= #[trigger] h[k] <= '\u{7f}' by {
                if k >= 2 {
                    assert(h[k] == rest[k - 2]);
                }
            }
        }
        is_ascii_chars_encode_utf8(h);
        is_ascii_chars_encode_utf8(rest);
        let e = encode_utf8(h);
        assert(e.skip(2) =~= encode_utf8(rest)) by {
            assert forall|k: int| 0 <= k < e.len() - 2 implies e.skip(2)[k] == encode_utf8(rest)[k] by {
                assert(h[k + 2] == rest[k]);
            }
        }
        assert(e[0] == hex_digit(hi) as u8);
        assert(e[1] == hex_digit(lo) as u8);
        assert(hi * 16 + lo == b[0]);
        assert(hex_decode_spec(e) == Some(seq![(hi * 16 + lo) as u8] + b.skip(1)));
        assert(seq![(hi * 16 + lo) as u8] + b.skip(1) =~= b);
    } else {
        assert(encode_utf8(hex_encode_spec(b)) =~= Seq::<u8>::empty());
    }
}

/// A password matches the hash made from it.
proof fn lemma_hash_matches(password: Seq<char>, salt: Seq<u8>)
    requires
        salt.len() == 16,
        pbkdf2_hmac_sha256(encode_utf8(password), encode_utf8(hex_encode_spec(salt)), PBKDF2_ITER, 64).len()
            == 64,
    ensures
        password_matches(password, password_hash_for(password, salt)),
{
    let salt_hex = hex_encode_spec(salt);
    let hash = pbkdf2_hmac_sha256(encode_utf8(password), encode_utf8(salt_hex), PBKDF2_ITER, 64);
    let hash_hex = hex_encode_spec(hash);
    let stored = password_hash_for(password, salt);
    lemma_hex_encode(salt);
    lemma_hex_encode(hash);
    assert(stored[32] == ':');
    assert forall|k: int| 0 <= k < 32 implies stored[k] != ':' by {
        assert(stored[k] == salt_hex[k]);
        assert(is_hex_digit_char(salt_hex[k]));
    }
    lemma_find_first(stored, 0, 32, ':');
    assert(stored.subrange(0, 32) =~= salt_hex);
    assert(stored.subrange(33, stored.len() as int) =~= hash_hex);
}

/// The layout of a stored password hash: 32 lowercase hex digits of salt, a
/// `:`, and 128 lowercase hex digits of hash.
pub open spec fn is_hash_format(h: Seq<char>) -> bool {
    &&& h.len() == 161
    &&& h[32] == ':'
    &&& forall|k: int| 0 <= k < 161 && k != 32 ==> is_hex_digit_char(#[trigger] h[k])
}

/// A hash made from a 16-byte salt has the stored layout.
proof fn lemma_hash_format(password: Seq<char>, salt: Seq<u8>)
    requires
        salt.len() == 16,
        pbkdf2_hmac_sha256(encode_utf8(password), encode_utf8(hex_encode_spec(salt)), PBKDF2_ITER, 64).len()
            == 64,
    ensures
        is_hash_format(password_hash_for(password, salt)),
{
    let salt_hex = hex_encode_spec(salt);
    let hash = pbkdf2_hmac_sha256(encode_utf8(password), encode_utf8(salt_hex), PBKDF2_ITER, 64);
    let hash_hex = hex_encode_spec(hash);
    let stored = password_hash_for(password, salt);
    lemma_hex_encode(salt);
    lemma_hex_encode(hash);
    assert forall|k: int| 0 <= k < 161 && k != 32 implies is_hex_digit_char(#[trigger] stored[k]) by {
        if k < 32 {
            assert(stored[k] == salt_hex[k]);
        } else {
            assert(stored[k] == hash_hex[k - 33]);
        }
    }
}

/// `find_from` stops at the first occurrence.
proof fn lemma_find_first(s: Seq<char>, j: int, k: int, c: char)
    requires
        0 <= j <= k < s.len(),
        s[k] == c,
        forall|m: int| j <= m < k ==> s[m] != c,
    ensures
        find_from(s, j, c) == Some(k),
    decreases k - j,
{
    if j < k {
        lemma_find_first(s, j + 1, k, c);
    }
}

/// Hash a password for storage under the given 16-byte salt, as
/// `hex_salt:hex_hash` (32 and 128 lowercase hex digits). The password
/// matches the result.
pub fn hash_password_with_salt(pw: &str, salt: &[u8]) -> (r: Result<String, &'static str>)
    requires
        salt.len() == 16,
    ensures
        r is Ok,
        r matches Ok(h) ==> h@ == password_hash_for(pw@, salt@),
        r matches Ok(h) ==> password_matches(pw@, h@),
        r matches Ok(h) ==> is_hash_format(h@),
{
    let salt_hex = hex_encode(salt);
    let mut hash = match pbkdf2_sha256(pw.as_bytes(), salt_hex.as_str().as_bytes(), PBKDF2_ITER, 64) {
        Ok(h) => h,
        Err(_) => return Err("key derivation failed"),
    };
    let encoded = hex_encode(hash.as_slice());
    wipe(&mut hash);
    let mut out = salt_hex;
    string_push(&mut out, ':');
    string_append(&mut out, encoded.as_str());
    proof {
        assert(out@ =~= password_hash_for(pw@, salt@));
        lemma_hash_matches(pw@, salt@);
        lemma_hash_format(pw@, salt@);
    }
    Ok(out)
}

/// Hash a password for storage under a fresh random 16-byte salt (see
/// `hash_password_with_salt`). The password matches the result.
pub fn hash_password(pw: &str) -> (r: Result<String, &'static str>)
    ensures
        r is Ok,
        r matches Ok(h) ==> exists|salt: Seq<u8>|
            #![trigger password_hash_for(pw@, salt)]
            salt.len() == 16 && h@ == password_hash_for(pw@, salt),
        r matches Ok(h) ==> password_matches(pw@, h@),
        r matches Ok(h) ==> is_hash_format(h@),
{
    let salt = random_bytes(16);
    hash_password_with_salt(pw, salt.as_slice())
}

/// Check a password against a stored `hex_salt:hex_hash` (constant-time
/// comparison of the 64-byte hashes).
pub fn verify_password(pw: &str, stored: &str) -> (r: bool)
    ensures
        r == password_matches(pw@, stored@),
{
    let chars = chars_of(stored);
    let k = match find_char(chars.as_slice(), 0, ':') {
        Some(k) => k,
        None => return false,
    };
    proof {
        lemma_find_from(chars@, 0, ':');
        assert(find_from(chars@, 0, ':') == Some(k as int));
        assert(k < chars.len());
    }
    let salt_part = string_from_chars(slice_chars(chars.as_slice(), 0, k).as_slice());
    let hash_part = string_from_chars(slice_chars(chars.as_slice(), k + 1, chars.len()).as_slice());
    let expected = match hex_decode(hash_part.as_str().as_bytes()) {
        Some(v) => v,
        None => return false,
    };
    // Always compare 64 bytes, so a tampered stored hash cannot shorten the
    // comparison.
    if expected.len() != 64 {
        return false;
    }
    let mut actual = match pbkdf2_sha256(pw.as_bytes(), salt_part.as_str().as_bytes(), PBKDF2_ITER, 64) {
        Ok(v) => v,
        Err(_) => return false,
    };
    let result = ct_equal(actual.as_slice(), expected.as_slice());
    wipe(&mut actual);
    result
}

} // verus!
