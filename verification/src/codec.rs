//! Vault codec: authenticated encryption of serialized payloads.
//!
//! Every encryption samples a fresh random nonce inside [`encrypt_data`]
//! itself, so a nonce can never be reused by caller mistake.  Decryption
//! fails closed: it returns a plaintext only when the ciphertext is the
//! sealing of that plaintext under the given key and nonce.

use vstd::prelude::*;
use aes_gcm::aead::{Aead, AeadCore, KeyInit};
use base64::Engine;
use crate::error::CryptoError;

verus! {

/// The AES-256-GCM sealing (ciphertext plus 16-byte tag) of `plaintext`
/// under `key` and a 12-byte `nonce`.  A function of its arguments alone;
/// the cipher is not restated.
pub uninterp spec fn sealed(key: Seq<u8>, nonce: Seq<u8>, plaintext: Seq<u8>) -> Seq<u8>;

/// The standard base64 encoding (with padding) of `b`.
pub uninterp spec fn b64_of(b: Seq<u8>) -> Seq<char>;

/// Characters the standard base64 alphabet can produce.
pub open spec fn is_b64_char(c: char) -> bool {
    ('A' <= c <= 'Z') || ('a' <= c <= 'z') || ('0' <= c <= '9') || c == '+' || c == '/' || c == '='
}

/// Relies on `Aes256Gcm::encrypt`: deterministic in key, nonce and
/// plaintext, the output is the ciphertext with the 16-byte tag appended,
/// and it succeeds whenever the plaintext is at most 2^36 bytes.
#[verifier::external_body]
fn aead_seal(key: &[u8], nonce: &[u8], plaintext: &[u8]) -> (r: Result<Vec<u8>, CryptoError>)
    requires
        key@.len() == 32,
        nonce@.len() == 12,
    ensures
        r matches Ok(c) ==> c@ == sealed(key@, nonce@, plaintext@),
        r matches Ok(c) ==> c@.len() == plaintext@.len() + 16,
        plaintext@.len() <= 0x10_0000_0000 ==> r is Ok,
        r is Ok ==> plaintext@.len() <= 0x10_0000_0000,
        r matches Err(e) ==> e == CryptoError::EncryptionFailed,
{
    let cipher = aes_gcm::Aes256Gcm::new(aes_gcm::Key::<aes_gcm::Aes256Gcm>::from_slice(key));
    match cipher.encrypt(aes_gcm::Nonce::from_slice(nonce), plaintext) {
        Ok(c) => Ok(c),
        Err(_) => Err(CryptoError::EncryptionFailed),
    }
}

/// Relies on `Aes256Gcm::decrypt`: it accepts exactly the seals under the
/// given key and nonce (the tag check), and counter mode makes the sealed
/// plaintext unique, so success identifies it.
#[verifier::external_body]
fn aead_open(key: &[u8], nonce: &[u8], ciphertext: &[u8]) -> (r: Result<Vec<u8>, CryptoError>)
    requires
        key@.len() == 32,
        nonce@.len() == 12,
    ensures
        r matches Ok(p) ==> ciphertext@ == sealed(key@, nonce@, p@),
        r matches Ok(p) ==> (forall|q: Seq<u8>|
            ciphertext@ == sealed(key@, nonce@, q) ==> p@ == q),
        (exists|q: Seq<u8>|
            q.len() <= 0x10_0000_0000 && ciphertext@ == sealed(key@, nonce@, q)) ==> r is Ok,
        r matches Err(e) ==> e == CryptoError::DecryptionFailed,
{
    let cipher = aes_gcm::Aes256Gcm::new(aes_gcm::Key::<aes_gcm::Aes256Gcm>::from_slice(key));
    match cipher.decrypt(aes_gcm::Nonce::from_slice(nonce), ciphertext) {
        Ok(p) => Ok(p),
        Err(_) => Err(CryptoError::DecryptionFailed),
    }
}

/// Relies on `AeadCore::generate_nonce` over the OS generator: a random
/// 12-byte nonce; nothing is promised of its value.  The call aborts
/// only if the operating system's random generator fails.
#[verifier::external_body]
fn fresh_nonce() -> (r: Vec<u8>)
    ensures
        r@.len() == 12,
{
    aes_gcm::Aes256Gcm::generate_nonce(&mut aes_gcm::aead::OsRng).to_vec()
}

/// Relies on `base64::engine::general_purpose::STANDARD.encode`:
/// deterministic, and every output character is from the base64 alphabet.
#[verifier::external_body]
pub fn b64_encode(b: &[u8]) -> (r: String)
    ensures
        r@ == b64_of(b@),
        forall|i: int| 0 <= i < r@.len() ==> is_b64_char(#[trigger] r@[i]),
{
    base64::engine::general_purpose::STANDARD.encode(b)
}

/// Relies on `base64::engine::general_purpose::STANDARD.decode`: with
/// canonical padding required and trailing bits refused, it accepts
/// exactly the strings the encoder produces, and inverts the encoder.
#[verifier::external_body]
pub fn b64_decode(s: &str) -> (r: Result<Vec<u8>, CryptoError>)
    ensures
        r matches Ok(b) ==> s@ == b64_of(b@),
        r matches Ok(b) ==> (forall|x: Seq<u8>| s@ == b64_of(x) ==> b@ == x),
        (exists|x: Seq<u8>| s@ == b64_of(x)) ==> r is Ok,
        r matches Err(e) ==> e == CryptoError::DecodeFailed,
{
    match base64::engine::general_purpose::STANDARD.decode(s) {
        Ok(v) => Ok(v),
        Err(_) => Err(CryptoError::DecodeFailed),
    }
}

/// Encrypt `data` under `key` with a fresh random nonce; the result is
/// the base64 ciphertext and the base64 nonce.
pub fn encrypt_data(data: &[u8], key: &Vec<u8>) -> (r: Result<(String, String), CryptoError>)
    requires
        key@.len() == 32,
    ensures
        r matches Ok(p) ==> (exists|n: Seq<u8>|
            #![auto]
            n.len() == 12 && p.1@ == b64_of(n) && p.0@ == b64_of(sealed(key@, n, data@))),
        r matches Ok(p) ==> (forall|i: int| 0 <= i < p.0@.len() ==> is_b64_char(#[trigger] p.0@[i]))
            && (forall|i: int| 0 <= i < p.1@.len() ==> is_b64_char(#[trigger] p.1@[i])),
        r is Ok <==> data@.len() <= 0x10_0000_0000,
        r is Err ==> r == Err::<(String, String), CryptoError>(CryptoError::EncryptionFailed),
{
    let nonce = fresh_nonce();
    let ct = match aead_seal(key.as_slice(), nonce.as_slice(), data) {
        Ok(c) => c,
        Err(e) => {
            return Err(e);
        },
    };
    let ct_b64 = b64_encode(ct.as_slice());
    let nonce_b64 = b64_encode(nonce.as_slice());
    Ok((ct_b64, nonce_b64))
}

/// Decrypt a base64 ciphertext and nonce under `key`.  Success means the
/// ciphertext is the sealing of the returned plaintext; a genuine
/// pair produced by [`encrypt_data`] under the same key always opens.
pub fn decrypt_data(encrypted_data: &str, nonce_b64: &str, key: &Vec<u8>) -> (r: Result<
    Vec<u8>,
    CryptoError,
>)
    requires
        key@.len() == 32,
    ensures
        r matches Ok(p) ==> (exists|n: Seq<u8>|
            #![auto]
            n.len() == 12 && nonce_b64@ == b64_of(n) && encrypted_data@ == b64_of(
                sealed(key@, n, p@),
            )),
        forall|n: Seq<u8>, pt: Seq<u8>|
            #![auto]
            n.len() == 12 && nonce_b64@ == b64_of(n) && encrypted_data@ == b64_of(
                sealed(key@, n, pt),
            ) && r is Ok ==> r->Ok_0@ == pt,
        forall|n: Seq<u8>, pt: Seq<u8>|
            #![auto]
            n.len() == 12 && pt.len() <= 0x10_0000_0000 && nonce_b64@ == b64_of(n)
                && encrypted_data@ == b64_of(sealed(key@, n, pt)) ==> r is Ok,
        (forall|x: Seq<u8>| nonce_b64@ != #[trigger] b64_of(x)) ==> r == Err::<
            Vec<u8>,
            CryptoError,
        >(CryptoError::DecodeFailed),
        forall|n: Seq<u8>|
            #![auto]
            nonce_b64@ == b64_of(n) && n.len() != 12 ==> r == Err::<Vec<u8>, CryptoError>(
                CryptoError::DecryptionFailed,
            ),
        forall|n: Seq<u8>|
            #![auto]
            (n.len() == 12 && nonce_b64@ == b64_of(n) && (forall|x: Seq<u8>|
                encrypted_data@ != #[trigger] b64_of(x))) ==> r == Err::<Vec<u8>, CryptoError>(
                CryptoError::DecodeFailed,
            ),
        forall|n: Seq<u8>, c: Seq<u8>|
            #![auto]
            (n.len() == 12 && nonce_b64@ == b64_of(n) && encrypted_data@ == b64_of(c) && (forall|
                p: Seq<u8>,
            |
                c != #[trigger] sealed(key@, n, p))) ==> r == Err::<Vec<u8>, CryptoError>(
                CryptoError::DecryptionFailed,
            ),
{
    let nonce = match b64_decode(nonce_b64) {
        Ok(n) => n,
        Err(e) => {
            return Err(e);
        },
    };
    if nonce.len() != 12 {
        return Err(CryptoError::DecryptionFailed);
    }
    let ct = match b64_decode(encrypted_data) {
        Ok(c) => c,
        Err(e) => {
            return Err(e);
        },
    };
    aead_open(key.as_slice(), nonce.as_slice(), ct.as_slice())
}

/// Round-trip law: opening what [`encrypt_data`] sealed, under the same
/// key, returns the original plaintext, and within the size bound the
/// whole cycle succeeds.
pub fn encrypt_then_decrypt(data: &[u8], key: &Vec<u8>) -> (r: Result<Vec<u8>, CryptoError>)
    requires
        key@.len() == 32,
    ensures
        r matches Ok(p) ==> p@ == data@,
        r is Ok <==> data@.len() <= 0x10_0000_0000,
{
    let (ct, nonce) = match encrypt_data(data, key) {
        Ok(p) => p,
        Err(e) => {
            return Err(e);
        },
    };
    decrypt_data(ct.as_str(), nonce.as_str(), key)
}

} // verus!
