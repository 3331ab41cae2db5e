use cocoon::codec::{b64_decode, b64_encode, decrypt_data, encrypt_data, encrypt_then_decrypt};
use cocoon::container::{container_from_json, container_to_json, EncryptedPasswordStore};
use cocoon::error::{ValidationError};
use cocoon::generate::generate_password;
use cocoon::kdf::{check_verifier, derive_key, make_verifier, salt_of_verifier};
use cocoon::payload::{emit_store, parse_store};
use cocoon::store::{empty_store, add_to_store, delete_from_store, search_store};
use cocoon::strength::calculate_password_strength;

const ISO: &str = "2024-01-02T03:04:05Z";

#[test]
fn encrypt_decrypt_roundtrip() {
    let key = vec![7u8; 32];
    let data = b"some secret bytes";
    let back = encrypt_then_decrypt(data, &key).unwrap();
    assert_eq!(back, data);
}

#[test]
fn decrypt_with_wrong_key_fails() {
    let key = vec![7u8; 32];
    let other = vec![8u8; 32];
    let (ct, nonce) = encrypt_data(b"payload", &key).unwrap();
    assert!(decrypt_data(&ct, &nonce, &other).is_err());
}

#[test]
fn tampered_ciphertext_fails() {
    let key = vec![7u8; 32];
    let (ct, nonce) = encrypt_data(b"payload", &key).unwrap();
    let bad_ct = b64_encode(&{
        let mut raw = b64_decode(&ct).unwrap();
        raw[0] ^= 0x01;
        raw
    });
    assert!(decrypt_data(&bad_ct, &nonce, &key).is_err());
    let bad_nonce = b64_encode(&{
        let mut raw = b64_decode(&nonce).unwrap();
        raw[0] ^= 0x01;
        raw
    });
    assert!(decrypt_data(&ct, &bad_nonce, &key).is_err());
}

#[test]
fn fresh_nonce_each_encryption() {
    let key = vec![9u8; 32];
    let (ct1, n1) = encrypt_data(b"same plaintext", &key).unwrap();
    let (ct2, n2) = encrypt_data(b"same plaintext", &key).unwrap();
    assert_ne!(n1, n2);
    assert_ne!(ct1, ct2);
}

#[test]
fn derive_key_deterministic() {
    let salt = b"0123456789abcdef";
    let k1 = derive_key("secret-password", salt).unwrap();
    let k2 = derive_key("secret-password", salt).unwrap();
    assert_eq!(k1, k2);
    assert_eq!(k1.len(), 32);
    let k3 = derive_key("secret-password", b"fedcba9876543210").unwrap();
    assert_ne!(k1, k3);
    let k4 = derive_key("other-password", salt).unwrap();
    assert_ne!(k1, k4);
}

#[test]
fn derive_key_rejects_short_salt() {
    assert!(derive_key("secret-password", b"short").is_err());
}

#[test]
fn verifier_round() {
    let record = make_verifier("hunter42hunter42").unwrap();
    assert!(check_verifier("hunter42hunter42", &record));
    assert!(!check_verifier("wrong-password", &record));
    assert!(!check_verifier("hunter42hunter42", "not a verifier record"));
    let salt = salt_of_verifier(&record).unwrap();
    assert_eq!(salt.len(), 22);
}

#[test]
fn base64_wrappers() {
    assert_eq!(b64_encode(b"hello"), "aGVsbG8=");
    assert_eq!(b64_decode("aGVsbG8=").unwrap(), b"hello");
    assert!(b64_decode("###").is_err());
}

#[test]
fn strength_repeated_chars_penalized() {
    // 17 identical characters: 45 for length, 5 for the lowercase class,
    // no variety bonus, minus 20 for the triple run.
    assert_eq!(calculate_password_strength("aaaaaaaaaaaaaaaaa"), 30);
    // Same length, no repeats: 45 + 5 + 10 variety, no penalty.
    assert_eq!(calculate_password_strength("abcdefghijklmnopq"), 60);
    // The penalty floors at zero.
    assert_eq!(calculate_password_strength("aaa"), 0);
}

#[test]
fn strength_formula_cases() {
    assert_eq!(calculate_password_strength(""), 0);
    // 12 bytes, three classes, a symbol, varied, but contains "password".
    assert_eq!(calculate_password_strength("Password123!"), 50);
    // Case-insensitive weak patterns.
    assert_eq!(
        calculate_password_strength("PASSWORD123"),
        calculate_password_strength("password123")
    );
    // 16 varied bytes with all four classes and no penalty.
    assert_eq!(calculate_password_strength("Abc?efgH1jkl9nO!"), 80);
}

#[test]
fn generator_scenario() {
    let p = generate_password(12, false, true, true, false).unwrap();
    assert_eq!(p.chars().count(), 12);
    assert!(p
        .chars()
        .all(|c| c.is_ascii_lowercase() || c.is_ascii_digit()));
    let q = generate_password(12, false, true, true, false).unwrap();
    assert_ne!(p, q);
}

#[test]
fn generator_rejects_bad_parameters() {
    assert_eq!(
        generate_password(3, true, true, true, true),
        Err(ValidationError::InvalidLength)
    );
    assert_eq!(
        generate_password(129, true, true, true, true),
        Err(ValidationError::InvalidLength)
    );
    assert_eq!(
        generate_password(12, false, false, false, false),
        Err(ValidationError::NoCharacterClasses)
    );
}

#[test]
fn generator_single_class() {
    let p = generate_password(128, false, false, false, true).unwrap();
    assert_eq!(p.chars().count(), 128);
    assert!(p.chars().all(|c| "!@#$%^&*()_+-=[]{}|;:,.<>?".contains(c)));
}

#[test]
fn payload_roundtrip() {
    let mut store = empty_store(ISO.to_string());
    add_to_store(
        &mut store,
        "Grü\u{00df}e".to_string(),
        "user".to_string(),
        "pass".to_string(),
        Some("https://example".to_string()),
        None,
        ISO,
    );
    add_to_store(
        &mut store,
        "two".to_string(),
        "u2".to_string(),
        "p2".to_string(),
        None,
        Some("note \u{4f60}\u{597d}".to_string()),
        ISO,
    );
    let bytes = emit_store(&store);
    let back = parse_store(&bytes).unwrap();
    assert_eq!(back.next_id, store.next_id);
    assert_eq!(back.created_at, store.created_at);
    assert_eq!(back.last_backup, store.last_backup);
    assert_eq!(back.entries.len(), 2);
    assert_eq!(back.entries[0].title, "Grü\u{00df}e");
    assert_eq!(back.entries[0].url.as_deref(), Some("https://example"));
    assert_eq!(back.entries[1].notes.as_deref(), Some("note \u{4f60}\u{597d}"));
    assert_eq!(back.entries[1].password_strength, store.entries[1].password_strength);
}

#[test]
fn payload_rejects_garbage() {
    assert!(parse_store(b"").is_err());
    assert!(parse_store(b"\x00\x00\x00\x01garbage-without-structure").is_err());
}

#[test]
fn container_json_exact_and_roundtrip() {
    let c = EncryptedPasswordStore {
        encrypted_data: "AA==".to_string(),
        nonce: "BB==".to_string(),
        salt: "CC==".to_string(),
        iterations: 100000,
        version: 1,
    };
    let js = container_to_json(&c).unwrap();
    assert_eq!(
        js,
        "{\"encrypted_data\":\"AA==\",\"nonce\":\"BB==\",\"salt\":\"CC==\",\"iterations\":100000,\"version\":1}"
    );
    let back = container_from_json(&js).unwrap();
    assert_eq!(back.encrypted_data, c.encrypted_data);
    assert_eq!(back.nonce, c.nonce);
    assert_eq!(back.salt, c.salt);
    assert_eq!(back.iterations, c.iterations);
    assert_eq!(back.version, c.version);
}

#[test]
fn container_json_rejects_malformed() {
    assert!(container_from_json("").is_err());
    assert!(container_from_json("{\"encrypted_data\":\"AA==\"}").is_err());
    assert!(container_from_json(
        "{\"encrypted_data\":\"AA==\",\"nonce\":\"BB==\",\"salt\":\"CC==\",\"iterations\":100000,\"version\":1} "
    )
    .is_err());
    assert!(container_from_json(
        "{\"encrypted_data\":\"AA==\",\"nonce\":\"BB==\",\"salt\":\"CC==\",\"iterations\":99999999999,\"version\":1}"
    )
    .is_err());
}

#[test]
fn search_store_orders_and_filters() {
    let mut store = empty_store(ISO.to_string());
    add_to_store(&mut store, "Alpha".to_string(), "x".to_string(), "p".to_string(), None, None, ISO);
    add_to_store(&mut store, "beta".to_string(), "x".to_string(), "p".to_string(), None, None, ISO);
    add_to_store(&mut store, "ALPHABET".to_string(), "x".to_string(), "p".to_string(), None, None, ISO);
    let hits = search_store(&store, "alpha");
    let titles: Vec<&str> = hits.iter().map(|e| e.title.as_str()).collect();
    assert_eq!(titles, vec!["Alpha", "ALPHABET"]);
    delete_from_store(&mut store, 1).unwrap();
    let hits = search_store(&store, "alpha");
    let titles: Vec<&str> = hits.iter().map(|e| e.title.as_str()).collect();
    assert_eq!(titles, vec!["ALPHABET"]);
}
