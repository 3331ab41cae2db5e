use cocoon::error::{
    AuthenticationError, CryptoError, StorageError, ValidationError, VaultError,
};
use cocoon::vault::Vault;

const T0: u64 = 1_000;
const ISO: &str = "2024-01-02T03:04:05Z";

fn fresh_vault(password: &str) -> Vault {
    let mut v = Vault::new(None, None);
    v.setup_master_password(password, ISO).unwrap();
    v
}

// A vault with only a verifier record: enough for the authentication
// tests, and one password hash cheaper than a full setup, which keeps
// the lockout tests (many Argon2 verifications each) well inside the
// per-test time budget.
fn verifier_only_vault(password: &str) -> Vault {
    let record = cocoon::kdf::make_verifier(password).unwrap();
    Vault::new(Some(record), None)
}

#[test]
fn end_to_end_scenario() {
    let mut v = fresh_vault("correcthorse123");
    assert_eq!(v.authenticate("correcthorse123", T0), Ok(true));
    let id = v
        .add(
            "GitHub".to_string(),
            "a@b.com".to_string(),
            "x".to_string(),
            None,
            None,
            T0 + 1,
            ISO,
        )
        .unwrap();
    assert_eq!(id, 1);
    let found = v.search("git", T0 + 2).unwrap();
    assert_eq!(found.len(), 1);
    assert_eq!(found[0].id, 1);
    assert_eq!(found[0].title, "GitHub");
    for _ in 0..5 {
        let r = v.authenticate("wrongpass", T0 + 3);
        assert_eq!(
            r,
            Err(VaultError::Auth(AuthenticationError::InvalidMasterPassword))
        );
    }
    let r = v.authenticate("correcthorse123", T0 + 4);
    assert_eq!(
        r,
        Err(VaultError::Auth(AuthenticationError::Locked(T0 + 3 + 300)))
    );
}

#[test]
fn lockout_window_elapses() {
    let mut v = verifier_only_vault("correcthorse123");
    for _ in 0..5 {
        assert!(v.authenticate("nope-nope", T0).is_err());
    }
    // Still locked just before the window ends, even with the right password.
    assert_eq!(
        v.authenticate("correcthorse123", T0 + 299),
        Err(VaultError::Auth(AuthenticationError::Locked(T0 + 300)))
    );
    // After the window, the right password unlocks.
    assert_eq!(v.authenticate("correcthorse123", T0 + 300), Ok(true));
    assert!(v.is_authenticated(T0 + 300));
}

#[test]
fn post_window_success_resets_counter() {
    let mut v = verifier_only_vault("correcthorse123");
    for _ in 0..5 {
        assert!(v.authenticate("nope-nope", T0).is_err());
    }
    // The right password succeeds once the window has elapsed...
    assert_eq!(v.authenticate("correcthorse123", T0 + 300), Ok(true));
    // ...and resets the counter to zero: had it stayed at five, the next
    // failure would re-open a window and the second would find it locked.
    assert_eq!(
        v.authenticate("nope-nope", T0 + 301),
        Err(VaultError::Auth(AuthenticationError::InvalidMasterPassword))
    );
    assert_eq!(
        v.authenticate("nope-nope", T0 + 302),
        Err(VaultError::Auth(AuthenticationError::InvalidMasterPassword))
    );
}

#[test]
fn success_resets_failure_counter() {
    let mut v = verifier_only_vault("correcthorse123");
    // Four failures accumulate without opening a window.
    for _ in 0..4 {
        assert_eq!(
            v.authenticate("nope-nope", T0),
            Err(VaultError::Auth(AuthenticationError::InvalidMasterPassword))
        );
    }
    assert_eq!(v.authenticate("correcthorse123", T0 + 1), Ok(true));
    // The counter restarted at zero: were it still four, the next
    // failure would be the fifth in a row and lock the second one out.
    assert_eq!(
        v.authenticate("nope-nope", T0 + 2),
        Err(VaultError::Auth(AuthenticationError::InvalidMasterPassword))
    );
    assert_eq!(
        v.authenticate("nope-nope", T0 + 3),
        Err(VaultError::Auth(AuthenticationError::InvalidMasterPassword))
    );
}

#[test]
fn failure_right_after_window_relocks() {
    let mut v = verifier_only_vault("correcthorse123");
    for _ in 0..5 {
        assert!(v.authenticate("nope-nope", T0).is_err());
    }
    // A wrong password right after the window re-locks at once: the
    // counter kept climbing across the expired window.
    assert_eq!(
        v.authenticate("still-wrong", T0 + 301),
        Err(VaultError::Auth(AuthenticationError::InvalidMasterPassword))
    );
    assert_eq!(
        v.authenticate("correcthorse123", T0 + 302),
        Err(VaultError::Auth(AuthenticationError::Locked(T0 + 301 + 300)))
    );
}

#[test]
fn idle_expiry() {
    let mut v = fresh_vault("correcthorse123");
    assert_eq!(v.authenticate("correcthorse123", T0), Ok(true));
    assert!(v.is_authenticated(T0 + 300));
    // The timeout has elapsed: the pure read reflects it without any
    // intervening operation, and the next operation is rejected.
    assert!(!v.is_authenticated(T0 + 301));
    assert_eq!(
        v.search("", T0 + 301),
        Err(VaultError::Auth(AuthenticationError::NotAuthenticated))
    );
}

#[test]
fn lock_session_drops_key() {
    let mut v = fresh_vault("correcthorse123");
    assert_eq!(v.authenticate("correcthorse123", T0), Ok(true));
    assert!(v.is_authenticated(T0));
    v.lock_session();
    assert!(!v.is_authenticated(T0));
    assert_eq!(
        v.get(1, T0),
        Err(VaultError::Auth(AuthenticationError::NotAuthenticated))
    );
}

#[test]
fn id_monotonicity_across_delete() {
    let mut v = fresh_vault("correcthorse123");
    assert_eq!(v.authenticate("correcthorse123", T0), Ok(true));
    let a = |v: &mut Vault, t: &str| {
        v.add(t.to_string(), "u".to_string(), "p".to_string(), None, None, T0, ISO)
            .unwrap()
    };
    let id1 = a(&mut v, "one");
    let id2 = a(&mut v, "two");
    assert_eq!((id1, id2), (1, 2));
    v.delete(1, T0).unwrap();
    let id3 = a(&mut v, "three");
    assert_eq!(id3, 3);
    let all = v.search("", T0).unwrap();
    let ids: Vec<u32> = all.iter().map(|e| e.id).collect();
    assert_eq!(ids, vec![2, 3]);
}

#[test]
fn search_case_insensitive() {
    let mut v = fresh_vault("correcthorse123");
    assert_eq!(v.authenticate("correcthorse123", T0), Ok(true));
    v.add(
        "GitHub".to_string(),
        "someone".to_string(),
        "p".to_string(),
        Some("https://example.com".to_string()),
        None,
        T0,
        ISO,
    )
    .unwrap();
    let found = v.search("github", T0).unwrap();
    assert_eq!(found.len(), 1);
    assert_eq!(found[0].title, "GitHub");
    assert_eq!(v.search("tHu", T0).unwrap().len(), 1);
    // Match over the username and the URL too, and an empty query
    // returns everything.
    assert_eq!(v.search("SOME", T0).unwrap().len(), 1);
    assert_eq!(v.search("EXAMPLE.COM", T0).unwrap().len(), 1);
    assert_eq!(v.search("", T0).unwrap().len(), 1);
    assert_eq!(v.search("zzz", T0).unwrap().len(), 0);
}

#[test]
fn update_and_get() {
    let mut v = fresh_vault("correcthorse123");
    assert_eq!(v.authenticate("correcthorse123", T0), Ok(true));
    v.add(
        "Mail".to_string(),
        "me".to_string(),
        "old-pass".to_string(),
        None,
        Some("note".to_string()),
        T0,
        ISO,
    )
    .unwrap();
    let later = "2024-02-02T00:00:00Z";
    v.update(
        1,
        "Mail2".to_string(),
        "me2".to_string(),
        "new-pass".to_string(),
        Some("https://mail".to_string()),
        None,
        T0 + 1,
        later,
    )
    .unwrap();
    let e = v.get(1, T0 + 2).unwrap();
    assert_eq!(e.title, "Mail2");
    assert_eq!(e.username, "me2");
    assert_eq!(e.password, "new-pass");
    assert_eq!(e.url.as_deref(), Some("https://mail"));
    assert_eq!(e.notes, None);
    assert_eq!(e.created_at, ISO);
    assert_eq!(e.modified_at, later);
}

#[test]
fn entry_not_found_errors() {
    let mut v = fresh_vault("correcthorse123");
    assert_eq!(v.authenticate("correcthorse123", T0), Ok(true));
    assert_eq!(
        v.get(99, T0),
        Err(VaultError::Validation(ValidationError::EntryNotFound))
    );
    assert_eq!(
        v.delete(99, T0),
        Err(VaultError::Validation(ValidationError::EntryNotFound))
    );
    assert_eq!(
        v.update(
            99,
            "t".to_string(),
            "u".to_string(),
            "p".to_string(),
            None,
            None,
            T0,
            ISO
        ),
        Err(VaultError::Validation(ValidationError::EntryNotFound))
    );
}

#[test]
fn weak_master_password_rejected() {
    let mut v = Vault::new(None, None);
    assert_eq!(
        v.setup_master_password("short", ISO),
        Err(VaultError::Validation(ValidationError::WeakMasterPassword))
    );
    assert!(!v.has_master_password());
}

#[test]
fn authenticate_without_setup() {
    let mut v = Vault::new(None, None);
    assert!(!v.has_master_password());
    assert_eq!(
        v.authenticate("whatever-password", T0),
        Err(VaultError::Storage(StorageError::NotFound))
    );
}

#[test]
fn tampered_container_fails_closed() {
    let mut v = fresh_vault("correcthorse123");
    let record = v.stored_verifier().clone();
    let container = v.container().as_ref().unwrap();
    // Swap the ciphertext for valid base64 of unrelated bytes.
    let mut bad = cocoon::container::EncryptedPasswordStore {
        encrypted_data: cocoon::codec::b64_encode(&[1, 2, 3, 4, 5, 6, 7, 8]),
        nonce: container.nonce.clone(),
        salt: container.salt.clone(),
        iterations: container.iterations,
        version: container.version,
    };
    let mut w = Vault::new(record.clone(), Some(bad));
    assert_eq!(w.authenticate("correcthorse123", T0), Ok(true));
    assert_eq!(
        w.search("", T0),
        Err(VaultError::Crypto(CryptoError::DecryptionFailed))
    );
    // A field that is not base64 at all fails before decryption.
    bad = cocoon::container::EncryptedPasswordStore {
        encrypted_data: "!!!not-base64!!!".to_string(),
        nonce: v.container().as_ref().unwrap().nonce.clone(),
        salt: v.container().as_ref().unwrap().salt.clone(),
        iterations: 100000,
        version: 1,
    };
    let mut x = Vault::new(record, Some(bad));
    assert_eq!(x.authenticate("correcthorse123", T0), Ok(true));
    assert_eq!(
        x.search("", T0),
        Err(VaultError::Crypto(CryptoError::DecodeFailed))
    );
}

#[test]
fn unicode_fields_survive_the_store() {
    let mut v = fresh_vault("correcthorse123");
    assert_eq!(v.authenticate("correcthorse123", T0), Ok(true));
    v.add(
        "Grü\u{00df}e \u{4f60}\u{597d}".to_string(),
        "überuser".to_string(),
        "pa\u{00df}wort".to_string(),
        None,
        None,
        T0,
        ISO,
    )
    .unwrap();
    let e = v.get(1, T0).unwrap();
    assert_eq!(e.title, "Grü\u{00df}e \u{4f60}\u{597d}");
    assert_eq!(e.username, "überuser");
    // Case-insensitive search lowers the Unicode title.
    let found = v.search("GRÜ", T0).unwrap();
    assert_eq!(found.len(), 1);
}

#[test]
fn export_vault_envelope() {
    let mut v = fresh_vault("correcthorse123");
    assert_eq!(v.authenticate("correcthorse123", T0), Ok(true));
    v.add("a".to_string(), "b".to_string(), "c".to_string(), None, None, T0, ISO)
        .unwrap();
    let js = v
        .export_vault("export-secret", T0, "2024-03-04T05:06:07Z")
        .unwrap();
    assert!(js.starts_with("{\"version\":1,\"encrypted_data\":\""));
    assert!(js.contains("\"exported_at\":\"2024-03-04T05:06:07Z\"}"));
    // A second export differs: fresh salt and nonce each time.
    let js2 = v
        .export_vault("export-secret", T0, "2024-03-04T05:06:07Z")
        .unwrap();
    assert_ne!(js, js2);
}

#[test]
fn persistence_roundtrip_through_container_json() {
    let mut v = fresh_vault("correcthorse123");
    assert_eq!(v.authenticate("correcthorse123", T0), Ok(true));
    v.add(
        "Site".to_string(),
        "user".to_string(),
        "secret".to_string(),
        None,
        None,
        T0,
        ISO,
    )
    .unwrap();
    // What a caller would write to disk and read back.
    let record = v.stored_verifier().clone();
    let json = cocoon::container::container_to_json(v.container().as_ref().unwrap()).unwrap();
    let reloaded = cocoon::container::container_from_json(&json).unwrap();
    let mut w = Vault::new(record, Some(reloaded));
    assert_eq!(w.authenticate("correcthorse123", T0), Ok(true));
    let e = w.get(1, T0).unwrap();
    assert_eq!(e.title, "Site");
    assert_eq!(e.password, "secret");
}
