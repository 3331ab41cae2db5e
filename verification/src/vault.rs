//! The vault facade: the session guard wired to the codec, the payload
//! and the container.
//!
//! The facade holds the verifier record and the encrypted container in
//! memory; loading and saving the two files is its caller's concern.
//! Every operation takes the current time, so each path is verified for
//! every clock value.  Each authenticated operation decrypts the current
//! container, applies one change, re-encrypts under a fresh nonce and
//! replaces the container whole.

use vstd::prelude::*;
use vstd::utf8::encode_utf8;
use vstd::string::StringExecFns;
use crate::codec::{b64_encode, b64_of, decrypt_data, encrypt_data, sealed};
use crate::container::{container_json_safe, enc_export, export_to_json, json_plain, ContainerView, EncryptedPasswordStore};
use crate::error::{
    AuthenticationError, CryptoError, StorageError, ValidationError, VaultError,
};
use crate::kdf::{check_verifier, derive_key, derived_key, fresh_salt, make_verifier,
    salt_of_verifier, verifier_ok, verifier_salt};
use crate::payload::{check_store_fits, dec_store, emit_store, enc_entries, entry_fits, enc_store, lemma_dec_enc_store, parse_store, store_fits};
use crate::session::{bumped_attempts, window_after_failure, SessionState, LOCKOUT_SECS};
use crate::store::{
    add_to_store, delete_from_store, empty_store, get_from_store, search_result, search_store,
    store_wf, update_in_store, EntryView, PasswordEntry, PasswordStore, StoreView, opt_view,
};
use crate::strength::strength_of;
use crate::wire::str_fits;

verus! {

/// The cost marker recorded in the container.
pub const RECORDED_ITERATIONS: u32 = 100000;

/// The container schema version this crate writes.
pub const CONTAINER_VERSION: u8 = 1;

/// The container carries, under `key`, the encoding of store `s`.
pub open spec fn container_holds(c: ContainerView, key: Seq<u8>, s: StoreView) -> bool {
    exists|n: Seq<u8>|
        #![auto]
        n.len() == 12 && c.nonce == b64_of(n) && c.encrypted_data == b64_of(
            sealed(key, n, enc_store(s)),
        )
}

/// The error that a gated operation reports when the container's stored
/// fields cannot be decoded, decrypted or parsed under `key`: undecodable
/// base64 is `DecodeFailed`, a wrong-length nonce or a ciphertext that is
/// no seal under the key (corruption, or a stale verifier pairing) is
/// `DecryptionFailed`, surfaced verbatim, and a sealed payload that does
/// not parse is `Malformed`.  `None` when none of these states holds.
pub open spec fn container_fault(c: ContainerView, key: Seq<u8>) -> Option<VaultError> {
    if forall|x: Seq<u8>| c.nonce != #[trigger] b64_of(x) {
        Some(VaultError::Crypto(CryptoError::DecodeFailed))
    } else if exists|n: Seq<u8>| #![auto] c.nonce == b64_of(n) && n.len() != 12 {
        Some(VaultError::Crypto(CryptoError::DecryptionFailed))
    } else if forall|x: Seq<u8>| c.encrypted_data != #[trigger] b64_of(x) {
        Some(VaultError::Crypto(CryptoError::DecodeFailed))
    } else if exists|n: Seq<u8>, ct: Seq<u8>|
        #![auto]
        n.len() == 12 && c.nonce == b64_of(n) && c.encrypted_data == b64_of(ct) && (forall|
            p: Seq<u8>,
        | ct != #[trigger] sealed(key, n, p)) {
        Some(VaultError::Crypto(CryptoError::DecryptionFailed))
    } else if exists|n: Seq<u8>, pt: Seq<u8>|
        #![auto]
        n.len() == 12 && pt.len() <= 0x10_0000_0000 && c.nonce == b64_of(n) && c.encrypted_data
            == b64_of(sealed(key, n, pt)) && dec_store(pt) is None {
        Some(VaultError::Storage(StorageError::Malformed))
    } else {
        None
    }
}

/// The view of a fresh, empty store created at `now_iso`.
pub open spec fn empty_store_view(now_iso: Seq<char>) -> StoreView {
    StoreView { entries: Seq::empty(), next_id: 1, created_at: now_iso, last_backup: None }
}

/// The store after adding an entry built from these fields.
pub open spec fn added_store(
    s: StoreView,
    title: Seq<char>,
    username: Seq<char>,
    password: Seq<char>,
    url: Option<Seq<char>>,
    notes: Option<Seq<char>>,
    now_iso: Seq<char>,
) -> StoreView {
    StoreView {
        entries: s.entries.push(
            EntryView {
                id: s.next_id,
                title,
                username,
                password,
                url,
                notes,
                created_at: now_iso,
                modified_at: now_iso,
                password_strength: strength_of(password) as u8,
            },
        ),
        next_id: (s.next_id + 1) as u32,
        created_at: s.created_at,
        last_backup: s.last_backup,
    }
}

/// The updated entry built from these fields, keeping `created_at`.
pub open spec fn updated_entry(
    prev: EntryView,
    id: u32,
    title: Seq<char>,
    username: Seq<char>,
    password: Seq<char>,
    url: Option<Seq<char>>,
    notes: Option<Seq<char>>,
    now_iso: Seq<char>,
) -> EntryView {
    EntryView {
        id,
        title,
        username,
        password,
        url,
        notes,
        created_at: prev.created_at,
        modified_at: now_iso,
        password_strength: strength_of(password) as u8,
    }
}

/// The whole state the process keeps: session, verifier, container.
pub struct Vault {
    session: SessionState,
    master_verifier: Option<String>,
    container: Option<EncryptedPasswordStore>,
}

impl Vault {
    /// The session, as the contracts speak of it.
    pub closed spec fn session_spec(self) -> SessionState {
        self.session
    }

    /// The stored verifier record, if one is set.
    pub closed spec fn verifier_spec(self) -> Option<Seq<char>> {
        match self.master_verifier {
            Some(v) => Some(v@),
            None => None,
        }
    }

    /// The encrypted container, if one is set.
    pub closed spec fn container_spec(self) -> Option<ContainerView> {
        match self.container {
            Some(c) => Some(c@),
            None => None,
        }
    }

    /// Every held key has the derived-key length.
    pub open spec fn wf(self) -> bool {
        self.session_spec().wf()
    }

    /// Unlocked, and the container carries `s` under the session key.
    pub open spec fn holds_store(self, s: StoreView) -> bool {
        &&& self.session_spec().key_view() matches Some(key)
        &&& self.container_spec() matches Some(c)
        &&& container_holds(c, self.session_spec().key_view()->Some_0, s)
    }

    /// The premise under which an authenticated operation can surely
    /// reach `s`: the container carries it, it fits the payload format,
    /// and its encoding fits the cipher.
    pub open spec fn reaches(self, s: StoreView) -> bool {
        &&& self.holds_store(s)
        &&& store_fits(s)
        &&& enc_store(s).len() <= 0x10_0000_0000
    }

    /// A vault hydrated from what the caller loaded from disk; the
    /// session starts locked with a clean failure record.
    pub fn new(master_verifier: Option<String>, container: Option<EncryptedPasswordStore>) -> (r: Vault)
        ensures
            r.wf(),
            r.verifier_spec() == opt_view(master_verifier),
            (match (r.container_spec(), container) {
                (Some(cv), Some(c)) => cv == c@,
                (None, None) => true,
                _ => false,
            }),
            r.session_spec().key_view() is None,
            r.session_spec().failed_attempts_spec() == 0,
            r.session_spec().locked_until_spec() is None,
    {
        Vault { session: SessionState::new(), master_verifier, container }
    }

    /// Whether a master password has been set up.
    pub fn has_master_password(&self) -> (r: bool)
        ensures
            r == (self.verifier_spec() is Some),
    {
        self.master_verifier.is_some()
    }

    /// Pure read: is the session authenticated at `now`?
    pub fn is_authenticated(&self, now: u64) -> (r: bool)
        ensures
            r == self.session_spec().authenticated(now),
    {
        self.session.is_authenticated(now)
    }

    /// Lock the session, zeroing the key.
    pub fn lock_session(&mut self)
        requires
            old(self).wf(),
        ensures
            final(self).wf(),
            final(self).session_spec().key_view() is None,
            final(self).verifier_spec() == old(self).verifier_spec(),
            final(self).container_spec() == old(self).container_spec(),
    {
        self.session.lock();
    }

    /// The verifier record, for the caller to persist.
    pub fn stored_verifier(&self) -> (r: &Option<String>)
        ensures
            opt_view(*r) == self.verifier_spec(),
    {
        &self.master_verifier
    }

    /// The container, for the caller to persist.
    pub fn container(&self) -> (r: &Option<EncryptedPasswordStore>)
        ensures
            (match (r, self.container_spec()) {
                (Some(c), Some(cv)) => c@ == cv,
                (None, None) => true,
                _ => false,
            }),
    {
        &self.container
    }

    /// Set up the master password: refuse any password under 8 bytes;
    /// otherwise store a fresh verifier and an empty container encrypted
    /// under the key derived from the password and the verifier's salt.
    pub fn setup_master_password(&mut self, password: &str, now_iso: &str) -> (r: Result<
        (),
        VaultError,
    >)
        requires
            old(self).wf(),
            str_fits(now_iso@),
        ensures
            final(self).wf(),
            encode_utf8(password@).len() < 8 ==> r == Err::<(), VaultError>(
                VaultError::Validation(ValidationError::WeakMasterPassword),
            ) && *final(self) == *old(self),
            r is Err ==> *final(self) == *old(self),
            r == Err::<(), VaultError>(
                VaultError::Validation(ValidationError::WeakMasterPassword),
            ) ==> encode_utf8(password@).len() < 8,
            8 <= encode_utf8(password@).len() <= 0xFFFF_FFFF ==> r is Ok,
            r is Ok ==> (final(self).verifier_spec() matches Some(v) && (verifier_ok(
                password@,
                v,
            ) && (final(self).container_spec() matches Some(c) && (container_holds(
                c,
                derived_key(password@, verifier_salt(v)),
                empty_store_view(now_iso@),
            ) && verifier_salt(v).len() == 22 && c.salt == b64_of(verifier_salt(v))
                && c.iterations == RECORDED_ITERATIONS && c.version == CONTAINER_VERSION
                && container_json_safe(c) && final(self).session_spec() == old(self).session_spec())))),
    {
        if password.as_bytes().len() < 8 {
            return Err(VaultError::Validation(ValidationError::WeakMasterPassword));
        }
        let record = match make_verifier(password) {
            Ok(v) => v,
            Err(e) => {
                return Err(VaultError::Crypto(e));
            },
        };
        let salt = match salt_of_verifier(record.as_str()) {
            Ok(s) => s,
            Err(e) => {
                return Err(VaultError::Crypto(e));
            },
        };
        let key = match derive_key(password, salt.as_slice()) {
            Ok(k) => k,
            Err(e) => {
                return Err(VaultError::Crypto(e));
            },
        };
        let store = empty_store(String::from_str(now_iso));
        let payload = emit_store(&store);
        proof {
            assert(enc_entries(store@.entries) =~= Seq::<u8>::empty());
            assert(enc_store(store@).len() <= 13 + encode_utf8(now_iso@).len());
        }
        let (encrypted_data, nonce) = match encrypt_data(payload.as_slice(), &key) {
            Ok(p) => p,
            Err(e) => {
                return Err(VaultError::Crypto(e));
            },
        };
        let salt_b64 = b64_encode(salt.as_slice());
        let container = EncryptedPasswordStore {
            encrypted_data,
            nonce,
            salt: salt_b64,
            iterations: RECORDED_ITERATIONS,
            version: CONTAINER_VERSION,
        };
        self.master_verifier = Some(record);
        self.container = Some(container);
        Ok(())
    }

    /// Authenticate: refused while a lockout window is open; a wrong
    /// password raises the failure count (opening a window from the
    /// fifth failure on); the right one unlocks with the derived key and
    /// resets the count to zero.
    pub fn authenticate(&mut self, password: &str, now: u64) -> (r: Result<bool, VaultError>)
        requires
            old(self).wf(),
            now + LOCKOUT_SECS <= u64::MAX,
        ensures
            final(self).wf(),
            final(self).verifier_spec() == old(self).verifier_spec(),
            final(self).container_spec() == old(self).container_spec(),
            old(self).session_spec().lockout_active(now) ==> r == Err::<bool, VaultError>(
                VaultError::Auth(
                    AuthenticationError::Locked(
                        old(self).session_spec().locked_until_spec()->Some_0,
                    ),
                ),
            ) && *final(self) == *old(self),
            !old(self).session_spec().lockout_active(now) && old(self).verifier_spec() is None
                ==> r == Err::<bool, VaultError>(VaultError::Storage(StorageError::NotFound))
                && *final(self) == *old(self),
            old(self).verifier_spec() matches Some(v) ==> ((!old(self).session_spec().lockout_active(
                now,
            ) && !verifier_ok(password@, v)) ==> (r == Err::<bool, VaultError>(
                VaultError::Auth(AuthenticationError::InvalidMasterPassword),
            ) && final(self).session_spec().key_view() is None && final(self).session_spec().last_activity_spec() == old(self).session_spec().last_activity_spec()
                && final(self).session_spec().failed_attempts_spec() == bumped_attempts(
                old(self).session_spec().failed_attempts_spec(),
            ) && final(self).session_spec().locked_until_spec() == window_after_failure(
                old(self).session_spec().failed_attempts_spec(),
                old(self).session_spec().locked_until_spec(),
                now,
            ))),
            old(self).verifier_spec() matches Some(v) ==> ((!old(self).session_spec().lockout_active(
                now,
            ) && verifier_ok(password@, v)) ==> ((r matches Ok(b) && b && final(self).session_spec().key_view() == Some(derived_key(password@, verifier_salt(v))) && final(self).session_spec().failed_attempts_spec() == 0 && final(self).session_spec().locked_until_spec() is None && final(self).session_spec().last_activity_spec() == now) || (r matches Err(e) && e
                == VaultError::Crypto(CryptoError::KeyDerivationFailed) && final(self).session_spec() == old(self).session_spec()))),
            old(self).verifier_spec() matches Some(v) ==> ((!old(self).session_spec().lockout_active(
                now,
            ) && verifier_ok(password@, v) && 8 <= verifier_salt(v).len() <= 0xFFFF_FFFF
                && encode_utf8(password@).len() <= 0xFFFF_FFFF) ==> r == Ok::<bool, VaultError>(
                true,
            )),
    {
        match self.session.lockout_until(now) {
            Some(t) => {
                return Err(VaultError::Auth(AuthenticationError::Locked(t)));
            },
            None => {},
        }
        let verifier_str = match &self.master_verifier {
            Some(v) => v,
            None => {
                return Err(VaultError::Storage(StorageError::NotFound));
            },
        };
        if !check_verifier(password, verifier_str.as_str()) {
            self.session.record_failure(now);
            return Err(VaultError::Auth(AuthenticationError::InvalidMasterPassword));
        }
        let salt = match salt_of_verifier(verifier_str.as_str()) {
            Ok(s) => s,
            Err(_) => {
                return Err(VaultError::Crypto(CryptoError::KeyDerivationFailed));
            },
        };
        let key = match derive_key(password, salt.as_slice()) {
            Ok(k) => k,
            Err(_) => {
                return Err(VaultError::Crypto(CryptoError::KeyDerivationFailed));
            },
        };
        self.session.unlock(key, now);
        Ok(true)
    }

/// The session admits an authenticated operation at `now`.
pub open spec fn gated(self, now: u64) -> bool {
    !self.session_spec().lockout_active(now) && self.session_spec().authenticated(now)
}

/// Gate the session, decrypt the current container and parse the store.
/// On success the session's activity stamp is refreshed and the caller
/// gets a copy of the key and the decrypted store.
#[verifier::spinoff_prover]
#[verifier::rlimit(100)]
fn open_current(&mut self, now: u64) -> (r: Result<(Vec<u8>, PasswordStore), VaultError>)
    requires
        old(self).wf(),
    ensures
        final(self).wf(),
        final(self).verifier_spec() == old(self).verifier_spec(),
        final(self).container_spec() == old(self).container_spec(),
        old(self).session_spec().lockout_active(now) ==> r == Err::<
            (Vec<u8>, PasswordStore),
            VaultError,
        >(
            VaultError::Auth(
                AuthenticationError::Locked(old(self).session_spec().locked_until_spec()->Some_0),
            ),
        ) && *final(self) == *old(self),
        !old(self).session_spec().lockout_active(now) && !old(self).session_spec().authenticated(
            now,
        ) ==> r == Err::<(Vec<u8>, PasswordStore), VaultError>(
            VaultError::Auth(AuthenticationError::NotAuthenticated),
        ) && final(self).session_spec().key_view() is None && final(self).session_spec().failed_attempts_spec() == old(self).session_spec().failed_attempts_spec()
            && final(self).session_spec().locked_until_spec() == old(self).session_spec().locked_until_spec(),
        old(self).gated(now) && old(self).container_spec() is None ==> r == Err::<
            (Vec<u8>, PasswordStore),
            VaultError,
        >(VaultError::Storage(StorageError::NotFound)),
        r matches Ok(p) ==> (old(self).gated(now) && old(self).container_spec() is Some
            && Some(p.0@) == old(self).session_spec().key_view() && p.0@.len() == 32 && final(self).session_spec().key_view() == old(self).session_spec().key_view() && final(self).session_spec().failed_attempts_spec() == old(self).session_spec().failed_attempts_spec()
            && final(self).session_spec().locked_until_spec() == old(self).session_spec().locked_until_spec() && final(self).session_spec().last_activity_spec()
            == now),
        forall|s: StoreView|
            old(self).reaches(s) && old(self).gated(now) ==> (r matches Ok(p) && p.1@ == s),
        forall|e: VaultError|
            #![auto]
            old(self).gated(now) && old(self).container_spec() is Some && container_fault(
                old(self).container_spec()->Some_0,
                old(self).session_spec().key_view()->Some_0,
            ) == Some(e) ==> r == Err::<(Vec<u8>, PasswordStore), VaultError>(e),
        r is Ok ==> container_fault(
            old(self).container_spec()->Some_0,
            old(self).session_spec().key_view()->Some_0,
        ) is None,
{
    let key = match self.session.begin_operation(now) {
        Ok(k) => k,
        Err(e) => {
            return Err(VaultError::Auth(e));
        },
    };
    let container = match &self.container {
        Some(c) => c,
        None => {
            return Err(VaultError::Storage(StorageError::NotFound));
        },
    };
    let payload = match decrypt_data(
        container.encrypted_data.as_str(),
        container.nonce.as_str(),
        &key,
    ) {
        Ok(p) => p,
        Err(e) => {
            proof {
                assert forall|s: StoreView|
                    old(self).reaches(s) && old(self).gated(now) implies false by {}
                let c = old(self).container_spec()->Some_0;
                let keyv = old(self).session_spec().key_view()->Some_0;
                assert forall|f: VaultError|
                    container_fault(c, keyv) == Some(f) implies VaultError::Crypto(e)
                    == f by {
                    if forall|x: Seq<u8>| c.nonce != #[trigger] b64_of(x) {
                        assert(e == CryptoError::DecodeFailed);
                    } else if exists|n: Seq<u8>| #![auto] c.nonce == b64_of(n) && n.len()
                        != 12 {
                        assert(e == CryptoError::DecryptionFailed);
                    } else if forall|x: Seq<u8>| c.encrypted_data != #[trigger] b64_of(x) {
                        assert(e == CryptoError::DecodeFailed);
                    } else if exists|n: Seq<u8>, ct: Seq<u8>|
                        #![auto]
                        n.len() == 12 && c.nonce == b64_of(n) && c.encrypted_data == b64_of(ct)
                            && (forall|p: Seq<u8>| ct != #[trigger] sealed(keyv, n, p)) {
                        assert(e == CryptoError::DecryptionFailed);
                    } else if exists|n: Seq<u8>, pt: Seq<u8>|
                        #![auto]
                        n.len() == 12 && pt.len() <= 0x10_0000_0000 && c.nonce == b64_of(n)
                            && c.encrypted_data == b64_of(sealed(keyv, n, pt)) && dec_store(
                            pt,
                        ) is None {
                        assert(false);
                    } else {
                    }
                }
            }
            return Err(VaultError::Crypto(e));
        },
    };
    let store = match parse_store(payload.as_slice()) {
        Ok(st) => st,
        Err(_) => {
            proof {
                assert forall|s: StoreView|
                    old(self).reaches(s) && old(self).gated(now) implies false by {
                    lemma_dec_enc_store(s);
                }
                let c = old(self).container_spec()->Some_0;
                let keyv = old(self).session_spec().key_view()->Some_0;
                assert forall|f: VaultError|
                    container_fault(c, keyv) == Some(f) implies VaultError::Storage(
                    StorageError::Malformed,
                ) == f by {
                    if forall|x: Seq<u8>| c.nonce != #[trigger] b64_of(x) {
                        assert(false);
                    } else if exists|n: Seq<u8>| #![auto] c.nonce == b64_of(n) && n.len()
                        != 12 {
                        assert(false);
                    } else if forall|x: Seq<u8>| c.encrypted_data != #[trigger] b64_of(x) {
                        assert(false);
                    } else if exists|n: Seq<u8>, ct: Seq<u8>|
                        #![auto]
                        n.len() == 12 && c.nonce == b64_of(n) && c.encrypted_data == b64_of(ct)
                            && (forall|p: Seq<u8>| ct != #[trigger] sealed(keyv, n, p)) {
                        assert(false);
                    } else {
                    }
                }
            }
            return Err(VaultError::Storage(StorageError::Malformed));
        },
    };
    proof {
        assert forall|s: StoreView|
            old(self).reaches(s) && old(self).gated(now) implies store@ == s by {
            lemma_dec_enc_store(s);
        }
        let c = old(self).container_spec()->Some_0;
        let keyv = old(self).session_spec().key_view()->Some_0;
        assert(container_fault(c, keyv) is None) by {
            if forall|x: Seq<u8>| c.nonce != #[trigger] b64_of(x) {
                assert(false);
            } else if exists|n: Seq<u8>| #![auto] c.nonce == b64_of(n) && n.len() != 12 {
                assert(false);
            } else if forall|x: Seq<u8>| c.encrypted_data != #[trigger] b64_of(x) {
                assert(false);
            } else if exists|n: Seq<u8>, ct: Seq<u8>|
                #![auto]
                n.len() == 12 && c.nonce == b64_of(n) && c.encrypted_data == b64_of(ct) && (
                forall|p: Seq<u8>| ct != #[trigger] sealed(keyv, n, p)) {
                let (n, ct) = choose|n: Seq<u8>, ct: Seq<u8>|
                    #![auto]
                    n.len() == 12 && c.nonce == b64_of(n) && c.encrypted_data == b64_of(ct)
                        && (forall|p: Seq<u8>| ct != #[trigger] sealed(keyv, n, p));
                assert(false);
            } else if exists|n: Seq<u8>, pt: Seq<u8>|
                #![auto]
                n.len() == 12 && pt.len() <= 0x10_0000_0000 && c.nonce == b64_of(n)
                    && c.encrypted_data == b64_of(sealed(keyv, n, pt)) && dec_store(
                    pt,
                ) is None {
                let (n, pt) = choose|n: Seq<u8>, pt: Seq<u8>|
                    #![auto]
                    n.len() == 12 && pt.len() <= 0x10_0000_0000 && c.nonce == b64_of(n)
                        && c.encrypted_data == b64_of(sealed(keyv, n, pt)) && dec_store(
                        pt,
                    ) is None;
                assert(payload@ == pt);
                assert(false);
            } else {
            }
        }
    }
    Ok((key, store))
}

/// Re-encrypt `store` under `key` with a fresh nonce and replace the
/// container's ciphertext and nonce; salt, iterations and version are
/// carried forward unchanged.
fn seal_and_replace(&mut self, store: &PasswordStore, key: &Vec<u8>) -> (r: Result<
    (),
    VaultError,
>)
    requires
        old(self).wf(),
        key@.len() == 32,
        store_fits(store@),
        old(self).container_spec() is Some,
    ensures
        final(self).wf(),
        final(self).verifier_spec() == old(self).verifier_spec(),
        final(self).session_spec() == old(self).session_spec(),
        r is Err ==> final(self).container_spec() == old(self).container_spec(),
        r is Ok ==> (final(self).container_spec() matches Some(c) && container_holds(
            c,
            key@,
            store@,
        ) && c.salt == old(self).container_spec()->Some_0.salt && c.iterations == old(self).container_spec()->Some_0.iterations && c.version == old(self).container_spec()->Some_0.version),
        enc_store(store@).len() <= 0x10_0000_0000 ==> r is Ok,
{
    let payload = emit_store(store);
    let (encrypted_data, nonce) = match encrypt_data(payload.as_slice(), key) {
        Ok(p) => p,
        Err(e) => {
            return Err(VaultError::Crypto(e));
        },
    };
    let old_container = match &self.container {
        Some(c) => c,
        None => {
            return Err(VaultError::Storage(StorageError::NotFound));
        },
    };
    let salt = old_container.salt.clone();
    let iterations = old_container.iterations;
    let version = old_container.version;
    self.container = Some(
        EncryptedPasswordStore { encrypted_data, nonce, salt, iterations, version },
    );
    Ok(())
}

/// Search the decrypted store: case-insensitive substring match over
/// title, username and URL; an empty query returns every entry, in
/// store order.  Nothing is persisted.
pub fn search(&mut self, query: &str, now: u64) -> (r: Result<Vec<PasswordEntry>, VaultError>)
    requires
        old(self).wf(),
    ensures
        final(self).wf(),
        final(self).verifier_spec() == old(self).verifier_spec(),
        final(self).container_spec() == old(self).container_spec(),
        old(self).session_spec().lockout_active(now) ==> r == Err::<
            Vec<PasswordEntry>,
            VaultError,
        >(
            VaultError::Auth(
                AuthenticationError::Locked(old(self).session_spec().locked_until_spec()->Some_0),
            ),
        ),
        !old(self).session_spec().lockout_active(now) && !old(self).session_spec().authenticated(
            now,
        ) ==> r == Err::<Vec<PasswordEntry>, VaultError>(
            VaultError::Auth(AuthenticationError::NotAuthenticated),
        ) && final(self).session_spec().key_view() is None,
        old(self).gated(now) && old(self).container_spec() is None ==> r == Err::<
            Vec<PasswordEntry>,
            VaultError,
        >(VaultError::Storage(StorageError::NotFound)),
        forall|s: StoreView|
            old(self).reaches(s) && old(self).gated(now) ==> (r matches Ok(es)
                && es@.map_values(|e: PasswordEntry| e@) == search_result(s.entries, query@)),
        forall|e: VaultError|
            #![auto]
            old(self).gated(now) && old(self).container_spec() is Some && container_fault(
                old(self).container_spec()->Some_0,
                old(self).session_spec().key_view()->Some_0,
            ) == Some(e) ==> r == Err::<Vec<PasswordEntry>, VaultError>(e),
        r is Ok ==> (final(self).session_spec().key_view() == old(self).session_spec().key_view()
            && final(self).session_spec().last_activity_spec() == now && final(self).session_spec().failed_attempts_spec() == old(self).session_spec().failed_attempts_spec()
            && final(self).session_spec().locked_until_spec() == old(self).session_spec().locked_until_spec()),
    {
    let (_key, store) = match self.open_current(now) {
        Ok(p) => p,
        Err(e) => {
            return Err(e);
        },
    };
    Ok(search_store(&store, query))
}

/// A copy of the entry carrying `id`; `EntryNotFound` when absent.
/// Nothing is persisted.
pub fn get(&mut self, id: u32, now: u64) -> (r: Result<PasswordEntry, VaultError>)
    requires
        old(self).wf(),
    ensures
        final(self).wf(),
        final(self).verifier_spec() == old(self).verifier_spec(),
        final(self).container_spec() == old(self).container_spec(),
        old(self).session_spec().lockout_active(now) ==> r == Err::<PasswordEntry, VaultError>(
            VaultError::Auth(
                AuthenticationError::Locked(old(self).session_spec().locked_until_spec()->Some_0),
            ),
        ),
        !old(self).session_spec().lockout_active(now) && !old(self).session_spec().authenticated(
            now,
        ) ==> r == Err::<PasswordEntry, VaultError>(
            VaultError::Auth(AuthenticationError::NotAuthenticated),
        ) && final(self).session_spec().key_view() is None,
        old(self).gated(now) && old(self).container_spec() is None ==> r == Err::<
            PasswordEntry,
            VaultError,
        >(VaultError::Storage(StorageError::NotFound)),
        forall|s: StoreView|
            old(self).reaches(s) && old(self).gated(now) ==> (((exists|i: int|
                0 <= i < s.entries.len() && (#[trigger] s.entries[i]).id == id) ==> (r matches Ok(
                e,
            ) && (exists|i: int|
                {
                    &&& 0 <= i < s.entries.len()
                    &&& (#[trigger] s.entries[i]).id == id
                    &&& (forall|k: int| 0 <= k < i ==> (#[trigger] s.entries[k]).id != id)
                    &&& e@ == s.entries[i]
                }))) && (!(exists|i: int|
                0 <= i < s.entries.len() && (#[trigger] s.entries[i]).id == id) ==> r == Err::<
                PasswordEntry,
                VaultError,
            >(VaultError::Validation(ValidationError::EntryNotFound)))),
        forall|e: VaultError|
            #![auto]
            old(self).gated(now) && old(self).container_spec() is Some && container_fault(
                old(self).container_spec()->Some_0,
                old(self).session_spec().key_view()->Some_0,
            ) == Some(e) ==> r == Err::<PasswordEntry, VaultError>(e),
        r is Ok ==> (final(self).session_spec().key_view() == old(self).session_spec().key_view()
            && final(self).session_spec().last_activity_spec() == now && final(self).session_spec().failed_attempts_spec() == old(self).session_spec().failed_attempts_spec()
            && final(self).session_spec().locked_until_spec() == old(self).session_spec().locked_until_spec()),
{
    let (_key, store) = match self.open_current(now) {
        Ok(p) => p,
        Err(e) => {
            return Err(e);
        },
    };
    match get_from_store(&store, id) {
        Ok(e) => Ok(e),
        Err(e) => Err(VaultError::Validation(e)),
    }
}


/// Add an entry: it takes the next id (strictly above every id a
/// well-formed store has held), both stamps are `now_iso`, its strength
/// is computed from the password, and the re-encrypted store is
/// persisted under a fresh nonce.
#[verifier::spinoff_prover]
#[verifier::rlimit(100)]
pub fn add(
    &mut self,
    title: String,
    username: String,
    password: String,
    url: Option<String>,
    notes: Option<String>,
    now: u64,
    now_iso: &str,
) -> (r: Result<u32, VaultError>)
    requires
        old(self).wf(),
        str_fits(title@),
        str_fits(username@),
        str_fits(password@),
        (url matches Some(u) ==> str_fits(u@)),
        (notes matches Some(v) ==> str_fits(v@)),
        str_fits(now_iso@),
    ensures
        final(self).wf(),
        final(self).verifier_spec() == old(self).verifier_spec(),
        old(self).session_spec().lockout_active(now) ==> r == Err::<u32, VaultError>(
            VaultError::Auth(
                AuthenticationError::Locked(old(self).session_spec().locked_until_spec()->Some_0),
            ),
        ) && final(self).container_spec() == old(self).container_spec(),
        !old(self).session_spec().lockout_active(now) && !old(self).session_spec().authenticated(
            now,
        ) ==> r == Err::<u32, VaultError>(VaultError::Auth(AuthenticationError::NotAuthenticated))
            && final(self).session_spec().key_view() is None && final(self).container_spec()
            == old(self).container_spec(),
        old(self).gated(now) && old(self).container_spec() is None ==> r == Err::<
            u32,
            VaultError,
        >(VaultError::Storage(StorageError::NotFound)),
        r is Err ==> final(self).container_spec() == old(self).container_spec(),
        forall|s: StoreView|
            old(self).reaches(s) && old(self).gated(now) ==> (r matches Ok(id) ==> (final(self).container_spec() matches Some(c) && (id == s.next_id && container_holds(
                c,
                old(self).session_spec().key_view()->Some_0,
                added_store(
                    s,
                    title@,
                    username@,
                    password@,
                    opt_view(url),
                    opt_view(notes),
                    now_iso@,
                ),
            ) && c.salt == old(self).container_spec()->Some_0.salt && c.iterations == old(self).container_spec()->Some_0.iterations && c.version == old(self).container_spec()->Some_0.version && (store_wf(s) ==> store_wf(
                added_store(
                    s,
                    title@,
                    username@,
                    password@,
                    opt_view(url),
                    opt_view(notes),
                    now_iso@,
                ),
            ) && (forall|i: int|
                0 <= i < s.entries.len() ==> (#[trigger] s.entries[i]).id < id))))),
        forall|s: StoreView|
            old(self).reaches(s) && old(self).gated(now) && s.next_id < 0xFFFF_FFFF
                && s.entries.len() < 0xFFFF_FFFF && enc_store(
                added_store(
                    s,
                    title@,
                    username@,
                    password@,
                    opt_view(url),
                    opt_view(notes),
                    now_iso@,
                ),
            ).len() <= 0x10_0000_0000 ==> r is Ok,
        forall|e: VaultError|
            #![auto]
            old(self).gated(now) && old(self).container_spec() is Some && container_fault(
                old(self).container_spec()->Some_0,
                old(self).session_spec().key_view()->Some_0,
            ) == Some(e) ==> r == Err::<u32, VaultError>(e),
        r is Ok ==> (final(self).session_spec().key_view() == old(self).session_spec().key_view()
            && final(self).session_spec().last_activity_spec() == now && final(self).session_spec().failed_attempts_spec() == old(self).session_spec().failed_attempts_spec()
            && final(self).session_spec().locked_until_spec() == old(self).session_spec().locked_until_spec()),
{
    let (key, mut store) = match self.open_current(now) {
        Ok(p) => p,
        Err(e) => {
            return Err(e);
        },
    };
    if store.next_id >= 0xFFFF_FFFF {
        return Err(VaultError::Storage(StorageError::Malformed));
    }
    if store.entries.len() >= 0xFFFF_FFFF {
        return Err(VaultError::Storage(StorageError::Malformed));
    }
    let id = add_to_store(&mut store, title, username, password, url, notes, now_iso);
    if !check_store_fits(&store) {
        return Err(VaultError::Storage(StorageError::Malformed));
    }
    match self.seal_and_replace(&store, &key) {
        Ok(()) => Ok(id),
        Err(e) => Err(e),
    }
}

/// Replace the mutable fields of the entry carrying `id` (the first
/// such), re-stamp its modification time, recompute its strength and
/// persist; `EntryNotFound` when no entry carries `id`.
#[verifier::spinoff_prover]
#[verifier::rlimit(100)]
pub fn update(
    &mut self,
    id: u32,
    title: String,
    username: String,
    password: String,
    url: Option<String>,
    notes: Option<String>,
    now: u64,
    now_iso: &str,
) -> (r: Result<(), VaultError>)
    requires
        old(self).wf(),
        str_fits(title@),
        str_fits(username@),
        str_fits(password@),
        (url matches Some(u) ==> str_fits(u@)),
        (notes matches Some(v) ==> str_fits(v@)),
        str_fits(now_iso@),
    ensures
        final(self).wf(),
        final(self).verifier_spec() == old(self).verifier_spec(),
        old(self).session_spec().lockout_active(now) ==> r == Err::<(), VaultError>(
            VaultError::Auth(
                AuthenticationError::Locked(old(self).session_spec().locked_until_spec()->Some_0),
            ),
        ) && final(self).container_spec() == old(self).container_spec(),
        !old(self).session_spec().lockout_active(now) && !old(self).session_spec().authenticated(
            now,
        ) ==> r == Err::<(), VaultError>(VaultError::Auth(AuthenticationError::NotAuthenticated))
            && final(self).session_spec().key_view() is None && final(self).container_spec()
            == old(self).container_spec(),
        old(self).gated(now) && old(self).container_spec() is None ==> r == Err::<
            (),
            VaultError,
        >(VaultError::Storage(StorageError::NotFound)),
        r is Err ==> final(self).container_spec() == old(self).container_spec(),
        forall|s: StoreView|
            old(self).reaches(s) && old(self).gated(now) ==> (r matches Ok(u2) ==> (exists|i: int|
                {
                    &&& 0 <= i < s.entries.len()
                    &&& (#[trigger] s.entries[i]).id == id
                    &&& (forall|k: int| 0 <= k < i ==> (#[trigger] s.entries[k]).id != id)
                    &&& final(self).container_spec() matches Some(c) && container_holds(
                        c,
                        old(self).session_spec().key_view()->Some_0,
                        StoreView {
                            entries: s.entries.update(
                                i,
                                updated_entry(
                                    s.entries[i],
                                    id,
                                    title@,
                                    username@,
                                    password@,
                                    opt_view(url),
                                    opt_view(notes),
                                    now_iso@,
                                ),
                            ),
                            ..s
                        },
                    )
                })),
        forall|s: StoreView|
            old(self).reaches(s) && old(self).gated(now) ==> ((!exists|i: int|
                0 <= i < s.entries.len() && (#[trigger] s.entries[i]).id == id) ==> r == Err::<
                (),
                VaultError,
            >(VaultError::Validation(ValidationError::EntryNotFound))),
        forall|s: StoreView|
            old(self).reaches(s) && old(self).gated(now) && (exists|i: int|
                0 <= i < s.entries.len() && (#[trigger] s.entries[i]).id == id) && (forall|j: int|
                0 <= j < s.entries.len() ==> enc_store(
                    StoreView {
                        entries: s.entries.update(
                            j,
                            updated_entry(
                                s.entries[j],
                                id,
                                title@,
                                username@,
                                password@,
                                opt_view(url),
                                opt_view(notes),
                                now_iso@,
                            ),
                        ),
                        ..s
                    },
                ).len() <= 0x10_0000_0000) ==> r is Ok,
        forall|e: VaultError|
            #![auto]
            old(self).gated(now) && old(self).container_spec() is Some && container_fault(
                old(self).container_spec()->Some_0,
                old(self).session_spec().key_view()->Some_0,
            ) == Some(e) ==> r == Err::<(), VaultError>(e),
        r is Ok ==> (final(self).session_spec().key_view() == old(self).session_spec().key_view()
            && final(self).session_spec().last_activity_spec() == now && final(self).session_spec().failed_attempts_spec() == old(self).session_spec().failed_attempts_spec()
            && final(self).session_spec().locked_until_spec() == old(self).session_spec().locked_until_spec()),
{
    let (key, mut store) = match self.open_current(now) {
        Ok(p) => p,
        Err(e) => {
            return Err(e);
        },
    };
    let ghost st0 = store@;
    let ghost title_v = title@;
    let ghost username_v = username@;
    let ghost password_v = password@;
    let ghost url_v = opt_view(url);
    let ghost notes_v = opt_view(notes);
    match update_in_store(&mut store, id, title, username, password, url, notes, now_iso) {
        Ok(()) => {},
        Err(e) => {
            return Err(VaultError::Validation(e));
        },
    }
    proof {
        let i = choose|i: int|
            {
                &&& 0 <= i < st0.entries.len()
                &&& (#[trigger] st0.entries[i]).id == id
                &&& (forall|k: int| 0 <= k < i ==> (#[trigger] st0.entries[k]).id != id)
                &&& store@.entries == st0.entries.update(
                    i,
                    updated_entry(
                        st0.entries[i],
                        id,
                        title_v,
                        username_v,
                        password_v,
                        url_v,
                        notes_v,
                        now_iso@,
                    ),
                )
            };
        assert forall|s: StoreView|
            old(self).reaches(s) && old(self).gated(now) implies (store_fits(s) ==> store_fits(
            store@,
        )) by {
            assert(st0 == s);
            assert forall|k: int|
                0 <= k < store@.entries.len() implies (store_fits(s) ==> entry_fits(
                #[trigger] store@.entries[k],
            )) by {
                if k != i {
                    assert(store@.entries[k] == st0.entries[k]);
                }
            }
        }
    }
    if !check_store_fits(&store) {
        return Err(VaultError::Storage(StorageError::Malformed));
    }
    match self.seal_and_replace(&store, &key) {
        Ok(()) => Ok(()),
        Err(e) => Err(e),
    }
}

/// Remove the entry carrying `id` (the first such) and persist;
/// `EntryNotFound` when no entry carries `id`.  The id counter is
/// untouched, so removed ids are never reissued.
#[verifier::spinoff_prover]
#[verifier::rlimit(100)]
pub fn delete(&mut self, id: u32, now: u64) -> (r: Result<(), VaultError>)
    requires
        old(self).wf(),
    ensures
        final(self).wf(),
        final(self).verifier_spec() == old(self).verifier_spec(),
        old(self).session_spec().lockout_active(now) ==> r == Err::<(), VaultError>(
            VaultError::Auth(
                AuthenticationError::Locked(old(self).session_spec().locked_until_spec()->Some_0),
            ),
        ) && final(self).container_spec() == old(self).container_spec(),
        !old(self).session_spec().lockout_active(now) && !old(self).session_spec().authenticated(
            now,
        ) ==> r == Err::<(), VaultError>(VaultError::Auth(AuthenticationError::NotAuthenticated))
            && final(self).session_spec().key_view() is None && final(self).container_spec()
            == old(self).container_spec(),
        old(self).gated(now) && old(self).container_spec() is None ==> r == Err::<
            (),
            VaultError,
        >(VaultError::Storage(StorageError::NotFound)),
        r is Err ==> final(self).container_spec() == old(self).container_spec(),
        forall|s: StoreView|
            old(self).reaches(s) && old(self).gated(now) ==> (r matches Ok(u2) ==> (exists|i: int|
                {
                    &&& 0 <= i < s.entries.len()
                    &&& (#[trigger] s.entries[i]).id == id
                    &&& (forall|k: int| 0 <= k < i ==> (#[trigger] s.entries[k]).id != id)
                    &&& final(self).container_spec() matches Some(c) && container_holds(
                        c,
                        old(self).session_spec().key_view()->Some_0,
                        StoreView { entries: s.entries.remove(i), ..s },
                    )
                })),
        forall|s: StoreView|
            old(self).reaches(s) && old(self).gated(now) ==> ((!exists|i: int|
                0 <= i < s.entries.len() && (#[trigger] s.entries[i]).id == id) ==> r == Err::<
                (),
                VaultError,
            >(VaultError::Validation(ValidationError::EntryNotFound))),
        forall|s: StoreView|
            old(self).reaches(s) && old(self).gated(now) && (exists|i: int|
                0 <= i < s.entries.len() && (#[trigger] s.entries[i]).id == id) && (forall|j: int|
                0 <= j < s.entries.len() ==> enc_store(
                    StoreView { entries: s.entries.remove(j), ..s },
                ).len() <= 0x10_0000_0000) ==> r is Ok,
        forall|e: VaultError|
            #![auto]
            old(self).gated(now) && old(self).container_spec() is Some && container_fault(
                old(self).container_spec()->Some_0,
                old(self).session_spec().key_view()->Some_0,
            ) == Some(e) ==> r == Err::<(), VaultError>(e),
        r is Ok ==> (final(self).session_spec().key_view() == old(self).session_spec().key_view()
            && final(self).session_spec().last_activity_spec() == now && final(self).session_spec().failed_attempts_spec() == old(self).session_spec().failed_attempts_spec()
            && final(self).session_spec().locked_until_spec() == old(self).session_spec().locked_until_spec()),
{
    let (key, mut store) = match self.open_current(now) {
        Ok(p) => p,
        Err(e) => {
            return Err(e);
        },
    };
    let ghost st0 = store@;
    match delete_from_store(&mut store, id) {
        Ok(()) => {},
        Err(e) => {
            return Err(VaultError::Validation(e));
        },
    }
    proof {
        let i = choose|i: int|
            {
                &&& 0 <= i < st0.entries.len()
                &&& (#[trigger] st0.entries[i]).id == id
                &&& (forall|k: int| 0 <= k < i ==> (#[trigger] st0.entries[k]).id != id)
                &&& store@.entries == st0.entries.remove(i)
            };
        assert(store@ == StoreView {
            entries: st0.entries.remove(i),
            next_id: st0.next_id,
            created_at: st0.created_at,
            last_backup: st0.last_backup,
        });
        assert forall|s: StoreView|
            old(self).reaches(s) && old(self).gated(now) implies (store_fits(s) ==> store_fits(
            store@,
        )) by {
            assert(st0 == s);
            assert forall|k: int|
                0 <= k < st0.entries.remove(i).len() implies (store_fits(s) ==> entry_fits(
                #[trigger] st0.entries.remove(i)[k],
            )) by {
                if k < i {
                    assert(st0.entries.remove(i)[k] == st0.entries[k]);
                } else {
                    assert(st0.entries.remove(i)[k] == st0.entries[k + 1]);
                }
            }
        }
    }
    if !check_store_fits(&store) {
        return Err(VaultError::Storage(StorageError::Malformed));
    }
    match self.seal_and_replace(&store, &key) {
        Ok(()) => Ok(()),
        Err(e) => Err(e),
    }
}

/// Export the vault: the decrypted store, re-encrypted independently
/// under a key derived from the export password and a fresh salt, in
/// the export JSON envelope.  The live container is untouched.
#[verifier::spinoff_prover]
#[verifier::rlimit(100)]
pub fn export_vault(&mut self, export_password: &str, now: u64, exported_at: &str) -> (r: Result<
    String,
    VaultError,
>)
    requires
        old(self).wf(),
    ensures
        final(self).wf(),
        final(self).verifier_spec() == old(self).verifier_spec(),
        final(self).container_spec() == old(self).container_spec(),
        old(self).session_spec().lockout_active(now) ==> r == Err::<String, VaultError>(
            VaultError::Auth(
                AuthenticationError::Locked(old(self).session_spec().locked_until_spec()->Some_0),
            ),
        ),
        !old(self).session_spec().lockout_active(now) && !old(self).session_spec().authenticated(
            now,
        ) ==> r == Err::<String, VaultError>(
            VaultError::Auth(AuthenticationError::NotAuthenticated),
        ) && final(self).session_spec().key_view() is None,
        old(self).gated(now) && old(self).container_spec() is None ==> r == Err::<
            String,
            VaultError,
        >(VaultError::Storage(StorageError::NotFound)),
        forall|s: StoreView|
            old(self).reaches(s) && old(self).gated(now) ==> (r matches Ok(js) ==> (exists|
                n: Seq<u8>,
                sb: Seq<u8>,
            |
                #![auto]
                n.len() == 12 && sb.len() == 22 && encode_utf8(js@) == enc_export(
                    b64_of(sealed(derived_key(export_password@, sb), n, enc_store(s))),
                    b64_of(n),
                    b64_of(sb),
                    exported_at@,
                ))),
        forall|s: StoreView|
            old(self).reaches(s) && old(self).gated(now) && json_plain(exported_at@)
                && encode_utf8(export_password@).len() <= 0xFFFF_FFFF && enc_store(s).len()
                <= 0x10_0000_0000 ==> r is Ok,
        forall|e: VaultError|
            #![auto]
            old(self).gated(now) && old(self).container_spec() is Some && container_fault(
                old(self).container_spec()->Some_0,
                old(self).session_spec().key_view()->Some_0,
            ) == Some(e) ==> r == Err::<String, VaultError>(e),
        r is Ok ==> (final(self).session_spec().key_view() == old(self).session_spec().key_view()
            && final(self).session_spec().last_activity_spec() == now && final(self).session_spec().failed_attempts_spec() == old(self).session_spec().failed_attempts_spec()
            && final(self).session_spec().locked_until_spec() == old(self).session_spec().locked_until_spec()),
{
    let (_key, store) = match self.open_current(now) {
        Ok(p) => p,
        Err(e) => {
            return Err(e);
        },
    };
    if !check_store_fits(&store) {
        return Err(VaultError::Storage(StorageError::Malformed));
    }
    let payload = emit_store(&store);
    let salt = fresh_salt();
    let export_key = match derive_key(export_password, salt.as_slice()) {
        Ok(k) => k,
        Err(e) => {
            return Err(VaultError::Crypto(e));
        },
    };
    let (encrypted_data, nonce) = match encrypt_data(payload.as_slice(), &export_key) {
        Ok(p) => p,
        Err(e) => {
            return Err(VaultError::Crypto(e));
        },
    };
    let salt_b64 = b64_encode(salt.as_slice());
    match export_to_json(
        encrypted_data.as_str(),
        nonce.as_str(),
        salt_b64.as_str(),
        exported_at,
    ) {
        Ok(js) => Ok(js),
        Err(e) => Err(VaultError::Storage(e)),
    }
}

}

} // verus!
