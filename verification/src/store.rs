//! The decrypted, in-memory entry collection and its repository
//! operations: search, add, update, delete, get.
//!
//! Ids are issued from the `next_id` counter and never reused: in a
//! well-formed store the counter is strictly greater than every held id,
//! additions issue the counter value and increment it, and deletions
//! leave the counter alone.

use vstd::prelude::*;
use vstd::pervasive::VecAdditionalExecFns;
use vstd::string::StringExecFns;
use crate::error::ValidationError;
use crate::strength::{calculate_password_strength, strength_of};
use crate::text::{contains_chars, contains_seq, lower_chars, lower_of};

verus! {

/// One credential entry, plaintext only while decrypted in memory.
#[derive(Debug, PartialEq)]
pub struct PasswordEntry {
    pub id: u32,
    pub title: String,
    pub username: String,
    pub password: String,
    pub url: Option<String>,
    pub notes: Option<String>,
    pub created_at: String,
    pub modified_at: String,
    pub password_strength: u8,
}

/// The mathematical value of an entry.
pub struct EntryView {
    pub id: u32,
    pub title: Seq<char>,
    pub username: Seq<char>,
    pub password: Seq<char>,
    pub url: Option<Seq<char>>,
    pub notes: Option<Seq<char>>,
    pub created_at: Seq<char>,
    pub modified_at: Seq<char>,
    pub password_strength: u8,
}

/// The character sequences of an optional string.
pub open spec fn opt_view(o: Option<String>) -> Option<Seq<char>> {
    match o {
        Some(s) => Some(s@),
        None => None,
    }
}

impl View for PasswordEntry {
    type V = EntryView;

    open spec fn view(&self) -> EntryView {
        EntryView {
            id: self.id,
            title: self.title@,
            username: self.username@,
            password: self.password@,
            url: opt_view(self.url),
            notes: opt_view(self.notes),
            created_at: self.created_at@,
            modified_at: self.modified_at@,
            password_strength: self.password_strength,
        }
    }
}

/// The ordered entry collection with its id counter.
#[derive(Debug)]
pub struct PasswordStore {
    pub entries: Vec<PasswordEntry>,
    pub next_id: u32,
    pub created_at: String,
    pub last_backup: Option<String>,
}

/// The mathematical value of a store.
pub struct StoreView {
    pub entries: Seq<EntryView>,
    pub next_id: u32,
    pub created_at: Seq<char>,
    pub last_backup: Option<Seq<char>>,
}

impl View for PasswordStore {
    type V = StoreView;

    open spec fn view(&self) -> StoreView {
        StoreView {
            entries: self.entries@.map_values(|e: PasswordEntry| e@),
            next_id: self.next_id,
            created_at: self.created_at@,
            last_backup: opt_view(self.last_backup),
        }
    }
}

/// Well-formed: the id counter is strictly greater than every held id.
pub open spec fn store_wf(s: StoreView) -> bool {
    forall|i: int| 0 <= i < s.entries.len() ==> (#[trigger] s.entries[i]).id < s.next_id
}

/// An empty store whose counter starts at 1.
pub fn empty_store(created_at: String) -> (r: PasswordStore)
    ensures
        r@.entries.len() == 0,
        r@.next_id == 1,
        r@.created_at == created_at@,
        r@.last_backup is None,
        store_wf(r@),
{
    let r = PasswordStore { entries: Vec::new(), next_id: 1, created_at, last_backup: None };
    proof {
        assert(r@.entries =~= Seq::<EntryView>::empty());
    }
    r
}

/// A copy of an optional string with the same characters.
fn clone_opt(o: &Option<String>) -> (r: Option<String>)
    ensures
        opt_view(r) == opt_view(*o),
{
    match o {
        Some(s) => Some(s.clone()),
        None => None,
    }
}

impl PasswordEntry {
    /// A copy of the entry with the same value.
    pub fn duplicate(&self) -> (r: PasswordEntry)
        ensures
            r@ == self@,
    {
        PasswordEntry {
            id: self.id,
            title: self.title.clone(),
            username: self.username.clone(),
            password: self.password.clone(),
            url: clone_opt(&self.url),
            notes: clone_opt(&self.notes),
            created_at: self.created_at.clone(),
            modified_at: self.modified_at.clone(),
            password_strength: self.password_strength,
        }
    }
}

/// The query matches the entry: its lowered characters occur in the
/// lowered title, username, or URL when one is present.
pub open spec fn entry_matches(q: Seq<char>, e: EntryView) -> bool {
    contains_seq(lower_of(e.title), lower_of(q)) || contains_seq(lower_of(e.username), lower_of(q))
        || (e.url matches Some(u) && contains_seq(lower_of(u), lower_of(q)))
}

/// Entries of `entries` that the query matches, in order.
pub open spec fn filter_matching(entries: Seq<EntryView>, q: Seq<char>) -> Seq<EntryView>
    decreases entries.len(),
{
    if entries.len() == 0 {
        Seq::empty()
    } else {
        let rest = filter_matching(entries.drop_last(), q);
        if entry_matches(q, entries.last()) {
            rest.push(entries.last())
        } else {
            rest
        }
    }
}

/// What a search returns: everything on an empty query, otherwise the
/// matching entries in store order.
pub open spec fn search_result(entries: Seq<EntryView>, q: Seq<char>) -> Seq<EntryView> {
    if q.len() == 0 {
        entries
    } else {
        filter_matching(entries, q)
    }
}

/// Whether the query matches the entry, case-insensitively.
fn matches_entry(q: &Vec<char>, Ghost(qs): Ghost<Seq<char>>, e: &PasswordEntry) -> (r: bool)
    requires
        q@ == lower_of(qs),
    ensures
        r == entry_matches(qs, e@),
{
    let t = lower_chars(self_str(&e.title));
    if contains_chars(&t, q) {
        return true;
    }
    let u = lower_chars(self_str(&e.username));
    if contains_chars(&u, q) {
        return true;
    }
    match &e.url {
        Some(url) => {
            let lu = lower_chars(self_str(url));
            contains_chars(&lu, q)
        },
        None => false,
    }
}

/// The string slice of `s` (its own characters).
fn self_str(s: &String) -> (r: &str)
    ensures
        r@ == s@,
{
    s.as_str()
}

/// Case-insensitive substring search over title, username and URL; an
/// empty query returns every entry, in store order.
pub fn search_store(store: &PasswordStore, query: &str) -> (r: Vec<PasswordEntry>)
    ensures
        r@.map_values(|e: PasswordEntry| e@) == search_result(store@.entries, query@),
{
    let n = store.entries.len();
    let mut out: Vec<PasswordEntry> = Vec::new();
    if query.unicode_len() == 0 {
        let mut i: usize = 0;
        while i < n
            invariant
                i <= n == store.entries@.len(),
                out@.len() == i,
                forall|k: int| 0 <= k < i ==> (#[trigger] out@[k])@ == store@.entries[k],
            decreases n - i,
        {
            out.push(store.entries[i].duplicate());
            i = i + 1;
        }
        proof {
            assert(out@.map_values(|e: PasswordEntry| e@) =~= store@.entries);
        }
        return out;
    }
    let q = lower_chars(query);
    let mut i: usize = 0;
    while i < n
        invariant
            i <= n == store.entries@.len(),
            q@ == lower_of(query@),
            out@.map_values(|e: PasswordEntry| e@) == filter_matching(
                store@.entries.take(i as int),
                query@,
            ),
        decreases n - i,
    {
        proof {
            assert(store@.entries.take(i + 1).drop_last() =~= store@.entries.take(i as int));
            assert(store@.entries.take(i + 1).last() == store@.entries[i as int]);
        }
        let e = &store.entries[i];
        if matches_entry(&q, Ghost(query@), e) {
            let ghost prev = out@;
            out.push(e.duplicate());
            proof {
                assert forall|k: int| 0 <= k < out@.len() implies out@.map_values(
                    |x: PasswordEntry| x@,
                )[k] == #[trigger] filter_matching(store@.entries.take(i as int), query@).push(
                    store@.entries[i as int],
                )[k] by {
                    if k < prev.len() {
                        assert(out@[k] == prev[k]);
                        assert(prev.map_values(|x: PasswordEntry| x@)[k] == prev[k]@);
                    }
                }
                assert(out@.map_values(|x: PasswordEntry| x@) =~= filter_matching(
                    store@.entries.take(i as int),
                    query@,
                ).push(store@.entries[i as int]));
            }
        }
        i = i + 1;
    }
    proof {
        assert(store@.entries.take(n as int) =~= store@.entries);
    }
    out
}

/// Append a new entry built from the given fields: it takes the next id,
/// both stamps are `now_iso`, and its strength is computed from the
/// password.  Returns the issued id, which exceeds every id a
/// well-formed store already held.
pub fn add_to_store(
    store: &mut PasswordStore,
    title: String,
    username: String,
    password: String,
    url: Option<String>,
    notes: Option<String>,
    now_iso: &str,
) -> (r: u32)
    requires
        old(store)@.next_id < 0xFFFF_FFFF,
    ensures
        r == old(store)@.next_id,
        final(store)@.next_id == old(store)@.next_id + 1,
        final(store)@.created_at == old(store)@.created_at,
        final(store)@.last_backup == old(store)@.last_backup,
        final(store)@.entries == old(store)@.entries.push(
            EntryView {
                id: old(store)@.next_id,
                title: title@,
                username: username@,
                password: password@,
                url: opt_view(url),
                notes: opt_view(notes),
                created_at: now_iso@,
                modified_at: now_iso@,
                password_strength: strength_of(password@) as u8,
            },
        ),
        store_wf(old(store)@) ==> store_wf(final(store)@),
        store_wf(old(store)@) ==> (forall|i: int|
            0 <= i < old(store)@.entries.len() ==> (#[trigger] old(store)@.entries[i]).id < r),
{
    let password_strength = calculate_password_strength(self_str(&password));
    let stamp = new_string(now_iso);
    let entry = PasswordEntry {
        id: store.next_id,
        title,
        username,
        password,
        url,
        notes,
        created_at: new_string(now_iso),
        modified_at: stamp,
        password_strength,
    };
    let id = store.next_id;
    store.entries.push(entry);
    store.next_id = store.next_id + 1;
    proof {
        assert(store@.entries =~= old(store)@.entries.push(store@.entries.last()));
    }
    id
}

/// A fresh `String` with the characters of `s`.
fn new_string(s: &str) -> (r: String)
    ensures
        r@ == s@,
{
    String::from_str(s)
}

/// Replace the mutable fields of the entry carrying `id` (the first such,
/// in store order), re-stamp its modification time and recompute its
/// strength; `EntryNotFound` when no entry carries `id`.
pub fn update_in_store(
    store: &mut PasswordStore,
    id: u32,
    title: String,
    username: String,
    password: String,
    url: Option<String>,
    notes: Option<String>,
    now_iso: &str,
) -> (r: Result<(), ValidationError>)
    ensures
        r is Ok <==> (exists|i: int|
            0 <= i < old(store)@.entries.len() && (#[trigger] old(store)@.entries[i]).id == id),
        r is Err ==> r == Err::<(), ValidationError>(ValidationError::EntryNotFound) && final(store)@ == old(store)@,
        r is Ok ==> (exists|i: int|
            {
                &&& 0 <= i < old(store)@.entries.len()
                &&& (#[trigger] old(store)@.entries[i]).id == id
                &&& (forall|k: int| 0 <= k < i ==> (#[trigger] old(store)@.entries[k]).id != id)
                &&& final(store)@.entries == old(store)@.entries.update(
                    i,
                    EntryView {
                        id,
                        title: title@,
                        username: username@,
                        password: password@,
                        url: opt_view(url),
                        notes: opt_view(notes),
                        created_at: old(store)@.entries[i].created_at,
                        modified_at: now_iso@,
                        password_strength: strength_of(password@) as u8,
                    },
                )
            }),
        final(store)@.next_id == old(store)@.next_id,
        final(store)@.created_at == old(store)@.created_at,
        final(store)@.last_backup == old(store)@.last_backup,
        store_wf(old(store)@) && id < old(store)@.next_id ==> store_wf(final(store)@),
{
    let n = store.entries.len();
    let mut i: usize = 0;
    while i < n
        invariant
            i <= n == store.entries@.len(),
            store@ == old(store)@,
            forall|k: int| 0 <= k < i ==> (#[trigger] store@.entries[k]).id != id,
        decreases n - i,
    {
        if store.entries[i].id == id {
            proof {
                assert((#[trigger] old(store)@.entries[i as int]).id == id);
            }
            let password_strength = calculate_password_strength(self_str(&password));
            let created = store.entries[i].created_at.clone();
            let updated = PasswordEntry {
                id,
                title,
                username,
                password,
                url,
                notes,
                created_at: created,
                modified_at: new_string(now_iso),
                password_strength,
            };
            let ghost pre = store.entries@;
            store.entries.set(i, updated);
            proof {
                let upd = old(store)@.entries.update(i as int, store@.entries[i as int]);
                assert forall|k: int| 0 <= k < store@.entries.len() implies (
                #[trigger] store@.entries[k]) == upd[k] by {
                    assert(store@.entries[k] == store.entries@[k]@);
                    if k != i {
                        assert(store.entries@[k] == pre[k]);
                        assert(old(store)@.entries[k] == pre[k]@);
                    }
                }
                assert(store@.entries =~= upd);
            }
            return Ok(());
        }
        i = i + 1;
    }
    proof {
        assert forall|k: int| 0 <= k < old(store)@.entries.len() implies (
        #[trigger] old(store)@.entries[k]).id != id by {}
    }
    Err(ValidationError::EntryNotFound)
}

/// Remove the entry carrying `id` (the first such, in store order);
/// `EntryNotFound` when no entry carries `id`.  The id counter is
/// untouched, so removed ids are never reissued.
pub fn delete_from_store(store: &mut PasswordStore, id: u32) -> (r: Result<(), ValidationError>)
    ensures
        r is Ok <==> (exists|i: int|
            0 <= i < old(store)@.entries.len() && (#[trigger] old(store)@.entries[i]).id == id),
        r is Err ==> r == Err::<(), ValidationError>(ValidationError::EntryNotFound) && final(store)@ == old(store)@,
        r is Ok ==> (exists|i: int|
            {
                &&& 0 <= i < old(store)@.entries.len()
                &&& (#[trigger] old(store)@.entries[i]).id == id
                &&& (forall|k: int| 0 <= k < i ==> (#[trigger] old(store)@.entries[k]).id != id)
                &&& final(store)@.entries == old(store)@.entries.remove(i)
            }),
        final(store)@.next_id == old(store)@.next_id,
        final(store)@.created_at == old(store)@.created_at,
        final(store)@.last_backup == old(store)@.last_backup,
        store_wf(old(store)@) ==> store_wf(final(store)@),
{
    let n = store.entries.len();
    let mut i: usize = 0;
    while i < n
        invariant
            i <= n == store.entries@.len(),
            store@ == old(store)@,
            forall|k: int| 0 <= k < i ==> (#[trigger] store@.entries[k]).id != id,
        decreases n - i,
    {
        if store.entries[i].id == id {
            proof {
                assert((#[trigger] old(store)@.entries[i as int]).id == id);
            }
            let ghost pre = store.entries@;
            store.entries.remove(i);
            proof {
                let rem = old(store)@.entries.remove(i as int);
                assert forall|k: int| 0 <= k < store@.entries.len() implies (
                #[trigger] store@.entries[k]) == rem[k] by {
                    assert(store@.entries[k] == store.entries@[k]@);
                    if k < i {
                        assert(store.entries@[k] == pre[k]);
                        assert(old(store)@.entries[k] == pre[k]@);
                    } else {
                        assert(store.entries@[k] == pre[k + 1]);
                        assert(old(store)@.entries[k + 1] == pre[k + 1]@);
                    }
                }
                assert(store@.entries =~= rem);
            }
            return Ok(());
        }
        i = i + 1;
    }
    proof {
        assert forall|k: int| 0 <= k < old(store)@.entries.len() implies (
        #[trigger] old(store)@.entries[k]).id != id by {}
    }
    Err(ValidationError::EntryNotFound)
}

/// A copy of the entry carrying `id` (the first such, in store order);
/// `EntryNotFound` when no entry carries `id`.
pub fn get_from_store(store: &PasswordStore, id: u32) -> (r: Result<PasswordEntry, ValidationError>)
    ensures
        r is Ok <==> (exists|i: int|
            0 <= i < store@.entries.len() && (#[trigger] store@.entries[i]).id == id),
        r is Err ==> r == Err::<PasswordEntry, ValidationError>(ValidationError::EntryNotFound),
        r matches Ok(e) ==> (exists|i: int|
            {
                &&& 0 <= i < store@.entries.len()
                &&& (#[trigger] store@.entries[i]).id == id
                &&& (forall|k: int| 0 <= k < i ==> (#[trigger] store@.entries[k]).id != id)
                &&& e@ == store@.entries[i]
            }),
{
    let n = store.entries.len();
    let mut i: usize = 0;
    while i < n
        invariant
            i <= n == store.entries@.len(),
            forall|k: int| 0 <= k < i ==> (#[trigger] store@.entries[k]).id != id,
        decreases n - i,
    {
        if store.entries[i].id == id {
            proof {
                assert((#[trigger] store@.entries[i as int]).id == id);
            }
            return Ok(store.entries[i].duplicate());
        }
        i = i + 1;
    }
    proof {
        assert forall|k: int| 0 <= k < store@.entries.len() implies (
        #[trigger] store@.entries[k]).id != id by {}
    }
    Err(ValidationError::EntryNotFound)
}

/// Id-monotonicity law: in a well-formed store every held id is strictly
/// below `next_id`, so the id the next addition issues exceeds every id
/// ever held; additions keep the store well-formed while raising the
/// counter, and deletions never lower it, so no id is ever reissued.
pub proof fn lemma_fresh_id_exceeds_all(s: StoreView)
    requires
        store_wf(s),
    ensures
        forall|i: int| 0 <= i < s.entries.len() ==> (#[trigger] s.entries[i]).id < s.next_id,
{
}

} // verus!
