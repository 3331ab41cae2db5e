//! The serialized form of the entry collection: the plaintext that the
//! vault codec seals.  Fields are length-prefixed (see [`crate::wire`]),
//! so decoding is unambiguous; decoding an encoding returns the encoded
//! store.

use vstd::prelude::*;
use crate::error::StorageError;
use crate::store::{EntryView, PasswordEntry, PasswordStore, StoreView};
use crate::wire::{
    dec_opt_str, dec_str, dec_u32, dec_u8, emit_opt_str, emit_str, emit_u32, emit_u8, enc_opt_str,
    enc_str, enc_u32, enc_u8, lemma_dec_enc_opt_str, lemma_dec_enc_str, lemma_dec_enc_u32,
    read_opt_str, read_str, read_u32, read_u8, str_fits,
};

verus! {

/// Every string of the entry fits its length prefix.
pub open spec fn entry_fits(e: EntryView) -> bool {
    &&& str_fits(e.title)
    &&& str_fits(e.username)
    &&& str_fits(e.password)
    &&& (e.url matches Some(u) ==> str_fits(u))
    &&& (e.notes matches Some(v) ==> str_fits(v))
    &&& str_fits(e.created_at)
    &&& str_fits(e.modified_at)
}

/// Every string of the store fits, and the entry count its prefix.
pub open spec fn store_fits(s: StoreView) -> bool {
    &&& str_fits(s.created_at)
    &&& (s.last_backup matches Some(u) ==> str_fits(u))
    &&& s.entries.len() <= 0xFFFF_FFFF
    &&& (forall|i: int| 0 <= i < s.entries.len() ==> entry_fits(#[trigger] s.entries[i]))
}

/// The encoding of one entry.
pub open spec fn enc_entry(e: EntryView) -> Seq<u8> {
    enc_u32(e.id) + (enc_str(e.title) + (enc_str(e.username) + (enc_str(e.password) + (enc_opt_str(
        e.url,
    ) + (enc_opt_str(e.notes) + (enc_str(e.created_at) + (enc_str(e.modified_at) + enc_u8(
        e.password_strength,
    ))))))))
}

/// The concatenated encodings of the entries, in order.
pub open spec fn enc_entries(es: Seq<EntryView>) -> Seq<u8>
    decreases es.len(),
{
    if es.len() == 0 {
        Seq::empty()
    } else {
        enc_entry(es[0]) + enc_entries(es.drop_first())
    }
}

/// The encoding of the whole store.
pub open spec fn enc_store(s: StoreView) -> Seq<u8> {
    enc_u32(s.next_id) + (enc_str(s.created_at) + (enc_opt_str(s.last_backup) + (enc_u32(
        s.entries.len() as u32,
    ) + enc_entries(s.entries))))
}

/// Strict decoder for [`enc_entry`].
pub open spec fn dec_entry(b: Seq<u8>, i: int) -> Option<(EntryView, int)> {
    match dec_u32(b, i) {
        None => None,
        Some((id, p1)) => match dec_str(b, p1) {
            None => None,
            Some((title, p2)) => match dec_str(b, p2) {
                None => None,
                Some((username, p3)) => match dec_str(b, p3) {
                    None => None,
                    Some((password, p4)) => match dec_opt_str(b, p4) {
                        None => None,
                        Some((url, p5)) => match dec_opt_str(b, p5) {
                            None => None,
                            Some((notes, p6)) => match dec_str(b, p6) {
                                None => None,
                                Some((created_at, p7)) => match dec_str(b, p7) {
                                    None => None,
                                    Some((modified_at, p8)) => match dec_u8(b, p8) {
                                        None => None,
                                        Some((password_strength, p9)) => Some(
                                            (
                                                EntryView {
                                                    id,
                                                    title,
                                                    username,
                                                    password,
                                                    url,
                                                    notes,
                                                    created_at,
                                                    modified_at,
                                                    password_strength,
                                                },
                                                p9,
                                            ),
                                        ),
                                    },
                                },
                            },
                        },
                    },
                },
            },
        },
    }
}

/// Strict decoder for `count` consecutive entries.
pub open spec fn dec_entries(b: Seq<u8>, i: int, count: nat) -> Option<(Seq<EntryView>, int)>
    decreases count,
{
    if count == 0 {
        Some((Seq::empty(), i))
    } else {
        match dec_entry(b, i) {
            None => None,
            Some((e, j)) => match dec_entries(b, j, (count - 1) as nat) {
                None => None,
                Some((es, k)) => Some((seq![e] + es, k)),
            },
        }
    }
}

/// Strict decoder for [`enc_store`]: the whole buffer must be consumed.
pub open spec fn dec_store(b: Seq<u8>) -> Option<StoreView> {
    match dec_u32(b, 0) {
        None => None,
        Some((next_id, p1)) => match dec_str(b, p1) {
            None => None,
            Some((created_at, p2)) => match dec_opt_str(b, p2) {
                None => None,
                Some((last_backup, p3)) => match dec_u32(b, p3) {
                    None => None,
                    Some((count, p4)) => match dec_entries(b, p4, count as nat) {
                        None => None,
                        Some((entries, end)) => if end == b.len() {
                            Some(StoreView { entries, next_id, created_at, last_backup })
                        } else {
                            None
                        },
                    },
                },
            },
        },
    }
}

/// Splitting a subrange known to be a concatenation.
pub proof fn lemma_subrange_cat(b: Seq<u8>, i: int, x: Seq<u8>, y: Seq<u8>)
    requires
        0 <= i,
        i + x.len() + y.len() <= b.len(),
        b.subrange(i, i + x.len() + y.len()) == x + y,
    ensures
        b.subrange(i, i + x.len() as int) == x,
        b.subrange(i + x.len() as int, i + x.len() + y.len()) == y,
{
    assert(b.subrange(i, i + x.len() as int) =~= x) by {
        assert forall|k: int| 0 <= k < x.len() implies b.subrange(i, i + x.len() as int)[k]
            == x[k] by {
            assert(b.subrange(i, i + x.len() + y.len())[k] == (x + y)[k]);
        }
    }
    assert(b.subrange(i + x.len() as int, i + x.len() + y.len()) =~= y) by {
        assert forall|k: int| 0 <= k < y.len() implies b.subrange(
            i + x.len() as int,
            i + x.len() + y.len(),
        )[k] == y[k] by {
            assert(b.subrange(i, i + x.len() + y.len())[x.len() + k] == (x + y)[x.len() + k]);
            assert((x + y)[x.len() + k] == y[k]);
            assert(b.subrange(i, i + x.len() + y.len())[x.len() + k] == b[i + x.len() + k]);
            assert(b.subrange(i + x.len() as int, i + x.len() + y.len())[k] == b[i + x.len()
                + k]);
        }
    }
}

/// Decoding [`enc_entry`] at the start of its bytes, inside any buffer,
/// yields the encoded entry and steps past exactly its bytes.
#[verifier::spinoff_prover]
#[verifier::rlimit(100)]
pub proof fn lemma_dec_enc_entry(b: Seq<u8>, i: int, e: EntryView)
    requires
        0 <= i,
        entry_fits(e),
        i + enc_entry(e).len() <= b.len(),
        b.subrange(i, i + enc_entry(e).len() as int) == enc_entry(e),
    ensures
        dec_entry(b, i) == Some((e, i + enc_entry(e).len())),
{
    let c1 = enc_u32(e.id);
    let c2 = enc_str(e.title);
    let c3 = enc_str(e.username);
    let c4 = enc_str(e.password);
    let c5 = enc_opt_str(e.url);
    let c6 = enc_opt_str(e.notes);
    let c7 = enc_str(e.created_at);
    let c8 = enc_str(e.modified_at);
    let c9 = enc_u8(e.password_strength);
    let r8 = c9;
    let r7 = c8 + r8;
    let r6 = c7 + r7;
    let r5 = c6 + r6;
    let r4 = c5 + r5;
    let r3 = c4 + r4;
    let r2 = c3 + r3;
    let r1 = c2 + r2;
    assert(enc_entry(e) == c1 + r1);
    let p1 = i + c1.len() as int;
    lemma_subrange_cat(b, i, c1, r1);
    lemma_dec_enc_u32(b, i, e.id);
    let p2 = p1 + c2.len() as int;
    lemma_subrange_cat(b, p1, c2, r2);
    lemma_dec_enc_str(b, p1, e.title);
    let p3 = p2 + c3.len() as int;
    lemma_subrange_cat(b, p2, c3, r3);
    lemma_dec_enc_str(b, p2, e.username);
    let p4 = p3 + c4.len() as int;
    lemma_subrange_cat(b, p3, c4, r4);
    lemma_dec_enc_str(b, p3, e.password);
    let p5 = p4 + c5.len() as int;
    lemma_subrange_cat(b, p4, c5, r5);
    lemma_dec_enc_opt_str(b, p4, e.url);
    let p6 = p5 + c6.len() as int;
    lemma_subrange_cat(b, p5, c6, r6);
    lemma_dec_enc_opt_str(b, p5, e.notes);
    let p7 = p6 + c7.len() as int;
    lemma_subrange_cat(b, p6, c7, r7);
    lemma_dec_enc_str(b, p6, e.created_at);
    let p8 = p7 + c8.len() as int;
    lemma_subrange_cat(b, p7, c8, r8);
    lemma_dec_enc_str(b, p7, e.modified_at);
    assert(b.subrange(p8, p8 + 1) == c9);
    assert(b[p8] == c9[0]);
    assert(dec_u8(b, p8) == Some((e.password_strength, p8 + 1)));
}

/// Decoding `es.len()` entries at the start of their concatenated
/// encodings yields exactly `es`.
#[verifier::spinoff_prover]
#[verifier::rlimit(100)]
pub proof fn lemma_dec_enc_entries(b: Seq<u8>, i: int, es: Seq<EntryView>)
    requires
        0 <= i,
        forall|k: int| 0 <= k < es.len() ==> entry_fits(#[trigger] es[k]),
        i + enc_entries(es).len() <= b.len(),
        b.subrange(i, i + enc_entries(es).len() as int) == enc_entries(es),
    ensures
        dec_entries(b, i, es.len()) == Some((es, i + enc_entries(es).len())),
    decreases es.len(),
{
    if es.len() == 0 {
        assert(dec_entries(b, i, 0) == Some((Seq::<EntryView>::empty(), i)));
        assert(es =~= Seq::<EntryView>::empty());
    } else {
        let e = es[0];
        let rest = es.drop_first();
        assert(enc_entries(es) == enc_entry(e) + enc_entries(rest));
        lemma_subrange_cat(b, i, enc_entry(e), enc_entries(rest));
        lemma_dec_enc_entry(b, i, e);
        let j = i + enc_entry(e).len() as int;
        assert(forall|k: int| 0 <= k < rest.len() ==> entry_fits(#[trigger] rest[k])) by {
            assert(forall|k: int|
                0 <= k < rest.len() ==> rest[k] == es[k + 1] && entry_fits(#[trigger] es[k + 1]));
        }
        lemma_dec_enc_entries(b, j, rest);
        assert(seq![e] + rest =~= es);
    }
}

/// Round trip: decoding the encoding of a store that fits the format
/// yields the store back.
#[verifier::spinoff_prover]
#[verifier::rlimit(100)]
pub proof fn lemma_dec_enc_store(s: StoreView)
    requires
        store_fits(s),
    ensures
        dec_store(enc_store(s)) == Some(s),
{
    let b = enc_store(s);
    let c1 = enc_u32(s.next_id);
    let c2 = enc_str(s.created_at);
    let c3 = enc_opt_str(s.last_backup);
    let c4 = enc_u32(s.entries.len() as u32);
    let c5 = enc_entries(s.entries);
    let r4 = c4 + c5;
    let r3 = c3 + r4;
    let r2 = c2 + r3;
    assert(b == c1 + r2);
    assert(b.subrange(0, b.len() as int) =~= b);
    lemma_subrange_cat(b, 0, c1, r2);
    lemma_dec_enc_u32(b, 0, s.next_id);
    let p1 = c1.len() as int;
    assert(r2 == c2 + r3);
    lemma_subrange_cat(b, p1, c2, r3);
    lemma_dec_enc_str(b, p1, s.created_at);
    let p2 = p1 + c2.len() as int;
    lemma_subrange_cat(b, p2, c3, r4);
    lemma_dec_enc_opt_str(b, p2, s.last_backup);
    let p3 = p2 + c3.len() as int;
    lemma_subrange_cat(b, p3, c4, c5);
    lemma_dec_enc_u32(b, p3, s.entries.len() as u32);
    let p4 = p3 + 4;
    lemma_dec_enc_entries(b, p4, s.entries);
    assert(p4 + c5.len() == b.len());
}

/// Append the encoding of one entry.
#[verifier::rlimit(100)]
fn emit_entry(out: &mut Vec<u8>, e: &PasswordEntry)
    requires
        entry_fits(e@),
    ensures
        final(out)@ == old(out)@ + enc_entry(e@),
{
    let ghost orig = out@;
    emit_u32(out, e.id);
    emit_str(out, e.title.as_str());
    emit_str(out, e.username.as_str());
    emit_str(out, e.password.as_str());
    emit_opt_str(out, &e.url);
    emit_opt_str(out, &e.notes);
    emit_str(out, e.created_at.as_str());
    emit_str(out, e.modified_at.as_str());
    emit_u8(out, e.password_strength);
    assert(out@ =~= orig + enc_entry(e@));
}

/// Appending one entry's encoding extends the entries' encoding.
proof fn lemma_enc_entries_snoc(es: Seq<EntryView>, e: EntryView)
    ensures
        enc_entries(es.push(e)) == enc_entries(es) + enc_entry(e),
    decreases es.len(),
{
    if es.len() == 0 {
        assert(es.push(e)[0] == e);
        assert(es.push(e).drop_first() =~= Seq::<EntryView>::empty());
        assert(enc_entries(es) + enc_entry(e) =~= enc_entry(e));
        assert(enc_entry(e) + enc_entries(Seq::<EntryView>::empty()) =~= enc_entry(e));
    } else {
        assert(es.push(e)[0] == es[0]);
        assert(es.push(e).drop_first() =~= es.drop_first().push(e));
        lemma_enc_entries_snoc(es.drop_first(), e);
        assert(enc_entry(es[0]) + (enc_entries(es.drop_first()) + enc_entry(e)) =~= (enc_entry(
            es[0],
        ) + enc_entries(es.drop_first())) + enc_entry(e));
    }
}

/// Serialize the store, exactly as [`enc_store`] states.
pub fn emit_store(store: &PasswordStore) -> (r: Vec<u8>)
    requires
        store_fits(store@),
    ensures
        r@ == enc_store(store@),
{
    let mut out: Vec<u8> = Vec::new();
    emit_u32(&mut out, store.next_id);
    emit_str(&mut out, store.created_at.as_str());
    emit_opt_str(&mut out, &store.last_backup);
    let n = store.entries.len();
    emit_u32(&mut out, n as u32);
    let ghost head = out@;
    let mut i: usize = 0;
    while i < n
        invariant
            i <= n == store.entries@.len(),
            store_fits(store@),
            out@ == head + enc_entries(store@.entries.take(i as int)),
        decreases n - i,
    {
        proof {
            assert(entry_fits(store@.entries[i as int]));
            assert(store@.entries[i as int] == store.entries@[i as int]@);
            assert(store@.entries.take(i + 1) =~= store@.entries.take(i as int).push(
                store@.entries[i as int],
            ));
            lemma_enc_entries_snoc(store@.entries.take(i as int), store@.entries[i as int]);
        }
        emit_entry(&mut out, &store.entries[i]);
        i = i + 1;
    }
    proof {
        assert(store@.entries.take(n as int) =~= store@.entries);
        assert(out@ =~= enc_store(store@));
    }
    out
}

/// Parse one entry at `pos`, exactly as [`dec_entry`] states.
fn parse_entry(b: &[u8], pos: usize) -> (r: Result<(PasswordEntry, usize), StorageError>)
    ensures
        r matches Ok(v) ==> dec_entry(b@, pos as int) matches Some(w) && v.0@ == w.0 && v.1
            == w.1,
        r is Err ==> dec_entry(b@, pos as int) is None,
{
    let (id, p1) = match read_u32(b, pos) {
        Ok(v) => v,
        Err(e) => {
            return Err(e);
        },
    };
    let (title, p2) = match read_str(b, p1) {
        Ok(v) => v,
        Err(e) => {
            return Err(e);
        },
    };
    let (username, p3) = match read_str(b, p2) {
        Ok(v) => v,
        Err(e) => {
            return Err(e);
        },
    };
    let (password, p4) = match read_str(b, p3) {
        Ok(v) => v,
        Err(e) => {
            return Err(e);
        },
    };
    let (url, p5) = match read_opt_str(b, p4) {
        Ok(v) => v,
        Err(e) => {
            return Err(e);
        },
    };
    let (notes, p6) = match read_opt_str(b, p5) {
        Ok(v) => v,
        Err(e) => {
            return Err(e);
        },
    };
    let (created_at, p7) = match read_str(b, p6) {
        Ok(v) => v,
        Err(e) => {
            return Err(e);
        },
    };
    let (modified_at, p8) = match read_str(b, p7) {
        Ok(v) => v,
        Err(e) => {
            return Err(e);
        },
    };
    let (password_strength, p9) = match read_u8(b, p8) {
        Ok(v) => v,
        Err(e) => {
            return Err(e);
        },
    };
    let entry = PasswordEntry {
        id,
        title,
        username,
        password,
        url,
        notes,
        created_at,
        modified_at,
        password_strength,
    };
    Ok((entry, p9))
}

/// Parse a whole store, exactly as [`dec_store`] states: the buffer must
/// hold one encoded store and nothing more.
#[verifier::rlimit(100)]
pub fn parse_store(b: &[u8]) -> (r: Result<PasswordStore, StorageError>)
    ensures
        r matches Ok(st) ==> dec_store(b@) matches Some(v) && st@ == v,
        r is Err ==> dec_store(b@) is None,
{
    proof {
        vstd::slice::axiom_spec_len(b);
    }
    let (next_id, p1) = match read_u32(b, 0) {
        Ok(v) => v,
        Err(e) => {
            return Err(e);
        },
    };
    let (created_at, p2) = match read_str(b, p1) {
        Ok(v) => v,
        Err(e) => {
            return Err(e);
        },
    };
    let (last_backup, p3) = match read_opt_str(b, p2) {
        Ok(v) => v,
        Err(e) => {
            return Err(e);
        },
    };
    let (count, p4) = match read_u32(b, p3) {
        Ok(v) => v,
        Err(e) => {
            return Err(e);
        },
    };
    let mut entries: Vec<PasswordEntry> = Vec::new();
    let mut pos = p4;
    let mut k: u32 = 0;
    while k < count
        invariant
            k <= count,
            entries@.len() == k,
            b@.len() <= usize::MAX,
            dec_u32(b@, 0) == Some((next_id, p1 as int)),
            dec_str(b@, p1 as int) matches Some(w) && w.1 == p2 as int,
            dec_opt_str(b@, p2 as int) matches Some(w) && w.1 == p3 as int,
            dec_u32(b@, p3 as int) == Some((count, p4 as int)),
            dec_entries(b@, p4 as int, count as nat) == (match dec_entries(
                b@,
                pos as int,
                (count - k) as nat,
            ) {
                None => None::<(Seq<EntryView>, int)>,
                Some((es, end)) => Some(
                    (entries@.map_values(|x: PasswordEntry| x@) + es, end),
                ),
            }),
        decreases count - k,
    {
        let (entry, next) = match parse_entry(b, pos) {
            Ok(v) => v,
            Err(e) => {
                proof {
                    assert(dec_entries(b@, pos as int, (count - k) as nat) is None);
                    assert(dec_entries(b@, p4 as int, count as nat) is None);
                    assert(dec_store(b@) is None);
                }
                return Err(StorageError::Malformed);
            },
        };
        proof {
            let ghost pre = entries@;
            assert(dec_entry(b@, pos as int) matches Some(w) && entry@ == w.0 && next == w.1);
        }
        let ghost pre = entries@;
        entries.push(entry);
        proof {
            assert(entries@.map_values(|x: PasswordEntry| x@) =~= pre.map_values(
                |x: PasswordEntry| x@,
            ).push(entry@));
            assert forall|es2: Seq<EntryView>|
                true implies (pre.map_values(|x: PasswordEntry| x@) + (seq![entry@] + es2))
                =~= (entries@.map_values(|x: PasswordEntry| x@) + es2) by {}
        }
        pos = next;
        k = k + 1;
    }
    proof {
        assert(dec_entries(b@, pos as int, 0) == Some((Seq::<EntryView>::empty(), pos as int)));
        assert(entries@.map_values(|x: PasswordEntry| x@) + Seq::<EntryView>::empty()
            =~= entries@.map_values(|x: PasswordEntry| x@));
    }
    if pos != b.len() {
        proof {
            assert(dec_u32(b@, 0) == Some((next_id, p1 as int)));
            assert(dec_str(b@, p1 as int) matches Some(w2) && w2.1 == p2 as int);
            assert(dec_opt_str(b@, p2 as int) matches Some(w3) && w3.1 == p3 as int);
            assert(dec_u32(b@, p3 as int) == Some((count, p4 as int)));
            assert(dec_entries(b@, p4 as int, count as nat) matches Some(v) && v.1 == pos as int);
            assert(pos as int != b@.len());
            assert(dec_store(b@) is None);
        }
        return Err(StorageError::Malformed);
    }
    let store = PasswordStore { entries, next_id, created_at, last_backup };
    Ok(store)
}

/// Whether one entry fits the payload format, decided at run time.
fn check_entry_fits(e: &PasswordEntry) -> (r: bool)
    ensures
        r == entry_fits(e@),
{
    let mut ok = e.title.as_str().as_bytes().len() <= 0xFFFF_FFFF && e.username.as_str().as_bytes().len()
        <= 0xFFFF_FFFF && e.password.as_str().as_bytes().len() <= 0xFFFF_FFFF
        && e.created_at.as_str().as_bytes().len() <= 0xFFFF_FFFF
        && e.modified_at.as_str().as_bytes().len() <= 0xFFFF_FFFF;
    match &e.url {
        Some(u) => {
            if u.as_str().as_bytes().len() > 0xFFFF_FFFF {
                ok = false;
            }
        },
        None => {},
    }
    match &e.notes {
        Some(v) => {
            if v.as_str().as_bytes().len() > 0xFFFF_FFFF {
                ok = false;
            }
        },
        None => {},
    }
    ok
}

/// Whether the whole store fits the payload format, decided at run time.
pub fn check_store_fits(store: &PasswordStore) -> (r: bool)
    ensures
        r == store_fits(store@),
{
    if store.created_at.as_str().as_bytes().len() > 0xFFFF_FFFF {
        return false;
    }
    match &store.last_backup {
        Some(u) => {
            if u.as_str().as_bytes().len() > 0xFFFF_FFFF {
                return false;
            }
        },
        None => {},
    }
    if store.entries.len() > 0xFFFF_FFFF {
        return false;
    }
    let n = store.entries.len();
    let mut i: usize = 0;
    while i < n
        invariant
            i <= n == store.entries@.len(),
            forall|k: int| 0 <= k < i ==> entry_fits(#[trigger] store@.entries[k]),
        decreases n - i,
    {
        if !check_entry_fits(&store.entries[i]) {
            proof {
                assert(!entry_fits(store@.entries[i as int]));
            }
            return false;
        }
        proof {
            assert(store@.entries[i as int] == store.entries@[i as int]@);
        }
        i = i + 1;
    }
    true
}

} // verus!
