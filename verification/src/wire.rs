//! Wire primitives for the encrypted payload: length-prefixed,
//! byte-oriented encodings of integers, strings and optional strings,
//! together with their strict decoders.  Decoding an encoding returns the
//! encoded value and consumes exactly its bytes.

use vstd::prelude::*;
use vstd::utf8::{decode_utf8, encode_utf8, valid_utf8};
use vstd::slice::{slice_subrange, slice_to_vec};
use crate::error::StorageError;

verus! {

/// Big-endian four-byte encoding of `n`.
pub open spec fn enc_u32(n: u32) -> Seq<u8> {
    seq![(n >> 24) as u8, (n >> 16) as u8, (n >> 8) as u8, n as u8]
}

/// One-byte encoding of `n`.
pub open spec fn enc_u8(n: u8) -> Seq<u8> {
    seq![n]
}

/// The UTF-8 bytes of `s` fit the four-byte length prefix.
pub open spec fn str_fits(s: Seq<char>) -> bool {
    encode_utf8(s).len() <= 0xFFFF_FFFF
}

/// Length-prefixed UTF-8 encoding of `s`.
pub open spec fn enc_str(s: Seq<char>) -> Seq<u8> {
    enc_u32(encode_utf8(s).len() as u32) + encode_utf8(s)
}

/// Tagged encoding of an optional string: 0, or 1 followed by the string.
pub open spec fn enc_opt_str(o: Option<Seq<char>>) -> Seq<u8> {
    match o {
        None => seq![0u8],
        Some(s) => seq![1u8] + enc_str(s),
    }
}

/// Strict decoder for [`enc_u32`]: the value and the next position.
pub open spec fn dec_u32(b: Seq<u8>, i: int) -> Option<(u32, int)> {
    if 0 <= i && i + 4 <= b.len() {
        Some(
            (
                (((b[i] as u32) << 24) | ((b[i + 1] as u32) << 16) | ((b[i + 2] as u32) << 8) | (
                b[i + 3] as u32)),
                i + 4,
            ),
        )
    } else {
        None
    }
}

/// Strict decoder for [`enc_u8`].
pub open spec fn dec_u8(b: Seq<u8>, i: int) -> Option<(u8, int)> {
    if 0 <= i && i + 1 <= b.len() {
        Some((b[i], i + 1))
    } else {
        None
    }
}

/// Strict decoder for [`enc_str`].
pub open spec fn dec_str(b: Seq<u8>, i: int) -> Option<(Seq<char>, int)> {
    match dec_u32(b, i) {
        None => None,
        Some((len, j)) => if j + len <= b.len() {
            let bytes = b.subrange(j, j + len);
            if valid_utf8(bytes) {
                Some((decode_utf8(bytes), j + len))
            } else {
                None
            }
        } else {
            None
        },
    }
}

/// Strict decoder for [`enc_opt_str`].
pub open spec fn dec_opt_str(b: Seq<u8>, i: int) -> Option<(Option<Seq<char>>, int)> {
    match dec_u8(b, i) {
        None => None,
        Some((tag, j)) => if tag == 0 {
            Some((None, j))
        } else if tag == 1 {
            match dec_str(b, j) {
                None => None,
                Some((s, k)) => Some((Some(s), k)),
            }
        } else {
            None
        },
    }
}

/// Recombining the four big-endian bytes of `n` gives `n` back.
pub proof fn lemma_u32_bytes_roundtrip(n: u32)
    ensures
        ((((n >> 24) as u8 as u32) << 24) | (((n >> 16) as u8 as u32) << 16) | (((n >> 8) as u8
            as u32) << 8) | ((n as u8) as u32)) == n,
{
    assert(((((n >> 24) as u8 as u32) << 24) | (((n >> 16) as u8 as u32) << 16) | (((n >> 8) as u8
        as u32) << 8) | ((n as u8) as u32)) == n) by (bit_vector);
}

/// Decoding [`enc_u32`] at the start of its bytes, inside any buffer,
/// yields the encoded value and steps past exactly four bytes.
pub proof fn lemma_dec_enc_u32(b: Seq<u8>, i: int, n: u32)
    requires
        0 <= i,
        i + 4 <= b.len(),
        b.subrange(i, i + 4) == enc_u32(n),
    ensures
        dec_u32(b, i) == Some((n, i + 4)),
{
    assert(b[i] == enc_u32(n)[0]);
    assert(b[i + 1] == enc_u32(n)[1]);
    assert(b[i + 2] == enc_u32(n)[2]);
    assert(b[i + 3] == enc_u32(n)[3]);
    lemma_u32_bytes_roundtrip(n);
}

/// Decoding [`enc_str`] at the start of its bytes, inside any buffer,
/// yields the encoded characters and steps past exactly its bytes.
pub proof fn lemma_dec_enc_str(b: Seq<u8>, i: int, s: Seq<char>)
    requires
        0 <= i,
        str_fits(s),
        i + enc_str(s).len() <= b.len(),
        b.subrange(i, i + enc_str(s).len() as int) == enc_str(s),
    ensures
        dec_str(b, i) == Some((s, i + enc_str(s).len())),
{
    let utf8 = encode_utf8(s);
    let n = utf8.len() as u32;
    assert(b.subrange(i, i + 4) =~= enc_str(s).subrange(0, 4)) by {
        assert forall|k: int| 0 <= k < 4 implies b.subrange(i, i + 4)[k] == enc_str(s).subrange(
            0,
            4,
        )[k] by {
            assert(b.subrange(i, i + enc_str(s).len() as int)[k] == enc_str(s)[k]);
        }
    }
    assert(enc_str(s).subrange(0, 4) =~= enc_u32(n));
    lemma_dec_enc_u32(b, i, n);
    let j = i + 4;
    assert(b.subrange(j, j + n) =~= utf8) by {
        assert forall|k: int| 0 <= k < n implies b.subrange(j, j + n)[k] == utf8[k] by {
            assert(b.subrange(i, i + enc_str(s).len() as int)[4 + k] == enc_str(s)[4 + k]);
            assert(enc_str(s)[4 + k] == utf8[k]);
        }
    }
    broadcast use vstd::utf8::encode_utf8_valid_utf8, vstd::utf8::encode_utf8_decode_utf8;

    assert(valid_utf8(b.subrange(j, j + n)));
    assert(decode_utf8(b.subrange(j, j + n)) == s);
}

/// Decoding [`enc_opt_str`] at the start of its bytes, inside any buffer,
/// yields the encoded option and steps past exactly its bytes.
pub proof fn lemma_dec_enc_opt_str(b: Seq<u8>, i: int, o: Option<Seq<char>>)
    requires
        0 <= i,
        (o matches Some(s) ==> str_fits(s)),
        i + enc_opt_str(o).len() <= b.len(),
        b.subrange(i, i + enc_opt_str(o).len() as int) == enc_opt_str(o),
    ensures
        dec_opt_str(b, i) == Some((o, i + enc_opt_str(o).len())),
{
    match o {
        None => {
            assert(b[i] == enc_opt_str(o)[0]);
        },
        Some(s) => {
            assert(b[i] == enc_opt_str(o)[0]);
            assert(b.subrange(i + 1, i + 1 + enc_str(s).len() as int) =~= enc_str(s)) by {
                assert forall|k: int| 0 <= k < enc_str(s).len() implies b.subrange(
                    i + 1,
                    i + 1 + enc_str(s).len() as int,
                )[k] == enc_str(s)[k] by {
                    assert(b.subrange(i, i + enc_opt_str(o).len() as int)[1 + k] == enc_opt_str(
                        o,
                    )[1 + k]);
                }
            }
            lemma_dec_enc_str(b, i + 1, s);
        },
    }
}

/// Relies on `String::from_utf8`: it succeeds exactly on valid UTF-8 and
/// returns the characters those bytes encode.
#[verifier::external_body]
pub fn utf8_to_string(b: Vec<u8>) -> (r: Result<String, StorageError>)
    ensures
        r matches Ok(s) ==> encode_utf8(s@) == b@,
        (exists|cs: Seq<char>| b@ == encode_utf8(cs)) ==> r is Ok,
{
    match String::from_utf8(b) {
        Ok(s) => Ok(s),
        Err(_) => Err(StorageError::Malformed),
    }
}

/// Append the four big-endian bytes of `n`.
pub fn emit_u32(out: &mut Vec<u8>, n: u32)
    ensures
        final(out)@ == old(out)@ + enc_u32(n),
{
    let ghost orig = out@;
    out.push((n >> 24) as u8);
    out.push((n >> 16) as u8);
    out.push((n >> 8) as u8);
    out.push(n as u8);
    assert(out@ =~= orig + enc_u32(n));
}

/// Append the single byte `n`.
pub fn emit_u8(out: &mut Vec<u8>, n: u8)
    ensures
        final(out)@ == old(out)@ + enc_u8(n),
{
    let ghost orig = out@;
    out.push(n);
    assert(out@ =~= orig + enc_u8(n));
}

/// Append the length-prefixed UTF-8 encoding of `s`.
pub fn emit_str(out: &mut Vec<u8>, s: &str)
    requires
        str_fits(s@),
    ensures
        final(out)@ == old(out)@ + enc_str(s@),
{
    let ghost orig = out@;
    let bytes = s.as_bytes();
    proof {
        vstd::slice::axiom_spec_len(bytes);
    }
    emit_u32(out, bytes.len() as u32);
    out.extend_from_slice(bytes);
    assert(out@ =~= orig + enc_str(s@));
}

/// Append the tagged encoding of an optional string.
pub fn emit_opt_str(out: &mut Vec<u8>, s: &Option<String>)
    requires
        s matches Some(v) ==> str_fits(v@),
    ensures
        s matches Some(v) ==> final(out)@ == old(out)@ + enc_opt_str(Some(v@)),
        s is None ==> final(out)@ == old(out)@ + enc_opt_str(None),
{
    let ghost orig = out@;
    match s {
        None => {
            out.push(0);
            assert(out@ =~= orig + enc_opt_str(None));
        },
        Some(v) => {
            out.push(1);
            emit_str(out, v.as_str());
            assert(out@ =~= orig + enc_opt_str(Some(v@)));
        },
    }
}

/// Read a big-endian `u32` at `pos`, exactly as [`dec_u32`] states.
pub fn read_u32(b: &[u8], pos: usize) -> (r: Result<(u32, usize), StorageError>)
    ensures
        r matches Ok(v) ==> dec_u32(b@, pos as int) == Some((v.0, v.1 as int)),
        r is Err ==> dec_u32(b@, pos as int) is None,
{
    proof {
        vstd::slice::axiom_spec_len(b);
    }
    if pos >= b.len() || b.len() - pos < 4 {
        return Err(StorageError::Malformed);
    }
    let n = ((b[pos] as u32) << 24) | ((b[pos + 1] as u32) << 16) | ((b[pos + 2] as u32) << 8) | (
    b[pos + 3] as u32);
    Ok((n, pos + 4))
}

/// Read one byte at `pos`, exactly as [`dec_u8`] states.
pub fn read_u8(b: &[u8], pos: usize) -> (r: Result<(u8, usize), StorageError>)
    ensures
        r matches Ok(v) ==> dec_u8(b@, pos as int) == Some((v.0, v.1 as int)),
        r is Err ==> dec_u8(b@, pos as int) is None,
{
    proof {
        vstd::slice::axiom_spec_len(b);
    }
    if pos >= b.len() {
        return Err(StorageError::Malformed);
    }
    Ok((b[pos], pos + 1))
}

/// Read a length-prefixed string at `pos`, exactly as [`dec_str`] states.
pub fn read_str(b: &[u8], pos: usize) -> (r: Result<(String, usize), StorageError>)
    ensures
        r matches Ok(v) ==> dec_str(b@, pos as int) matches Some(w) && v.0@ == w.0 && v.1 == w.1,
        r is Err ==> dec_str(b@, pos as int) is None,
{
    proof {
        vstd::slice::axiom_spec_len(b);
    }
    let (len, j) = match read_u32(b, pos) {
        Ok(v) => v,
        Err(e) => {
            return Err(e);
        },
    };
    let len = len as usize;
    if len > b.len() || j > b.len() - len {
        return Err(StorageError::Malformed);
    }
    let bytes = slice_to_vec(slice_subrange(b, j, j + len));
    let ghost byte_seq = b@.subrange(j as int, j as int + len as int);
    match utf8_to_string(bytes) {
        Ok(s) => {
            proof {
                broadcast use vstd::utf8::encode_utf8_valid_utf8, vstd::utf8::encode_utf8_decode_utf8;

                assert(valid_utf8(byte_seq));
                assert(decode_utf8(byte_seq) == s@);
            }
            Ok((s, j + len))
        },
        Err(e) => {
            proof {
                broadcast use vstd::utf8::encode_utf8_valid_utf8, vstd::utf8::decode_utf8_encode_utf8;

                if valid_utf8(byte_seq) {
                    assert(byte_seq == encode_utf8(decode_utf8(byte_seq)));
                }
            }
            Err(e)
        },
    }
}

/// Read a tagged optional string at `pos`, exactly as [`dec_opt_str`]
/// states.
pub fn read_opt_str(b: &[u8], pos: usize) -> (r: Result<(Option<String>, usize), StorageError>)
    ensures
        r matches Ok(v) ==> (dec_opt_str(b@, pos as int) matches Some(w) && v.1 == w.1 && (
        match (v.0, w.0) {
            (Some(x), Some(y)) => x@ == y,
            (None, None) => true,
            _ => false,
        })),
        r is Err ==> dec_opt_str(b@, pos as int) is None,
{
    let (tag, j) = match read_u8(b, pos) {
        Ok(v) => v,
        Err(e) => {
            return Err(e);
        },
    };
    if tag == 0 {
        Ok((None, j))
    } else if tag == 1 {
        match read_str(b, j) {
            Ok((s, k)) => Ok((Some(s), k)),
            Err(e) => Err(e),
        }
    } else {
        Err(StorageError::Malformed)
    }
}

} // verus!
