//! The on-disk container schema and the export schema: canonical,
//! single-line JSON objects whose string values are base64 text, emitted
//! and parsed byte for byte.  Parsing the emitted container returns the
//! container.

use vstd::prelude::*;
use vstd::utf8::{decode_utf8, encode_utf8, valid_utf8, is_ascii_chars};
use vstd::slice::{slice_subrange, slice_to_vec};
use crate::codec::is_b64_char;
use crate::error::StorageError;
use crate::payload::lemma_subrange_cat;
use crate::wire::utf8_to_string;

verus! {

/// The persisted container: ciphertext, nonce and salt as base64 text,
/// with the recorded cost marker and schema version.
#[derive(Debug)]
pub struct EncryptedPasswordStore {
    pub encrypted_data: String,
    pub nonce: String,
    pub salt: String,
    pub iterations: u32,
    pub version: u8,
}

/// The mathematical value of a container.
pub struct ContainerView {
    pub encrypted_data: Seq<char>,
    pub nonce: Seq<char>,
    pub salt: Seq<char>,
    pub iterations: u32,
    pub version: u8,
}

impl View for EncryptedPasswordStore {
    type V = ContainerView;

    open spec fn view(&self) -> ContainerView {
        ContainerView {
            encrypted_data: self.encrypted_data@,
            nonce: self.nonce@,
            salt: self.salt@,
            iterations: self.iterations,
            version: self.version,
        }
    }
}

/// Every character of `s` is base64 text.
pub open spec fn b64_text(s: Seq<char>) -> bool {
    forall|i: int| 0 <= i < s.len() ==> is_b64_char(#[trigger] s[i])
}

/// The string fields hold base64 text, so they embed in JSON unescaped.
pub open spec fn container_json_safe(c: ContainerView) -> bool {
    b64_text(c.encrypted_data) && b64_text(c.nonce) && b64_text(c.salt)
}

#[verifier::opaque]
pub open spec fn lit_head() -> Seq<u8> {
    seq![123u8, 34u8, 101u8, 110u8, 99u8, 114u8, 121u8, 112u8, 116u8, 101u8, 100u8, 95u8, 100u8, 97u8, 116u8, 97u8, 34u8, 58u8, 34u8]
}

#[verifier::opaque]
pub open spec fn lit_nonce() -> Seq<u8> {
    seq![34u8, 44u8, 34u8, 110u8, 111u8, 110u8, 99u8, 101u8, 34u8, 58u8, 34u8]
}

#[verifier::opaque]
pub open spec fn lit_salt() -> Seq<u8> {
    seq![34u8, 44u8, 34u8, 115u8, 97u8, 108u8, 116u8, 34u8, 58u8, 34u8]
}

#[verifier::opaque]
pub open spec fn lit_iterations() -> Seq<u8> {
    seq![34u8, 44u8, 34u8, 105u8, 116u8, 101u8, 114u8, 97u8, 116u8, 105u8, 111u8, 110u8, 115u8, 34u8, 58u8]
}

#[verifier::opaque]
pub open spec fn lit_version() -> Seq<u8> {
    seq![44u8, 34u8, 118u8, 101u8, 114u8, 115u8, 105u8, 111u8, 110u8, 34u8, 58u8]
}

#[verifier::opaque]
pub open spec fn lit_tail() -> Seq<u8> {
    seq![125u8]
}

#[verifier::opaque]
pub open spec fn lit_export_head() -> Seq<u8> {
    seq![123u8, 34u8, 118u8, 101u8, 114u8, 115u8, 105u8, 111u8, 110u8, 34u8, 58u8, 49u8, 44u8, 34u8, 101u8, 110u8, 99u8, 114u8, 121u8, 112u8, 116u8, 101u8, 100u8, 95u8, 100u8, 97u8, 116u8, 97u8, 34u8, 58u8, 34u8]
}

#[verifier::opaque]
pub open spec fn lit_exported_at() -> Seq<u8> {
    seq![34u8, 44u8, 34u8, 101u8, 120u8, 112u8, 111u8, 114u8, 116u8, 101u8, 100u8, 95u8, 97u8, 116u8, 34u8, 58u8, 34u8]
}

#[verifier::opaque]
pub open spec fn lit_export_tail() -> Seq<u8> {
    seq![34u8, 125u8]
}


/// The concrete facts about the schema literals that the proofs need:
/// which byte each opens with, the tail length, and that all are ASCII.
proof fn lemma_lit_facts()
    ensures
        lit_nonce()[0] == 0x22,
        lit_salt()[0] == 0x22,
        lit_iterations()[0] == 0x22,
        lit_exported_at()[0] == 0x22,
        lit_export_tail()[0] == 0x22,
        !is_digit(lit_version()[0]),
        !is_digit(lit_tail()[0]),
        lit_nonce().len() >= 1,
        lit_salt().len() >= 1,
        lit_iterations().len() >= 1,
        lit_version().len() >= 1,
        lit_tail().len() == 1,
        lit_exported_at().len() >= 1,
        lit_export_tail().len() >= 1,
        forall|i: int| 0 <= i < lit_head().len() ==> #[trigger] lit_head()[i] < 0x80,
        forall|i: int| 0 <= i < lit_nonce().len() ==> #[trigger] lit_nonce()[i] < 0x80,
        forall|i: int| 0 <= i < lit_salt().len() ==> #[trigger] lit_salt()[i] < 0x80,
        forall|i: int|
            0 <= i < lit_iterations().len() ==> #[trigger] lit_iterations()[i] < 0x80,
        forall|i: int| 0 <= i < lit_version().len() ==> #[trigger] lit_version()[i] < 0x80,
        forall|i: int| 0 <= i < lit_tail().len() ==> #[trigger] lit_tail()[i] < 0x80,
        forall|i: int|
            0 <= i < lit_export_head().len() ==> #[trigger] lit_export_head()[i] < 0x80,
        forall|i: int|
            0 <= i < lit_exported_at().len() ==> #[trigger] lit_exported_at()[i] < 0x80,
        forall|i: int|
            0 <= i < lit_export_tail().len() ==> #[trigger] lit_export_tail()[i] < 0x80,
{
    reveal(lit_head);
    reveal(lit_nonce);
    reveal(lit_salt);
    reveal(lit_iterations);
    reveal(lit_version);
    reveal(lit_tail);
    reveal(lit_export_head);
    reveal(lit_exported_at);
    reveal(lit_export_tail);
}

/// The decimal digits of `n`, most significant first.
pub open spec fn digits_of(n: nat) -> Seq<u8>
    decreases n,
{
    if n < 10 {
        seq![(0x30 + n) as u8]
    } else {
        digits_of(n / 10).push((0x30 + n % 10) as u8)
    }
}

/// The canonical container JSON, as UTF-8 bytes.
pub open spec fn enc_container(c: ContainerView) -> Seq<u8> {
    lit_head() + (encode_utf8(c.encrypted_data) + (lit_nonce() + (encode_utf8(c.nonce) + (
    lit_salt() + (encode_utf8(c.salt) + (lit_iterations() + (digits_of(c.iterations as nat) + (
    lit_version() + (digits_of(c.version as nat) + lit_tail())))))))))
}

/// The export JSON, as UTF-8 bytes: an independently encrypted copy with
/// its own salt and nonce and the export timestamp.
pub open spec fn enc_export(
    encrypted_data: Seq<char>,
    nonce: Seq<char>,
    salt: Seq<char>,
    exported_at: Seq<char>,
) -> Seq<u8> {
    lit_export_head() + (encode_utf8(encrypted_data) + (lit_nonce() + (encode_utf8(nonce) + (
    lit_salt() + (encode_utf8(salt) + (lit_exported_at() + (encode_utf8(exported_at)
        + lit_export_tail())))))))
}

/// The position right after `lit`, when it sits at `i`.
pub open spec fn expect(b: Seq<u8>, i: int, lit: Seq<u8>) -> Option<int> {
    if 0 <= i && i + lit.len() <= b.len() && b.subrange(i, i + lit.len() as int) == lit {
        Some(i + lit.len() as int)
    } else {
        None
    }
}

/// The position of the next quote at or after `i`, if any.
pub open spec fn scan_end(b: Seq<u8>, i: int) -> Option<int>
    decreases b.len() - i,
{
    if i < 0 || i >= b.len() {
        None
    } else if b[i] == 0x22 {
        Some(i)
    } else {
        scan_end(b, i + 1)
    }
}

/// A decimal digit byte.
pub open spec fn is_digit(x: u8) -> bool {
    0x30 <= x <= 0x39
}

/// The end of the maximal digit run starting at `i`.
pub open spec fn digit_run_end(b: Seq<u8>, i: int) -> int
    decreases b.len() - i,
{
    if 0 <= i < b.len() && is_digit(b[i]) {
        digit_run_end(b, i + 1)
    } else {
        i
    }
}

/// The value of the digit bytes in `[i, j)`.
pub open spec fn digits_value(b: Seq<u8>, i: int, j: int) -> nat
    decreases j - i,
{
    if j <= i {
        0
    } else {
        digits_value(b, i, j - 1) * 10 + (if is_digit(b[j - 1]) {
            (b[j - 1] - 0x30) as nat
        } else {
            0
        })
    }
}

/// Strict decoder for a decimal number at `i`: at least one digit.
pub open spec fn dec_number(b: Seq<u8>, i: int) -> Option<(nat, int)> {
    let j = digit_run_end(b, i);
    if 0 <= i && i < j {
        Some((digits_value(b, i, j), j))
    } else {
        None
    }
}

/// Strict decoder for the container JSON: the whole buffer must be
/// consumed.
pub open spec fn dec_container(b: Seq<u8>) -> Option<ContainerView> {
    match expect(b, 0, lit_head()) {
        None => None,
        Some(p1) => match scan_end(b, p1) {
            None => None,
            Some(q1) => if !valid_utf8(b.subrange(p1, q1)) {
                None
            } else {
                let encrypted_data = decode_utf8(b.subrange(p1, q1));
                match expect(b, q1, lit_nonce()) {
                    None => None,
                    Some(p2) => match scan_end(b, p2) {
                        None => None,
                        Some(q2) => if !valid_utf8(b.subrange(p2, q2)) {
                            None
                        } else {
                            let nonce = decode_utf8(b.subrange(p2, q2));
                            match expect(b, q2, lit_salt()) {
                                None => None,
                                Some(p3) => match scan_end(b, p3) {
                                    None => None,
                                    Some(q3) => if !valid_utf8(b.subrange(p3, q3)) {
                                        None
                                    } else {
                                        let salt = decode_utf8(b.subrange(p3, q3));
                                        match expect(b, q3, lit_iterations()) {
                                            None => None,
                                            Some(p4) => match dec_number(b, p4) {
                                                None => None,
                                                Some((itv, q4)) => if itv > 0xFFFF_FFFF {
                                                    None
                                                } else {
                                                    match expect(b, q4, lit_version()) {
                                                        None => None,
                                                        Some(p5) => match dec_number(b, p5) {
                                                            None => None,
                                                            Some((vv, q5)) => if vv > 0xFF {
                                                                None
                                                            } else {
                                                                match expect(b, q5, lit_tail()) {
                                                                    None => None,
                                                                    Some(endp) => if endp
                                                                        == b.len() {
                                                                        Some(
                                                                            ContainerView {
                                                                                encrypted_data,
                                                                                nonce,
                                                                                salt,
                                                                                iterations: itv as u32,
                                                                                version: vv as u8,
                                                                            },
                                                                        )
                                                                    } else {
                                                                        None
                                                                    },
                                                                }
                                                            },
                                                        },
                                                    }
                                                },
                                            },
                                        }
                                    },
                                },
                            }
                        },
                    },
                }
            },
        },
    }
}

/// ASCII bytes are valid UTF-8 and decode to themselves.
pub proof fn lemma_ascii_bytes(b: Seq<u8>)
    requires
        forall|i: int| 0 <= i < b.len() ==> #[trigger] b[i] < 0x80,
    ensures
        valid_utf8(b),
        decode_utf8(b) =~= Seq::new(b.len(), |i: int| b[i] as char),
    decreases b.len(),
{
    if b.len() != 0 {
        let b0 = b[0];
        assert(vstd::utf8::is_leading_byte_width_1(b0));
        assert(vstd::utf8::valid_leading_and_continuation_bytes_first_codepoint(b));
        assert((b0 & 0x7f) == b0) by (bit_vector)
            requires
                b0 < 0x80,
        ;
        assert(vstd::utf8::decode_first_codepoint(b) == b0 as u32);
        assert(vstd::utf8::valid_first_scalar(b));
        assert(vstd::utf8::length_of_first_scalar(b) == 1);
        let rest = vstd::utf8::pop_first_scalar(b);
        assert(rest =~= b.subrange(1, b.len() as int));
        assert(forall|i: int| 0 <= i < rest.len() ==> #[trigger] rest[i] < 0x80) by {
            assert(forall|i: int| 0 <= i < rest.len() ==> rest[i] == #[trigger] b[i + 1]);
        }
        lemma_ascii_bytes(rest);
        assert(vstd::utf8::decode_first_scalar(b) as char == b0 as char);
    }
}

/// Base64 text is ASCII; its UTF-8 bytes are its character codes, each
/// below 0x80 and never a quote.
pub proof fn lemma_b64_text_bytes(s: Seq<char>)
    requires
        b64_text(s),
    ensures
        encode_utf8(s).len() == s.len(),
        forall|i: int| 0 <= i < s.len() ==> #[trigger] encode_utf8(s)[i] == s[i] as u8,
        forall|i: int| 0 <= i < s.len() ==> #[trigger] encode_utf8(s)[i] < 0x80,
        forall|i: int| 0 <= i < s.len() ==> #[trigger] encode_utf8(s)[i] != 0x22,
{
    assert forall|i: int| 0 <= i < s.len() implies '\0' <= #[trigger] s[i] <= '\u{7f}' by {
        assert(is_b64_char(s[i]));
    }
    assert(is_ascii_chars(s));
    vstd::utf8::is_ascii_chars_encode_utf8(s);
    assert forall|i: int| 0 <= i < s.len() implies #[trigger] encode_utf8(s)[i] < 0x80
        && encode_utf8(s)[i] != 0x22 by {
        assert(is_b64_char(s[i]));
        assert(encode_utf8(s)[i] == s[i] as u8);
    }
}

/// The decimal digits of `n` are digit bytes, at least one of them.
pub proof fn lemma_digits_of_digits(n: nat)
    ensures
        digits_of(n).len() >= 1,
        forall|i: int| 0 <= i < digits_of(n).len() ==> is_digit(#[trigger] digits_of(n)[i]),
    decreases n,
{
    if n >= 10 {
        lemma_digits_of_digits(n / 10);
    }
}

/// A digit block bounded by a non-digit (or the end) is one maximal run.
pub proof fn lemma_run_end_block(b: Seq<u8>, i: int, j: int)
    requires
        0 <= i <= j <= b.len(),
        forall|k: int| i <= k < j ==> is_digit(#[trigger] b[k]),
        j == b.len() || !is_digit(b[j]),
    ensures
        digit_run_end(b, i) == j,
    decreases j - i,
{
    if i < j {
        lemma_run_end_block(b, i + 1, j);
    }
}

/// The value of an embedded digit block is the number it spells.
pub proof fn lemma_digits_value_of(b: Seq<u8>, i: int, n: nat)
    requires
        0 <= i,
        i + digits_of(n).len() <= b.len(),
        b.subrange(i, i + digits_of(n).len() as int) == digits_of(n),
    ensures
        digits_value(b, i, i + digits_of(n).len()) == n,
    decreases n,
{
    let l = digits_of(n).len() as int;
    if n < 10 {
        assert(b[i] == digits_of(n)[0]);
        assert(is_digit(b[i]));
        assert(digits_value(b, i, i) == 0);
        assert(digits_value(b, i, i + 1) == (b[i] - 0x30) as nat);
    } else {
        let prefix = digits_of(n / 10);
        assert(digits_of(n) == prefix.push((0x30 + n % 10) as u8));
        assert(b.subrange(i, i + prefix.len() as int) =~= prefix) by {
            assert forall|k: int| 0 <= k < prefix.len() implies b.subrange(
                i,
                i + prefix.len() as int,
            )[k] == prefix[k] by {
                assert(b.subrange(i, i + l)[k] == digits_of(n)[k]);
            }
        }
        lemma_digits_value_of(b, i, n / 10);
        assert(b[i + l - 1] == digits_of(n)[l - 1]);
        assert(b[i + l - 1] == (0x30 + n % 10) as u8);
        assert(is_digit(b[i + l - 1]));
        assert(digits_value(b, i, i + l) == digits_value(b, i, i + l - 1) * 10 + (b[i + l - 1]
            - 0x30) as nat);
        assert(digits_value(b, i, i + l) == (n / 10) * 10 + n % 10);
    }
}

/// Decoding a number at the start of an embedded digit block bounded by
/// a non-digit yields the spelled value.
pub proof fn lemma_dec_number_of(b: Seq<u8>, i: int, n: nat)
    requires
        0 <= i,
        i + digits_of(n).len() <= b.len(),
        b.subrange(i, i + digits_of(n).len() as int) == digits_of(n),
        i + digits_of(n).len() == b.len() || !is_digit(b[i + digits_of(n).len()]),
    ensures
        dec_number(b, i) == Some((n, i + digits_of(n).len())),
{
    let l = digits_of(n).len() as int;
    lemma_digits_of_digits(n);
    assert forall|k: int| i <= k < i + l implies is_digit(#[trigger] b[k]) by {
        assert(b.subrange(i, i + l)[k - i] == digits_of(n)[k - i]);
    }
    lemma_run_end_block(b, i, i + l);
    lemma_digits_value_of(b, i, n);
}

/// A quote right after a quote-free block is the one the scan finds.
pub proof fn lemma_scan_end_of(b: Seq<u8>, i: int, vlen: int)
    requires
        0 <= i,
        0 <= vlen,
        i + vlen < b.len(),
        forall|k: int| i <= k < i + vlen ==> #[trigger] b[k] != 0x22,
        b[i + vlen] == 0x22,
    ensures
        scan_end(b, i) == Some(i + vlen),
    decreases vlen,
{
    if vlen > 0 {
        lemma_scan_end_of(b, i + 1, vlen - 1);
    }
}

/// One quoted base64 field followed by a literal that opens with the
/// closing quote: the scan stops at that quote, the field bytes decode
/// to the field, and the literal is found right after it.
proof fn lemma_field_block(b: Seq<u8>, p: int, s: Seq<char>, lit: Seq<u8>)
    requires
        b64_text(s),
        0 <= p,
        p + encode_utf8(s).len() + lit.len() <= b.len(),
        b.subrange(p, p + encode_utf8(s).len() as int) == encode_utf8(s),
        b.subrange(
            p + encode_utf8(s).len() as int,
            p + encode_utf8(s).len() + lit.len(),
        ) == lit,
        lit.len() >= 1,
        lit[0] == 0x22,
    ensures
        scan_end(b, p) == Some(p + encode_utf8(s).len() as int),
        valid_utf8(b.subrange(p, p + encode_utf8(s).len() as int)),
        decode_utf8(b.subrange(p, p + encode_utf8(s).len() as int)) == s,
        expect(b, p + encode_utf8(s).len() as int, lit) == Some(
            p + encode_utf8(s).len() + lit.len(),
        ),
{
    broadcast use vstd::utf8::encode_utf8_valid_utf8, vstd::utf8::encode_utf8_decode_utf8;

    let e = encode_utf8(s);
    let q = p + e.len() as int;
    lemma_b64_text_bytes(s);
    assert forall|k: int| p <= k < q implies #[trigger] b[k] != 0x22 by {
        assert(b.subrange(p, q)[k - p] == e[k - p]);
    }
    assert(b.subrange(q, q + lit.len() as int)[0] == lit[0]);
    assert(b[q] == 0x22);
    lemma_scan_end_of(b, p, e.len() as int);
}

/// A digit block followed by a literal that opens with a non-digit: the
/// number decodes to the spelled value and the literal follows it.
proof fn lemma_number_block(b: Seq<u8>, p: int, n: nat, lit: Seq<u8>)
    requires
        0 <= p,
        p + digits_of(n).len() + lit.len() <= b.len(),
        b.subrange(p, p + digits_of(n).len() as int) == digits_of(n),
        b.subrange(
            p + digits_of(n).len() as int,
            p + digits_of(n).len() + lit.len(),
        ) == lit,
        lit.len() >= 1,
        !is_digit(lit[0]),
    ensures
        dec_number(b, p) == Some((n, p + digits_of(n).len())),
        expect(b, p + digits_of(n).len() as int, lit) == Some(
            p + digits_of(n).len() + lit.len(),
        ),
{
    let q = p + digits_of(n).len() as int;
    assert(b.subrange(q, q + lit.len() as int)[0] == lit[0]);
    assert(b[q] == lit[0]);
    lemma_dec_number_of(b, p, n);
}

/// Round trip: decoding the emitted container JSON of a safe container
/// yields the container back.
#[verifier::spinoff_prover]
#[verifier::rlimit(100)]
pub proof fn lemma_dec_enc_container(c: ContainerView)
    requires
        container_json_safe(c),
    ensures
        dec_container(enc_container(c)) == Some(c),
{
    lemma_lit_facts();
    let b = enc_container(c);
    let e1 = encode_utf8(c.encrypted_data);
    let e2 = encode_utf8(c.nonce);
    let e3 = encode_utf8(c.salt);
    let d1 = digits_of(c.iterations as nat);
    let d2 = digits_of(c.version as nat);
    let r9 = d2 + lit_tail();
    let r8 = lit_version() + r9;
    let r7 = d1 + r8;
    let r6 = lit_iterations() + r7;
    let r5 = e3 + r6;
    let r4 = lit_salt() + r5;
    let r3 = e2 + r4;
    let r2 = lit_nonce() + r3;
    let r1 = e1 + r2;
    assert(b == lit_head() + r1);
    assert(b.subrange(0, b.len() as int) =~= b);
    lemma_subrange_cat(b, 0, lit_head(), r1);
    let p1 = lit_head().len() as int;
    assert(expect(b, 0, lit_head()) == Some(p1));
    lemma_subrange_cat(b, p1, e1, r2);
    let q1 = p1 + e1.len() as int;
    lemma_subrange_cat(b, q1, lit_nonce(), r3);
    let p2 = q1 + lit_nonce().len() as int;
    lemma_subrange_cat(b, p2, e2, r4);
    let q2 = p2 + e2.len() as int;
    lemma_subrange_cat(b, q2, lit_salt(), r5);
    let p3 = q2 + lit_salt().len() as int;
    lemma_subrange_cat(b, p3, e3, r6);
    let q3 = p3 + e3.len() as int;
    lemma_subrange_cat(b, q3, lit_iterations(), r7);
    let p4 = q3 + lit_iterations().len() as int;
    lemma_subrange_cat(b, p4, d1, r8);
    let q4 = p4 + d1.len() as int;
    lemma_subrange_cat(b, q4, lit_version(), r9);
    let p5 = q4 + lit_version().len() as int;
    lemma_subrange_cat(b, p5, d2, lit_tail());
    let q5 = p5 + d2.len() as int;
    lemma_field_block(b, p1, c.encrypted_data, lit_nonce());
    lemma_field_block(b, p2, c.nonce, lit_salt());
    lemma_field_block(b, p3, c.salt, lit_iterations());
    lemma_number_block(b, p4, c.iterations as nat, lit_version());
    lemma_number_block(b, p5, c.version as nat, lit_tail());
    assert(expect(b, q5, lit_tail()) == Some(q5 + 1));
    assert(q5 + 1 == b.len());
}

/// A byte of the base64 alphabet.
pub open spec fn is_b64_byte(x: u8) -> bool {
    (0x41 <= x <= 0x5a) || (0x61 <= x <= 0x7a) || (0x30 <= x <= 0x39) || x == 0x2b || x == 0x2f
        || x == 0x3d
}

/// A character that may sit unescaped inside a JSON string: printable
/// ASCII, neither quote nor backslash.
pub open spec fn json_plain(s: Seq<char>) -> bool {
    forall|i: int|
        0 <= i < s.len() ==> (' ' <= #[trigger] s[i] <= '~' && s[i] != '"' && s[i] != '\\')
}

/// The bytes of this schema literal.
fn lit_head_vec() -> (v: Vec<u8>)
    ensures
        v@ == lit_head(),
{
    let mut v: Vec<u8> = Vec::new();
    v.push(123u8);
    v.push(34u8);
    v.push(101u8);
    v.push(110u8);
    v.push(99u8);
    v.push(114u8);
    v.push(121u8);
    v.push(112u8);
    v.push(116u8);
    v.push(101u8);
    v.push(100u8);
    v.push(95u8);
    v.push(100u8);
    v.push(97u8);
    v.push(116u8);
    v.push(97u8);
    v.push(34u8);
    v.push(58u8);
    v.push(34u8);
    proof {
        reveal(lit_head);
    }
    assert(v@ =~= lit_head());
    v
}

/// The bytes of this schema literal.
fn lit_nonce_vec() -> (v: Vec<u8>)
    ensures
        v@ == lit_nonce(),
{
    let mut v: Vec<u8> = Vec::new();
    v.push(34u8);
    v.push(44u8);
    v.push(34u8);
    v.push(110u8);
    v.push(111u8);
    v.push(110u8);
    v.push(99u8);
    v.push(101u8);
    v.push(34u8);
    v.push(58u8);
    v.push(34u8);
    proof {
        reveal(lit_nonce);
    }
    assert(v@ =~= lit_nonce());
    v
}

/// The bytes of this schema literal.
fn lit_salt_vec() -> (v: Vec<u8>)
    ensures
        v@ == lit_salt(),
{
    let mut v: Vec<u8> = Vec::new();
    v.push(34u8);
    v.push(44u8);
    v.push(34u8);
    v.push(115u8);
    v.push(97u8);
    v.push(108u8);
    v.push(116u8);
    v.push(34u8);
    v.push(58u8);
    v.push(34u8);
    proof {
        reveal(lit_salt);
    }
    assert(v@ =~= lit_salt());
    v
}

/// The bytes of this schema literal.
fn lit_iterations_vec() -> (v: Vec<u8>)
    ensures
        v@ == lit_iterations(),
{
    let mut v: Vec<u8> = Vec::new();
    v.push(34u8);
    v.push(44u8);
    v.push(34u8);
    v.push(105u8);
    v.push(116u8);
    v.push(101u8);
    v.push(114u8);
    v.push(97u8);
    v.push(116u8);
    v.push(105u8);
    v.push(111u8);
    v.push(110u8);
    v.push(115u8);
    v.push(34u8);
    v.push(58u8);
    proof {
        reveal(lit_iterations);
    }
    assert(v@ =~= lit_iterations());
    v
}

/// The bytes of this schema literal.
fn lit_version_vec() -> (v: Vec<u8>)
    ensures
        v@ == lit_version(),
{
    let mut v: Vec<u8> = Vec::new();
    v.push(44u8);
    v.push(34u8);
    v.push(118u8);
    v.push(101u8);
    v.push(114u8);
    v.push(115u8);
    v.push(105u8);
    v.push(111u8);
    v.push(110u8);
    v.push(34u8);
    v.push(58u8);
    proof {
        reveal(lit_version);
    }
    assert(v@ =~= lit_version());
    v
}

/// The bytes of this schema literal.
fn lit_tail_vec() -> (v: Vec<u8>)
    ensures
        v@ == lit_tail(),
{
    let mut v: Vec<u8> = Vec::new();
    v.push(125u8);
    proof {
        reveal(lit_tail);
    }
    assert(v@ =~= lit_tail());
    v
}

/// The bytes of this schema literal.
fn lit_export_head_vec() -> (v: Vec<u8>)
    ensures
        v@ == lit_export_head(),
{
    let mut v: Vec<u8> = Vec::new();
    v.push(123u8);
    v.push(34u8);
    v.push(118u8);
    v.push(101u8);
    v.push(114u8);
    v.push(115u8);
    v.push(105u8);
    v.push(111u8);
    v.push(110u8);
    v.push(34u8);
    v.push(58u8);
    v.push(49u8);
    v.push(44u8);
    v.push(34u8);
    v.push(101u8);
    v.push(110u8);
    v.push(99u8);
    v.push(114u8);
    v.push(121u8);
    v.push(112u8);
    v.push(116u8);
    v.push(101u8);
    v.push(100u8);
    v.push(95u8);
    v.push(100u8);
    v.push(97u8);
    v.push(116u8);
    v.push(97u8);
    v.push(34u8);
    v.push(58u8);
    v.push(34u8);
    proof {
        reveal(lit_export_head);
    }
    assert(v@ =~= lit_export_head());
    v
}

/// The bytes of this schema literal.
fn lit_exported_at_vec() -> (v: Vec<u8>)
    ensures
        v@ == lit_exported_at(),
{
    let mut v: Vec<u8> = Vec::new();
    v.push(34u8);
    v.push(44u8);
    v.push(34u8);
    v.push(101u8);
    v.push(120u8);
    v.push(112u8);
    v.push(111u8);
    v.push(114u8);
    v.push(116u8);
    v.push(101u8);
    v.push(100u8);
    v.push(95u8);
    v.push(97u8);
    v.push(116u8);
    v.push(34u8);
    v.push(58u8);
    v.push(34u8);
    proof {
        reveal(lit_exported_at);
    }
    assert(v@ =~= lit_exported_at());
    v
}

/// The bytes of this schema literal.
fn lit_export_tail_vec() -> (v: Vec<u8>)
    ensures
        v@ == lit_export_tail(),
{
    let mut v: Vec<u8> = Vec::new();
    v.push(34u8);
    v.push(125u8);
    proof {
        reveal(lit_export_tail);
    }
    assert(v@ =~= lit_export_tail());
    v
}


/// Whether every character of `s` is base64 text, decided on its bytes.
fn check_b64_text(s: &str) -> (r: bool)
    ensures
        r == b64_text(s@),
{
    let b = s.as_bytes();
    proof {
        vstd::slice::axiom_spec_len(b);
    }
    let n = b.len();
    let mut i: usize = 0;
    let mut ok = true;
    while i < n
        invariant
            i <= n == b@.len(),
            b@ == encode_utf8(s@),
            ok <==> (forall|k: int| 0 <= k < i ==> is_b64_byte(#[trigger] b@[k])),
        decreases n - i,
    {
        let x = b[i];
        let good = (0x41 <= x && x <= 0x5a) || (0x61 <= x && x <= 0x7a) || (0x30 <= x && x
            <= 0x39) || x == 0x2b || x == 0x2f || x == 0x3d;
        if !good {
            ok = false;
            proof {
                assert(!is_b64_byte(b@[i as int]));
            }
            i = n;
        } else {
            i = i + 1;
        }
    }
    proof {
        if ok {
            assert forall|k: int| 0 <= k < b@.len() implies #[trigger] b@[k] < 0x80 by {
                assert(is_b64_byte(b@[k]));
            }
            lemma_ascii_bytes(b@);
            broadcast use vstd::utf8::encode_utf8_decode_utf8;

            assert(decode_utf8(encode_utf8(s@)) == s@);
            assert forall|k: int| 0 <= k < s@.len() implies is_b64_char(#[trigger] s@[k]) by {
                assert(s@[k] == decode_utf8(b@)[k]);
                assert(decode_utf8(b@)[k] == b@[k] as char);
                assert(is_b64_byte(b@[k]));
            }
        } else {
            let k = choose|k: int| 0 <= k < b@.len() && !is_b64_byte(#[trigger] b@[k]);
            if b64_text(s@) {
                lemma_b64_text_bytes(s@);
                assert(b@[k] == s@[k] as u8);
                assert(is_b64_char(s@[k]));
            }
        }
    }
    ok
}

/// Append the decimal digits of `n`.
fn emit_digits(out: &mut Vec<u8>, n: u32)
    ensures
        final(out)@ == old(out)@ + digits_of(n as nat),
    decreases n,
{
    let ghost orig = out@;
    if n < 10 {
        out.push(0x30 + (n as u8));
        assert(out@ =~= orig + digits_of(n as nat));
    } else {
        emit_digits(out, n / 10);
        out.push(0x30 + ((n % 10) as u8));
        assert(out@ =~= orig + digits_of(n as nat));
    }
}

/// Serialize the container as its canonical JSON text; the fields must
/// be base64 text, else `Malformed`.
#[verifier::spinoff_prover]
#[verifier::rlimit(100)]
pub fn container_to_json(c: &EncryptedPasswordStore) -> (r: Result<String, StorageError>)
    ensures
        r is Ok <==> container_json_safe(c@),
        r matches Ok(s) ==> encode_utf8(s@) == enc_container(c@),
{
    if !check_b64_text(c.encrypted_data.as_str()) || !check_b64_text(c.nonce.as_str())
        || !check_b64_text(c.salt.as_str()) {
        return Err(StorageError::Malformed);
    }
    let mut out: Vec<u8> = Vec::new();
    let lit1 = lit_head_vec();
    out.extend_from_slice(lit1.as_slice());
    out.extend_from_slice(c.encrypted_data.as_str().as_bytes());
    let lit2 = lit_nonce_vec();
    out.extend_from_slice(lit2.as_slice());
    out.extend_from_slice(c.nonce.as_str().as_bytes());
    let lit3 = lit_salt_vec();
    out.extend_from_slice(lit3.as_slice());
    out.extend_from_slice(c.salt.as_str().as_bytes());
    let lit4 = lit_iterations_vec();
    out.extend_from_slice(lit4.as_slice());
    emit_digits(&mut out, c.iterations);
    let lit5 = lit_version_vec();
    out.extend_from_slice(lit5.as_slice());
    emit_digits(&mut out, c.version as u32);
    let lit6 = lit_tail_vec();
    out.extend_from_slice(lit6.as_slice());
    assert(out@ =~= enc_container(c@));
    proof {
        lemma_container_bytes_ascii(c@);
    }
    match utf8_to_string(out) {
        Ok(s) => Ok(s),
        Err(e) => Err(e),
    }
}

/// Every byte of a safe container's JSON is ASCII.
proof fn lemma_container_bytes_ascii(c: ContainerView)
    requires
        container_json_safe(c),
    ensures
        valid_utf8(enc_container(c)),
        exists|cs: Seq<char>| enc_container(c) == encode_utf8(cs),
{
    let b = enc_container(c);
    lemma_b64_text_bytes(c.encrypted_data);
    lemma_b64_text_bytes(c.nonce);
    lemma_b64_text_bytes(c.salt);
    lemma_digits_of_digits(c.iterations as nat);
    lemma_digits_of_digits(c.version as nat);
    lemma_lit_facts();
    assert forall|i: int| 0 <= i < b.len() implies #[trigger] b[i] < 0x80 by {}
    lemma_ascii_bytes(b);
    broadcast use vstd::utf8::decode_utf8_encode_utf8;

    assert(b == encode_utf8(decode_utf8(b)));
}

/// Whether `lit` sits at `pos`, exactly as [`expect`] states.
fn expect_lit(b: &[u8], pos: usize, lit: &Vec<u8>) -> (r: Result<usize, StorageError>)
    ensures
        r matches Ok(p) ==> expect(b@, pos as int, lit@) == Some(p as int),
        r is Err ==> expect(b@, pos as int, lit@) is None,
{
    proof {
        vstd::slice::axiom_spec_len(b);
    }
    let n = lit.len();
    if pos > b.len() || b.len() - pos < n {
        return Err(StorageError::Malformed);
    }
    let mut i: usize = 0;
    while i < n
        invariant
            i <= n == lit@.len(),
            pos + n <= b@.len() <= usize::MAX,
            forall|k: int| 0 <= k < i ==> b@[pos + k] == #[trigger] lit@[k],
        decreases n - i,
    {
        if b[pos + i] != lit[i] {
            proof {
                assert(b@.subrange(pos as int, pos + lit@.len())[i as int] != lit@[i as int]);
            }
            return Err(StorageError::Malformed);
        }
        i = i + 1;
    }
    proof {
        assert(b@.subrange(pos as int, pos + lit@.len()) =~= lit@);
    }
    Ok(pos + n)
}

/// Collect the bytes before the next quote, exactly as [`scan_end`]
/// states.
fn scan_value(b: &[u8], pos: usize) -> (r: Result<(Vec<u8>, usize), StorageError>)
    ensures
        r matches Ok(v) ==> scan_end(b@, pos as int) == Some(v.1 as int) && v.0@ == b@.subrange(
            pos as int,
            v.1 as int,
        ),
        r is Err ==> scan_end(b@, pos as int) is None,
{
    proof {
        vstd::slice::axiom_spec_len(b);
    }
    let n = b.len();
    if pos > n {
        return Err(StorageError::Malformed);
    }
    let mut j = pos;
    while j < n && b[j] != 0x22
        invariant
            pos <= j <= n == b@.len(),
            scan_end(b@, pos as int) == scan_end(b@, j as int),
        decreases n - j,
    {
        j = j + 1;
    }
    if j >= n {
        return Err(StorageError::Malformed);
    }
    let bytes = slice_to_vec(slice_subrange(b, pos, j));
    Ok((bytes, j))
}

/// Read a decimal number at `pos`, exactly as [`dec_number`] states; a
/// value beyond `u32` is refused.
fn parse_number(b: &[u8], pos: usize) -> (r: Result<(u32, usize), StorageError>)
    ensures
        r matches Ok(v) ==> dec_number(b@, pos as int) == Some((v.0 as nat, v.1 as int)),
        r is Err ==> (dec_number(b@, pos as int) is None || (dec_number(b@, pos as int)
            matches Some(w) && w.0 > 0xFFFF_FFFF)),
{
    proof {
        vstd::slice::axiom_spec_len(b);
    }
    let n = b.len();
    if pos > n {
        return Err(StorageError::Malformed);
    }
    let mut j = pos;
    let mut acc: u64 = 0;
    let mut exceeded = false;
    while j < n && 0x30 <= b[j] && b[j] <= 0x39
        invariant
            pos <= j <= n == b@.len(),
            digit_run_end(b@, pos as int) == digit_run_end(b@, j as int),
            !exceeded ==> acc == digits_value(b@, pos as int, j as int) && acc <= 0xFFFF_FFFF,
            exceeded ==> digits_value(b@, pos as int, j as int) > 0xFFFF_FFFF,
        decreases n - j,
    {
        let d = b[j] - 0x30;
        proof {
            assert(is_digit(b@[j as int]));
            assert(digits_value(b@, pos as int, j as int + 1) == digits_value(
                b@,
                pos as int,
                j as int,
            ) * 10 + (b@[j as int] - 0x30) as nat);
        }
        if !exceeded {
            let next = acc * 10 + (d as u64);
            if next > 0xFFFF_FFFF {
                exceeded = true;
            } else {
                acc = next;
            }
        } else {
            proof {
                let v = digits_value(b@, pos as int, j as int);
                assert(v * 10 + (b@[j as int] - 0x30) as nat >= v);
            }
        }
        j = j + 1;
    }
    proof {
        assert(digit_run_end(b@, j as int) == j as int);
    }
    if j == pos {
        return Err(StorageError::Malformed);
    }
    if exceeded {
        return Err(StorageError::Malformed);
    }
    Ok((acc as u32, j))
}

/// Parse the canonical container JSON, exactly as [`dec_container`]
/// states.  This parser deliberately accepts only the single-line text
/// that [`container_to_json`] emits; equivalent JSON with other spacing
/// or key order is refused as `Malformed`.
#[verifier::rlimit(100)]
pub fn container_from_json(s: &str) -> (r: Result<EncryptedPasswordStore, StorageError>)
    ensures
        r matches Ok(c) ==> dec_container(encode_utf8(s@)) matches Some(v) && c@ == v,
        r is Err ==> dec_container(encode_utf8(s@)) is None,
{
    let b = s.as_bytes();
    proof {
        vstd::slice::axiom_spec_len(b);
    }
    let lit1 = lit_head_vec();
    let p1 = match expect_lit(b, 0, &lit1) {
        Ok(p) => p,
        Err(e) => {
            return Err(e);
        },
    };
    let (v1, q1) = match scan_value(b, p1) {
        Ok(v) => v,
        Err(e) => {
            return Err(e);
        },
    };
    let ghost v1s = b@.subrange(p1 as int, q1 as int);
    let encrypted_data = match utf8_to_string(v1) {
        Ok(x) => x,
        Err(e) => {
            proof {
                lemma_invalid_when_err(v1s);
            }
            return Err(e);
        },
    };
    proof {
        lemma_decode_when_ok(v1s, encrypted_data@);
    }
    let lit2 = lit_nonce_vec();
    let p2 = match expect_lit(b, q1, &lit2) {
        Ok(p) => p,
        Err(e) => {
            return Err(e);
        },
    };
    let (v2, q2) = match scan_value(b, p2) {
        Ok(v) => v,
        Err(e) => {
            return Err(e);
        },
    };
    let ghost v2s = b@.subrange(p2 as int, q2 as int);
    let nonce = match utf8_to_string(v2) {
        Ok(x) => x,
        Err(e) => {
            proof {
                lemma_invalid_when_err(v2s);
            }
            return Err(e);
        },
    };
    proof {
        lemma_decode_when_ok(v2s, nonce@);
    }
    let lit3 = lit_salt_vec();
    let p3 = match expect_lit(b, q2, &lit3) {
        Ok(p) => p,
        Err(e) => {
            return Err(e);
        },
    };
    let (v3, q3) = match scan_value(b, p3) {
        Ok(v) => v,
        Err(e) => {
            return Err(e);
        },
    };
    let ghost v3s = b@.subrange(p3 as int, q3 as int);
    let salt = match utf8_to_string(v3) {
        Ok(x) => x,
        Err(e) => {
            proof {
                lemma_invalid_when_err(v3s);
            }
            return Err(e);
        },
    };
    proof {
        lemma_decode_when_ok(v3s, salt@);
    }
    let lit4 = lit_iterations_vec();
    let p4 = match expect_lit(b, q3, &lit4) {
        Ok(p) => p,
        Err(e) => {
            return Err(e);
        },
    };
    let (iterations, q4) = match parse_number(b, p4) {
        Ok(v) => v,
        Err(e) => {
            return Err(e);
        },
    };
    let lit5 = lit_version_vec();
    let p5 = match expect_lit(b, q4, &lit5) {
        Ok(p) => p,
        Err(e) => {
            return Err(e);
        },
    };
    let (version_value, q5) = match parse_number(b, p5) {
        Ok(v) => v,
        Err(e) => {
            return Err(e);
        },
    };
    if version_value > 0xFF {
        return Err(StorageError::Malformed);
    }
    let lit6 = lit_tail_vec();
    let endp = match expect_lit(b, q5, &lit6) {
        Ok(p) => p,
        Err(e) => {
            return Err(e);
        },
    };
    if endp != b.len() {
        return Err(StorageError::Malformed);
    }
    Ok(
        EncryptedPasswordStore {
            encrypted_data,
            nonce,
            salt,
            iterations,
            version: version_value as u8,
        },
    )
}

/// Bytes that `String::from_utf8` refused are not valid UTF-8.
proof fn lemma_invalid_when_err(v: Seq<u8>)
    requires
        forall|cs: Seq<char>| v != encode_utf8(cs),
    ensures
        !valid_utf8(v),
{
    broadcast use vstd::utf8::decode_utf8_encode_utf8;

    if valid_utf8(v) {
        assert(v == encode_utf8(decode_utf8(v)));
    }
}

/// Bytes that `String::from_utf8` accepted are valid UTF-8 and decode
/// to the accepted characters.
proof fn lemma_decode_when_ok(v: Seq<u8>, cs: Seq<char>)
    requires
        v == encode_utf8(cs),
    ensures
        valid_utf8(v),
        decode_utf8(v) == cs,
{
    broadcast use vstd::utf8::encode_utf8_valid_utf8, vstd::utf8::encode_utf8_decode_utf8;

}

/// Serialize an export envelope around an already encrypted copy of the
/// vault; fields must be base64 text and the timestamp plain JSON text.
#[verifier::spinoff_prover]
#[verifier::rlimit(100)]
pub fn export_to_json(
    encrypted_data: &str,
    nonce: &str,
    salt: &str,
    exported_at: &str,
) -> (r: Result<String, StorageError>)
    ensures
        r is Ok <==> (b64_text(encrypted_data@) && b64_text(nonce@) && b64_text(salt@)
            && json_plain(exported_at@)),
        r matches Ok(s) ==> encode_utf8(s@) == enc_export(
            encrypted_data@,
            nonce@,
            salt@,
            exported_at@,
        ),
{
    if !check_b64_text(encrypted_data) || !check_b64_text(nonce) || !check_b64_text(salt) {
        return Err(StorageError::Malformed);
    }
    if !check_json_plain(exported_at) {
        return Err(StorageError::Malformed);
    }
    let mut out: Vec<u8> = Vec::new();
    let lit1 = lit_export_head_vec();
    out.extend_from_slice(lit1.as_slice());
    out.extend_from_slice(encrypted_data.as_bytes());
    let lit2 = lit_nonce_vec();
    out.extend_from_slice(lit2.as_slice());
    out.extend_from_slice(nonce.as_bytes());
    let lit3 = lit_salt_vec();
    out.extend_from_slice(lit3.as_slice());
    out.extend_from_slice(salt.as_bytes());
    let lit4 = lit_exported_at_vec();
    out.extend_from_slice(lit4.as_slice());
    out.extend_from_slice(exported_at.as_bytes());
    let lit5 = lit_export_tail_vec();
    out.extend_from_slice(lit5.as_slice());
    assert(out@ =~= enc_export(encrypted_data@, nonce@, salt@, exported_at@));
    proof {
        lemma_export_bytes_ascii(encrypted_data@, nonce@, salt@, exported_at@);
    }
    match utf8_to_string(out) {
        Ok(s) => Ok(s),
        Err(e) => Err(e),
    }
}

/// Whether every character of `s` may sit unescaped in a JSON string.
fn check_json_plain(s: &str) -> (r: bool)
    ensures
        r == json_plain(s@),
{
    let b = s.as_bytes();
    proof {
        vstd::slice::axiom_spec_len(b);
    }
    let n = b.len();
    let mut i: usize = 0;
    let mut ok = true;
    while i < n
        invariant
            i <= n == b@.len(),
            b@ == encode_utf8(s@),
            ok <==> (forall|k: int|
                0 <= k < i ==> (0x20 <= #[trigger] b@[k] <= 0x7e && b@[k] != 0x22 && b@[k]
                    != 0x5c)),
        decreases n - i,
    {
        let x = b[i];
        let good = 0x20 <= x && x <= 0x7e && x != 0x22 && x != 0x5c;
        if !good {
            ok = false;
            proof {
                assert(!(0x20 <= b@[i as int] <= 0x7e && b@[i as int] != 0x22 && b@[i as int]
                    != 0x5c));
            }
            i = n;
        } else {
            i = i + 1;
        }
    }
    proof {
        if ok {
            assert forall|k: int| 0 <= k < b@.len() implies #[trigger] b@[k] < 0x80 by {}
            lemma_ascii_bytes(b@);
            broadcast use vstd::utf8::encode_utf8_decode_utf8;

            assert(decode_utf8(encode_utf8(s@)) == s@);
            assert forall|k: int| 0 <= k < s@.len() implies (' ' <= #[trigger] s@[k] <= '~'
                && s@[k] != '"' && s@[k] != '\\') by {
                assert(s@[k] == decode_utf8(b@)[k]);
                assert(decode_utf8(b@)[k] == b@[k] as char);
            }
        } else {
            let k = choose|k: int|
                0 <= k < b@.len() && !(0x20 <= #[trigger] b@[k] <= 0x7e && b@[k] != 0x22 && b@[k]
                    != 0x5c);
            if json_plain(s@) {
                lemma_json_plain_bytes(s@);
                assert(b@[k] == s@[k] as u8);
            }
        }
    }
    ok
}

/// Plain JSON text is ASCII; its UTF-8 bytes are its character codes.
proof fn lemma_json_plain_bytes(s: Seq<char>)
    requires
        json_plain(s),
    ensures
        encode_utf8(s).len() == s.len(),
        forall|i: int| 0 <= i < s.len() ==> #[trigger] encode_utf8(s)[i] == s[i] as u8,
        forall|i: int|
            0 <= i < s.len() ==> (0x20 <= #[trigger] encode_utf8(s)[i] <= 0x7e && encode_utf8(
                s,
            )[i] != 0x22 && encode_utf8(s)[i] != 0x5c),
{
    assert forall|i: int| 0 <= i < s.len() implies '\0' <= #[trigger] s[i] <= '\u{7f}' by {}
    assert(is_ascii_chars(s));
    vstd::utf8::is_ascii_chars_encode_utf8(s);
    assert forall|i: int| 0 <= i < s.len() implies (0x20 <= #[trigger] encode_utf8(s)[i] <= 0x7e
        && encode_utf8(s)[i] != 0x22 && encode_utf8(s)[i] != 0x5c) by {
        assert(encode_utf8(s)[i] == s[i] as u8);
    }
}

/// Every byte of a well-formed export JSON is ASCII, so it is a string.
proof fn lemma_export_bytes_ascii(
    encrypted_data: Seq<char>,
    nonce: Seq<char>,
    salt: Seq<char>,
    exported_at: Seq<char>,
)
    requires
        b64_text(encrypted_data),
        b64_text(nonce),
        b64_text(salt),
        json_plain(exported_at),
    ensures
        valid_utf8(enc_export(encrypted_data, nonce, salt, exported_at)),
        exists|cs: Seq<char>|
            enc_export(encrypted_data, nonce, salt, exported_at) == encode_utf8(cs),
{
    let b = enc_export(encrypted_data, nonce, salt, exported_at);
    lemma_b64_text_bytes(encrypted_data);
    lemma_b64_text_bytes(nonce);
    lemma_b64_text_bytes(salt);
    lemma_json_plain_bytes(exported_at);
    lemma_lit_facts();
    assert forall|i: int| 0 <= i < b.len() implies #[trigger] b[i] < 0x80 by {}
    lemma_ascii_bytes(b);
    broadcast use vstd::utf8::decode_utf8_encode_utf8;

    assert(b == encode_utf8(decode_utf8(b)));
}

} // verus!
