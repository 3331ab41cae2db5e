//! Password-strength scoring: a deterministic, pure score in [0, 100].
//!
//! Length (in bytes) earns up to 45 points, character classes up to 25,
//! character variety 10, and a 20-point penalty applies when the lowered
//! password contains a well-known weak pattern or any run of three equal
//! consecutive characters.

use vstd::prelude::*;
use vstd::utf8::encode_utf8;
use crate::text::{chars_of, contains_chars, contains_seq, lower_chars, lower_of};

verus! {

/// Characters from the fixed punctuation set that counts as "symbol".
pub open spec fn is_symbol(c: char) -> bool {
    c == '!' || c == '@' || c == '#' || c == '$' || c == '%' || c == '^' || c == '&' || c == '*'
        || c == '(' || c == ')' || c == '_' || c == '+' || c == '-' || c == '=' || c == '['
        || c == ']' || c == '{' || c == '}' || c == '|' || c == ';' || c == ':' || c == ','
        || c == '.' || c == '<' || c == '>' || c == '?'
}

/// How many distinct characters `s` holds.
pub open spec fn count_distinct(s: Seq<char>) -> nat
    decreases s.len(),
{
    if s.len() == 0 {
        0
    } else {
        count_distinct(s.drop_last()) + if s.drop_last().contains(s.last()) {
            0nat
        } else {
            1nat
        }
    }
}

/// Some character repeats three times in a row.
pub open spec fn has_triple_run(s: Seq<char>) -> bool {
    exists|i: int| 0 <= i && i + 2 < s.len() && s[i] == #[trigger] s[i + 1] && s[i] == s[i + 2]
}

/// The weak-pattern penalty applies: the lowered password contains
/// "password" or "123456", or some character repeats three times in a row.
pub open spec fn penalty_applies(s: Seq<char>) -> bool {
    contains_seq(lower_of(s), seq!['p', 'a', 's', 's', 'w', 'o', 'r', 'd'])
        || contains_seq(lower_of(s), seq!['1', '2', '3', '4', '5', '6'])
        || has_triple_run(s)
}

/// The additive part of the score, before penalty and clamping.
pub open spec fn base_score(s: Seq<char>) -> int {
    let len = encode_utf8(s).len();
    (if len >= 8 { 20int } else { 0int }) + (if len >= 12 { 15int } else { 0int }) + (if len >= 16 {
        10int
    } else {
        0int
    }) + (if exists|i: int| 0 <= i < s.len() && 'a' <= #[trigger] s[i] <= 'z' {
        5int
    } else {
        0int
    }) + (if exists|i: int| 0 <= i < s.len() && 'A' <= #[trigger] s[i] <= 'Z' {
        5int
    } else {
        0int
    }) + (if exists|i: int| 0 <= i < s.len() && '0' <= #[trigger] s[i] <= '9' {
        5int
    } else {
        0int
    }) + (if exists|i: int| 0 <= i < s.len() && is_symbol(#[trigger] s[i]) {
        10int
    } else {
        0int
    }) + (if count_distinct(s) * 2 > len {
        10int
    } else {
        0int
    })
}

/// The full score: base, then penalty floored at zero, then clamped to 100.
pub open spec fn strength_of(s: Seq<char>) -> int {
    let base = base_score(s);
    let scored = if penalty_applies(s) {
        if base >= 20 {
            base - 20
        } else {
            0int
        }
    } else {
        base
    };
    if scored > 100 {
        100int
    } else {
        scored
    }
}

/// Whether the punctuation set contains `c`.
fn symbol_char(c: char) -> (r: bool)
    ensures
        r == is_symbol(c),
{
    c == '!' || c == '@' || c == '#' || c == '$' || c == '%' || c == '^' || c == '&' || c == '*'
        || c == '(' || c == ')' || c == '_' || c == '+' || c == '-' || c == '=' || c == '['
        || c == ']' || c == '{' || c == '}' || c == '|' || c == ';' || c == ':' || c == ','
        || c == '.' || c == '<' || c == '>' || c == '?'
}

/// How many distinct characters `v` holds.
fn distinct_count(v: &Vec<char>) -> (r: usize)
    ensures
        r == count_distinct(v@),
{
    let n = v.len();
    let mut count: usize = 0;
    let mut i: usize = 0;
    while i < n
        invariant
            i <= n == v@.len(),
            count == count_distinct(v@.take(i as int)),
            count <= i,
        decreases v@.len() - i,
    {
        let mut seen = false;
        let mut j: usize = 0;
        while j < i
            invariant
                j <= i < v@.len(),
                seen <==> exists|k: int| 0 <= k < j && v@[k] == v@[i as int],
            decreases i - j,
        {
            if v[j] == v[i] {
                seen = true;
                j = i;
            } else {
                j = j + 1;
            }
        }
        proof {
            assert(v@.take(i as int + 1).drop_last() =~= v@.take(i as int));
            assert(v@.take(i as int + 1).last() == v@[i as int]);
            assert(seen <==> v@.take(i as int).contains(v@[i as int])) by {
                if seen {
                    let k = choose|k: int| 0 <= k < i && v@[k] == v@[i as int];
                    assert(v@.take(i as int)[k] == v@[i as int]);
                }
                if v@.take(i as int).contains(v@[i as int]) {
                    let k = choose|k: int|
                        0 <= k < i && v@.take(i as int)[k] == v@[i as int];
                    assert(v@[k] == v@[i as int]);
                }
            }
        }
        if !seen {
            count = count + 1;
        }
        i = i + 1;
    }
    proof {
        assert(v@.take(v@.len() as int) =~= v@);
    }
    count
}

/// Whether some character repeats three times in a row.
fn triple_run(v: &Vec<char>) -> (r: bool)
    ensures
        r == has_triple_run(v@),
{
    if v.len() < 3 {
        return false;
    }
    let mut i: usize = 0;
    while i + 2 < v.len()
        invariant
            3 <= v@.len() <= usize::MAX,
            i + 2 <= v@.len(),
            forall|k: int| 0 <= k < i && k + 2 < v@.len() ==> !(v@[k] == #[trigger] v@[k + 1]
                && v@[k] == v@[k + 2]),
        decreases v@.len() - i,
    {
        if v[i] == v[i + 1] && v[i] == v[i + 2] {
            return true;
        }
        i = i + 1;
    }
    false
}

/// Score `password`, exactly as [`strength_of`] states.
#[verifier::rlimit(30)]
pub fn calculate_password_strength(password: &str) -> (r: u8)
    ensures
        r == strength_of(password@),
        r <= 100,
{
    let chars = chars_of(password);
    let bytes = password.as_bytes();
    proof {
        vstd::slice::axiom_spec_len(bytes);
    }
    let len = bytes.len();
    assert(len == encode_utf8(password@).len());

    let mut score: u8 = 0;
    if len >= 8 {
        score = score + 20;
    }
    if len >= 12 {
        score = score + 15;
    }
    if len >= 16 {
        score = score + 10;
    }

    let mut has_lower = false;
    let mut has_upper = false;
    let mut has_digit = false;
    let mut has_sym = false;
    let mut i: usize = 0;
    while i < chars.len()
        invariant
            chars@ == password@,
            i <= chars@.len(),
            has_lower <==> exists|k: int| 0 <= k < i && 'a' <= #[trigger] chars@[k] <= 'z',
            has_upper <==> exists|k: int| 0 <= k < i && 'A' <= #[trigger] chars@[k] <= 'Z',
            has_digit <==> exists|k: int| 0 <= k < i && '0' <= #[trigger] chars@[k] <= '9',
            has_sym <==> exists|k: int| 0 <= k < i && is_symbol(#[trigger] chars@[k]),
        decreases chars@.len() - i,
    {
        let c = chars[i];
        if 'a' <= c && c <= 'z' {
            has_lower = true;
        }
        if 'A' <= c && c <= 'Z' {
            has_upper = true;
        }
        if '0' <= c && c <= '9' {
            has_digit = true;
        }
        if symbol_char(c) {
            has_sym = true;
        }
        i = i + 1;
    }
    if has_lower {
        score = score + 5;
    }
    if has_upper {
        score = score + 5;
    }
    if has_digit {
        score = score + 5;
    }
    if has_sym {
        score = score + 10;
    }

    let distinct = distinct_count(&chars);
    proof {
        assert(distinct == count_distinct(password@));
        let d = distinct as int;
        let l = len as int;
        assert((d > l / 2) == (d * 2 > l));
        assert((distinct > len / 2) == (count_distinct(password@) * 2
            > encode_utf8(password@).len()));
    }
    if distinct > len / 2 {
        score = score + 10;
    }

    let lowered = lower_chars(password);
    let mut word: Vec<char> = Vec::new();
    word.push('p');
    word.push('a');
    word.push('s');
    word.push('s');
    word.push('w');
    word.push('o');
    word.push('r');
    word.push('d');
    let mut digits: Vec<char> = Vec::new();
    digits.push('1');
    digits.push('2');
    digits.push('3');
    digits.push('4');
    digits.push('5');
    digits.push('6');
    proof {
        assert(word@ =~= seq!['p', 'a', 's', 's', 'w', 'o', 'r', 'd']);
        assert(digits@ =~= seq!['1', '2', '3', '4', '5', '6']);
    }
    let penalized = contains_chars(&lowered, &word) || contains_chars(&lowered, &digits)
        || triple_run(&chars);

    assert(score == base_score(password@));
    if penalized {
        if score >= 20 {
            score = score - 20;
        } else {
            score = 0;
        }
    }
    if score > 100 {
        score = 100;
    }
    score
}

} // verus!
