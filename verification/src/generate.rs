//! Secure password generation from a configurable character-class pool.
//!
//! The pool is the concatenation of the selected classes; each output
//! character is drawn independently and uniformly from it with an
//! OS-sourced random word and rejection sampling, so no pool character is
//! favoured by modulo bias.

use vstd::prelude::*;
use argon2::password_hash::rand_core::RngCore;
use crate::error::ValidationError;
use crate::text::string_from_chars;

verus! {

/// The lowercase class, in pool order.
pub open spec fn lower_class() -> Seq<char> {
    seq!['a', 'b', 'c', 'd', 'e', 'f', 'g', 'h', 'i', 'j', 'k', 'l', 'm', 'n', 'o', 'p', 'q', 'r', 's', 't', 'u', 'v', 'w', 'x', 'y', 'z']
}

/// The uppercase class, in pool order.
pub open spec fn upper_class() -> Seq<char> {
    seq!['A', 'B', 'C', 'D', 'E', 'F', 'G', 'H', 'I', 'J', 'K', 'L', 'M', 'N', 'O', 'P', 'Q', 'R', 'S', 'T', 'U', 'V', 'W', 'X', 'Y', 'Z']
}

/// The digit class, in pool order.
pub open spec fn digit_class() -> Seq<char> {
    seq!['0', '1', '2', '3', '4', '5', '6', '7', '8', '9']
}

/// The symbol class, in pool order.
pub open spec fn symbol_class() -> Seq<char> {
    seq!['!', '@', '#', '$', '%', '^', '&', '*', '(', ')', '_', '+', '-', '=', '[', ']', '{', '}', '|', ';', ':', ',', '.', '<', '>', '?']
}

/// The pool that a class selection induces: the selected classes,
/// concatenated in a fixed order.
pub open spec fn pool_of(
    include_uppercase: bool,
    include_lowercase: bool,
    include_numbers: bool,
    include_symbols: bool,
) -> Seq<char> {
    (if include_lowercase {
        lower_class()
    } else {
        Seq::empty()
    }) + (if include_uppercase {
        upper_class()
    } else {
        Seq::empty()
    }) + (if include_numbers {
        digit_class()
    } else {
        Seq::empty()
    }) + (if include_symbols {
        symbol_class()
    } else {
        Seq::empty()
    })
}

/// Relies on `rand_core::OsRng::next_u32`: a word from the operating
/// system's cryptographically secure generator.  Nothing can be promised
/// of its value; the call aborts only if that generator fails, an
/// environmental condition no precondition can exclude.
#[verifier::external_body]
fn random_u32() -> u32 {
    argon2::password_hash::rand_core::OsRng.next_u32()
}

/// An index below `bound`, by rejection sampling: words at or above the
/// largest multiple of `bound` are redrawn, so accepted draws are uniform.
/// Each redraw happens with probability below 2^-24; after 64 rejections
/// in a row the last word is taken as it is.
fn draw_index(bound: usize) -> (r: usize)
    requires
        1 <= bound <= 0xff,
    ensures
        r < bound,
{
    let b = bound as u32;
    let zone = u32::MAX - (u32::MAX % b);
    let mut tries: usize = 0;
    while tries < 64
        invariant
            1 <= b <= 0xff,
            b == bound,
        decreases 64 - tries,
    {
        let x = random_u32();
        if x < zone {
            return (x % b) as usize;
        }
        tries = tries + 1;
    }
    (random_u32() % b) as usize
}

/// Append every character of the lowercase class to `pool`.
fn push_lower(pool: &mut Vec<char>)
    ensures
        final(pool)@ == old(pool)@ + lower_class(),
{
    let ghost orig = pool@;
    pool.push('a');
    pool.push('b');
    pool.push('c');
    pool.push('d');
    pool.push('e');
    pool.push('f');
    pool.push('g');
    pool.push('h');
    pool.push('i');
    pool.push('j');
    pool.push('k');
    pool.push('l');
    pool.push('m');
    pool.push('n');
    pool.push('o');
    pool.push('p');
    pool.push('q');
    pool.push('r');
    pool.push('s');
    pool.push('t');
    pool.push('u');
    pool.push('v');
    pool.push('w');
    pool.push('x');
    pool.push('y');
    pool.push('z');
    assert(pool@ =~= orig + lower_class());
}

/// Append every character of the uppercase class to `pool`.
fn push_upper(pool: &mut Vec<char>)
    ensures
        final(pool)@ == old(pool)@ + upper_class(),
{
    let ghost orig = pool@;
    pool.push('A');
    pool.push('B');
    pool.push('C');
    pool.push('D');
    pool.push('E');
    pool.push('F');
    pool.push('G');
    pool.push('H');
    pool.push('I');
    pool.push('J');
    pool.push('K');
    pool.push('L');
    pool.push('M');
    pool.push('N');
    pool.push('O');
    pool.push('P');
    pool.push('Q');
    pool.push('R');
    pool.push('S');
    pool.push('T');
    pool.push('U');
    pool.push('V');
    pool.push('W');
    pool.push('X');
    pool.push('Y');
    pool.push('Z');
    assert(pool@ =~= orig + upper_class());
}

/// Append every character of the digit class to `pool`.
fn push_digits(pool: &mut Vec<char>)
    ensures
        final(pool)@ == old(pool)@ + digit_class(),
{
    let ghost orig = pool@;
    pool.push('0');
    pool.push('1');
    pool.push('2');
    pool.push('3');
    pool.push('4');
    pool.push('5');
    pool.push('6');
    pool.push('7');
    pool.push('8');
    pool.push('9');
    assert(pool@ =~= orig + digit_class());
}

/// Append every character of the symbol class to `pool`.
fn push_symbols(pool: &mut Vec<char>)
    ensures
        final(pool)@ == old(pool)@ + symbol_class(),
{
    let ghost orig = pool@;
    pool.push('!');
    pool.push('@');
    pool.push('#');
    pool.push('$');
    pool.push('%');
    pool.push('^');
    pool.push('&');
    pool.push('*');
    pool.push('(');
    pool.push(')');
    pool.push('_');
    pool.push('+');
    pool.push('-');
    pool.push('=');
    pool.push('[');
    pool.push(']');
    pool.push('{');
    pool.push('}');
    pool.push('|');
    pool.push(';');
    pool.push(':');
    pool.push(',');
    pool.push('.');
    pool.push('<');
    pool.push('>');
    pool.push('?');
    assert(pool@ =~= orig + symbol_class());
}

/// Generate a random password of `length` characters drawn from the
/// selected classes.  The length must lie in [4, 128] and at least one
/// class must be selected; each output character belongs to the pool.
pub fn generate_password(
    length: usize,
    include_uppercase: bool,
    include_lowercase: bool,
    include_numbers: bool,
    include_symbols: bool,
) -> (r: Result<String, ValidationError>)
    ensures
        length < 4 || length > 128 ==> r == Err::<String, ValidationError>(
            ValidationError::InvalidLength,
        ),
        4 <= length <= 128 && !(include_uppercase || include_lowercase || include_numbers
            || include_symbols) ==> r == Err::<String, ValidationError>(
            ValidationError::NoCharacterClasses,
        ),
        4 <= length <= 128 && (include_uppercase || include_lowercase || include_numbers
            || include_symbols) ==> (r matches Ok(p) && p@.len() == length && (forall|i: int|
            0 <= i < p@.len() ==> pool_of(
                include_uppercase,
                include_lowercase,
                include_numbers,
                include_symbols,
            ).contains(#[trigger] p@[i]))),
{
    if length < 4 || length > 128 {
        return Err(ValidationError::InvalidLength);
    }
    let mut pool: Vec<char> = Vec::new();
    if include_lowercase {
        push_lower(&mut pool);
    }
    if include_uppercase {
        push_upper(&mut pool);
    }
    if include_numbers {
        push_digits(&mut pool);
    }
    if include_symbols {
        push_symbols(&mut pool);
    }
    assert(pool@ =~= pool_of(include_uppercase, include_lowercase, include_numbers, include_symbols));
    if pool.len() == 0 {
        return Err(ValidationError::NoCharacterClasses);
    }
    let mut out: Vec<char> = Vec::new();
    let mut k: usize = 0;
    while k < length
        invariant
            k <= length,
            out@.len() == k,
            1 <= pool@.len() <= 0xff,
            pool@ == pool_of(include_uppercase, include_lowercase, include_numbers, include_symbols),
            forall|i: int| 0 <= i < out@.len() ==> pool@.contains(#[trigger] out@[i]),
        decreases length - k,
    {
        let idx = draw_index(pool.len());
        out.push(pool[idx]);
        k = k + 1;
    }
    Ok(string_from_chars(&out))
}

} // verus!
