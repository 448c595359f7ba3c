use vstd::prelude::*;

verus! {

/// An uppercase ASCII letter, `A` to `Z`.
pub open spec fn is_upper(c: char) -> bool {
    'A' <= c && c <= 'Z'
}

/// A lowercase ASCII letter, `a` to `z`.
pub open spec fn is_lower(c: char) -> bool {
    'a' <= c && c <= 'z'
}

/// An ASCII letter of either case.
pub open spec fn is_letter(c: char) -> bool {
    is_upper(c) || is_lower(c)
}

/// The uppercase letter at position `i` of the alphabet (`0` is `A`).
pub open spec fn upper_letter(i: int) -> char {
    ((i + 65) as u8) as char
}

/// The position of an ASCII letter in the alphabet, whatever its case.
pub open spec fn letter_index(c: char) -> int {
    if is_upper(c) {
        c as int - 65
    } else {
        c as int - 97
    }
}

/// The uppercase form of an ASCII letter; any other character is kept.
pub open spec fn upper_char(c: char) -> char {
    if is_lower(c) {
        ((c as int - 32) as u8) as char
    } else {
        c
    }
}

/// The lowercase form of an ASCII letter; any other character is kept.
pub open spec fn lower_char(c: char) -> char {
    if is_upper(c) {
        ((c as int + 32) as u8) as char
    } else {
        c
    }
}

/// `u` written in the case of `c`: lowercase where `c` is a lowercase letter,
/// as it is otherwise.
pub open spec fn with_case_of(c: char, u: char) -> char {
    if is_lower(c) {
        lower_char(u)
    } else {
        u
    }
}

/// The facts on letters and their cases that the cipher's proofs rest on.
pub proof fn lemma_letter_facts(c: char, i: int)
    ensures
        is_letter(c) ==> 0 <= letter_index(c) < 26,
        is_letter(c) ==> is_upper(upper_char(c)),
        is_letter(c) ==> upper_letter(letter_index(c)) == upper_char(c),
        is_letter(c) ==> letter_index(upper_char(c)) == letter_index(c),
        is_lower(c) ==> lower_char(upper_char(c)) == c,
        is_upper(c) ==> upper_char(c) == c,
        is_upper(c) ==> is_lower(lower_char(c)),
        is_upper(c) ==> upper_char(lower_char(c)) == c,
        0 <= i < 26 ==> is_upper(upper_letter(i)) && letter_index(upper_letter(i)) == i,
{
}

/// Two uppercase letters at the same position of the alphabet are the same letter.
pub proof fn lemma_letter_index_injective(a: char, b: char)
    requires
        is_upper(a),
        is_upper(b),
        letter_index(a) == letter_index(b),
    ensures
        a == b,
{
}

pub fn letter_at(i: u8) -> (c: char)
    requires
        i < 26,
    ensures
        c == upper_letter(i as int),
        is_upper(c),
        letter_index(c) == i,
{
    (65u8 + i) as char
}

pub fn index_of(c: char) -> (i: usize)
    requires
        is_letter(c),
    ensures
        i == letter_index(c),
        i < 26,
{
    if c <= 'Z' {
        (c as u32 - 65) as usize
    } else {
        (c as u32 - 97) as usize
    }
}

/// The uppercase form of `c` where it is an ASCII letter; `c` otherwise.
pub fn fold_upper_char(c: char) -> (r: char)
    ensures
        r == upper_char(c),
{
    if 'a' <= c && c <= 'z' {
        ((c as u32 - 32) as u8) as char
    } else {
        c
    }
}

/// Writes the uppercase letter `u` in the case of `c`.
pub fn apply_case_of(c: char, u: char) -> (r: char)
    requires
        is_upper(u),
    ensures
        r == with_case_of(c, u),
{
    if 'a' <= c && c <= 'z' {
        ((u as u32 + 32) as u8) as char
    } else {
        u
    }
}

} // verus!
