use vstd::prelude::*;

use crate::key::{encrypt_char, encrypt_text};
use crate::letters::{apply_case_of, index_of, is_upper};

verus! {

/// Relies on `String::push`, which appends one character to the end of the string.
pub assume_specification[ String::push ](s: &mut String, ch: char)
    ensures
        final(s)@ == old(s)@.push(ch),
;

/// One character substituted through `table`, as enciphering with the key
/// `table` does.
pub fn substitute_char(table: &[char; 26], c: char) -> (r: char)
    requires
        forall|i: int| 0 <= i < 26 ==> is_upper(#[trigger] table@[i]),
    ensures
        r == encrypt_char(table@, c),
{
    if ('A' <= c && c <= 'Z') || ('a' <= c && c <= 'z') {
        let i = index_of(c);
        apply_case_of(c, table[i])
    } else {
        c
    }
}

/// A text substituted through `table`, character by character.
pub fn substitute_text(table: &[char; 26], text: &str) -> (r: String)
    requires
        forall|i: int| 0 <= i < 26 ==> is_upper(#[trigger] table@[i]),
    ensures
        r@ == encrypt_text(table@, text@),
{
    let mut out = String::new();
    for c in it: text.chars()
        invariant
            forall|i: int| 0 <= i < 26 ==> is_upper(#[trigger] table@[i]),
            it.seq() == text@,
            out@ == encrypt_text(table@, text@.take(it.index() as int)),
    {
        let d = substitute_char(table, c);
        out.push(d);
        assert(encrypt_text(table@, text@.take(it.index() as int + 1)) =~= encrypt_text(
            table@,
            text@.take(it.index() as int),
        ).push(d));
    }
    assert(text@.take(text@.len() as int) =~= text@);
    out
}

} // verus!
