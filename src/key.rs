use vstd::prelude::*;
use vstd::seq_lib::{to_multiset_contains, to_multiset_len};
use vstd::set_lib::{lemma_int_range, lemma_subset_equality, set_int_range};

use crate::letters::{
    is_letter, is_lower, is_upper, lemma_letter_facts, lemma_letter_index_injective, letter_index, upper_char,
    upper_letter, with_case_of, index_of, letter_at,
};

verus! {

/// The alphabet in order, `A` to `Z`.
pub open spec fn alphabet() -> Seq<char> {
    Seq::new(26, |i: int| upper_letter(i))
}

/// A key: 26 uppercase letters, no two alike. Position `i` holds the letter
/// that the `i`-th letter of the alphabet is replaced by.
pub open spec fn is_key(k: Seq<char>) -> bool {
    &&& k.len() == 26
    &&& forall|i: int| 0 <= i < 26 ==> is_upper(#[trigger] k[i])
    &&& k.no_duplicates()
}

/// The position in the key `k` that holds the uppercase letter `u`.
pub open spec fn key_position(k: Seq<char>, u: char) -> int {
    choose|i: int| 0 <= i < 26 && k[i] == u
}

/// One character enciphered with `k`: a letter is replaced by the key's letter
/// at its position, in its own case; anything else is kept.
pub open spec fn encrypt_char(k: Seq<char>, c: char) -> char {
    if is_letter(c) {
        with_case_of(c, k[letter_index(c)])
    } else {
        c
    }
}

/// One character deciphered with `k`: a letter is replaced by the letter of the
/// alphabet whose key letter it is, in its own case; anything else is kept.
pub open spec fn decrypt_char(k: Seq<char>, c: char) -> char {
    if is_letter(c) {
        with_case_of(c, upper_letter(key_position(k, upper_char(c))))
    } else {
        c
    }
}

/// A text enciphered with `k`, character by character.
pub open spec fn encrypt_text(k: Seq<char>, t: Seq<char>) -> Seq<char> {
    t.map_values(|c: char| encrypt_char(k, c))
}

/// A text deciphered with `k`, character by character.
pub open spec fn decrypt_text(k: Seq<char>, t: Seq<char>) -> Seq<char> {
    t.map_values(|c: char| decrypt_char(k, c))
}

/// A text with its ASCII letters in uppercase; every other character is kept.
pub open spec fn fold_upper(s: Seq<char>) -> Seq<char> {
    s.map_values(|c: char| upper_char(c))
}

/// A candidate folds to a key exactly when it is 26 characters, each an ASCII
/// letter, and no letter comes twice once case is set aside.
pub proof fn lemma_fold_condition(s: Seq<char>)
    ensures
        is_key(fold_upper(s)) <==> {
            &&& s.len() == 26
            &&& forall|i: int| 0 <= i < 26 ==> is_letter(#[trigger] s[i])
            &&& forall|i: int, j: int|
                0 <= i < 26 && 0 <= j < 26 && i != j ==> upper_char(#[trigger] s[i]) != upper_char(
                    #[trigger] s[j],
                )
        },
{
    let f = fold_upper(s);
    assert forall|i: int| 0 <= i < s.len() implies #[trigger] f[i] == upper_char(s[i]) && (is_letter(
        s[i],
    ) <==> is_upper(f[i])) by {
        lemma_letter_facts(s[i], 0);
    }
    if is_key(f) {
        assert forall|i: int| 0 <= i < 26 implies is_letter(#[trigger] s[i]) by {
            assert(is_upper(f[i]));
        }
        assert forall|i: int, j: int|
            0 <= i < 26 && 0 <= j < 26 && i != j implies upper_char(#[trigger] s[i]) != upper_char(
            #[trigger] s[j],
        ) by {
            assert(f[i] != f[j]);
        }
    }
    if s.len() == 26 && (forall|i: int| 0 <= i < 26 ==> is_letter(#[trigger] s[i])) && (forall|
        i: int,
        j: int,
    | 0 <= i < 26 && 0 <= j < 26 && i != j ==> upper_char(#[trigger] s[i]) != upper_char(
        #[trigger] s[j],
    )) {
        assert forall|i: int, j: int| 0 <= i < f.len() && 0 <= j < f.len() && i != j implies f[i]
            != f[j] by {
            assert(upper_char(s[i]) != upper_char(s[j]));
        }
        assert forall|i: int| 0 <= i < 26 implies is_upper(#[trigger] f[i]) by {
            assert(is_letter(s[i]));
        }
    }
}

/// A key is already in uppercase: folding it changes nothing.
pub proof fn lemma_key_folds_to_itself(k: Seq<char>)
    requires
        is_key(k),
    ensures
        fold_upper(k) == k,
{
    assert forall|i: int| 0 <= i < k.len() implies fold_upper(k)[i] == k[i] by {
        lemma_letter_facts(k[i], 0);
    }
    assert(fold_upper(k) =~= k);
}

/// Every uppercase letter stands somewhere in a key.
pub proof fn lemma_key_covers_alphabet(k: Seq<char>, u: char)
    requires
        is_key(k),
        is_upper(u),
    ensures
        exists|i: int| 0 <= i < 26 && k[i] == u,
{
    let ks = k.map_values(|c: char| letter_index(c));
    assert forall|a: int, b: int| 0 <= a < ks.len() && 0 <= b < ks.len() && a != b implies ks[a]
        != ks[b] by {
        if ks[a] == ks[b] {
            lemma_letter_index_injective(k[a], k[b]);
        }
    }
    ks.unique_seq_to_set();
    lemma_int_range(0, 26);
    assert forall|j: int| ks.to_set().contains(j) implies set_int_range(0, 26).contains(j) by {
        let i = choose|i: int| 0 <= i < ks.len() && ks[i] == j;
        assert(is_upper(k[i]));
    }
    lemma_subset_equality(ks.to_set(), set_int_range(0, 26));
    lemma_letter_facts(u, 0);
    assert(set_int_range(0, 26).contains(letter_index(u)));
    assert(ks.to_set().contains(letter_index(u)));
    let i = choose|i: int| 0 <= i < ks.len() && ks[i] == letter_index(u);
    lemma_letter_index_injective(k[i], u);
}

/// In a key, the position of the letter at position `i` is `i`.
pub proof fn lemma_key_position(k: Seq<char>, i: int)
    requires
        is_key(k),
        0 <= i < 26,
    ensures
        key_position(k, k[i]) == i,
{
    let j = key_position(k, k[i]);
    assert(0 <= j < 26 && k[j] == k[i]);
}

/// Deciphering a character undoes enciphering it, and the other way round.
pub proof fn lemma_char_round_trip(k: Seq<char>, c: char)
    requires
        is_key(k),
    ensures
        decrypt_char(k, encrypt_char(k, c)) == c,
        encrypt_char(k, decrypt_char(k, c)) == c,
{
    lemma_letter_facts(c, 0);
    if is_letter(c) {
        let i = letter_index(c);
        let u = k[i];
        lemma_letter_facts(u, i);
        lemma_key_position(k, i);
        let e = encrypt_char(k, c);
        lemma_letter_facts(e, 0);
        assert(upper_char(e) == u);
        assert(decrypt_char(k, e) == c);

        let v = upper_char(c);
        lemma_key_covers_alphabet(k, v);
        let p = key_position(k, v);
        assert(0 <= p < 26 && k[p] == v);
        lemma_letter_facts(upper_letter(p), p);
        let d = decrypt_char(k, c);
        lemma_letter_facts(d, p);
        assert(letter_index(d) == p);
        assert(encrypt_char(k, d) == c);
    }
}

/// For a key `k` and any text `t`, deciphering the enciphered text gives `t`
/// back, and enciphering the deciphered text does too.
pub proof fn lemma_round_trip(k: Seq<char>, t: Seq<char>)
    requires
        is_key(k),
    ensures
        decrypt_text(k, encrypt_text(k, t)) == t,
        encrypt_text(k, decrypt_text(k, t)) == t,
{
    assert forall|i: int| 0 <= i < t.len() implies decrypt_text(k, encrypt_text(k, t))[i] == t[i]
        && encrypt_text(k, decrypt_text(k, t))[i] == t[i] by {
        lemma_char_round_trip(k, t[i]);
    }
    assert(decrypt_text(k, encrypt_text(k, t)) =~= t);
    assert(encrypt_text(k, decrypt_text(k, t)) =~= t);
}

/// Enciphering keeps the length of a text and every character that is not an
/// ASCII letter in its place; a letter becomes a letter of the same case.
pub proof fn lemma_encrypt_keeps_layout(k: Seq<char>, t: Seq<char>)
    requires
        is_key(k),
    ensures
        encrypt_text(k, t).len() == t.len(),
        forall|i: int|
            0 <= i < t.len() && !is_letter(t[i]) ==> #[trigger] encrypt_text(k, t)[i] == t[i],
        forall|i: int|
            0 <= i < t.len() && is_upper(t[i]) ==> is_upper(#[trigger] encrypt_text(k, t)[i]),
        forall|i: int|
            0 <= i < t.len() && is_lower(t[i]) ==> is_lower(#[trigger] encrypt_text(k, t)[i]),
{
    assert forall|i: int| 0 <= i < t.len() && is_letter(t[i]) implies (is_upper(t[i]) ==> is_upper(
        #[trigger] encrypt_text(k, t)[i])) && (is_lower(t[i]) ==> is_lower(encrypt_text(k, t)[i])) by {
        lemma_letter_facts(t[i], 0);
        lemma_letter_facts(k[letter_index(t[i])], 0);
    }
}

/// The alphabet in order is a key, and with it every text enciphers and
/// deciphers to itself.
pub proof fn lemma_identity_key(t: Seq<char>)
    ensures
        is_key(alphabet()),
        encrypt_text(alphabet(), t) == t,
        decrypt_text(alphabet(), t) == t,
{
    let a = alphabet();
    assert forall|i: int| 0 <= i < 26 implies is_upper(#[trigger] a[i]) by {
        lemma_letter_facts('A', i);
    }
    assert forall|i: int, j: int| 0 <= i < 26 && 0 <= j < 26 && i != j implies a[i] != a[j] by {
        lemma_letter_facts('A', i);
        lemma_letter_facts('A', j);
    }
    assert forall|i: int| 0 <= i < t.len() implies encrypt_text(a, t)[i] == t[i] by {
        let c = t[i];
        lemma_letter_facts(c, 0);
        if is_letter(c) {
            lemma_letter_facts(a[letter_index(c)], letter_index(c));
            lemma_letter_facts(upper_char(c), 0);
        }
    }
    assert(encrypt_text(a, t) =~= t);
    lemma_round_trip(a, t);
}

/// A sequence is a key exactly when it holds the letters of the alphabet, each
/// once, in some order.
pub proof fn lemma_key_iff_permutation(s: Seq<char>)
    ensures
        is_key(s) <==> s.to_multiset() =~= alphabet().to_multiset(),
{
    broadcast use vstd::seq_lib::group_to_multiset_ensures;

    let a = alphabet();
    lemma_identity_key(Seq::empty());
    a.lemma_multiset_has_no_duplicates();
    assert forall|x: char| a.contains(x) <==> is_upper(x) by {
        if is_upper(x) {
            lemma_letter_facts(x, 0);
            assert(a[letter_index(x)] == x);
        }
    }
    if is_key(s) {
        s.lemma_multiset_has_no_duplicates();
        assert forall|x: char| s.contains(x) <==> is_upper(x) by {
            if is_upper(x) {
                lemma_key_covers_alphabet(s, x);
            }
        }
        assert forall|x: char| s.to_multiset().count(x) == a.to_multiset().count(x) by {
            if is_upper(x) {
                assert(s.to_multiset().contains(x));
                assert(a.to_multiset().contains(x));
            }
        }
    }
    if s.to_multiset() =~= a.to_multiset() {
        to_multiset_len(s);
        to_multiset_len(a);
        assert forall|i: int| 0 <= i < 26 implies is_upper(#[trigger] s[i]) by {
            assert(s.contains(s[i]));
            to_multiset_contains(s, s[i]);
            to_multiset_contains(a, s[i]);
        }
        s.lemma_multiset_has_no_duplicates_conv();
    }
}

/// The inverse of the key `k`: position `j` holds the letter of the alphabet
/// whose key letter is the `j`-th letter.
pub open spec fn inverse_key(k: Seq<char>) -> Seq<char> {
    Seq::new(26, |j: int| upper_letter(key_position(k, upper_letter(j))))
}

/// Deciphering with a key is enciphering with its inverse.
pub proof fn lemma_inverse_key(k: Seq<char>, t: Seq<char>)
    requires
        is_key(k),
    ensures
        forall|j: int| 0 <= j < 26 ==> is_upper(#[trigger] inverse_key(k)[j]),
        decrypt_text(k, t) == encrypt_text(inverse_key(k), t),
{
    assert forall|j: int| 0 <= j < 26 implies is_upper(#[trigger] inverse_key(k)[j]) by {
        lemma_letter_facts(upper_letter(j), j);
        lemma_key_covers_alphabet(k, upper_letter(j));
        let p = key_position(k, upper_letter(j));
        lemma_letter_facts(upper_letter(p), p);
    }
    assert forall|i: int| 0 <= i < t.len() implies decrypt_text(k, t)[i] == encrypt_text(
        inverse_key(k),
        t,
    )[i] by {
        lemma_letter_facts(t[i], 0);
    }
    assert(decrypt_text(k, t) =~= encrypt_text(inverse_key(k), t));
}

/// Whether `k` is a key.
pub fn is_key_array(k: &[char; 26]) -> (r: bool)
    ensures
        r == is_key(k@),
{
    let mut seen: [bool; 26] = [false; 26];
    for i in 0..26usize
        invariant
            k@.len() == 26,
            forall|m: int| 0 <= m < i ==> is_upper(#[trigger] k@[m]),
            forall|m: int, p: int| 0 <= m < p < i ==> k@[m] != k@[p],
            forall|j: int|
                0 <= j < 26 ==> (#[trigger] seen@[j] <==> exists|m: int|
                    0 <= m < i && letter_index(k@[m]) == j),
    {
        let c = k[i];
        if !('A' <= c && c <= 'Z') {
            return false;
        }
        let j = index_of(c);
        if seen[j] {
            proof {
                let m = choose|m: int| 0 <= m < i && letter_index(k@[m]) == j as int;
                lemma_letter_index_injective(k@[m], c);
                assert(k@[m] == k@[i as int]);
            }
            return false;
        }
        assert forall|m: int| 0 <= m < i implies k@[m] != c by {
            if k@[m] == c {
                assert(seen@[letter_index(k@[m])]);
            }
        }
        seen[j] = true;
    }
    true
}

/// The alphabet in order, as an array.
pub fn alphabet_array() -> (r: [char; 26])
    ensures
        r@ == alphabet(),
{
    let mut r: [char; 26] = ['A'; 26];
    for i in 0..26u8
        invariant
            forall|m: int| 0 <= m < i ==> r@[m] == upper_letter(m),
    {
        let c = letter_at(i);
        r[i as usize] = c;
    }
    assert(r@ =~= alphabet());
    r
}

/// The inverse of the key `k`, as an array.
pub fn invert_key(k: &[char; 26]) -> (r: [char; 26])
    requires
        is_key(k@),
    ensures
        r@ == inverse_key(k@),
{
    let mut r: [char; 26] = ['A'; 26];
    for i in 0..26u8
        invariant
            is_key(k@),
            forall|m: int| 0 <= m < i ==> r@[letter_index(#[trigger] k@[m])] == upper_letter(m),
    {
        let c = letter_at(i);
        let j = index_of(k[i as usize]);
        r[j] = c;
        assert forall|m: int| 0 <= m < i + 1 implies r@[letter_index(#[trigger] k@[m])]
            == upper_letter(m) by {
            if m < i {
                lemma_letter_facts(k@[m], 0);
                if letter_index(k@[m]) == j {
                    lemma_letter_index_injective(k@[m], k@[i as int]);
                }
            }
        }
    }
    assert forall|j: int| 0 <= j < 26 implies r@[j] == inverse_key(k@)[j] by {
        let u = upper_letter(j);
        lemma_letter_facts(u, j);
        lemma_key_covers_alphabet(k@, u);
        let p = key_position(k@, u);
        assert(r@[letter_index(k@[p])] == upper_letter(p));
    }
    assert(r@ =~= inverse_key(k@));
    r
}

/// A key that has passed validation: 26 distinct uppercase letters, which
/// only the checked constructors below can make.
pub struct CipherKey {
    letters: [char; 26],
}

impl CipherKey {
    /// The letters are always a key.
    #[verifier::type_invariant]
    spec fn holds_key(&self) -> bool {
        is_key(self.letters@)
    }
}

impl View for CipherKey {
    type V = Seq<char>;

    closed spec fn view(&self) -> Seq<char> {
        self.letters@
    }
}

impl CipherKey {
    /// The key that leaves every letter as it is: the alphabet in order.
    pub fn identity() -> (r: Self)
        ensures
            r@ == alphabet(),
            is_key(r@),
    {
        proof {
            lemma_identity_key(Seq::empty());
        }
        CipherKey { letters: alphabet_array() }
    }

    /// `letters` as a key, where they are 26 distinct uppercase letters.
    pub fn new(letters: [char; 26]) -> (r: Option<Self>)
        ensures
            r is Some <==> is_key(letters@),
            r matches Some(k) ==> k@ == letters@,
    {
        if is_key_array(&letters) {
            Some(CipherKey { letters })
        } else {
            None
        }
    }

    /// `letters`, already known to be a key, as a key.
    pub fn from_key(letters: [char; 26]) -> (r: Self)
        requires
            is_key(letters@),
        ensures
            r@ == letters@,
    {
        CipherKey { letters }
    }

    /// The letters of the key, in order; they are always a key.
    pub fn letters(&self) -> (r: &[char; 26])
        ensures
            r@ == self@,
            is_key(r@),
    {
        proof {
            use_type_invariant(self);
        }
        &self.letters
    }
}

} // verus!
