use vstd::prelude::*;

use crate::key::{
    alphabet, alphabet_array, decrypt_text, encrypt_text, invert_key, is_key, is_key_array,
    lemma_key_iff_permutation, lemma_inverse_key, CipherKey,
};
use crate::key::fold_upper;
use crate::letters::{fold_upper_char, upper_char};
use crate::text::substitute_text;

verus! {

/// A candidate key that is not 26 distinct letters `A` to `Z`, whatever their case.
#[derive(Debug, Clone, Copy, PartialEq, Eq)]
pub struct InvalidKeyError;

/// The cipher's state: the active key, and the texts that the screen around
/// it edits and shows.
pub struct TemplateApp {
    /// The screen on show: `0` about, `1` encrypt, `2` decrypt.
    pub tab: usize,
    /// The screen that was on show when the texts were last cleared.
    pub last_tab: usize,
    pub input_text: String,
    pub output_text: String,
    /// The active key, with which texts are enciphered and deciphered.
    pub cypher_key: CipherKey,
    /// The key as the user edits it; it becomes the active key only once valid.
    pub cypher_key_string: String,
}

/// Relies on rand's `SliceRandom::shuffle` with `thread_rng`: the letters are
/// swapped in place, so the same letters come back in some order.
#[verifier::external_body]
fn shuffle_letters(letters: &mut [char; 26])
    ensures
        final(letters)@.to_multiset() == old(letters)@.to_multiset(),
{
    rand::seq::SliceRandom::shuffle(&mut letters[..], &mut rand::thread_rng());
}

/// The key that `candidate` spells once its ASCII letters are in uppercase,
/// or the error where that is not 26 distinct letters `A` to `Z`.
pub fn parse_key(candidate: &str) -> (r: Result<[char; 26], InvalidKeyError>)
    ensures
        r is Ok <==> is_key(fold_upper(candidate@)),
        r matches Ok(k) ==> k@ == fold_upper(candidate@),
{
    if candidate.unicode_len() != 26 {
        return Err(InvalidKeyError);
    }
    let mut letters: [char; 26] = ['A'; 26];
    for i in 0..26usize
        invariant
            candidate@.len() == 26,
            forall|m: int| 0 <= m < i ==> letters@[m] == upper_char(candidate@[m]),
    {
        letters[i] = fold_upper_char(candidate.get_char(i));
    }
    assert(letters@ =~= fold_upper(candidate@));
    if is_key_array(&letters) {
        Ok(letters)
    } else {
        Err(InvalidKeyError)
    }
}

/// Whether `candidate` is 26 ASCII letters that, case set aside, are the
/// alphabet in some order.
pub fn validate(candidate: &str) -> (r: bool)
    ensures
        r == is_key(fold_upper(candidate@)),
{
    match parse_key(candidate) {
        Ok(_) => true,
        Err(_) => false,
    }
}

impl TemplateApp {
    /// The active key, as a sequence of 26 letters.
    pub open spec fn key(&self) -> Seq<char> {
        self.cypher_key@
    }

    /// The key as the user edits it.
    pub open spec fn edited_key(&self) -> Seq<char> {
        self.cypher_key_string@
    }

    /// The about screen on show, and both texts empty.
    pub open spec fn is_first_screen(&self) -> bool {
        &&& self.tab == 0
        &&& self.last_tab == 0
        &&& self.input_text@.len() == 0
        &&& self.output_text@.len() == 0
    }

    /// `self` and `other` hold the same screen state, whatever their keys.
    pub open spec fn same_screen(&self, other: &Self) -> bool {
        &&& self.tab == other.tab
        &&& self.last_tab == other.last_tab
        &&& self.input_text@ == other.input_text@
        &&& self.output_text@ == other.output_text@
        &&& self.cypher_key_string@ == other.cypher_key_string@
    }

    /// `text` enciphered with the active key.
    pub fn encrypt(&self, text: &str) -> (r: String)
        ensures
            r@ == encrypt_text(self.key(), text@),
    {
        let key = self.cypher_key.letters();
        substitute_text(key, text)
    }

    /// `text` deciphered with the active key.
    pub fn decrypt(&self, text: &str) -> (r: String)
        ensures
            r@ == decrypt_text(self.key(), text@),
    {
        let inverse = invert_key(self.cypher_key.letters());
        proof {
            lemma_inverse_key(self.key(), text@);
        }
        substitute_text(&inverse, text)
    }

    /// Whether the key being edited is valid: 26 ASCII letters that, case set
    /// aside, are the alphabet in some order.
    pub fn is_valid_key(&self) -> (r: bool)
        ensures
            r == is_key(fold_upper(self.edited_key())),
    {
        validate(self.cypher_key_string.as_str())
    }

    /// Makes `letters` the active key where it is a key; otherwise leaves
    /// everything as it was.
    pub fn set_key_letters(&mut self, letters: [char; 26]) -> (r: Result<
        [char; 26],
        InvalidKeyError,
    >)
        ensures
            final(self).same_screen(old(self)),
            r is Ok <==> is_key(letters@),
            r is Ok ==> r->Ok_0 == letters && final(self).key() == letters@,
            r is Err ==> final(self).key() == old(self).key(),
    {
        match CipherKey::new(letters) {
            Some(k) => {
                self.cypher_key = k;
                Ok(letters)
            },
            None => Err(InvalidKeyError),
        }
    }

    /// Makes `candidate`, with its ASCII letters in uppercase, the active key
    /// where that is 26 distinct letters `A` to `Z`; otherwise leaves everything
    /// as it was.
    pub fn set_key(&mut self, candidate: &str) -> (r: Result<[char; 26], InvalidKeyError>)
        ensures
            final(self).same_screen(old(self)),
            r is Ok <==> is_key(fold_upper(candidate@)),
            r is Ok ==> r->Ok_0@ == fold_upper(candidate@) && final(self).key() == fold_upper(
                candidate@,
            ),
            r is Err ==> final(self).key() == old(self).key(),
    {
        match parse_key(candidate) {
            Ok(k) => self.set_key_letters(k),
            Err(e) => Err(e),
        }
    }

    /// Replaces the active key with a random order of the alphabet, and
    /// returns it.
    pub fn randomize_key(&mut self) -> (r: [char; 26])
        ensures
            final(self).same_screen(old(self)),
            final(self).key() == r@,
            r@.to_multiset() == alphabet().to_multiset(),
            is_key(r@),
    {
        let mut letters = alphabet_array();
        shuffle_letters(&mut letters);
        proof {
            lemma_key_iff_permutation(letters@);
        }
        self.cypher_key = CipherKey::from_key(letters);
        letters
    }

    /// The active key.
    pub fn cypher_key(&self) -> (r: [char; 26])
        ensures
            r@ == self.key(),
    {
        *self.cypher_key.letters()
    }

    /// The active key written out: its 26 uppercase letters in order.
    pub fn key_string(&self) -> (r: String)
        ensures
            r@ == self.key(),
    {
        let letters = self.cypher_key.letters();
        let mut s = String::new();
        for i in 0..26usize
            invariant
                s@ == self.key().take(i as int),
                letters@ == self.key(),
        {
            s.push(letters[i]);
            assert(self.key().take(i as int + 1) =~= self.key().take(i as int).push(
                self.key()[i as int],
            ));
        }
        assert(self.key().take(26) =~= self.key());
        s
    }
}

impl Default for TemplateApp {
    /// The first screen, empty texts, and the alphabet in order as the key.
    fn default() -> (r: Self)
        ensures
            is_key(r.key()),
            r.key() == alphabet(),
            r.is_first_screen(),
            r.edited_key().len() == 0,
    {
        TemplateApp {
            tab: 0,
            last_tab: 0,
            input_text: String::new(),
            output_text: String::new(),
            cypher_key: CipherKey::identity(),
            cypher_key_string: String::new(),
        }
    }
}

} // verus!
