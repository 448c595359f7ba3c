use std::collections::HashSet;

use substitution_cipher::{parse_key, validate, InvalidKeyError, TemplateApp};

const QWERTY: &str = "QWERTYUIOPASDFGHJKLZXCVBNM";
const REVERSED: &str = "ZYXWVUTSRQPONMLKJIHGFEDCBA";
const ALPHABET: &str = "ABCDEFGHIJKLMNOPQRSTUVWXYZ";

fn app_with_key(key: &str) -> TemplateApp {
    let mut app = TemplateApp::default();
    assert!(app.set_key(key).is_ok());
    app
}

#[test]
fn round_trip_restores_letters() {
    let app = app_with_key(QWERTY);
    let text = "TheQuickBrownFoxJumpsOverTheLazyDog";
    let enc = app.encrypt(text);
    assert_ne!(enc, text);
    assert_eq!(app.decrypt(&enc), text);
    assert_eq!(app.encrypt(&app.decrypt(text)), text);
}

#[test]
fn round_trip_with_random_keys() {
    let mut app = TemplateApp::default();
    for _ in 0..50 {
        app.randomize_key();
        let text = "Mixed CASE text, with 42 digits & punctuation!";
        assert_eq!(app.decrypt(&app.encrypt(text)), text);
    }
}

#[test]
fn encrypt_keeps_length_and_non_letters() {
    let app = app_with_key(QWERTY);
    let text = "Hello, World! 123 \u{e9}\u{3b1} []{}";
    let enc = app.encrypt(text);
    let a: Vec<char> = text.chars().collect();
    let b: Vec<char> = enc.chars().collect();
    assert_eq!(a.len(), b.len());
    for (x, y) in a.iter().zip(b.iter()) {
        if x.is_ascii_alphabetic() {
            assert!(y.is_ascii_alphabetic());
            assert_eq!(x.is_ascii_uppercase(), y.is_ascii_uppercase());
        } else {
            assert_eq!(x, y);
        }
    }
}

#[test]
fn empty_text_stays_empty() {
    let app = app_with_key(QWERTY);
    assert_eq!(app.encrypt(""), "");
    assert_eq!(app.decrypt(""), "");
}

#[test]
fn validate_accepts_permutations_in_any_case() {
    assert!(validate(ALPHABET));
    assert!(validate(QWERTY));
    assert!(validate("qwertyuiopasdfghjklzxcvbnm"));
    assert!(validate("QwErTyUiOpAsDfGhJkLzXcVbNm"));
}

#[test]
fn validate_rejects_wrong_length() {
    assert!(!validate(""));
    assert!(!validate("ABCDEFGHIJKLMNOPQRSTUVWXY"));
    assert!(!validate("ABCDEFGHIJKLMNOPQRSTUVWXYZA"));
}

#[test]
fn validate_rejects_non_letters() {
    assert!(!validate("ABCDEFGHIJKLMNOPQRSTUVWXY1"));
    assert!(!validate("ABCDEFGHIJKLMNOPQRSTUVWXY "));
    assert!(!validate("ABCDEFGHIJKLMNOPQRSTUVWXY\u{c9}"));
}

#[test]
fn validate_rejects_repeated_letters() {
    assert!(!validate("ABCDEFGHIJKLMNOPQRSTUVWXYY"));
    assert!(!validate("AACDEFGHIJKLMNOPQRSTUVWXYZ"));
    assert!(!validate("aBCDEFGHIJKLMNOPQRSTUVWXYa"));
}

#[test]
fn parse_key_folds_ascii_case() {
    assert_eq!(parse_key("abc"), Err(InvalidKeyError));
    let k = parse_key("zyxwvutsrqponmlkjihgfedcBA").unwrap();
    let s: String = k.iter().collect();
    assert_eq!(s, REVERSED);
    assert_eq!(parse_key("zyxwvutsrqponmlkjihgfedcBb"), Err(InvalidKeyError));
}

#[test]
fn is_valid_key_reads_edited_key() {
    let mut app = TemplateApp::default();
    assert!(!app.is_valid_key());
    app.cypher_key_string = String::from("zyxwvutsrqponmlkjihgfedcba");
    assert!(app.is_valid_key());
    app.cypher_key_string.push('a');
    assert!(!app.is_valid_key());
}

#[test]
fn set_key_rejects_invalid_and_keeps_key() {
    let mut app = app_with_key(QWERTY);
    assert_eq!(app.set_key("ABCDEFGHIJKLMNOPQRSTUVWXYY"), Err(InvalidKeyError));
    assert_eq!(app.set_key("short"), Err(InvalidKeyError));
    assert_eq!(app.key_string(), QWERTY);
}

#[test]
fn set_key_stores_uppercase_form() {
    let mut app = TemplateApp::default();
    let k = app.set_key("qwertyuiopasdfghjklzxcvbnm").unwrap();
    let s: String = k.iter().collect();
    assert_eq!(s, QWERTY);
    assert_eq!(app.key_string(), QWERTY);
}

#[test]
fn randomized_keys_are_valid() {
    let mut app = TemplateApp::default();
    for _ in 0..200 {
        let k = app.randomize_key();
        let s: String = k.iter().collect();
        assert!(validate(&s));
        assert_eq!(app.key_string(), s);
        assert_eq!(app.cypher_key(), k);
    }
}

#[test]
fn randomized_keys_spread_widely() {
    let mut app = TemplateApp::default();
    let trials = 2600;
    let mut seen: HashSet<String> = HashSet::new();
    let mut first_letter = [0usize; 26];
    for _ in 0..trials {
        let k = app.randomize_key();
        seen.insert(k.iter().collect());
        first_letter[(k[0] as u8 - b'A') as usize] += 1;
    }
    assert!(seen.len() > trials - 5);
    assert!(!seen.contains(ALPHABET));
    for count in first_letter.iter() {
        assert!(*count > 30 && *count < 200);
    }
}

#[test]
fn identity_key_changes_nothing() {
    let app = TemplateApp::default();
    assert_eq!(app.key_string(), ALPHABET);
    let text = "Hello, World! abcXYZ";
    assert_eq!(app.encrypt(text), text);
    assert_eq!(app.decrypt(text), text);
}

#[test]
fn reversed_key_keeps_case_and_punctuation() {
    let app = app_with_key(REVERSED);
    assert_eq!(app.encrypt("Hello, World!"), "Svool, Dliow!");
    assert_eq!(app.decrypt("Svool, Dliow!"), "Hello, World!");
}

#[test]
fn fixed_key_enciphers_hello() {
    let app = app_with_key(QWERTY);
    assert_eq!(app.encrypt("HELLO"), "ITSSG");
    assert_eq!(app.decrypt("ITSSG"), "HELLO");
    assert_eq!(app.encrypt("hello"), "itssg");
}

#[test]
fn decrypt_uses_inverse_key() {
    let app = app_with_key(QWERTY);
    assert_eq!(app.decrypt("QWERTYUIOPASDFGHJKLZXCVBNM"), ALPHABET);
    assert_eq!(app.decrypt("qwe"), "abc");
}

#[test]
fn validate_rejects_non_ascii_that_uppercases_to_letters() {
    assert!(!validate("ABCDEFGH\u{131}JKLMNOPQRSTUVWXYZ"));
    assert!(!validate("ABCDEFGHIJKLMNOPQR\u{17f}TUVWXYZ"));
    assert!(!validate("\u{fb06}ABCDEFGHIJKLMNOPQRUVWXYZ"));
    assert!(!validate("ABCDEFGHIJKLMNOPQRTUVWXYZ\u{df}"));
}

#[test]
fn validate_rejects_letter_repeated_in_other_case() {
    assert!(!validate("AaCDEFGHIJKLMNOPQRSTUVWXYZ"));
    assert!(!validate("qwertyuiopasdfghjklzxcvbnQ"));
}

#[test]
fn randomized_key_string_is_valid() {
    let mut app = TemplateApp::default();
    for _ in 0..20 {
        app.randomize_key();
        app.cypher_key_string = app.key_string();
        assert!(app.is_valid_key());
    }
}

#[test]
fn cipher_key_accepts_only_permutations() {
    let mut letters = ['A'; 26];
    assert!(substitution_cipher::CipherKey::new(letters).is_none());
    for (i, c) in REVERSED.chars().enumerate() {
        letters[i] = c;
    }
    let k = substitution_cipher::CipherKey::new(letters).unwrap();
    assert_eq!(*k.letters(), letters);
    let mut app = TemplateApp::default();
    app.cypher_key = k;
    assert_eq!(app.encrypt("abc"), "zyx");
}

#[test]
fn randomize_keeps_screen_fields() {
    let mut app = TemplateApp::default();
    app.tab = 1;
    app.input_text = String::from("in");
    app.cypher_key_string = String::from("edited");
    app.randomize_key();
    assert_eq!(app.tab, 1);
    assert_eq!(app.input_text, "in");
    assert_eq!(app.cypher_key_string, "edited");
}
