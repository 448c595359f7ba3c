//! A mono-alphabetic substitution cipher over the 26 ASCII letters: keys,
//! their validation, enciphering and deciphering with case kept, and random
//! keys.
pub mod cipher;
pub mod key;
pub mod letters;
pub mod text;

pub use cipher::{parse_key, validate, InvalidKeyError, TemplateApp};
pub use key::CipherKey;
