//! Validation errors for keys, messages and texts to decrypt.

use vstd::prelude::*;
use crate::text::push_char;

verus! {

/// A user-input validation error. Variants that concern a single offending
/// character carry that character.
#[derive(Clone, Copy, Debug, PartialEq, Eq, Structural)]
pub enum CipherError {
    /// The key contains non-ASCII content.
    InvalidEncoding,
    /// The key is not exactly ten characters long after trimming.
    InvalidLength,
    /// The key contains a non-letter, or the message contains a non-digit.
    InvalidCharacter(char),
    /// The key repeats the named letter.
    DuplicateCharacter(char),
    /// A text to decrypt holds a character absent from the key's alphabet.
    CharacterNotInKey(char),
}

impl CipherError {
    /// The human-readable description of the error, naming the offending
    /// character where one exists.
    pub open spec fn spec_message(self) -> Seq<char> {
        match self {
            CipherError::InvalidEncoding => "key must contain only ASCII characters"@,
            CipherError::InvalidLength => "key length must be exactly 10"@,
            CipherError::InvalidCharacter(c) => "invalid character: "@.push(c),
            CipherError::DuplicateCharacter(c) => "repeated character in key: "@.push(c),
            CipherError::CharacterNotInKey(c) => "character not found in key: "@.push(c),
        }
    }

    /// Renders the error as a human-readable message.
    pub fn message(&self) -> (r: String)
        ensures
            r@ == self.spec_message(),
    {
        match self {
            CipherError::InvalidEncoding => "key must contain only ASCII characters".to_owned(),
            CipherError::InvalidLength => "key length must be exactly 10".to_owned(),
            CipherError::InvalidCharacter(c) => {
                let mut s = "invalid character: ".to_owned();
                push_char(&mut s, *c);
                s
            },
            CipherError::DuplicateCharacter(c) => {
                let mut s = "repeated character in key: ".to_owned();
                push_char(&mut s, *c);
                s
            },
            CipherError::CharacterNotInKey(c) => {
                let mut s = "character not found in key: ".to_owned();
                push_char(&mut s, *c);
                s
            },
        }
    }
}

} // verus!
