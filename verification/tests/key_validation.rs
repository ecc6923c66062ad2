use sarneg::{create_key, CipherError};

#[test]
fn builds_valid_key() {
    let k = create_key("ABCDEFGHIJ").unwrap();
    assert_eq!(k.letters(), vec!['A', 'B', 'C', 'D', 'E', 'F', 'G', 'H', 'I', 'J']);
}

#[test]
fn trims_surrounding_whitespace() {
    let k = create_key("  PHONETICAL \n").unwrap();
    assert_eq!(k.letters(), vec!['P', 'H', 'O', 'N', 'E', 'T', 'I', 'C', 'A', 'L']);
}

#[test]
fn uppercases_letters() {
    let k = create_key("phonetical").unwrap();
    assert_eq!(k.letters(), vec!['P', 'H', 'O', 'N', 'E', 'T', 'I', 'C', 'A', 'L']);
}

#[test]
fn rejects_non_ascii() {
    assert_eq!(create_key("ÁBCDEFGHIJ"), Err(CipherError::InvalidEncoding));
}

#[test]
fn rejects_short_key() {
    assert_eq!(create_key("ABC"), Err(CipherError::InvalidLength));
}

#[test]
fn rejects_long_key() {
    assert_eq!(create_key("ABCDEFGHIJK"), Err(CipherError::InvalidLength));
}

#[test]
fn rejects_whitespace_only_key() {
    assert_eq!(create_key("   "), Err(CipherError::InvalidLength));
}

#[test]
fn rejects_non_letter() {
    assert_eq!(create_key("ABCDEFGHI1"), Err(CipherError::InvalidCharacter('1')));
}

#[test]
fn duplicate_detection() {
    assert_eq!(create_key("AABCDEFGHI"), Err(CipherError::DuplicateCharacter('A')));
}

#[test]
fn duplicate_under_case_folding() {
    assert_eq!(create_key("aABCDEFGHI"), Err(CipherError::DuplicateCharacter('A')));
}

#[test]
fn case_insensitive_keys() {
    let lower = create_key("abcdefghij").unwrap();
    let upper = create_key("ABCDEFGHIJ").unwrap();
    assert_eq!(lower.letters(), upper.letters());
}

#[test]
fn non_letter_reported_before_duplicate() {
    // "A" repeats, but the non-letter "1" comes first in the check order.
    assert_eq!(create_key("AA1BCDEFGH"), Err(CipherError::InvalidCharacter('1')));
}

#[test]
fn error_messages_name_the_character() {
    assert_eq!(
        CipherError::DuplicateCharacter('A').message(),
        "repeated character in key: A"
    );
    assert_eq!(
        CipherError::InvalidCharacter('1').message(),
        "invalid character: 1"
    );
    assert_eq!(
        CipherError::CharacterNotInKey('Z').message(),
        "character not found in key: Z"
    );
    assert_eq!(
        CipherError::InvalidEncoding.message(),
        "key must contain only ASCII characters"
    );
    assert_eq!(
        CipherError::InvalidLength.message(),
        "key length must be exactly 10"
    );
}
