use sarneg::{create_key, create_message, decrypt, encrypt, render, CipherError};

#[test]
fn parses_digit_message() {
    assert_eq!(create_message("048"), Ok(vec![0, 4, 8]));
}

#[test]
fn empty_message_is_ok() {
    let k = create_key("ABCDEFGHIJ").unwrap();
    assert_eq!(create_message(""), Ok(vec![]));
    assert_eq!(encrypt(&k, &vec![]), "");
}

#[test]
fn rejects_non_digit_message() {
    assert_eq!(create_message("12a4"), Err(CipherError::InvalidCharacter('a')));
}

#[test]
fn identity_key_scenario() {
    let k = create_key("ABCDEFGHIJ").unwrap();
    let m = create_message("0123456789").unwrap();
    let encrypted = encrypt(&k, &m);
    assert_eq!(encrypted, "ABCDEFGHIJ");
    assert_eq!(decrypt(&k, "ABCDEFGHIJ"), Ok(vec![0, 1, 2, 3, 4, 5, 6, 7, 8, 9]));
}

#[test]
fn phonetical_scenario() {
    let k = create_key("PHONETICAL").unwrap();
    let m = create_message("048").unwrap();
    assert_eq!(encrypt(&k, &m), "PEA");
}

#[test]
fn decrypt_reports_unknown_character() {
    let k = create_key("PHONETICAL").unwrap();
    assert_eq!(decrypt(&k, "PEZ"), Err(CipherError::CharacterNotInKey('Z')));
}

#[test]
fn decrypt_is_case_sensitive() {
    let k = create_key("PHONETICAL").unwrap();
    assert_eq!(decrypt(&k, "pea"), Err(CipherError::CharacterNotInKey('p')));
}

#[test]
fn round_trip_restores_message() {
    let k = create_key("PHONETICAL").unwrap();
    let m = create_message("90210485").unwrap();
    let encrypted = encrypt(&k, &m);
    assert_eq!(decrypt(&k, &encrypted), Ok(m));
}

#[test]
fn all_digits_cover_key_letters() {
    let k = create_key("PHONETICAL").unwrap();
    let m = create_message("0123456789").unwrap();
    let encrypted = encrypt(&k, &m);
    let letters: String = k.letters().into_iter().collect();
    assert_eq!(encrypted, letters);
}

#[test]
fn renders_key_table() {
    let k = create_key("ABCDEFGHIJ").unwrap();
    assert_eq!(
        render(&k),
        " A | B | C | D | E | F | G | H | I | J\n\
         ---|---|---|---|---|---|---|---|---|---\n \
         0 | 1 | 2 | 3 | 4 | 5 | 6 | 7 | 8 | 9"
    );
}
