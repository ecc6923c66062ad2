//! Character classification used by key and message validation.

use vstd::prelude::*;

verus! {

/// True of the characters with the Unicode `White_Space` property, the set
/// that surrounding-whitespace trimming removes.
pub open spec fn is_ws_char(c: char) -> bool {
    let u = c as u32;
    ||| u == 0x09
    ||| u == 0x0A
    ||| u == 0x0B
    ||| u == 0x0C
    ||| u == 0x0D
    ||| u == 0x20
    ||| u == 0x85
    ||| u == 0xA0
    ||| u == 0x1680
    ||| (0x2000 <= u && u <= 0x200A)
    ||| u == 0x2028
    ||| u == 0x2029
    ||| u == 0x202F
    ||| u == 0x205F
    ||| u == 0x3000
}

/// True of characters in the ASCII range.
pub open spec fn is_ascii_char(c: char) -> bool {
    c as u32 <= 0x7F
}

/// True of uppercase ASCII letters `A` through `Z`.
pub open spec fn is_upper_letter(c: char) -> bool {
    0x41 <= c as u32 && c as u32 <= 0x5A
}

/// True of lowercase ASCII letters `a` through `z`.
pub open spec fn is_lower_letter(c: char) -> bool {
    0x61 <= c as u32 && c as u32 <= 0x7A
}

/// True of ASCII letters of either case.
pub open spec fn is_letter_char(c: char) -> bool {
    is_upper_letter(c) || is_lower_letter(c)
}

/// True of ASCII decimal digits `0` through `9`.
pub open spec fn is_digit_char(c: char) -> bool {
    0x30 <= c as u32 && c as u32 <= 0x39
}

/// The numeric value of an ASCII decimal digit.
pub open spec fn digit_val(c: char) -> usize {
    (c as u32 - 0x30) as usize
}

/// The ASCII-uppercase image of a character: lowercase ASCII letters map to
/// their uppercase counterparts, every other character is unchanged.
pub open spec fn upper_char(c: char) -> char {
    if is_lower_letter(c) {
        (c as u32 - 0x20) as char
    } else {
        c
    }
}

pub fn is_ws(c: char) -> (r: bool)
    ensures
        r == is_ws_char(c),
{
    let u = c as u32;
    u == 0x09 || u == 0x0A || u == 0x0B || u == 0x0C || u == 0x0D || u == 0x20 || u == 0x85
        || u == 0xA0 || u == 0x1680 || (0x2000 <= u && u <= 0x200A) || u == 0x2028 || u == 0x2029
        || u == 0x202F || u == 0x205F || u == 0x3000
}

pub fn to_upper(c: char) -> (r: char)
    ensures
        r == upper_char(c),
{
    let u = c as u32;
    if 0x61 <= u && u <= 0x7A {
        ((c as u8) - 0x20) as char
    } else {
        c
    }
}

} // verus!
