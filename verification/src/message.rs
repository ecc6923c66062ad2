//! Message validation: a message is a numeral string parsed into its digit
//! values.

use vstd::prelude::*;
use crate::chars::{digit_val, is_digit_char};
use crate::errors::CipherError;
use vstd::string::StrSliceExecFns;

verus! {

/// A parsed message: the digit values of a numeral string, in input order.
pub type Message = Vec<usize>;

/// The digit-sequence invariant: every element is in `0..=9`.
pub open spec fn msg_wf(m: Seq<usize>) -> bool {
    forall|i: int| 0 <= i < m.len() ==> #[trigger] m[i] < 10
}

/// True when every character of `s` is an ASCII decimal digit.
pub open spec fn seq_digits(s: Seq<char>) -> bool {
    forall|i: int| 0 <= i < s.len() ==> is_digit_char(#[trigger] s[i])
}

/// The digit values of the characters of `s`, in order.
pub open spec fn digits_of(s: Seq<char>) -> Seq<usize> {
    s.map_values(|c: char| digit_val(c))
}

/// The index of the first non-digit at or after `i`, or the length of `s`.
pub open spec fn first_non_digit(s: Seq<char>, i: int) -> int
    decreases s.len() - i,
{
    if i < 0 || i >= s.len() {
        s.len() as int
    } else if !is_digit_char(s[i]) {
        i
    } else {
        first_non_digit(s, i + 1)
    }
}

proof fn lemma_first_non_digit_skip(s: Seq<char>, i: int)
    requires
        0 <= i <= s.len(),
        forall|j: int| 0 <= j < i ==> is_digit_char(#[trigger] s[j]),
    ensures
        first_non_digit(s, 0) == first_non_digit(s, i),
    decreases i,
{
    if i > 0 {
        lemma_first_non_digit_skip(s, i - 1);
        assert(first_non_digit(s, i - 1) == first_non_digit(s, i));
    }
}

/// Validates and parses a numeral string.
///
/// The input is taken as given, untrimmed. It succeeds exactly when every
/// character is an ASCII decimal digit, returning the digit values in input
/// order; an empty input yields an empty message. Otherwise it reports the
/// first non-digit character.
pub fn create_message(msg: &str) -> (r: Result<Message, CipherError>)
    ensures
        r is Ok <==> seq_digits(msg@),
        r matches Ok(m) ==> m@ == digits_of(msg@) && msg_wf(m@),
        !seq_digits(msg@) ==> r == Err::<Message, CipherError>(
            CipherError::InvalidCharacter(msg@[first_non_digit(msg@, 0)]),
        ),
{
    let n = msg.unicode_len();
    let mut out: Vec<usize> = Vec::new();
    let mut i: usize = 0;
    while i < n
        invariant
            n == msg@.len(),
            0 <= i <= n,
            out@ == digits_of(msg@).subrange(0, i as int),
            forall|j: int| 0 <= j < i ==> is_digit_char(#[trigger] msg@[j]),
        decreases n - i,
    {
        let c = msg.get_char(i);
        let u = c as u32;
        if !(0x30 <= u && u <= 0x39) {
            proof {
                assert(!is_digit_char(msg@[i as int]));
                assert(!seq_digits(msg@));
                lemma_first_non_digit_skip(msg@, i as int);
                assert(first_non_digit(msg@, 0) == i as int);
            }
            return Err(CipherError::InvalidCharacter(c));
        }
        out.push((u - 0x30) as usize);
        proof {
            assert(out@ =~= digits_of(msg@).subrange(0, i + 1));
        }
        i = i + 1;
    }
    proof {
        assert(out@ =~= digits_of(msg@));
    }
    Ok(out)
}

} // verus!
