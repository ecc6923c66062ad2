//! Key validation: a key is built from a raw string holding, after trimming,
//! exactly ten distinct letters, and is stored uppercased in input order.

use vstd::prelude::*;
use crate::chars::{is_ascii_char, is_letter_char, is_upper_letter, is_ws_char, to_upper, upper_char};
use crate::errors::CipherError;
use crate::text::{first_non_ws, last_non_ws, spec_trim, trim_str};
use vstd::string::StrSliceExecFns;

verus! {

/// A substitution key: ten distinct uppercase ASCII letters, the letter at
/// index `d` standing for the digit `d`.
#[derive(Debug, PartialEq, Eq)]
pub struct Key {
    table: Vec<char>,
}

impl View for Key {
    type V = Seq<char>;

    closed spec fn view(&self) -> Seq<char> {
        self.table@
    }
}

/// The letter sequences a key may hold: length ten, uppercase ASCII letters,
/// pairwise distinct.
pub open spec fn key_wf(s: Seq<char>) -> bool {
    &&& s.len() == 10
    &&& forall|i: int| 0 <= i < s.len() ==> is_upper_letter(#[trigger] s[i])
    &&& forall|i: int, j: int| 0 <= i < j < s.len() ==> s[i] != s[j]
}

/// `s` with every character mapped to its ASCII-uppercase image.
pub open spec fn upper_seq(s: Seq<char>) -> Seq<char> {
    s.map_values(|c: char| upper_char(c))
}

/// True when every character of `s` is ASCII.
pub open spec fn seq_ascii(s: Seq<char>) -> bool {
    forall|i: int| 0 <= i < s.len() ==> is_ascii_char(#[trigger] s[i])
}

/// True when every character of `s` is an ASCII letter of either case.
pub open spec fn seq_letters(s: Seq<char>) -> bool {
    forall|i: int| 0 <= i < s.len() ==> is_letter_char(#[trigger] s[i])
}

/// The index of the first non-letter at or after `i`, or the length of `s`.
pub open spec fn first_non_letter(s: Seq<char>, i: int) -> int
    decreases s.len() - i,
{
    if i < 0 || i >= s.len() {
        s.len() as int
    } else if !is_letter_char(s[i]) {
        i
    } else {
        first_non_letter(s, i + 1)
    }
}

/// True when the character at `j` repeats an earlier character of `s`.
pub open spec fn dup_at(s: Seq<char>, j: int) -> bool {
    exists|i: int| 0 <= i < j && s[i] == s[j]
}

/// True when some character of `s` occurs twice.
pub open spec fn has_dup(s: Seq<char>) -> bool {
    exists|j: int| 0 <= j < s.len() && dup_at(s, j)
}

/// The index of the first repeated character at or after `j`, or the length
/// of `s`.
pub open spec fn first_dup(s: Seq<char>, j: int) -> int
    decreases s.len() - j,
{
    if j < 0 || j >= s.len() {
        s.len() as int
    } else if dup_at(s, j) {
        j
    } else {
        first_dup(s, j + 1)
    }
}

/// The raw strings that build a key: trimmed, they are ASCII, ten characters
/// long, all letters, and free of repeats under case folding.
pub open spec fn key_valid(raw: Seq<char>) -> bool {
    let t = spec_trim(raw);
    &&& seq_ascii(t)
    &&& t.len() == 10
    &&& seq_letters(t)
    &&& !has_dup(upper_seq(t))
}

proof fn lemma_first_non_letter_skip(s: Seq<char>, i: int)
    requires
        0 <= i <= s.len(),
        forall|j: int| 0 <= j < i ==> is_letter_char(#[trigger] s[j]),
    ensures
        first_non_letter(s, 0) == first_non_letter(s, i),
    decreases i,
{
    if i > 0 {
        lemma_first_non_letter_skip(s, i - 1);
        assert(first_non_letter(s, i - 1) == first_non_letter(s, i));
    }
}

proof fn lemma_first_dup_skip(s: Seq<char>, i: int)
    requires
        0 <= i <= s.len(),
        forall|j: int| 0 <= j < i ==> !#[trigger] dup_at(s, j),
    ensures
        first_dup(s, 0) == first_dup(s, i),
    decreases i,
{
    if i > 0 {
        lemma_first_dup_skip(s, i - 1);
        assert(first_dup(s, i - 1) == first_dup(s, i));
    }
}

proof fn lemma_upper_char_props(c: char)
    ensures
        is_ws_char(upper_char(c)) == is_ws_char(c),
        is_ascii_char(upper_char(c)) == is_ascii_char(c),
        is_letter_char(upper_char(c)) == is_letter_char(c),
        upper_char(upper_char(c)) == upper_char(c),
{
}

proof fn lemma_first_non_ws_upper(s: Seq<char>, i: int)
    requires
        0 <= i <= s.len(),
    ensures
        first_non_ws(upper_seq(s), i) == first_non_ws(s, i),
    decreases s.len() - i,
{
    if i < s.len() {
        lemma_upper_char_props(s[i]);
        if is_ws_char(s[i]) {
            lemma_first_non_ws_upper(s, i + 1);
        }
    }
}

proof fn lemma_last_non_ws_upper(s: Seq<char>, i: int)
    requires
        0 <= i <= s.len(),
    ensures
        last_non_ws(upper_seq(s), i) == last_non_ws(s, i),
    decreases i,
{
    if i > 0 {
        lemma_upper_char_props(s[i - 1]);
        if is_ws_char(s[i - 1]) {
            lemma_last_non_ws_upper(s, i - 1);
        }
    }
}

proof fn lemma_trim_upper(s: Seq<char>)
    ensures
        spec_trim(upper_seq(s)) == upper_seq(spec_trim(s)),
{
    lemma_first_non_ws_upper(s, 0);
    lemma_last_non_ws_upper(s, s.len() as int);
    let a = first_non_ws(s, 0);
    let b = last_non_ws(s, s.len() as int);
    if a < b {
        crate::text::lemma_first_non_ws_bounds(s, 0);
        crate::text::lemma_last_non_ws_bounds(s, s.len() as int);
        assert(upper_seq(s).subrange(a, b) =~= upper_seq(s.subrange(a, b)));
    } else {
        assert(spec_trim(upper_seq(s)) =~= upper_seq(spec_trim(s)));
    }
}

proof fn lemma_upper_idem(s: Seq<char>)
    ensures
        upper_seq(upper_seq(s)) == upper_seq(s),
{
    assert forall|i: int| 0 <= i < s.len() implies #[trigger] upper_seq(upper_seq(s))[i]
        == upper_seq(s)[i] by {
        lemma_upper_char_props(s[i]);
    }
    assert(upper_seq(upper_seq(s)) =~= upper_seq(s));
}

proof fn lemma_key_valid_upper(s: Seq<char>)
    ensures
        key_valid(upper_seq(s)) == key_valid(s),
        upper_seq(spec_trim(upper_seq(s))) == upper_seq(spec_trim(s)),
{
    lemma_trim_upper(s);
    let t = spec_trim(s);
    let u = upper_seq(t);
    if seq_ascii(t) {
        assert forall|i: int| 0 <= i < u.len() implies is_ascii_char(#[trigger] u[i]) by {
            lemma_upper_char_props(t[i]);
        }
        assert(seq_ascii(u));
    } else {
        let i = choose|i: int| 0 <= i < t.len() && !is_ascii_char(t[i]);
        lemma_upper_char_props(t[i]);
        assert(!is_ascii_char(u[i]));
        assert(!seq_ascii(u));
    }
    if seq_letters(t) {
        assert forall|i: int| 0 <= i < u.len() implies is_letter_char(#[trigger] u[i]) by {
            lemma_upper_char_props(t[i]);
        }
        assert(seq_letters(u));
    } else {
        let i = choose|i: int| 0 <= i < t.len() && !is_letter_char(t[i]);
        lemma_upper_char_props(t[i]);
        assert(!is_letter_char(u[i]));
        assert(!seq_letters(u));
    }
    lemma_upper_idem(t);
}

/// Case-insensitivity law: two raw strings that agree up to letter case are
/// accepted or rejected as keys together, and when accepted build the same
/// key.
pub proof fn lemma_case_insensitive(s1: Seq<char>, s2: Seq<char>)
    requires
        upper_seq(s1) == upper_seq(s2),
    ensures
        key_valid(s1) == key_valid(s2),
        upper_seq(spec_trim(s1)) == upper_seq(spec_trim(s2)),
{
    lemma_key_valid_upper(s1);
    lemma_key_valid_upper(s2);
}

impl Key {
    /// Holds of every key that exists: see `key_wf`.
    #[verifier::type_invariant]
    pub open spec fn inv(self) -> bool {
        key_wf(self@)
    }

    /// The letter standing for the digit `d`.
    pub fn letter(&self, d: usize) -> (c: char)
        requires
            d < 10,
        ensures
            c == self@[d as int],
    {
        proof {
            use_type_invariant(self);
        }
        self.table[d]
    }

    /// The ten letters of the key, in digit order.
    pub fn letters(&self) -> (v: Vec<char>)
        ensures
            v@ == self@,
    {
        proof {
            use_type_invariant(self);
        }
        let mut v: Vec<char> = Vec::new();
        let mut i: usize = 0;
        while i < 10
            invariant
                self@.len() == 10,
                0 <= i <= 10,
                v@ == self@.subrange(0, i as int),
            decreases 10 - i,
        {
            let c = self.letter(i);
            v.push(c);
            proof {
                assert(v@ =~= self@.subrange(0, i + 1));
            }
            i = i + 1;
        }
        proof {
            assert(v@ =~= self@);
        }
        v
    }
}

/// Validates and normalizes a raw key string.
///
/// The input is trimmed of surrounding whitespace; it must then be ASCII,
/// exactly ten characters, all letters, and free of repeats under case
/// folding. On success the key holds the trimmed letters uppercased, in
/// input order; otherwise the result pins down the error and, where one
/// exists, the first offending character.
pub fn create_key(key: &str) -> (r: Result<Key, CipherError>)
    ensures
        r is Ok <==> key_valid(key@),
        r matches Ok(k) ==> k@ == upper_seq(spec_trim(key@)) && key_wf(k@),
        !seq_ascii(spec_trim(key@)) ==> r == Err::<Key, CipherError>(CipherError::InvalidEncoding),
        seq_ascii(spec_trim(key@)) && spec_trim(key@).len() != 10 ==> r == Err::<Key, CipherError>(
            CipherError::InvalidLength,
        ),
        ({
            let t = spec_trim(key@);
            seq_ascii(t) && t.len() == 10 && !seq_letters(t) ==> r == Err::<Key, CipherError>(
                CipherError::InvalidCharacter(t[first_non_letter(t, 0)]),
            )
        }),
        ({
            let t = spec_trim(key@);
            let u = upper_seq(t);
            seq_ascii(t) && t.len() == 10 && seq_letters(t) && has_dup(u) ==> r == Err::<
                Key,
                CipherError,
            >(CipherError::DuplicateCharacter(u[first_dup(u, 0)]))
        }),
{
    let t = trim_str(key);
    let ghost tq = spec_trim(key@);
    let n = t.unicode_len();
    let mut i: usize = 0;
    while i < n
        invariant
            tq == spec_trim(key@),
            t@ == tq,
            n == tq.len(),
            0 <= i <= n,
            forall|j: int| 0 <= j < i ==> is_ascii_char(#[trigger] tq[j]),
        decreases n - i,
    {
        let c = t.get_char(i);
        if (c as u32) > 0x7F {
            proof {
                assert(!is_ascii_char(tq[i as int]));
                assert(!seq_ascii(tq));
            }
            return Err(CipherError::InvalidEncoding);
        }
        i = i + 1;
    }
    assert(seq_ascii(tq));
    if n != 10 {
        return Err(CipherError::InvalidLength);
    }
    let mut table: Vec<char> = Vec::new();
    let mut i: usize = 0;
    while i < 10
        invariant
            tq == spec_trim(key@),
            t@ == tq,
            tq.len() == 10,
            seq_ascii(tq),
            0 <= i <= 10,
            table@ == upper_seq(tq).subrange(0, i as int),
            forall|j: int| 0 <= j < i ==> is_letter_char(#[trigger] tq[j]),
        decreases 10 - i,
    {
        let c = t.get_char(i);
        let u = to_upper(c);
        if !(u as u32 >= 0x41 && u as u32 <= 0x5A) {
            proof {
                assert(!is_letter_char(tq[i as int]));
                assert(!seq_letters(tq));
                assert(upper_char(tq[i as int]) == tq[i as int]);
                lemma_first_non_letter_skip(tq, i as int);
                assert(first_non_letter(tq, 0) == i as int);
            }
            return Err(CipherError::InvalidCharacter(c));
        }
        table.push(u);
        proof {
            assert(table@ =~= upper_seq(tq).subrange(0, i + 1));
        }
        i = i + 1;
    }
    assert(seq_letters(tq));
    assert(table@ =~= upper_seq(tq));
    let ghost us = upper_seq(tq);
    let mut j: usize = 1;
    while j < 10
        invariant
            tq == spec_trim(key@),
            seq_ascii(tq),
            seq_letters(tq),
            tq.len() == 10,
            us == upper_seq(tq),
            table@ == us,
            us.len() == 10,
            1 <= j <= 10,
            forall|m: int| 0 <= m < j ==> !#[trigger] dup_at(us, m),
        decreases 10 - j,
    {
        let mut k: usize = 0;
        while k < j
            invariant
                tq == spec_trim(key@),
                seq_ascii(tq),
                seq_letters(tq),
                tq.len() == 10,
                us == upper_seq(tq),
                table@ == us,
                us.len() == 10,
                0 <= k <= j < 10,
                forall|m: int| 0 <= m < j ==> !#[trigger] dup_at(us, m),
                forall|m: int| 0 <= m < k ==> us[m] != us[j as int],
            decreases j - k,
        {
            if table[k] == table[j] {
                proof {
                    assert(us[k as int] == us[j as int]);
                    assert(dup_at(us, j as int));
                    lemma_first_dup_skip(us, j as int);
                    assert(first_dup(us, 0) == j as int);
                    assert(has_dup(us));
                }
                return Err(CipherError::DuplicateCharacter(table[j]));
            }
            k = k + 1;
        }
        proof {
            assert(!dup_at(us, j as int));
        }
        j = j + 1;
    }
    proof {
        assert(!has_dup(us));
        assert forall|a: int| 0 <= a < 10 implies is_upper_letter(#[trigger] table@[a]) by {
            assert(is_letter_char(tq[a]));
            assert(table@[a] == upper_char(tq[a]));
        }
        assert forall|a: int, b: int| 0 <= a < b < 10 implies table@[a] != table@[b] by {
            assert(!dup_at(us, b));
        }
        assert(key_wf(table@));
        assert(key_valid(key@));
    }
    Ok(Key { table })
}

} // verus!
