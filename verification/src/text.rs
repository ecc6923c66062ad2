//! Whitespace trimming and string building.

use vstd::prelude::*;
use crate::chars::{is_ws, is_ws_char};
use vstd::string::StrSliceExecFns;

verus! {

/// The index of the first character at or after `i` that is not whitespace,
/// or the length of `s` when every later character is whitespace.
pub open spec fn first_non_ws(s: Seq<char>, i: int) -> int
    decreases s.len() - i,
{
    if i < 0 || i >= s.len() {
        s.len() as int
    } else if !is_ws_char(s[i]) {
        i
    } else {
        first_non_ws(s, i + 1)
    }
}

/// The exclusive end of the last non-whitespace character strictly before
/// `i`, or `0` when every earlier character is whitespace.
pub open spec fn last_non_ws(s: Seq<char>, i: int) -> int
    decreases i,
{
    if i <= 0 || i > s.len() {
        0
    } else if !is_ws_char(s[i - 1]) {
        i
    } else {
        last_non_ws(s, i - 1)
    }
}

/// The first non-whitespace index lies between `i` and the length.
pub proof fn lemma_first_non_ws_bounds(s: Seq<char>, i: int)
    requires
        0 <= i <= s.len(),
    ensures
        i <= first_non_ws(s, i) <= s.len(),
    decreases s.len() - i,
{
    if i < s.len() && is_ws_char(s[i]) {
        lemma_first_non_ws_bounds(s, i + 1);
    }
}

/// The end of the trailing whitespace lies between zero and `i`.
pub proof fn lemma_last_non_ws_bounds(s: Seq<char>, i: int)
    requires
        0 <= i <= s.len(),
    ensures
        0 <= last_non_ws(s, i) <= i,
    decreases i,
{
    if i > 0 && is_ws_char(s[i - 1]) {
        lemma_last_non_ws_bounds(s, i - 1);
    }
}

/// `s` with surrounding whitespace removed.
pub open spec fn spec_trim(s: Seq<char>) -> Seq<char> {
    let a = first_non_ws(s, 0);
    let b = last_non_ws(s, s.len() as int);
    if a < b {
        s.subrange(a, b)
    } else {
        Seq::empty()
    }
}

/// Returns `s` without its leading and trailing whitespace.
pub fn trim_str<'a>(s: &'a str) -> (t: &'a str)
    ensures
        t@ == spec_trim(s@),
{
    let n = s.unicode_len();
    let mut a: usize = 0;
    while a < n && is_ws(s.get_char(a))
        invariant
            n == s@.len(),
            0 <= a <= n,
            first_non_ws(s@, 0) == first_non_ws(s@, a as int),
        decreases n - a,
    {
        a = a + 1;
    }
    if a == n {
        let t = s.substring_char(n, n);
        proof {
            assert(first_non_ws(s@, 0) == n);
            lemma_last_non_ws_bounds(s@, s@.len() as int);
            assert(t@ =~= spec_trim(s@));
        }
        return t;
    }
    let mut b: usize = n;
    while b > a && is_ws(s.get_char(b - 1))
        invariant
            n == s@.len(),
            0 <= a < n,
            a < b <= n,
            !is_ws_char(s@[a as int]),
            first_non_ws(s@, 0) == a as int,
            last_non_ws(s@, n as int) == last_non_ws(s@, b as int),
        decreases b,
    {
        proof {
            if b - 1 == a {
                assert(false);
            }
        }
        b = b - 1;
    }
    proof {
        assert(!is_ws_char(s@[b - 1]));
        assert(last_non_ws(s@, b as int) == b as int);
    }
    let t = s.substring_char(a, b);
    proof {
        assert(t@ =~= spec_trim(s@));
    }
    t
}

/// Relies on `String::push`: appends the given character to the end of the
/// string.
#[verifier::external_body]
pub(crate) fn push_char(s: &mut String, c: char)
    ensures
        final(s)@ == old(s)@.push(c),
{
    s.push(c);
}

} // verus!
