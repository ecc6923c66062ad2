//! Rendering a key as an aligned two-row table for human inspection.

use vstd::prelude::*;
use crate::key::Key;
use crate::text::push_char;
use vstd::string::StringExecFns;

verus! {

/// The letter row of the table: each letter preceded by a space, letters
/// separated by pipes, as in `" A | B"`.
pub open spec fn letters_row(s: Seq<char>) -> Seq<char>
    decreases s.len(),
{
    if s.len() == 0 {
        Seq::empty()
    } else if s.len() == 1 {
        seq![' ', s[0]]
    } else {
        letters_row(s.drop_last()) + seq![' ', '|', ' ', s.last()]
    }
}

/// The full table: the key's letters above a dashed rule and the digits each
/// letter stands for.
pub open spec fn render_spec(s: Seq<char>) -> Seq<char> {
    letters_row(s)
        + "\n---|---|---|---|---|---|---|---|---|---\n 0 | 1 | 2 | 3 | 4 | 5 | 6 | 7 | 8 | 9"@
}

/// Renders the key as a two-row table pairing each letter with its digit.
pub fn render(key: &Key) -> (r: String)
    ensures
        r@ == render_spec(key@),
{
    proof {
        use_type_invariant(key);
    }
    let mut out = String::new();
    push_char(&mut out, ' ');
    push_char(&mut out, key.letter(0));
    proof {
        assert(out@ =~= letters_row(key@.subrange(0, 1)));
    }
    let mut i: usize = 1;
    while i < 10
        invariant
            key@.len() == 10,
            1 <= i <= 10,
            out@ == letters_row(key@.subrange(0, i as int)),
        decreases 10 - i,
    {
        out.append(" | ");
        push_char(&mut out, key.letter(i));
        proof {
            reveal_strlit(" | ");
            let prefix = key@.subrange(0, i as int);
            let next = key@.subrange(0, i + 1);
            assert(next.drop_last() =~= prefix);
            assert(next.last() == key@[i as int]);
            assert(out@ =~= letters_row(prefix) + seq![' ', '|', ' ', key@[i as int]]);
            assert(out@ =~= letters_row(next));
        }
        i = i + 1;
    }
    proof {
        assert(key@.subrange(0, 10) =~= key@);
    }
    out.append("\n---|---|---|---|---|---|---|---|---|---\n 0 | 1 | 2 | 3 | 4 | 5 | 6 | 7 | 8 | 9");
    out
}

} // verus!
