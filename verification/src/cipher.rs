//! The substitution itself: digits to letters under a key, and back.

use vstd::prelude::*;
use crate::errors::CipherError;
use crate::key::{key_wf, Key};
use crate::message::{msg_wf, Message};
use crate::text::push_char;
use vstd::string::StrSliceExecFns;

verus! {

/// The letters standing for the digits of `m` under the key letters `k`.
pub open spec fn encrypt_spec(k: Seq<char>, m: Seq<usize>) -> Seq<char> {
    m.map_values(|d: usize| k[d as int])
}

/// True when `c` is one of the letters of `k`.
pub open spec fn in_key(k: Seq<char>, c: char) -> bool {
    exists|i: int| 0 <= i < k.len() && k[i] == c
}

/// The index of the first letter of `k` at or after `i` that equals `c`, or
/// the length of `k`.
pub open spec fn key_index(k: Seq<char>, c: char, i: int) -> int
    decreases k.len() - i,
{
    if i < 0 || i >= k.len() {
        k.len() as int
    } else if k[i] == c {
        i
    } else {
        key_index(k, c, i + 1)
    }
}

/// True when every character of `t` is a letter of `k`, so that `t` can be
/// decrypted under `k`.
pub open spec fn text_ok(k: Seq<char>, t: Seq<char>) -> bool {
    forall|i: int| 0 <= i < t.len() ==> in_key(k, #[trigger] t[i])
}

/// The digits recovered from `t` under `k`: each character replaced by the
/// index of the key letter it matches.
pub open spec fn decrypt_spec(k: Seq<char>, t: Seq<char>) -> Seq<usize> {
    t.map_values(|c: char| key_index(k, c, 0) as usize)
}

/// The index of the first character of `t` at or after `i` that is not a
/// letter of `k`, or the length of `t`.
pub open spec fn first_not_in_key(k: Seq<char>, t: Seq<char>, i: int) -> int
    decreases t.len() - i,
{
    if i < 0 || i >= t.len() {
        t.len() as int
    } else if !in_key(k, t[i]) {
        i
    } else {
        first_not_in_key(k, t, i + 1)
    }
}

proof fn lemma_first_not_in_key_skip(k: Seq<char>, t: Seq<char>, i: int)
    requires
        0 <= i <= t.len(),
        forall|j: int| 0 <= j < i ==> in_key(k, #[trigger] t[j]),
    ensures
        first_not_in_key(k, t, 0) == first_not_in_key(k, t, i),
    decreases i,
{
    if i > 0 {
        lemma_first_not_in_key_skip(k, t, i - 1);
        assert(first_not_in_key(k, t, i - 1) == first_not_in_key(k, t, i));
    }
}

/// Replaces each digit of the message by its letter under the key, in order.
/// Never fails: a key pairs a letter with every digit.
pub fn encrypt(key: &Key, message: &Message) -> (r: String)
    requires
        msg_wf(message@),
    ensures
        r@ == encrypt_spec(key@, message@),
{
    proof {
        use_type_invariant(key);
    }
    let mut out = String::new();
    let n = message.len();
    let mut i: usize = 0;
    while i < n
        invariant
            key_wf(key@),
            msg_wf(message@),
            n == message@.len(),
            0 <= i <= n,
            out@ == encrypt_spec(key@, message@).subrange(0, i as int),
        decreases n - i,
    {
        let d = message[i];
        let c = key.letter(d);
        push_char(&mut out, c);
        proof {
            assert(out@ =~= encrypt_spec(key@, message@).subrange(0, i + 1));
        }
        i = i + 1;
    }
    proof {
        assert(out@ =~= encrypt_spec(key@, message@));
    }
    out
}

/// The index of the key letter equal to `c`, when one exists.
fn find_in_key(key: &Key, c: char) -> (r: Option<usize>)
    ensures
        r matches Some(i) ==> i < 10 && key@[i as int] == c && key_index(key@, c, 0) == i as int,
        r is None ==> !in_key(key@, c),
        r is Some <==> in_key(key@, c),
{
    proof {
        use_type_invariant(key);
    }
    let mut j: usize = 0;
    while j < 10
        invariant
            key_wf(key@),
            0 <= j <= 10,
            key_index(key@, c, 0) == key_index(key@, c, j as int),
            forall|m: int| 0 <= m < j ==> key@[m] != c,
        decreases 10 - j,
    {
        if key.letter(j) == c {
            return Some(j);
        }
        j = j + 1;
    }
    None
}

/// Recovers the digits of a text encrypted under the key: each character is
/// replaced by the index of the key letter it equals, in order. Succeeds
/// exactly when every character of the text is one of the key's letters;
/// otherwise it reports the first character that is not. Lookup is
/// unambiguous because the key's letters are distinct.
pub fn decrypt(key: &Key, encrypted: &str) -> (r: Result<Message, CipherError>)
    ensures
        r is Ok <==> text_ok(key@, encrypted@),
        r matches Ok(m) ==> m@ == decrypt_spec(key@, encrypted@) && msg_wf(m@),
        !text_ok(key@, encrypted@) ==> r == Err::<Message, CipherError>(
            CipherError::CharacterNotInKey(
                encrypted@[first_not_in_key(key@, encrypted@, 0)],
            ),
        ),
{
    proof {
        use_type_invariant(key);
    }
    let n = encrypted.unicode_len();
    let mut out: Vec<usize> = Vec::new();
    let mut i: usize = 0;
    while i < n
        invariant
            key_wf(key@),
            n == encrypted@.len(),
            0 <= i <= n,
            out@ == decrypt_spec(key@, encrypted@).subrange(0, i as int),
            forall|j: int| 0 <= j < i ==> in_key(key@, #[trigger] encrypted@[j]),
        decreases n - i,
    {
        let c = encrypted.get_char(i);
        match find_in_key(key, c) {
            Some(d) => {
                out.push(d);
                proof {
                    assert(out@ =~= decrypt_spec(key@, encrypted@).subrange(0, i + 1));
                }
            },
            None => {
                proof {
                    assert(!in_key(key@, encrypted@[i as int]));
                    assert(!text_ok(key@, encrypted@));
                    lemma_first_not_in_key_skip(key@, encrypted@, i as int);
                    assert(first_not_in_key(key@, encrypted@, 0) == i as int);
                }
                return Err(CipherError::CharacterNotInKey(c));
            },
        }
        i = i + 1;
    }
    proof {
        assert(out@ =~= decrypt_spec(key@, encrypted@));
        assert forall|j: int| 0 <= j < out@.len() implies #[trigger] out@[j] < 10 by {
            assert(in_key(key@, encrypted@[j]));
            lemma_key_index_bounds(key@, encrypted@[j]);
        }
    }
    Ok(out)
}

/// When `c` occurs in `k`, the first matching index is a real index whose
/// letter is `c`.
proof fn lemma_key_index_bounds(k: Seq<char>, c: char)
    requires
        in_key(k, c),
    ensures
        0 <= key_index(k, c, 0) < k.len(),
        k[key_index(k, c, 0)] == c,
{
    lemma_key_index_from(k, c, 0);
}

proof fn lemma_key_index_from(k: Seq<char>, c: char, i: int)
    requires
        0 <= i <= k.len(),
        exists|j: int| i <= j < k.len() && k[j] == c,
    ensures
        i <= key_index(k, c, i) < k.len(),
        k[key_index(k, c, i)] == c,
    decreases k.len() - i,
{
    if k[i] == c {
    } else {
        let j = choose|j: int| i <= j < k.len() && k[j] == c;
        assert(i + 1 <= j < k.len() && k[j] == c);
        lemma_key_index_from(k, c, i + 1);
    }
}

/// The first index of a key letter within distinct letters is that letter's
/// own position.
proof fn lemma_key_index_of_own(k: Seq<char>, d: int)
    requires
        key_wf(k),
        0 <= d < k.len(),
    ensures
        key_index(k, k[d], 0) == d,
{
    lemma_key_index_exact(k, k[d], 0, d);
}

proof fn lemma_key_index_exact(k: Seq<char>, c: char, i: int, d: int)
    requires
        0 <= i <= d < k.len(),
        k[d] == c,
        forall|j: int| 0 <= j < k.len() && j != d ==> k[j] != c,
    ensures
        key_index(k, c, i) == d,
    decreases d - i,
{
    if i < d {
        lemma_key_index_exact(k, c, i + 1, d);
    }
}

/// Round-trip law: for any well-formed key letters `k` and any message `m`
/// of digits below ten, the encryption of `m` decrypts under the same key
/// back to `m` exactly.
pub proof fn lemma_round_trip(k: Seq<char>, m: Seq<usize>)
    requires
        key_wf(k),
        msg_wf(m),
    ensures
        text_ok(k, encrypt_spec(k, m)),
        decrypt_spec(k, encrypt_spec(k, m)) == m,
{
    let e = encrypt_spec(k, m);
    assert forall|i: int| 0 <= i < e.len() implies in_key(k, #[trigger] e[i]) by {
        assert(m[i] < 10);
        assert(e[i] == k[m[i] as int]);
    }
    assert forall|i: int| 0 <= i < e.len() implies #[trigger] decrypt_spec(k, e)[i] == m[i] by {
        assert(e[i] == k[m[i] as int]);
        lemma_key_index_of_own(k, m[i] as int);
    }
    assert(decrypt_spec(k, e) =~= m);
}

/// Bijection law: encrypting the digits zero through nine in order yields
/// exactly the key's ten letters in key order, a permutation of its
/// alphabet.
pub proof fn lemma_bijection(k: Seq<char>)
    requires
        key_wf(k),
    ensures
        encrypt_spec(k, seq![0usize, 1, 2, 3, 4, 5, 6, 7, 8, 9]) == k,
{
    let m: Seq<usize> = seq![0usize, 1, 2, 3, 4, 5, 6, 7, 8, 9];
    assert forall|i: int| 0 <= i < 10 implies #[trigger] m[i] == i as usize by {
        assert(m[0] == 0usize);
        assert(m[1] == 1usize);
        assert(m[2] == 2usize);
        assert(m[3] == 3usize);
        assert(m[4] == 4usize);
        assert(m[5] == 5usize);
        assert(m[6] == 6usize);
        assert(m[7] == 7usize);
        assert(m[8] == 8usize);
        assert(m[9] == 9usize);
    }
    assert(encrypt_spec(k, m) =~= k);
}

} // verus!
