//! Text helpers: finding a character, testing a prefix, and decoding UTF-8.

use vstd::prelude::*;
use vstd::utf8::{decode_utf8, valid_utf8};

verus! {

/// Index of the first `c` in `t`, or `t.len()` when there is none.
pub open spec fn first_index(t: Seq<char>, c: char) -> nat
    decreases t.len(),
{
    if t.len() == 0 {
        0
    } else if t[0] == c {
        0
    } else {
        1 + first_index(t.drop_first(), c)
    }
}

pub proof fn lemma_first_index(t: Seq<char>, c: char, j: int)
    requires
        0 <= j <= t.len(),
        forall|k: int| 0 <= k < j ==> t[k] != c,
        j < t.len() ==> t[j] == c,
    ensures
        first_index(t, c) == j,
    decreases j,
{
    if j > 0 {
        assert forall|k: int| 0 <= k < j - 1 implies t.drop_first()[k] != c by {
            assert(t.drop_first()[k] == t[k + 1]);
        }
        lemma_first_index(t.drop_first(), c, j - 1);
    }
}

/// Index of the first `c` in `s` at or after `from`, or the length of `s`.
pub fn find_char(s: &str, from: usize, c: char) -> (r: usize)
    requires
        from <= s@.len(),
    ensures
        from <= r <= s@.len(),
        first_index(s@.subrange(from as int, s@.len() as int), c) == r - from,
{
    let n = s.unicode_len();
    let mut j: usize = from;
    let mut found = false;
    while j < n && !found
        invariant
            from <= j <= n,
            n == s@.len(),
            found ==> j < n && s@[j as int] == c,
            forall|k: int| from <= k < j ==> s@[k] != c,
        decreases n - j + (if found { 0int } else { 1int }),
    {
        if s.get_char(j) == c {
            found = true;
        } else {
            j = j + 1;
        }
    }
    proof {
        let t = s@.subrange(from as int, n as int);
        assert forall|k: int| 0 <= k < j - from implies t[k] != c by {
            assert(t[k] == s@[from + k]);
        }
        lemma_first_index(t, c, j - from);
    }
    j
}

/// `p` is a prefix of `s`.
pub open spec fn is_prefix(p: Seq<char>, s: Seq<char>) -> bool {
    p.len() <= s.len() && s.subrange(0, p.len() as int) == p
}

/// Whether `s` starts with `p`.
pub fn starts_with(s: &str, p: &str) -> (r: bool)
    ensures
        r == is_prefix(p@, s@),
{
    let n = s.unicode_len();
    let m = p.unicode_len();
    if m > n {
        return false;
    }
    let mut i: usize = 0;
    while i < m
        invariant
            i <= m <= n,
            n == s@.len(),
            m == p@.len(),
            forall|j: int| 0 <= j < i ==> s@[j] == p@[j],
        decreases m - i,
    {
        if s.get_char(i) != p.get_char(i) {
            assert(s@.subrange(0, m as int)[i as int] != p@[i as int]);
            return false;
        }
        i = i + 1;
    }
    assert(s@.subrange(0, m as int) =~= p@);
    true
}

/// Relies on `std::str::from_utf8`: it accepts exactly the valid UTF-8 byte
/// sequences and yields the text they encode.
#[verifier::external_body]
pub(crate) fn utf8_to_string(b: &Vec<u8>) -> (r: Option<String>)
    ensures
        r is Some <==> valid_utf8(b@),
        r is Some ==> r->Some_0@ == decode_utf8(b@),
{
    std::str::from_utf8(b.as_slice()).ok().map(|s| s.to_string())
}

} // verus!
