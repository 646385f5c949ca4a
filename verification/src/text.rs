//! Comparing text.

use vstd::prelude::*;
use vstd::string::*;

verus! {

/// Whether two texts are the same characters in the same order.
pub fn same_text(a: &str, b: &str) -> (r: bool)
    ensures
        r == (a@ == b@),
{
    let x: &[u8] = a.as_bytes();
    let y: &[u8] = b.as_bytes();
    proof {
        vstd::utf8::encode_utf8_decode_utf8(a@);
        vstd::utf8::encode_utf8_decode_utf8(b@);
    }
    if x.len() != y.len() {
        return false;
    }
    let mut i: usize = 0;
    while i < x.len()
        invariant
            x@.len() == y@.len(),
            x@ == vstd::utf8::encode_utf8(a@),
            y@ == vstd::utf8::encode_utf8(b@),
            i <= x@.len(),
            forall|k: int| 0 <= k < i ==> x@[k] == y@[k],
        decreases x@.len() - i,
    {
        if x[i] != y[i] {
            return false;
        }
        i += 1;
    }
    assert(x@ =~= y@);
    true
}

/// Whether a text begins with the given character.
pub fn begins_with(s: &str, c: char) -> (r: bool)
    ensures
        r == (s@.len() > 0 && s@[0] == c),
{
    !s.is_empty() && s.get_char(0) == c
}

/// The characters of `part` stand in `s` from position `i` on.
pub open spec fn stands_at(s: Seq<char>, part: Seq<char>, i: int) -> bool {
    0 <= i && i + part.len() <= s.len() && s.subrange(i, i + part.len()) == part
}

/// The characters of `part` stand somewhere in `s`.
pub open spec fn holds(s: Seq<char>, part: Seq<char>) -> bool {
    exists|i: int| stands_at(s, part, i)
}

/// Whether a text holds another.
pub fn contains_text(s: &str, part: &str) -> (r: bool)
    ensures
        r == holds(s@, part@),
{
    let n: usize = s.unicode_len();
    let m: usize = part.unicode_len();
    if m > n {
        return false;
    }
    let mut i: usize = 0;
    while i <= n - m
        invariant
            n == s@.len(),
            m == part@.len(),
            m <= n,
            i <= n - m + 1,
            forall|j: int| 0 <= j < i ==> !stands_at(s@, part@, j),
        decreases n - m + 1 - i,
    {
        let mut k: usize = 0;
        while k < m && s.get_char(i + k) == part.get_char(k)
            invariant
                n == s@.len(),
                m == part@.len(),
                i + m <= n,
                k <= m,
                forall|j: int| 0 <= j < k ==> s@[i + j] == part@[j],
            decreases m - k,
        {
            k += 1;
        }
        if k == m {
            assert(s@.subrange(i as int, i + m) =~= part@);
            assert(stands_at(s@, part@, i as int));
            return true;
        }
        assert(!stands_at(s@, part@, i as int)) by {
            assert(s@.subrange(i as int, i + m)[k as int] == s@[i + k]);
        }
        if i == n - m {
            return false;
        }
        i += 1;
    }
    false
}

} // verus!
