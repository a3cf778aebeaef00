//! Byte-level utilities shared by the header and scanner modules:
//! whitespace trimming, first-occurrence search and token search.

use vstd::prelude::*;
use vstd::slice::{slice_subrange, slice_to_vec};

verus! {

/// The whitespace bytes that trimming removes: space, horizontal tab,
/// line feed, vertical tab, form feed and carriage return.
pub open spec fn is_space(b: u8) -> bool {
    b == 32 || (9 <= b && b <= 13)
}

/// Executable mirror of [`is_space`].
pub fn is_space_byte(b: u8) -> (r: bool)
    ensures
        r == is_space(b),
{
    b == 32 || (9 <= b && b <= 13)
}

/// The first position at or after `i` where `c` occurs in `s`, if any.
pub open spec fn first_at_or_after(s: Seq<u8>, c: u8, i: int) -> Option<int>
    decreases s.len() - i,
{
    if i < 0 || i >= s.len() {
        None
    } else if s[i] == c {
        Some(i)
    } else {
        first_at_or_after(s, c, i + 1)
    }
}

/// The position of the first occurrence of `c` in `s`, if any.
pub open spec fn index_of_first(s: Seq<u8>, c: u8) -> Option<int> {
    first_at_or_after(s, c, 0)
}

/// Whether `c` occurs anywhere in `s`.
pub open spec fn contains_byte(s: Seq<u8>, c: u8) -> bool {
    exists|j: int| 0 <= j < s.len() && s[j] == c
}

/// What [`first_at_or_after`] returns: the first hit, after misses only,
/// and `None` exactly when there is no hit at all.
pub proof fn lemma_first_at_or_after(s: Seq<u8>, c: u8, i: int)
    requires
        0 <= i <= s.len(),
    ensures
        (match first_at_or_after(s, c, i) {
            None => forall|j: int| i <= j < s.len() ==> s[j] != c,
            Some(k) => i <= k < s.len() && s[k] == c && (forall|j: int| i <= j < k ==> s[j] != c),
        }),
    decreases s.len() - i,
{
    if i < s.len() && s[i] != c {
        lemma_first_at_or_after(s, c, i + 1);
    }
}

/// A first occurrence exists exactly when the byte occurs at all.
pub proof fn lemma_index_of_first_contains(s: Seq<u8>, c: u8)
    ensures
        index_of_first(s, c) is Some <==> contains_byte(s, c),
{
    lemma_first_at_or_after(s, c, 0);
}

/// Finds the first occurrence of `c` in `s`.
pub fn find_byte(s: &[u8], c: u8) -> (r: Option<usize>)
    ensures
        (match r {
            None => index_of_first(s@, c) is None,
            Some(i) => index_of_first(s@, c) == Some(i as int),
        }),
{
    let len = s.len();
    let mut i: usize = 0;
    while i < len
        invariant
            0 <= i <= len,
            len == s@.len(),
            first_at_or_after(s@, c, 0) == first_at_or_after(s@, c, i as int),
        decreases len - i,
    {
        if s[i] == c {
            return Some(i);
        }
        i = i + 1;
    }
    None
}

/// The sequence left after removing leading whitespace.
pub open spec fn trim_start(s: Seq<u8>) -> Seq<u8>
    decreases s.len(),
{
    if s.len() > 0 && is_space(s[0]) {
        trim_start(s.skip(1))
    } else {
        s
    }
}

/// The sequence left after removing trailing whitespace.
pub open spec fn trim_end(s: Seq<u8>) -> Seq<u8>
    decreases s.len(),
{
    if s.len() > 0 && is_space(s[s.len() - 1]) {
        trim_end(s.take(s.len() - 1))
    } else {
        s
    }
}

/// The sequence left after removing whitespace from both ends.
pub open spec fn trim(s: Seq<u8>) -> Seq<u8> {
    trim_end(trim_start(s))
}

/// Copies `s` with whitespace removed from both ends.
pub fn trim_slice(s: &[u8]) -> (r: Vec<u8>)
    ensures
        r@ == trim(s@),
{
    let len = s.len();
    proof {
        assert(s@.skip(0) =~= s@);
    }
    let mut a: usize = 0;
    while a < len && is_space_byte(s[a])
        invariant
            0 <= a <= len,
            len == s@.len(),
            trim_start(s@) == trim_start(s@.skip(a as int)),
        decreases len - a,
    {
        proof {
            assert(s@.skip(a as int).skip(1) =~= s@.skip(a as int + 1));
        }
        a = a + 1;
    }
    proof {
        assert(trim_start(s@) == s@.skip(a as int));
        assert(s@.skip(a as int) =~= s@.subrange(a as int, len as int));
    }
    let mut b: usize = len;
    while b > a && is_space_byte(s[b - 1])
        invariant
            a <= b <= len,
            len == s@.len(),
            trim_start(s@) == s@.skip(a as int),
            trim_end(s@.skip(a as int)) == trim_end(s@.subrange(a as int, b as int)),
        decreases b,
    {
        proof {
            assert(s@.subrange(a as int, b as int).take(b - a - 1) =~= s@.subrange(
                a as int,
                b as int - 1,
            ));
        }
        b = b - 1;
    }
    proof {
        assert(trim_end(s@.subrange(a as int, b as int)) == s@.subrange(a as int, b as int));
    }
    let sub = slice_subrange(s, a, b);
    slice_to_vec(sub)
}

/// Compares two byte slices for equality.
pub fn bytes_eq(a: &[u8], b: &[u8]) -> (r: bool)
    ensures
        r == (a@ == b@),
{
    let alen = a.len();
    if alen != b.len() {
        return false;
    }
    let mut i: usize = 0;
    while i < alen
        invariant
            0 <= i <= alen,
            alen == a@.len(),
            alen == b@.len(),
            forall|k: int| 0 <= k < i ==> a@[k] == b@[k],
        decreases alen - i,
    {
        if a[i] != b[i] {
            return false;
        }
        i = i + 1;
    }
    proof {
        assert(a@ =~= b@);
    }
    true
}

/// Whether the token `n` occurs at position `i` of `h`.
pub open spec fn contains_at(h: Seq<u8>, n: Seq<u8>, i: int) -> bool {
    0 <= i && i + n.len() <= h.len() && h.subrange(i, i + n.len()) == n
}

/// Whether the token `n` occurs anywhere in `h`.
pub open spec fn contains_token(h: Seq<u8>, n: Seq<u8>) -> bool {
    exists|i: int| contains_at(h, n, i)
}

/// Searches `h` for the token `n`.
pub fn find_token(h: &[u8], n: &[u8]) -> (r: bool)
    ensures
        r == contains_token(h@, n@),
{
    let hlen = h.len();
    let nlen = n.len();
    if nlen > hlen {
        proof {
            assert(forall|i: int| !contains_at(h@, n@, i));
        }
        return false;
    }
    if nlen == 0 {
        proof {
            assert(h@.subrange(0, 0) =~= n@);
            assert(contains_at(h@, n@, 0));
        }
        return true;
    }
    let mut i: usize = 0;
    while i <= hlen - nlen
        invariant
            0 <= i <= hlen - nlen + 1,
            1 <= nlen <= hlen,
            hlen == h@.len(),
            nlen == n@.len(),
            forall|k: int| 0 <= k < i ==> !contains_at(h@, n@, k),
        decreases hlen - nlen + 1 - i,
    {
        let mut j: usize = 0;
        let mut hit = true;
        while j < nlen
            invariant
                0 <= j <= nlen,
                0 <= i <= hlen - nlen,
                hlen == h@.len(),
                nlen == n@.len(),
                hit ==> forall|k: int| 0 <= k < j ==> h@[i + k] == n@[k],
                !hit ==> !contains_at(h@, n@, i as int),
            decreases nlen - j,
        {
            if h[i + j] != n[j] {
                proof {
                    if contains_at(h@, n@, i as int) {
                        assert(h@.subrange(i as int, i + nlen)[j as int] == n@[j as int]);
                    }
                }
                hit = false;
                j = nlen;
            } else {
                j = j + 1;
            }
        }
        if hit {
            proof {
                assert(h@.subrange(i as int, i + nlen) =~= n@);
                assert(contains_at(h@, n@, i as int));
            }
            return true;
        }
        i = i + 1;
    }
    proof {
        assert forall|k: int| !contains_at(h@, n@, k) by {
            if !(0 <= k < i) {
                assert(k < 0 || k + n@.len() > h@.len());
            }
        }
    }
    false
}

} // verus!
