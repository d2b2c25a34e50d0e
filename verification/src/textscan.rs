//! Byte-level text scanning: prefix tests and substring search.
//!
//! The question parser, the prompt template and the model-name checks all
//! work over bytes; this module gives them verified primitives.

use vstd::prelude::*;

verus! {

/// Whether `w` occurs in `s` starting at `i`.
pub open spec fn sub_at(s: Seq<u8>, w: Seq<u8>, i: int) -> bool {
    &&& 0 <= i
    &&& i + w.len() <= s.len()
    &&& s.subrange(i, i + w.len()) == w
}

/// Whether `w` occurs anywhere in `s`.
pub open spec fn contains_sub(s: Seq<u8>, w: Seq<u8>) -> bool {
    exists|i: int| sub_at(s, w, i)
}

/// Whether `s` starts with `w`.
pub open spec fn starts_with(s: Seq<u8>, w: Seq<u8>) -> bool {
    sub_at(s, w, 0)
}

/// Test whether `w` occurs in `s` at position `i`.
pub fn occurs_at(s: &[u8], w: &[u8], i: usize) -> (r: bool)
    requires
        i + w@.len() <= s@.len(),
    ensures
        r == sub_at(s@, w@, i as int),
{
    let m = w.len();
    let slen = s.len();
    let mut k: usize = 0;
    while k < m
        invariant
            0 <= k <= m,
            m == w@.len(),
            slen == s@.len(),
            i + m <= slen,
            forall|j: int| 0 <= j < k ==> s@[i + j] == w@[j],
        decreases m - k,
    {
        if s[i + k] != w[k] {
            proof {
                if sub_at(s@, w@, i as int) {
                    assert(s@.subrange(i as int, i + w@.len())[k as int] == s@[i + k]);
                }
            }
            return false;
        }
        k += 1;
    }
    proof {
        assert(s@.subrange(i as int, i + w@.len()) =~= w@);
    }
    true
}

/// Find the first occurrence of `w` in `s`, if any.
pub fn find_sub(s: &[u8], w: &[u8]) -> (r: Option<usize>)
    ensures
        match r {
            Some(i) => sub_at(s@, w@, i as int) && forall|j: int|
                0 <= j < i ==> !sub_at(s@, w@, j),
            None => !contains_sub(s@, w@),
        },
{
    let n = s.len();
    let m = w.len();
    if m > n {
        proof {
            assert(forall|i: int| !sub_at(s@, w@, i));
        }
        return None;
    }
    if m == 0 {
        proof {
            assert(s@.subrange(0, 0) =~= w@);
        }
        return Some(0);
    }
    let last = n - m;
    let mut i: usize = 0;
    while i <= last
        invariant
            0 <= i <= last + 1,
            last == n - m,
            n == s@.len(),
            m == w@.len(),
            1 <= m <= n,
            forall|j: int| 0 <= j < i ==> !sub_at(s@, w@, j),
        decreases last + 1 - i,
    {
        if occurs_at(s, w, i) {
            return Some(i);
        }
        i += 1;
    }
    proof {
        assert(forall|j: int| j > last ==> !sub_at(s@, w@, j));
    }
    None
}

/// The first position where `w` occurs in `s`, or `s.len()`.
pub open spec fn first_sub(s: Seq<u8>, w: Seq<u8>, from: int) -> int
    decreases s.len() - from,
{
    if from < 0 || from >= s.len() || from + w.len() > s.len() {
        s.len() as int
    } else if sub_at(s, w, from) {
        from
    } else {
        first_sub(s, w, from + 1)
    }
}

pub proof fn lemma_first_sub_props(s: Seq<u8>, w: Seq<u8>, from: int)
    requires
        0 <= from <= s.len(),
    ensures
        from <= first_sub(s, w, from) <= s.len(),
        first_sub(s, w, from) < s.len() ==> sub_at(s, w, first_sub(s, w, from)),
        forall|j: int| from <= j < first_sub(s, w, from) ==> !sub_at(s, w, j),
    decreases s.len() - from,
{
    if from < s.len() && from + w.len() <= s.len() && !sub_at(s, w, from) {
        lemma_first_sub_props(s, w, from + 1);
    } else if from < s.len() && from + w.len() > s.len() {
        assert forall|j: int| from <= j < s.len() implies !sub_at(s, w, j) by {
            if sub_at(s, w, j) {
                assert(j + w.len() <= s.len());
            }
        }
    }
}

/// Find the first occurrence of `w`, as a position; `s.len()` if none.
pub fn find_first(s: &[u8], w: &[u8]) -> (r: usize)
    ensures
        r == first_sub(s@, w@, 0),
        r < s@.len() ==> sub_at(s@, w@, r as int),
{
    proof {
        lemma_first_sub_props(s@, w@, 0);
    }
    match find_sub(s, w) {
        Some(i) => {
            proof {
                assert(first_sub(s@, w@, 0) <= i as int) by {
                    if first_sub(s@, w@, 0) > i as int {
                    }
                }
                assert(i as int <= first_sub(s@, w@, 0)) by {
                    if (i as int) > first_sub(s@, w@, 0) {
                        assert(sub_at(s@, w@, first_sub(s@, w@, 0)));
                    }
                }
            }
            i
        }
        None => {
            proof {
                if first_sub(s@, w@, 0) < s@.len() {
                    assert(sub_at(s@, w@, first_sub(s@, w@, 0)));
                }
            }
            s.len()
        }
    }
}

/// Test whether `w` occurs anywhere in `s`.
pub fn contains_bytes(s: &[u8], w: &[u8]) -> (r: bool)
    ensures
        r == contains_sub(s@, w@),
{
    match find_sub(s, w) {
        Some(_) => true,
        None => false,
    }
}

/// ASCII lower-casing of one byte.
pub open spec fn lower_byte(b: u8) -> u8 {
    if 65 <= b <= 90 {
        (b + 32) as u8
    } else {
        b
    }
}

/// ASCII lower-casing of a byte sequence.
pub open spec fn lower_bytes(s: Seq<u8>) -> Seq<u8> {
    s.map_values(|b: u8| lower_byte(b))
}

/// Compare `s`, lower-cased, with an expected all-lowercase word.
pub fn eq_lower(s: &[u8], word: &[u8]) -> (r: bool)
    ensures
        r == (lower_bytes(s@) == word@),
{
    if s.len() != word.len() {
        proof {
            assert(lower_bytes(s@).len() == s@.len());
        }
        return false;
    }
    let n = s.len();
    let mut i: usize = 0;
    while i < n
        invariant
            0 <= i <= n,
            n == s@.len() == word@.len(),
            forall|j: int| 0 <= j < i ==> lower_byte(#[trigger] s@[j]) == word@[j],
        decreases n - i,
    {
        let b = s[i];
        let lb = if 65 <= b && b <= 90 {
            b + 32
        } else {
            b
        };
        if lb != word[i] {
            proof {
                assert(lower_bytes(s@)[i as int] == lower_byte(s@[i as int]));
            }
            return false;
        }
        i += 1;
    }
    proof {
        assert(lower_bytes(s@) =~= word@);
    }
    true
}

/// Byte-for-byte equality of two slices.
pub fn eq_bytes(a: &[u8], b: &[u8]) -> (r: bool)
    ensures
        r == (a@ == b@),
{
    let n = a.len();
    if n != b.len() {
        return false;
    }
    let mut i: usize = 0;
    while i < n
        invariant
            0 <= i <= n,
            n == a@.len() == b@.len(),
            forall|j: int| 0 <= j < i ==> a@[j] == b@[j],
        decreases n - i,
    {
        if a[i] != b[i] {
            proof {
                if a@ == b@ {
                    assert(a@[i as int] == b@[i as int]);
                }
            }
            return false;
        }
        i += 1;
    }
    proof {
        assert(a@ =~= b@);
    }
    true
}

} // verus!
