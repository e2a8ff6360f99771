//! Character-level scanning utilities: leftmost occurrences of a single
//! character or of a two-character pair in a string, and string equality.
//!
//! The parser only ever searches for one- and two-character patterns
//! (`'('`, `'!'`, `": "`, `"\n\n"`), so these two searches are all it needs.

use vstd::prelude::*;

verus! {

/// The adjacent pair `a`, `b` occurs in `s` starting at index `i`.
pub open spec fn pair_at(s: Seq<char>, a: char, b: char, i: int) -> bool {
    &&& 0 <= i
    &&& i + 1 < s.len()
    &&& s[i] == a
    &&& s[i + 1] == b
}

/// The pair `a`, `b` occurs somewhere in `s`.
pub open spec fn has_pair(s: Seq<char>, a: char, b: char) -> bool {
    exists|i: int| pair_at(s, a, b, i)
}

/// Index of the leftmost occurrence of the pair `a`, `b` in `s`;
/// meaningful only when `has_pair(s, a, b)` holds.
pub open spec fn first_pair(s: Seq<char>, a: char, b: char) -> int {
    choose|i: int|
        pair_at(s, a, b, i) && (forall|j: int| 0 <= j < i ==> !pair_at(s, a, b, j))
}

/// A leftmost occurrence pins `first_pair` down exactly.
pub proof fn lemma_first_pair(s: Seq<char>, a: char, b: char, i: int)
    requires
        pair_at(s, a, b, i),
        forall|j: int| 0 <= j < i ==> !pair_at(s, a, b, j),
    ensures
        has_pair(s, a, b),
        first_pair(s, a, b) == i,
{
    assert(pair_at(s, a, b, i) && (forall|j: int| 0 <= j < i ==> !pair_at(s, a, b, j)));
    let k = first_pair(s, a, b);
    assert(pair_at(s, a, b, k) && (forall|j: int| 0 <= j < k ==> !pair_at(s, a, b, j)));
    if k < i {
        assert(!pair_at(s, a, b, k));
    }
    if i < k {
        assert(!pair_at(s, a, b, i));
    }
}

/// The character `c` stands at index `i` of `s`.
pub open spec fn char_at(s: Seq<char>, c: char, i: int) -> bool {
    &&& 0 <= i < s.len()
    &&& s[i] == c
}

/// The character `c` occurs somewhere in `s`.
pub open spec fn has_char(s: Seq<char>, c: char) -> bool {
    exists|i: int| char_at(s, c, i)
}

/// Index of the leftmost occurrence of `c` in `s`;
/// meaningful only when `has_char(s, c)` holds.
pub open spec fn first_char(s: Seq<char>, c: char) -> int {
    choose|i: int| char_at(s, c, i) && (forall|j: int| 0 <= j < i ==> !char_at(s, c, j))
}

/// A leftmost occurrence pins `first_char` down exactly.
pub proof fn lemma_first_char(s: Seq<char>, c: char, i: int)
    requires
        char_at(s, c, i),
        forall|j: int| 0 <= j < i ==> !char_at(s, c, j),
    ensures
        has_char(s, c),
        first_char(s, c) == i,
{
    assert(char_at(s, c, i) && (forall|j: int| 0 <= j < i ==> !char_at(s, c, j)));
    let k = first_char(s, c);
    assert(char_at(s, c, k) && (forall|j: int| 0 <= j < k ==> !char_at(s, c, j)));
    if k < i {
        assert(!char_at(s, c, k));
    }
    if i < k {
        assert(!char_at(s, c, i));
    }
}

/// Leftmost occurrence of the adjacent pair `a`, `b` in `s`, if any.
pub fn find_pair(s: &str, a: char, b: char) -> (r: Option<usize>)
    ensures
        match r {
            Some(i) => {
                &&& pair_at(s@, a, b, i as int)
                &&& has_pair(s@, a, b)
                &&& first_pair(s@, a, b) == i as int
            },
            None => !has_pair(s@, a, b),
        },
{
    let n = s.unicode_len();
    if n < 2 {
        return None;
    }
    let mut i: usize = 0;
    while i + 1 < n
        invariant
            n == s@.len(),
            n >= 2,
            i + 1 <= n,
            forall|j: int| 0 <= j < i ==> !pair_at(s@, a, b, j),
        decreases n - i,
    {
        if s.get_char(i) == a && s.get_char(i + 1) == b {
            proof {
                lemma_first_pair(s@, a, b, i as int);
            }
            return Some(i);
        }
        i = i + 1;
    }
    None
}

/// Leftmost occurrence of the character `c` in `s`, if any.
pub fn find_char(s: &str, c: char) -> (r: Option<usize>)
    ensures
        match r {
            Some(i) => {
                &&& char_at(s@, c, i as int)
                &&& has_char(s@, c)
                &&& first_char(s@, c) == i as int
                &&& forall|j: int| 0 <= j < i ==> s@[j] != c
            },
            None => {
                &&& !has_char(s@, c)
                &&& forall|j: int| 0 <= j < s@.len() ==> s@[j] != c
            },
        },
{
    let n = s.unicode_len();
    let mut i: usize = 0;
    while i < n
        invariant
            n == s@.len(),
            i <= n,
            forall|j: int| 0 <= j < i ==> !char_at(s@, c, j),
        decreases n - i,
    {
        if s.get_char(i) == c {
            proof {
                lemma_first_char(s@, c, i as int);
                assert forall|j: int| 0 <= j < i as int implies s@[j] != c by {
                    assert(!char_at(s@, c, j));
                }
            }
            return Some(i);
        }
        i = i + 1;
    }
    proof {
        assert forall|j: int| 0 <= j < s@.len() implies s@[j] != c by {
            assert(!char_at(s@, c, j));
        }
        assert(!has_char(s@, c)) by {
            if has_char(s@, c) {
                let j = choose|j: int| char_at(s@, c, j);
            }
        }
    }
    None
}

/// Whether the character `c` occurs anywhere in `s`.
pub fn contains_char(s: &str, c: char) -> (r: bool)
    ensures
        r == has_char(s@, c),
{
    match find_char(s, c) {
        Some(_) => true,
        None => false,
    }
}

/// Character-for-character string equality, reflected into the views.
pub fn str_eq(a: &str, b: &str) -> (r: bool)
    ensures
        r == (a@ == b@),
{
    let an = a.unicode_len();
    let bn = b.unicode_len();
    if an != bn {
        return false;
    }
    let mut i: usize = 0;
    while i < an
        invariant
            an == a@.len(),
            an == b@.len(),
            i <= an,
            forall|j: int| 0 <= j < i ==> a@[j] == b@[j],
        decreases an - i,
    {
        if a.get_char(i) != b.get_char(i) {
            proof {
                assert(a@[i as int] != b@[i as int]);
            }
            return false;
        }
        i = i + 1;
    }
    proof {
        assert(a@ =~= b@);
    }
    true
}

} // verus!
