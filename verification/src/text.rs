//! Character-level helpers shared by the naming and parsing modules.

use vstd::prelude::*;
use vstd::std_specs::iter::IteratorSpec;

verus! {

broadcast use vstd::string::group_string_axioms;

/// The characters of `s`, in order.
pub fn chars_of(s: &str) -> (chars: Vec<char>)
    ensures
        chars@ == s@,
{
    let mut it = s.chars();
    let mut chars: Vec<char> = Vec::new();
    loop
        invariant
            chars@ + it.remaining() == s@,
        ensures
            chars@ == s@,
        decreases s@.len() - chars@.len(),
    {
        match it.next() {
            Some(c) => {
                chars.push(c);
            },
            None => {
                break;
            },
        }
    }
    chars
}

/// Builds a `String` holding exactly the characters of `chars`.
#[verifier::external_body]
pub(crate) fn text_of(chars: &[char]) -> (s: String)
    ensures
        s@ == chars@,
{
    String::from_iter(chars)
}

/// `p` occurs in `s` starting at position `i`.
pub open spec fn occurs_at(s: Seq<char>, p: Seq<char>, i: int) -> bool {
    0 <= i && i + p.len() <= s.len() && s.subrange(i, i + p.len()) == p
}

/// The position of the last occurrence of `p` in `s`, if any.
pub open spec fn last_occurrence(s: Seq<char>, p: Seq<char>) -> Option<int> {
    if exists|i: int| occurs_at(s, p, i) {
        Some(choose|i: int| occurs_at(s, p, i) && forall|j: int| occurs_at(s, p, j) ==> j <= i)
    } else {
        None
    }
}

/// What `last_occurrence` returns is an occurrence, and no later one exists.
pub proof fn lemma_last_occurrence(s: Seq<char>, p: Seq<char>)
    ensures
        last_occurrence(s, p) matches Some(i) ==> occurs_at(s, p, i) && forall|j: int|
            occurs_at(s, p, j) ==> j <= i,
        last_occurrence(s, p) is None ==> forall|j: int| !occurs_at(s, p, j),
{
    if exists|i: int| occurs_at(s, p, i) {
        let i0 = choose|i: int| occurs_at(s, p, i);
        assert(exists|i: int| occurs_at(s, p, i) && forall|j: int| occurs_at(s, p, j) ==> j <= i)
            by {
            lemma_greatest_occurrence(s, p, i0, s.len() as int);
        }
    }
}

proof fn lemma_greatest_occurrence(s: Seq<char>, p: Seq<char>, known: int, bound: int)
    requires
        occurs_at(s, p, known),
        known <= bound,
        forall|j: int| bound < j ==> !occurs_at(s, p, j),
    ensures
        exists|i: int| occurs_at(s, p, i) && forall|j: int| occurs_at(s, p, j) ==> j <= i,
    decreases bound - known,
{
    if occurs_at(s, p, bound) {
        assert(occurs_at(s, p, bound) && forall|j: int| occurs_at(s, p, j) ==> j <= bound);
    } else {
        lemma_greatest_occurrence(s, p, known, bound - 1);
    }
}

/// `s` ends with `t`.
pub open spec fn ends_with(s: Seq<char>, t: Seq<char>) -> bool {
    t.len() <= s.len() && s.subrange(s.len() - t.len(), s.len() as int) == t
}

/// Whether `p` occurs in `s` at `i`.
pub fn occurs_at_exec(s: &[char], p: &[char], i: usize) -> (found: bool)
    requires
        i + p.len() <= s.len(),
    ensures
        found == occurs_at(s@, p@, i as int),
{
    let mut k: usize = 0;
    while k < p.len()
        invariant
            i + p.len() <= s.len(),
            0 <= k <= p@.len(),
            forall|j: int| 0 <= j < k ==> s@[i + j] == p@[j],
        decreases p.len() - k,
    {
        if s[i + k] != p[k] {
            assert(s@.subrange(i as int, i + p@.len())[k as int] == s@[i + k]);
            return false;
        }
        k = k + 1;
    }
    assert(s@.subrange(i as int, i + p@.len()) == p@);
    true
}

/// Whether `s` ends with `t`.
pub fn ends_with_exec(s: &[char], t: &[char]) -> (found: bool)
    ensures
        found == ends_with(s@, t@),
{
    if t.len() > s.len() {
        false
    } else {
        occurs_at_exec(s, t, s.len() - t.len())
    }
}

/// The position of the last occurrence of `p` in `s`, if any.
pub fn last_occurrence_exec(s: &[char], p: &[char]) -> (found: Option<usize>)
    ensures
        match found {
            Some(i) => last_occurrence(s@, p@) == Some(i as int),
            None => last_occurrence(s@, p@) is None,
        },
{
    if p.len() > s.len() {
        assert(!exists|i: int| occurs_at(s@, p@, i));
        return None;
    }
    if p.len() == 0 {
        let ghost i = s@.len() as int;
        proof {
            assert(s@.subrange(i, i) == p@);
            assert(occurs_at(s@, p@, i));
            let c = choose|c: int| occurs_at(s@, p@, c) && forall|j: int| occurs_at(s@, p@, j) ==> j <= c;
            assert(occurs_at(s@, p@, i) && forall|j: int| occurs_at(s@, p@, j) ==> j <= i);
            assert(c <= i && i <= c);
        }
        return Some(s.len());
    }
    let mut k: usize = s.len() - p.len() + 1;
    while k > 0
        invariant
            p@.len() <= s@.len(),
            k <= s@.len() - p@.len() + 1,
            forall|j: int| k <= j ==> !occurs_at(s@, p@, j),
        decreases k,
    {
        if occurs_at_exec(s, p, k - 1) {
            let ghost i = (k - 1) as int;
            proof {
                let c = choose|c: int| occurs_at(s@, p@, c) && forall|j: int| occurs_at(s@, p@, j) ==> j <= c;
                assert(occurs_at(s@, p@, i) && forall|j: int| occurs_at(s@, p@, j) ==> j <= i);
                assert(c <= i && i <= c);
            }
            return Some(k - 1);
        }
        k = k - 1;
    }
    None
}

/// The characters of `a` followed by those of `b`.
pub fn concat(a: &[char], b: &[char]) -> (c: Vec<char>)
    ensures
        c@ == a@ + b@,
{
    let mut c: Vec<char> = Vec::new();
    let mut i: usize = 0;
    while i < a.len()
        invariant
            0 <= i <= a@.len(),
            c@ == a@.subrange(0, i as int),
        decreases a.len() - i,
    {
        c.push(a[i]);
        i = i + 1;
    }
    let mut j: usize = 0;
    while j < b.len()
        invariant
            0 <= j <= b@.len(),
            c@ == a@ + b@.subrange(0, j as int),
        decreases b.len() - j,
    {
        c.push(b[j]);
        j = j + 1;
    }
    assert(a@.subrange(0, a@.len() as int) == a@);
    assert(b@.subrange(0, b@.len() as int) == b@);
    c
}

/// The characters of `s` from `from` up to (not including) `to`.
pub fn slice_of(s: &[char], from: usize, to: usize) -> (c: Vec<char>)
    requires
        from <= to <= s@.len(),
    ensures
        c@ == s@.subrange(from as int, to as int),
{
    let mut c: Vec<char> = Vec::new();
    let mut i: usize = from;
    while i < to
        invariant
            from <= i <= to <= s@.len(),
            c@ == s@.subrange(from as int, i as int),
        decreases to - i,
    {
        c.push(s[i]);
        i = i + 1;
    }
    c
}

/// Whether `a` and `b` hold the same characters.
pub fn same_chars(a: &[char], b: &[char]) -> (same: bool)
    ensures
        same == (a@ == b@),
{
    if a.len() != b.len() {
        return false;
    }
    let found = occurs_at_exec(a, b, 0);
    assert(a@.subrange(0, b@.len() as int) == a@);
    found
}

} // verus!
