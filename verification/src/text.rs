//! Character-level text helpers: conversion of a string to its character
//! sequence, case folding, substring search, and the single-character
//! scans the pattern classifier is built from.

use vstd::prelude::*;

use crate::foreign::lower_chars;

verus! {

/// The character sequence compared under the active case policy:
/// the string itself when matching case-sensitively, its Unicode
/// lowercase mapping otherwise.
pub open spec fn folded(s: Seq<char>, case_sensitive: bool) -> Seq<char> {
    if case_sensitive {
        s
    } else {
        lower_chars(s)
    }
}

/// `needle` occurs in `hay` as a contiguous run. The empty sequence
/// occurs in every sequence.
pub open spec fn is_substring(needle: Seq<char>, hay: Seq<char>) -> bool {
    exists|i: int|
        0 <= i <= hay.len() - needle.len() && #[trigger] hay.subrange(i, i + needle.len())
            == needle
}

/// `c1` immediately followed by `c2` occurs somewhere in `s`.
pub open spec fn has_pair(s: Seq<char>, c1: char, c2: char) -> bool {
    exists|i: int| 0 <= i < s.len() - 1 && #[trigger] s[i] == c1 && s[i + 1] == c2
}

/// `c` is an ASCII digit.
pub open spec fn is_ascii_digit_char(c: char) -> bool {
    48 <= c as u32 <= 57
}

/// Some character of `s` is an ASCII digit.
pub open spec fn has_digit(s: Seq<char>) -> bool {
    exists|i: int| 0 <= i < s.len() && is_ascii_digit_char(#[trigger] s[i])
}

/// The characters of `s`, in order.
pub fn chars_of(s: &str) -> (v: Vec<char>)
    ensures
        v@ == s@,
{
    let n = s.unicode_len();
    let mut v: Vec<char> = Vec::new();
    let mut i: usize = 0;
    while i < n
        invariant
            n == s@.len(),
            i <= n,
            v@ =~= s@.take(i as int),
        decreases n - i,
    {
        v.push(s.get_char(i));
        i = i + 1;
        assert(v@ =~= s@.take(i as int));
    }
    assert(s@.take(n as int) =~= s@);
    v
}

/// The string under the active case policy: a copy when case-sensitive,
/// the lowercase mapping otherwise.
pub fn fold_case(s: &str, case_sensitive: bool) -> (r: String)
    ensures
        r@ == folded(s@, case_sensitive),
{
    if case_sensitive {
        String::from_str(s)
    } else {
        s.to_lowercase()
    }
}

/// Whether two character sequences are equal.
pub fn chars_eq(a: &Vec<char>, b: &Vec<char>) -> (r: bool)
    ensures
        r == (a@ == b@),
{
    if a.len() != b.len() {
        return false;
    }
    let mut i: usize = 0;
    while i < a.len()
        invariant
            a@.len() == b@.len(),
            i <= a@.len(),
            forall|k: int| 0 <= k < i ==> a@[k] == b@[k],
        decreases a@.len() - i,
    {
        if a[i] != b[i] {
            return false;
        }
        i = i + 1;
    }
    proof {
        assert(a@ =~= b@);
    }
    true
}

/// Whether `c` occurs in `v`.
pub fn contains_char(v: &Vec<char>, c: char) -> (r: bool)
    ensures
        r == v@.contains(c),
{
    let mut i: usize = 0;
    while i < v.len()
        invariant
            i <= v@.len(),
            forall|k: int| 0 <= k < i ==> v@[k] != c,
        decreases v@.len() - i,
    {
        if v[i] == c {
            return true;
        }
        i = i + 1;
    }
    false
}

/// Whether `c1` immediately followed by `c2` occurs in `v`.
pub fn contains_pair(v: &Vec<char>, c1: char, c2: char) -> (r: bool)
    ensures
        r == has_pair(v@, c1, c2),
{
    if v.len() < 2 {
        return false;
    }
    let mut i: usize = 0;
    while i < v.len() - 1
        invariant
            v@.len() >= 2,
            i <= v@.len() - 1,
            forall|k: int| 0 <= k < i ==> !(#[trigger] v@[k] == c1 && v@[k + 1] == c2),
        decreases v@.len() - i,
    {
        if v[i] == c1 && v[i + 1] == c2 {
            return true;
        }
        i = i + 1;
    }
    false
}

/// Whether some character of `v` is an ASCII digit.
pub fn contains_digit(v: &Vec<char>) -> (r: bool)
    ensures
        r == has_digit(v@),
{
    let mut i: usize = 0;
    while i < v.len()
        invariant
            i <= v@.len(),
            forall|k: int| 0 <= k < i ==> !is_ascii_digit_char(v@[k]),
        decreases v@.len() - i,
    {
        let u = v[i] as u32;
        if 48 <= u && u <= 57 {
            return true;
        }
        i = i + 1;
    }
    false
}

/// Whether `c` occurs in `v` at some position after the first.
pub fn contains_char_after_first(v: &Vec<char>, c: char) -> (r: bool)
    ensures
        r == exists|i: int| 1 <= i < v@.len() && v@[i] == c,
{
    if v.len() <= 1 {
        return false;
    }
    let mut i: usize = 1;
    while i < v.len()
        invariant
            1 <= i <= v@.len(),
            forall|k: int| 1 <= k < i ==> v@[k] != c,
        decreases v@.len() - i,
    {
        if v[i] == c {
            return true;
        }
        i = i + 1;
    }
    false
}

/// Whether `needle` occupies the positions of `hay` starting at `at`.
fn occurs_at(hay: &Vec<char>, needle: &Vec<char>, at: usize) -> (r: bool)
    requires
        at + needle@.len() <= hay@.len(),
    ensures
        r == (hay@.subrange(at as int, at + needle@.len()) == needle@),
{
    let mut j: usize = 0;
    while j < needle.len()
        invariant
            at + needle@.len() <= hay@.len(),
            j <= needle@.len(),
            forall|k: int| 0 <= k < j ==> hay@[at + k] == needle@[k],
        decreases needle@.len() - j,
    {
        assert(hay@.len() == hay.len());
        let idx: usize = at + j;
        if hay[idx] != needle[j] {
            assert(hay@.subrange(at as int, at + needle@.len())[j as int] != needle@[j as int]);
            return false;
        }
        j = j + 1;
    }
    assert(hay@.subrange(at as int, at + needle@.len()) =~= needle@);
    true
}

/// Whether `needle` occurs contiguously in `hay`.
pub fn contains_seq(hay: &Vec<char>, needle: &Vec<char>) -> (r: bool)
    ensures
        r == is_substring(needle@, hay@),
{
    if needle.len() > hay.len() {
        assert(!is_substring(needle@, hay@));
        return false;
    }
    let last = hay.len() - needle.len();
    let mut i: usize = 0;
    loop
        invariant
            needle@.len() <= hay@.len(),
            last == hay@.len() - needle@.len(),
            i <= last,
            forall|k: int|
                0 <= k < i ==> #[trigger] hay@.subrange(k, k + needle@.len()) != needle@,
        decreases last - i,
    {
        if occurs_at(hay, needle, i) {
            return true;
        }
        if i == last {
            assert(!is_substring(needle@, hay@));
            return false;
        }
        i = i + 1;
    }
}

} // verus!
