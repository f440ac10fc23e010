//! Character-level text primitives: conversion between `&str` and
//! `Vec<char>`, substring search, and the few `std` string operations the
//! library relies on.

use vstd::prelude::*;

verus! {

/// Relies on `str` equality: two string slices compare equal exactly when
/// their character content is equal.
pub assume_specification[ <str as PartialEq>::eq ](a: &str, b: &str) -> (r: bool)
    ensures
        r == (a@ == b@),
;

/// Relies on `String::push`: appends the given character to the end of the
/// string.
pub assume_specification[ std::string::String::push ](s: &mut std::string::String, c: char)
    ensures
        final(s)@ == old(s)@.push(c),
;

/// The characters of `s`, as a vector.
pub fn str_to_chars(s: &str) -> (r: Vec<char>)
    ensures
        r@ == s@,
{
    let n = s.unicode_len();
    let mut r: Vec<char> = Vec::new();
    for i in 0..n
        invariant
            n == s@.len(),
            r@ == s@.subrange(0, i as int),
    {
        r.push(s.get_char(i));
        assert(r@ =~= s@.subrange(0, i + 1));
    }
    assert(r@ =~= s@);
    r
}

/// A string holding exactly the characters of `v`.
pub fn chars_to_string(v: &Vec<char>) -> (r: String)
    ensures
        r@ == v@,
{
    let mut r = String::new();
    let n = v.len();
    for i in 0..n
        invariant
            n == v@.len(),
            r@ == v@.subrange(0, i as int),
    {
        r.push(v[i]);
        assert(r@ =~= v@.subrange(0, i + 1));
    }
    assert(r@ =~= v@);
    r
}

/// `p` occurs in `s` at position `i`.
pub open spec fn occurs_at(s: Seq<char>, p: Seq<char>, i: int) -> bool {
    0 <= i && i + p.len() <= s.len() && s.subrange(i, i + p.len()) == p
}

/// `p` occurs somewhere in `s` at or after position `from`.
pub open spec fn occurs_from(s: Seq<char>, p: Seq<char>, from: int) -> bool {
    exists|i: int| i >= from && occurs_at(s, p, i)
}

/// `s` contains `p`.
pub open spec fn contains_seq(s: Seq<char>, p: Seq<char>) -> bool {
    occurs_from(s, p, 0)
}

/// Whether `p` occurs in `text` at position `i`.
pub fn matches_at(text: &Vec<char>, pat: &Vec<char>, i: usize) -> (r: bool)
    requires
        i + pat@.len() <= text@.len(),
    ensures
        r == occurs_at(text@, pat@, i as int),
{
    let n = text.len();
    let m = pat.len();
    for j in 0..m
        invariant
            i + m <= n,
            n == text@.len(),
            m == pat@.len(),
            forall|k: int| 0 <= k < j ==> text@[i + k] == pat@[k],
    {
        if text[i + j] != pat[j] {
            assert(text@.subrange(i as int, i + pat@.len())[j as int] != pat@[j as int]);
            return false;
        }
    }
    assert(text@.subrange(i as int, i + pat@.len()) =~= pat@);
    true
}

/// The first position at or after `from` where `pat` occurs in `text`.
pub fn find_from(text: &Vec<char>, pat: &Vec<char>, from: usize) -> (r: Option<usize>)
    ensures
        match r {
            Some(i) => from <= i && occurs_at(text@, pat@, i as int) && forall|j: int|
                from <= j < i ==> !occurs_at(text@, pat@, j),
            None => forall|j: int| j >= from ==> !occurs_at(text@, pat@, j),
        },
{
    let n = text.len();
    let m = pat.len();
    if m == 0 {
        if from <= n {
            assert(text@.subrange(from as int, from as int) =~= pat@);
            return Some(from);
        } else {
            return None;
        }
    }
    if m > n || from > n - m {
        assert(forall|j: int| j >= from ==> !occurs_at(text@, pat@, j));
        return None;
    }
    let mut i = from;
    while i <= n - m
        invariant
            from <= i,
            m == pat@.len(),
            n == text@.len(),
            1 <= m <= n,
            i <= n - m + 1,
            forall|j: int| from <= j < i ==> !occurs_at(text@, pat@, j),
        decreases n - i,
    {
        if matches_at(text, pat, i) {
            return Some(i);
        }
        i = i + 1;
    }
    assert(forall|j: int| j >= from ==> !occurs_at(text@, pat@, j));
    None
}

/// `text` contains `pat`.
pub fn contains_chars(text: &Vec<char>, pat: &Vec<char>) -> (r: bool)
    ensures
        r == contains_seq(text@, pat@),
{
    match find_from(text, pat, 0) {
        Some(_) => true,
        None => false,
    }
}



/// The first position at or after `from` where `p` occurs in `s`, or -1.
pub open spec fn spec_find(s: Seq<char>, p: Seq<char>, from: int) -> int
    decreases s.len() - from,
{
    if from < 0 || from + p.len() > s.len() {
        -1
    } else if p.len() == 0 || occurs_at(s, p, from) {
        from
    } else {
        spec_find(s, p, from + 1)
    }
}

/// `spec_find` returns -1 exactly when there is no occurrence at or after
/// `from`, and otherwise the first one.
pub proof fn lemma_spec_find(s: Seq<char>, p: Seq<char>, from: int)
    requires
        from >= 0,
    ensures
        spec_find(s, p, from) == -1 || spec_find(s, p, from) >= from,
        spec_find(s, p, from) == -1 ==> forall|j: int| j >= from ==> !occurs_at(s, p, j),
        spec_find(s, p, from) >= 0 ==> spec_find(s, p, from) >= from && occurs_at(
            s,
            p,
            spec_find(s, p, from),
        ) && forall|j: int| from <= j < spec_find(s, p, from) ==> !occurs_at(s, p, j),
    decreases s.len() - from,
{
    if from + p.len() > s.len() {
        assert(forall|j: int| j >= from ==> !occurs_at(s, p, j));
    } else if p.len() == 0 {
        assert(s.subrange(from, from) =~= p);
        assert(occurs_at(s, p, from));
    } else if occurs_at(s, p, from) {
    } else {
        lemma_spec_find(s, p, from + 1);
    }
}

/// The first position at or after `from` where `pat` occurs in `text`,
/// as `spec_find` gives it.
pub fn find_at(text: &Vec<char>, pat: &Vec<char>, from: usize) -> (r: Option<usize>)
    ensures
        match r {
            Some(i) => spec_find(text@, pat@, from as int) == i && i + pat@.len() <= text@.len()
                && i >= from,
            None => spec_find(text@, pat@, from as int) == -1,
        },
{
    proof {
        lemma_spec_find(text@, pat@, from as int);
    }
    match find_from(text, pat, from) {
        Some(i) => {
            proof {
                let m = spec_find(text@, pat@, from as int);
                if m == -1 {
                    assert(!occurs_at(text@, pat@, i as int));
                    assert(false);
                }
                if m < i {
                    assert(occurs_at(text@, pat@, m));
                    assert(false);
                }
                if m > i {
                    assert(!occurs_at(text@, pat@, i as int));
                    assert(false);
                }
            }
            Some(i)
        },
        None => {
            proof {
                let m = spec_find(text@, pat@, from as int);
                if m >= 0 {
                    assert(occurs_at(text@, pat@, m));
                    assert(false);
                }
            }
            None
        },
    }
}

/// Whitespace as the detector's syntax knows it.
pub open spec fn ws_char(c: char) -> bool {
    c == ' ' || c == '\t' || c == '\n' || c == '\r' || c == '\u{0B}' || c == '\u{0C}'
}

/// The first position at or after `i` that is not whitespace (or the end).
pub open spec fn ws_end(s: Seq<char>, i: int) -> int
    decreases s.len() - i,
{
    if i < 0 || i >= s.len() {
        i
    } else if ws_char(s[i]) {
        ws_end(s, i + 1)
    } else {
        i
    }
}

/// `ws_end` stays within the text and runs over whitespace only.
pub proof fn lemma_ws_end(s: Seq<char>, i: int)
    requires
        0 <= i <= s.len(),
    ensures
        i <= ws_end(s, i) <= s.len(),
        ws_end(s, i) < s.len() ==> !ws_char(s[ws_end(s, i)]),
        forall|j: int| i <= j < ws_end(s, i) ==> ws_char(s[j]),
    decreases s.len() - i,
{
    if i < s.len() && ws_char(s[i]) {
        lemma_ws_end(s, i + 1);
    }
}

/// Whether `c` counts as whitespace to the detector.
pub fn is_ws_char(c: char) -> (r: bool)
    ensures
        r == ws_char(c),
{
    c == ' ' || c == '\t' || c == '\n' || c == '\r' || c == '\u{0B}' || c == '\u{0C}'
}

/// Skip whitespace from `i` on.
pub fn skip_ws(text: &Vec<char>, i: usize) -> (r: usize)
    requires
        i <= text@.len(),
    ensures
        r == ws_end(text@, i as int),
        i <= r <= text@.len(),
{
    let n = text.len();
    let mut j = i;
    while j < n && is_ws_char(text[j])
        invariant
            i <= j <= n,
            n == text@.len(),
            ws_end(text@, i as int) == ws_end(text@, j as int),
        decreases n - j,
    {
        j = j + 1;
    }
    proof {
        lemma_ws_end(text@, i as int);
    }
    j
}

/// The characters of `text` from `a` (inclusive) to `b` (exclusive).
pub fn sub_chars(text: &Vec<char>, a: usize, b: usize) -> (r: Vec<char>)
    requires
        a <= b <= text@.len(),
    ensures
        r@ == text@.subrange(a as int, b as int),
{
    let mut r: Vec<char> = Vec::new();
    let mut i = a;
    while i < b
        invariant
            a <= i <= b <= text@.len(),
            r@ == text@.subrange(a as int, i as int),
        decreases b - i,
    {
        r.push(text[i]);
        assert(r@ =~= text@.subrange(a as int, i as int + 1));
        i = i + 1;
    }
    assert(r@ =~= text@.subrange(a as int, b as int));
    r
}



/// What `str::to_lowercase` returns: a function of the characters alone.
pub uninterp spec fn lower_of(s: Seq<char>) -> Seq<char>;

/// Relies on `str::to_lowercase`: the result depends on the characters
/// alone; an empty string stays empty.
#[verifier::external_body]
pub fn to_lowercase(s: &str) -> (r: String)
    ensures
        r@ == lower_of(s@),
        s@.len() == 0 ==> r@.len() == 0,
{
    s.to_lowercase()
}

/// An upper-case ASCII letter mapped to lower case; any other character
/// kept.
pub open spec fn ascii_lower_char(c: char) -> char {
    if 65 <= (c as u32) <= 90 {
        ((c as u32) + 32) as char
    } else {
        c
    }
}

/// A text with its ASCII letters lowered.
pub open spec fn ascii_lower(s: Seq<char>) -> Seq<char> {
    Seq::new(s.len(), |i: int| ascii_lower_char(s[i]))
}

/// Lower the ASCII letters of `s`.
pub fn ascii_lower_chars(s: &Vec<char>) -> (r: Vec<char>)
    ensures
        r@ == ascii_lower(s@),
{
    let n = s.len();
    let mut r: Vec<char> = Vec::new();
    let mut i: usize = 0;
    while i < n
        invariant
            0 <= i <= n,
            n == s@.len(),
            r@.len() == i,
            forall|k: int| 0 <= k < i ==> r@[k] == ascii_lower_char(s@[k]),
        decreases n - i,
    {
        let c = s[i];
        let u = c as u32;
        if u >= 65 && u <= 90 {
            r.push(((u + 32) as u8) as char);
        } else {
            r.push(c);
        }
        i = i + 1;
    }
    assert(r@ =~= ascii_lower(s@));
    r
}

/// The text without leading or trailing whitespace.
pub open spec fn trim_ws(s: Seq<char>) -> Seq<char> {
    if trim_end_pos(s, s.len() as int) <= ws_end(s, 0) {
        Seq::empty()
    } else {
        s.subrange(ws_end(s, 0), trim_end_pos(s, s.len() as int))
    }
}

/// The position after the last non-whitespace character at or before `j`.
pub open spec fn trim_end_pos(s: Seq<char>, j: int) -> int
    decreases j,
{
    if j <= 0 {
        0
    } else if ws_char(s[j - 1]) {
        trim_end_pos(s, j - 1)
    } else {
        j
    }
}

pub proof fn lemma_trim_end_pos(s: Seq<char>, j: int)
    requires
        0 <= j <= s.len(),
    ensures
        0 <= trim_end_pos(s, j) <= j,
        trim_end_pos(s, j) > 0 ==> !ws_char(s[trim_end_pos(s, j) - 1]),
        forall|k: int| trim_end_pos(s, j) <= k < j ==> ws_char(s[k]),
    decreases j,
{
    if j > 0 && ws_char(s[j - 1]) {
        lemma_trim_end_pos(s, j - 1);
    }
}

/// `chars` without leading or trailing whitespace.
pub fn trim_chars(s: &Vec<char>) -> (r: Vec<char>)
    ensures
        r@ == trim_ws(s@),
{
    let n = s.len();
    let a = skip_ws(s, 0);
    let mut b = n;
    while b > a && is_ws_char(s[b - 1])
        invariant
            a <= b <= n,
            n == s@.len(),
            a == ws_end(s@, 0),
            trim_end_pos(s@, n as int) == trim_end_pos(s@, b as int),
        decreases b,
    {
        b = b - 1;
    }
    proof {
        lemma_trim_end_pos(s@, b as int);
    }
    if b == a {
        let r = sub_chars(s, a, a);
        proof {
            assert(trim_end_pos(s@, s@.len() as int) <= a);
            assert(r@ =~= trim_ws(s@));
        }
        r
    } else {
        let r = sub_chars(s, a, b);
        proof {
            assert(!ws_char(s@[b - 1]));
            assert(trim_end_pos(s@, b as int) == b);
            assert(r@ =~= trim_ws(s@));
        }
        r
    }
}

} // verus!
