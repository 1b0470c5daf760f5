//! Text as sequences of characters: conversion, comparison, search,
//! trimming and decimal numerals.

use vstd::prelude::*;
use vstd::slice::slice_subrange;
use vstd::string::*;
use vstd::utf8::*;

verus! {

/// What the string holds, where there is one.
pub open spec fn option_text(s: Option<String>) -> Option<Seq<char>> {
    match s {
        Some(s) => Some(s@),
        None => None,
    }
}

/// The characters of `s`, in order.
pub fn chars_of(s: &str) -> (chars: Vec<char>)
    ensures
        chars@ == s@,
{
    let mut chars: Vec<char> = Vec::new();
    for c in it: s.chars()
        invariant
            chars@ == it.seq().take(it.index() as int),
            it.seq() == s@,
    {
        chars.push(c);
    }
    chars
}

/// The string made of `chars`.
pub fn string_of(chars: &[char]) -> (s: String)
    ensures
        s@ == chars@,
{
    let mut s = String::new();
    let mut i: usize = 0;
    while i < chars.len()
        invariant
            i <= chars.len(),
            s@ == chars@.take(i as int),
        decreases chars.len() - i,
    {
        s.push(chars[i]);
        assert(chars@.take(i + 1) == chars@.take(i as int).push(chars@[i as int]));
        i += 1;
    }
    assert(chars@.take(chars.len() as int) == chars@);
    s
}

/// Whether the bytes `a[i..]` come strictly before `b[i..]` in
/// lexicographic order: at the first position where they differ `a` holds
/// the smaller byte, or `a` ends first.
pub open spec fn bytes_lt_from(a: Seq<u8>, b: Seq<u8>, i: int) -> bool
    decreases a.len() - i,
{
    if i >= b.len() {
        false
    } else if i >= a.len() {
        true
    } else if a[i] != b[i] {
        a[i] < b[i]
    } else {
        bytes_lt_from(a, b, i + 1)
    }
}

/// The order of strings: lexicographic on their UTF-8 bytes, which is the
/// order of `str` itself.
pub open spec fn text_lt(a: Seq<char>, b: Seq<char>) -> bool {
    bytes_lt_from(encode_utf8(a), encode_utf8(b), 0)
}

/// No sequence of bytes comes before itself.
proof fn lemma_bytes_lt_irreflexive(a: Seq<u8>, i: int)
    requires
        0 <= i,
    ensures
        !bytes_lt_from(a, a, i),
    decreases a.len() - i,
{
    if i < a.len() {
        lemma_bytes_lt_irreflexive(a, i + 1);
    }
}

/// The order of bytes is transitive.
proof fn lemma_bytes_lt_transitive(a: Seq<u8>, b: Seq<u8>, c: Seq<u8>, i: int)
    requires
        0 <= i,
        bytes_lt_from(a, b, i),
        bytes_lt_from(b, c, i),
    ensures
        bytes_lt_from(a, c, i),
    decreases a.len() - i,
{
    if i < a.len() && i < b.len() && i < c.len() && a[i] == b[i] && b[i] == c[i] {
        lemma_bytes_lt_transitive(a, b, c, i + 1);
    }
}

/// Of two sequences of bytes that differ, one comes before the other.
proof fn lemma_bytes_lt_total(a: Seq<u8>, b: Seq<u8>, i: int)
    requires
        0 <= i <= a.len(),
        i <= b.len(),
        a.take(i) == b.take(i),
    ensures
        bytes_lt_from(a, b, i) || bytes_lt_from(b, a, i) || a == b,
    decreases a.len() - i,
{
    if i < a.len() && i < b.len() {
        if a[i] == b[i] {
            assert(a.take(i + 1) == b.take(i + 1)) by {
                assert(a.take(i + 1) == a.take(i).push(a[i]));
                assert(b.take(i + 1) == b.take(i).push(b[i]));
            }
            lemma_bytes_lt_total(a, b, i + 1);
        }
    } else if i == a.len() && i == b.len() {
        assert(a.take(i) == a);
        assert(b.take(i) == b);
    }
}

/// No string comes before itself.
pub proof fn lemma_text_lt_irreflexive(a: Seq<char>)
    ensures
        !text_lt(a, a),
{
    lemma_bytes_lt_irreflexive(encode_utf8(a), 0);
}

/// The order of strings is transitive.
pub proof fn lemma_text_lt_transitive(a: Seq<char>, b: Seq<char>, c: Seq<char>)
    requires
        text_lt(a, b),
        text_lt(b, c),
    ensures
        text_lt(a, c),
{
    lemma_bytes_lt_transitive(encode_utf8(a), encode_utf8(b), encode_utf8(c), 0);
}

/// Of two different strings one comes before the other.
pub proof fn lemma_text_lt_total(a: Seq<char>, b: Seq<char>)
    ensures
        text_lt(a, b) || text_lt(b, a) || a == b,
{
    let x = encode_utf8(a);
    let y = encode_utf8(b);
    assert(x.take(0) == y.take(0));
    lemma_bytes_lt_total(x, y, 0);
    if x == y {
        encode_utf8_decode_utf8(a);
        encode_utf8_decode_utf8(b);
    }
}

/// Whether `a` comes strictly before `b`.
pub fn precedes(a: &str, b: &str) -> (r: bool)
    ensures
        r == text_lt(a@, b@),
{
    let x = a.as_bytes();
    let y = b.as_bytes();
    let mut i: usize = 0;
    while i < x.len() && i < y.len()
        invariant
            i <= x.len(),
            i <= y.len(),
            x@ == encode_utf8(a@),
            y@ == encode_utf8(b@),
            text_lt(a@, b@) == bytes_lt_from(x@, y@, i as int),
        decreases x.len() - i,
    {
        if x[i] != y[i] {
            return x[i] < y[i];
        }
        i += 1;
    }
    i < y.len()
}

/// Whether `a` and `b` hold the same characters.
pub fn same_text(a: &str, b: &str) -> (r: bool)
    ensures
        r == (a@ == b@),
{
    let x = a.as_bytes();
    let y = b.as_bytes();
    if x.len() != y.len() {
        return false;
    }
    let mut i: usize = 0;
    while i < x.len()
        invariant
            i <= x.len(),
            x.len() == y.len(),
            x@ == encode_utf8(a@),
            y@ == encode_utf8(b@),
            x@.take(i as int) == y@.take(i as int),
        decreases x.len() - i,
    {
        if x[i] != y[i] {
            return false;
        }
        assert(x@.take(i + 1) == x@.take(i as int).push(x@[i as int]));
        assert(y@.take(i + 1) == y@.take(i as int).push(y@[i as int]));
        i += 1;
    }
    proof {
        assert(x@.take(i as int) == x@);
        assert(y@.take(i as int) == y@);
        encode_utf8_decode_utf8(a@);
        encode_utf8_decode_utf8(b@);
    }
    true
}

/// The first position at or after `from` where `s` holds `c`, or the length
/// of `s` where there is none.
pub open spec fn find_char_from(s: Seq<char>, c: char, from: int) -> int
    decreases s.len() - from,
{
    if from >= s.len() {
        s.len() as int
    } else if s[from] == c {
        from
    } else {
        find_char_from(s, c, from + 1)
    }
}

/// The first position where `s` holds `c`, or the length of `s` where it
/// holds none.
pub open spec fn find_char(s: Seq<char>, c: char) -> int {
    find_char_from(s, c, 0)
}

/// `find_char` is the one position with `c` on it and no `c` before it.
pub proof fn lemma_find_char(s: Seq<char>, c: char, at: int)
    requires
        0 <= at <= s.len(),
        forall|j: int| 0 <= j < at ==> s[j] != c,
        at < s.len() ==> s[at] == c,
    ensures
        find_char(s, c) == at,
{
    lemma_find_char_from(s, c, 0, at);
}

/// `find_char_from` is the one position at or after `from` with `c` on it
/// and no `c` between `from` and it.
proof fn lemma_find_char_from(s: Seq<char>, c: char, from: int, at: int)
    requires
        0 <= from <= at <= s.len(),
        forall|j: int| from <= j < at ==> s[j] != c,
        at < s.len() ==> s[at] == c,
    ensures
        find_char_from(s, c, from) == at,
    decreases at - from,
{
    if from < at {
        lemma_find_char_from(s, c, from + 1, at);
    }
}

/// What `find_char` returns lies within `s`, on the first `c`.
pub proof fn lemma_find_char_bounds(s: Seq<char>, c: char)
    ensures
        0 <= find_char(s, c) <= s.len(),
        forall|j: int| 0 <= j < find_char(s, c) ==> s[j] != c,
        find_char(s, c) < s.len() ==> s[find_char(s, c)] == c,
{
    lemma_find_char_from_bounds(s, c, 0);
}

/// What `find_char_from` returns lies between `from` and the end of `s`, on
/// the first `c`.
proof fn lemma_find_char_from_bounds(s: Seq<char>, c: char, from: int)
    requires
        0 <= from,
    ensures
        from <= s.len() ==> from <= find_char_from(s, c, from) <= s.len(),
        forall|j: int| from <= j < find_char_from(s, c, from) ==> s[j] != c,
        find_char_from(s, c, from) < s.len() ==> s[find_char_from(s, c, from)] == c,
    decreases s.len() - from,
{
    if from < s.len() && s[from] != c {
        lemma_find_char_from_bounds(s, c, from + 1);
    }
}

/// The first position of `c` in `text`; the length of `text` where it
/// holds no `c`.
pub fn position_of(text: &[char], c: char) -> (at: usize)
    ensures
        at == find_char(text@, c),
        at <= text.len(),
{
    let mut at: usize = 0;
    while at < text.len() && text[at] != c
        invariant
            at <= text.len(),
            forall|j: int| 0 <= j < at ==> text@[j] != c,
        decreases text.len() - at,
    {
        at += 1;
    }
    proof {
        lemma_find_char(text@, c, at as int);
    }
    at
}

/// Whether `pattern` stands in `s` at position `at`.
pub open spec fn occurs_at(s: Seq<char>, pattern: Seq<char>, at: int) -> bool {
    &&& 0 <= at
    &&& at + pattern.len() <= s.len()
    &&& s.subrange(at, at + pattern.len()) == pattern
}

/// The first position at or after `from` where `pattern` stands in `s`, or
/// the length of `s` where there is none.
pub open spec fn find_text_from(s: Seq<char>, pattern: Seq<char>, from: int) -> int
    decreases s.len() - from,
{
    if from >= s.len() {
        s.len() as int
    } else if occurs_at(s, pattern, from) {
        from
    } else {
        find_text_from(s, pattern, from + 1)
    }
}

/// The first position where `pattern` stands in `s`, or the length of `s`
/// where it stands nowhere.
pub open spec fn find_text(s: Seq<char>, pattern: Seq<char>) -> int {
    find_text_from(s, pattern, 0)
}

/// What `find_text` returns lies within `s`, on the first occurrence.
pub proof fn lemma_find_text_bounds(s: Seq<char>, pattern: Seq<char>)
    ensures
        0 <= find_text(s, pattern) <= s.len(),
        forall|j: int| 0 <= j < find_text(s, pattern) ==> !occurs_at(s, pattern, j),
        find_text(s, pattern) < s.len() ==> occurs_at(s, pattern, find_text(s, pattern)),
{
    lemma_find_text_from_bounds(s, pattern, 0);
}

/// What `find_text_from` returns lies between `from` and the end of `s`, on
/// the first occurrence.
proof fn lemma_find_text_from_bounds(s: Seq<char>, pattern: Seq<char>, from: int)
    requires
        0 <= from,
    ensures
        from <= s.len() ==> from <= find_text_from(s, pattern, from) <= s.len(),
        forall|j: int| from <= j < find_text_from(s, pattern, from) ==> !occurs_at(s, pattern, j),
        find_text_from(s, pattern, from) < s.len() ==> occurs_at(
            s,
            pattern,
            find_text_from(s, pattern, from),
        ),
    decreases s.len() - from,
{
    if from < s.len() && !occurs_at(s, pattern, from) {
        lemma_find_text_from_bounds(s, pattern, from + 1);
    }
}

/// Whether `pattern` stands in `text` at position `at`.
pub fn stands_at(text: &[char], pattern: &[char], at: usize) -> (r: bool)
    ensures
        r == occurs_at(text@, pattern@, at as int),
{
    if pattern.len() > text.len() || at > text.len() - pattern.len() {
        return false;
    }
    let mut k: usize = 0;
    while k < pattern.len()
        invariant
            k <= pattern.len(),
            at + pattern.len() <= text.len(),
            forall|j: int| 0 <= j < k ==> text@[at + j] == pattern@[j],
        decreases pattern.len() - k,
    {
        if text[at + k] != pattern[k] {
            assert(text@.subrange(at as int, at + pattern.len())[k as int] != pattern@[k as int]);
            return false;
        }
        k += 1;
    }
    assert(text@.subrange(at as int, at + pattern.len()) =~= pattern@);
    true
}

/// The first position where `pattern` stands in `text`; the length of
/// `text` where it stands nowhere.
pub fn position_of_text(text: &[char], pattern: &[char]) -> (at: usize)
    ensures
        at == find_text(text@, pattern@),
        at <= text.len(),
{
    let mut at: usize = 0;
    while at < text.len()
        invariant
            at <= text.len(),
            find_text(text@, pattern@) == find_text_from(text@, pattern@, at as int),
        decreases text.len() - at,
    {
        if stands_at(text, pattern, at) {
            return at;
        }
        at += 1;
    }
    at
}

/// The lower-case form of an ASCII capital letter; any other character
/// unchanged.
pub open spec fn ascii_lower(c: char) -> char {
    if 'A' <= c && c <= 'Z' {
        ((c as u32) + 32) as char
    } else {
        c
    }
}

/// `s` with each ASCII capital letter in lower case.
pub open spec fn ascii_lowercase(s: Seq<char>) -> Seq<char> {
    s.map_values(|c: char| ascii_lower(c))
}

/// The lower-case form of `c` where it is an ASCII capital letter.
pub fn to_ascii_lower(c: char) -> (l: char)
    ensures
        l == ascii_lower(c),
{
    if 'A' <= c && c <= 'Z' {
        ((c as u8) + 32) as char
    } else {
        c
    }
}

/// `text` with each ASCII capital letter in lower case.
pub fn lowercase_of(text: &[char]) -> (lower: Vec<char>)
    ensures
        lower@ == ascii_lowercase(text@),
{
    let mut lower: Vec<char> = Vec::new();
    let mut i: usize = 0;
    while i < text.len()
        invariant
            i <= text.len(),
            lower@ == ascii_lowercase(text@.take(i as int)),
        decreases text.len() - i,
    {
        lower.push(to_ascii_lower(text[i]));
        i += 1;
        assert(lower@ =~= ascii_lowercase(text@.take(i as int)));
    }
    assert(text@.take(text.len() as int) == text@);
    lower
}

/// Whether `c` is white space: a character with the Unicode property
/// `White_Space`, as `char::is_whitespace` has it.
pub open spec fn is_whitespace(c: char) -> bool {
    ||| c == ' '
    ||| ('\u{9}' <= c && c <= '\u{d}')
    ||| c == '\u{85}'
    ||| c == '\u{a0}'
    ||| c == '\u{1680}'
    ||| ('\u{2000}' <= c && c <= '\u{200a}')
    ||| c == '\u{2028}'
    ||| c == '\u{2029}'
    ||| c == '\u{202f}'
    ||| c == '\u{205f}'
    ||| c == '\u{3000}'
}

/// What is stripped from the two ends of a text.
#[derive(Clone, Copy, Debug, PartialEq, Eq)]
pub enum Padding {
    /// The character NUL, which fills the unused part of a read buffer.
    Nul,
    /// White space.
    Whitespace,
}

impl Padding {
    /// Whether `c` is a character of this padding.
    pub open spec fn covers(self, c: char) -> bool {
        match self {
            Padding::Nul => c == '\0',
            Padding::Whitespace => is_whitespace(c),
        }
    }

    /// Whether `c` is a character of this padding.
    pub fn has(&self, c: char) -> (r: bool)
        ensures
            r == self.covers(c),
    {
        match self {
            Padding::Nul => c == '\0',
            Padding::Whitespace => {
                c == ' ' || ('\u{9}' <= c && c <= '\u{d}') || c == '\u{85}' || c == '\u{a0}' || c
                    == '\u{1680}' || ('\u{2000}' <= c && c <= '\u{200a}') || c == '\u{2028}' || c
                    == '\u{2029}' || c == '\u{202f}' || c == '\u{205f}' || c == '\u{3000}'
            },
        }
    }
}

/// `s` without the padding at its start.
pub open spec fn strip_start(s: Seq<char>, padding: Padding) -> Seq<char>
    decreases s.len(),
{
    if s.len() > 0 && padding.covers(s[0]) {
        strip_start(s.drop_first(), padding)
    } else {
        s
    }
}

/// `s` without the padding at its end.
pub open spec fn strip_end(s: Seq<char>, padding: Padding) -> Seq<char>
    decreases s.len(),
{
    if s.len() > 0 && padding.covers(s.last()) {
        strip_end(s.drop_last(), padding)
    } else {
        s
    }
}

/// `s` without the padding at its two ends.
pub open spec fn strip(s: Seq<char>, padding: Padding) -> Seq<char> {
    strip_end(strip_start(s, padding), padding)
}

/// `s` without the white space at its two ends.
pub open spec fn trimmed(s: Seq<char>) -> Seq<char> {
    strip(s, Padding::Whitespace)
}

/// The bounds of `text` without the padding at its two ends: where the
/// padding at the start ends, and where the padding at the end begins.
pub fn strip_bounds(text: &[char], padding: Padding) -> (bounds: (usize, usize))
    ensures
        bounds.0 <= bounds.1 <= text.len(),
        text@.subrange(bounds.0 as int, bounds.1 as int) == strip(text@, padding),
        bounds.0 == text.len() - strip_start(text@, padding).len(),
        bounds.1 == bounds.0 + strip(text@, padding).len(),
{
    let mut start: usize = 0;
    assert(text@.skip(0) == text@);
    while start < text.len() && padding.has(text[start])
        invariant
            start <= text.len(),
            strip_start(text@, padding) == strip_start(text@.skip(start as int), padding),
        decreases text.len() - start,
    {
        assert(text@.skip(start as int).drop_first() == text@.skip(start + 1));
        start += 1;
    }
    let mut end: usize = text.len();
    assert(text@.skip(start as int) == text@.subrange(start as int, end as int));
    while end > start && padding.has(text[end - 1])
        invariant
            start <= end <= text.len(),
            strip(text@, padding) == strip_end(text@.subrange(start as int, end as int), padding),
        decreases end - start,
    {
        assert(text@.subrange(start as int, end as int).drop_last() == text@.subrange(
            start as int,
            end - 1,
        ));
        end -= 1;
    }
    (start, end)
}

/// `s` without the white space at its two ends.
pub fn trim(s: &str) -> (t: String)
    ensures
        t@ == trimmed(s@),
{
    let chars = chars_of(s);
    let bounds = strip_bounds(chars.as_slice(), Padding::Whitespace);
    string_of(slice_subrange(chars.as_slice(), bounds.0, bounds.1))
}

/// The character of the decimal digit `d`.
pub open spec fn digit(d: nat) -> char
    recommends
        d < 10,
{
    (('0' as u32) + d) as char
}

/// The decimal numeral of `n`, without leading zeros.
pub open spec fn decimal(n: nat) -> Seq<char>
    decreases n,
{
    if n < 10 {
        seq![digit(n)]
    } else {
        decimal(n / 10).push(digit(n % 10))
    }
}

/// Appends the decimal numeral of `n` to `s`.
pub fn push_decimal(s: &mut String, n: u128)
    ensures
        final(s)@ == old(s)@ + decimal(n as nat),
    decreases n,
{
    if n >= 10 {
        push_decimal(s, n / 10);
    }
    let d: u8 = (n % 10) as u8;
    s.push((48u8 + d) as char);
    assert(final(s)@ =~= old(s)@ + decimal(n as nat));
}

} // verus!
