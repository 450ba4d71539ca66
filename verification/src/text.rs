//! Text as sequences of code points: conversion from and to strings, UTF-8
//! byte lengths, substring search, whitespace trimming, line splitting and
//! decimal rendering.
//!
//! Every function here is specified over `Seq<char>`, the view of `str` and
//! `String`.

use vstd::prelude::*;
use vstd::utf8::{encode_scalar, encode_utf8};

verus! {

/// `String::push` of the standard library appends one character to the end of
/// the string and leaves the characters before it as they were.
pub assume_specification[ String::push ](s: &mut String, c: char)
    ensures
        final(s)@ == old(s)@.push(c),
;

/// `==` on string slices in the standard library holds exactly when both
/// slices have the same characters.
pub assume_specification[ <str as PartialEq>::eq ](a: &str, b: &str) -> (r: bool)
    ensures
        r == (a@ == b@),
;

/// Tells whether `a` and `b` have the same characters.
pub fn same_text(a: &str, b: &str) -> (r: bool)
    ensures
        r == (a@ == b@),
{
    a.eq(b)
}

/// Number of bytes that `s` takes in UTF-8. That it is a `usize` says that
/// the encoding of a string fits in memory.
pub fn byte_len(s: &str) -> (n: usize)
    ensures
        n == utf8_len(s@),
{
    s.as_bytes().len()
}

/// The characters of `s`, in order. Their UTF-8 encoding is that of `s` and
/// fits in memory.
pub fn chars_of(s: &str) -> (v: Vec<char>)
    ensures
        v@ == s@,
        utf8_len(v@) <= usize::MAX,
{
    let mut v: Vec<char> = Vec::with_capacity(byte_len(s));
    for c in it: s.chars()
        invariant
            v@ == it.seq().take(it.index() as int),
    {
        v.push(c);
    }
    v
}

/// A string made of the characters `chars[from..to]`.
pub fn string_of(chars: &Vec<char>, from: usize, to: usize) -> (s: String)
    requires
        from <= to <= chars.len(),
    ensures
        s@ == chars@.subrange(from as int, to as int),
{
    let mut s = String::new();
    let mut i: usize = from;
    while i < to
        invariant
            from <= i <= to <= chars.len(),
            s@ == chars@.subrange(from as int, i as int),
        decreases to - i,
    {
        s.push(chars[i]);
        i += 1;
    }
    s
}

/// The characters that Unicode gives the property `White_Space`.
pub open spec fn is_whitespace(c: char) -> bool {
    let u = c as u32;
    ||| 0x09 <= u <= 0x0D
    ||| u == 0x20
    ||| u == 0x85
    ||| u == 0xA0
    ||| u == 0x1680
    ||| 0x2000 <= u <= 0x200A
    ||| u == 0x2028
    ||| u == 0x2029
    ||| u == 0x202F
    ||| u == 0x205F
    ||| u == 0x3000
}

/// Tells whether `c` is a whitespace character.
pub fn char_is_whitespace(c: char) -> (b: bool)
    ensures
        b == is_whitespace(c),
{
    let u: u32 = c as u32;
    (0x09 <= u && u <= 0x0D) || u == 0x20 || u == 0x85 || u == 0xA0 || u == 0x1680 || (0x2000 <= u
        && u <= 0x200A) || u == 0x2028 || u == 0x2029 || u == 0x202F || u == 0x205F || u == 0x3000
}

/// Number of bytes that `c` takes in UTF-8.
pub open spec fn utf8_width(c: char) -> nat {
    let u = c as u32;
    if u < 0x80 {
        1
    } else if u < 0x800 {
        2
    } else if u < 0x10000 {
        3
    } else {
        4
    }
}

/// Number of bytes that `s` takes in UTF-8.
pub open spec fn utf8_len(s: Seq<char>) -> nat {
    encode_utf8(s).len()
}

/// One character is encoded in `utf8_width` bytes.
pub proof fn lemma_utf8_len_single(c: char)
    ensures
        encode_scalar(c as u32).len() == utf8_width(c),
        1 <= utf8_width(c) <= 4,
{
    broadcast use vstd::utf8::char_is_scalar;

}

/// The UTF-8 length of a concatenation is the sum of the lengths.
pub proof fn lemma_utf8_len_concat(a: Seq<char>, b: Seq<char>)
    ensures
        utf8_len(a + b) == utf8_len(a) + utf8_len(b),
    decreases a.len(),
{
    if a.len() > 0 {
        assert((a + b).drop_first() == a.drop_first() + b);
        lemma_utf8_len_concat(a.drop_first(), b);
    }
}

/// Appending one character adds its width to the UTF-8 length.
pub proof fn lemma_utf8_len_push(s: Seq<char>, c: char)
    ensures
        utf8_len(s.push(c)) == utf8_len(s) + utf8_width(c),
{
    let one = seq![c];
    assert(s.push(c) == s + one);
    lemma_utf8_len_concat(s, one);
    assert(encode_utf8(one) == encode_scalar(c as u32) + encode_utf8(one.drop_first()));
}

/// A piece of a text is no longer in UTF-8 than the text.
pub proof fn lemma_utf8_len_subrange(s: Seq<char>, from: int, to: int)
    requires
        0 <= from <= to <= s.len(),
    ensures
        utf8_len(s.subrange(from, to)) <= utf8_len(s),
{
    let a = s.subrange(0, from);
    let m = s.subrange(from, to);
    let z = s.subrange(to, s.len() as int);
    assert(s == (a + m) + z);
    lemma_utf8_len_concat(a + m, z);
    lemma_utf8_len_concat(a, m);
}

/// Number of bytes that `c` takes in UTF-8.
pub fn char_width(c: char) -> (w: usize)
    ensures
        w == utf8_width(c),
{
    let u: u32 = c as u32;
    if u < 0x80 {
        1
    } else if u < 0x800 {
        2
    } else if u < 0x10000 {
        3
    } else {
        4
    }
}

/// Number of bytes that the first `upto` characters of `chars` take in UTF-8.
pub fn byte_offset(chars: &Vec<char>, upto: usize) -> (n: usize)
    requires
        upto <= chars.len(),
        utf8_len(chars@) <= usize::MAX,
    ensures
        n == utf8_len(chars@.take(upto as int)),
{
    let mut n: usize = 0;
    let mut i: usize = 0;
    while i < upto
        invariant
            i <= upto <= chars.len(),
            utf8_len(chars@) <= usize::MAX,
            n == utf8_len(chars@.take(i as int)),
        decreases upto - i,
    {
        proof {
            assert(chars@.take(i + 1) == chars@.take(i as int).push(chars@[i as int]));
            lemma_utf8_len_push(chars@.take(i as int), chars@[i as int]);
            lemma_utf8_len_subrange(chars@, 0, i + 1);
        }
        n = n + char_width(chars[i]);
        i += 1;
    }
    n
}

/// `needle` stands in `hay` at index `at`.
pub open spec fn occurs_at(hay: Seq<char>, needle: Seq<char>, at: int) -> bool {
    &&& 0 <= at
    &&& at + needle.len() <= hay.len()
    &&& hay.subrange(at, at + needle.len()) == needle
}

/// `needle` stands somewhere in `hay`.
pub open spec fn contains(hay: Seq<char>, needle: Seq<char>) -> bool {
    exists|at: int| occurs_at(hay, needle, at)
}

/// The first index at or after `from` at which `needle` stands in `hay`.
pub open spec fn first_occurrence_from(hay: Seq<char>, needle: Seq<char>, from: int) -> Option<int>
    decreases hay.len() + 1 - from,
{
    if from < 0 || from + needle.len() > hay.len() {
        None
    } else if occurs_at(hay, needle, from) {
        Some(from)
    } else {
        first_occurrence_from(hay, needle, from + 1)
    }
}

/// The first index at which `needle` stands in `hay`.
pub open spec fn first_occurrence(hay: Seq<char>, needle: Seq<char>) -> Option<int> {
    first_occurrence_from(hay, needle, 0)
}

/// `s` begins with `prefix`.
pub open spec fn starts_with(s: Seq<char>, prefix: Seq<char>) -> bool {
    occurs_at(s, prefix, 0)
}

/// `s` ends with `suffix`.
pub open spec fn ends_with(s: Seq<char>, suffix: Seq<char>) -> bool {
    occurs_at(s, suffix, s.len() - suffix.len())
}

/// What `first_occurrence_from` finds is an occurrence, and none stands
/// between `from` and it; where it finds nothing there is none from `from` on.
pub proof fn lemma_first_occurrence_from(hay: Seq<char>, needle: Seq<char>, from: int)
    requires
        0 <= from,
    ensures
        match first_occurrence_from(hay, needle, from) {
            Some(at) => {
                &&& from <= at
                &&& occurs_at(hay, needle, at)
                &&& forall|j: int| from <= j < at ==> !occurs_at(hay, needle, j)
            },
            None => forall|j: int| from <= j ==> !occurs_at(hay, needle, j),
        },
    decreases hay.len() + 1 - from,
{
    if from + needle.len() <= hay.len() && !occurs_at(hay, needle, from) {
        lemma_first_occurrence_from(hay, needle, from + 1);
    }
}

/// `first_occurrence` is the least index of an occurrence, and is `None`
/// exactly when `hay` does not contain `needle`.
pub proof fn lemma_first_occurrence(hay: Seq<char>, needle: Seq<char>)
    ensures
        first_occurrence(hay, needle) is Some <==> contains(hay, needle),
        first_occurrence(hay, needle) matches Some(at) ==> {
            &&& occurs_at(hay, needle, at)
            &&& forall|j: int| 0 <= j < at ==> !occurs_at(hay, needle, j)
        },
{
    lemma_first_occurrence_from(hay, needle, 0);
}

/// Tells whether `needle` stands in `hay` at index `at`.
pub fn occurs_at_index(hay: &Vec<char>, needle: &Vec<char>, at: usize) -> (b: bool)
    ensures
        b == occurs_at(hay@, needle@, at as int),
{
    if needle.len() > hay.len() || at > hay.len() - needle.len() {
        return false;
    }
    let mut k: usize = 0;
    while k < needle.len()
        invariant
            k <= needle.len(),
            at + needle.len() <= hay.len(),
            forall|j: int| 0 <= j < k ==> hay@[at + j] == needle@[j],
        decreases needle.len() - k,
    {
        if hay[at + k] != needle[k] {
            return false;
        }
        k += 1;
    }
    assert(hay@.subrange(at as int, at + needle.len()) =~= needle@);
    true
}

/// The first index at which `needle` stands in `hay`, if there is one.
pub fn find(hay: &Vec<char>, needle: &Vec<char>) -> (r: Option<usize>)
    ensures
        match r {
            Some(at) => first_occurrence(hay@, needle@) == Some(at as int),
            None => first_occurrence(hay@, needle@) is None,
        },
{
    if needle.len() > hay.len() {
        return None;
    }
    let last: usize = hay.len() - needle.len();
    let mut at: usize = 0;
    loop
        invariant
            at <= last,
            last == hay.len() - needle.len(),
            needle.len() <= hay.len(),
            first_occurrence(hay@, needle@) == first_occurrence_from(hay@, needle@, at as int),
        decreases last - at,
    {
        if occurs_at_index(hay, needle, at) {
            return Some(at);
        }
        if at == last {
            assert(first_occurrence_from(hay@, needle@, at + 1) is None);
            return None;
        }
        at += 1;
    }
}

/// Tells whether `needle` stands somewhere in `hay`.
pub fn includes(hay: &Vec<char>, needle: &Vec<char>) -> (b: bool)
    ensures
        b == contains(hay@, needle@),
{
    proof {
        lemma_first_occurrence(hay@, needle@);
    }
    find(hay, needle).is_some()
}

/// Number of whitespace characters at the start of `s`.
pub open spec fn leading_whitespace(s: Seq<char>) -> nat
    decreases s.len(),
{
    if s.len() > 0 && is_whitespace(s.first()) {
        1 + leading_whitespace(s.drop_first())
    } else {
        0
    }
}

/// Number of whitespace characters at the end of `s`.
pub open spec fn trailing_whitespace(s: Seq<char>) -> nat
    decreases s.len(),
{
    if s.len() > 0 && is_whitespace(s.last()) {
        1 + trailing_whitespace(s.drop_last())
    } else {
        0
    }
}

/// `s` without the whitespace at its start.
pub open spec fn trim_start(s: Seq<char>) -> Seq<char> {
    s.skip(leading_whitespace(s) as int)
}

/// `s` without the whitespace at its end.
pub open spec fn trim_end(s: Seq<char>) -> Seq<char> {
    s.take(s.len() - trailing_whitespace(s))
}

/// `s` without the whitespace at its start and at its end.
pub open spec fn trim(s: Seq<char>) -> Seq<char> {
    trim_end(trim_start(s))
}

/// The leading whitespace is a run of whitespace that ends at the end of the
/// text or before a character that is none.
pub proof fn lemma_leading_whitespace(s: Seq<char>)
    ensures
        leading_whitespace(s) <= s.len(),
        forall|j: int| 0 <= j < leading_whitespace(s) ==> is_whitespace(#[trigger] s[j]),
        leading_whitespace(s) < s.len() ==> !is_whitespace(s[leading_whitespace(s) as int]),
    decreases s.len(),
{
    if s.len() > 0 && is_whitespace(s.first()) {
        let rest = s.drop_first();
        lemma_leading_whitespace(rest);
        assert forall|j: int| 0 <= j < leading_whitespace(s) implies is_whitespace(
            #[trigger] s[j],
        ) by {
            if j > 0 {
                assert(s[j] == rest[j - 1]);
            }
        }
    }
}

/// A run of whitespace at the start of `s` that cannot be made longer is the
/// leading whitespace.
pub proof fn lemma_leading_whitespace_is(s: Seq<char>, n: int)
    requires
        0 <= n <= s.len(),
        forall|j: int| 0 <= j < n ==> is_whitespace(#[trigger] s[j]),
        n < s.len() ==> !is_whitespace(s[n]),
    ensures
        leading_whitespace(s) == n,
{
    lemma_leading_whitespace(s);
}

/// The trailing whitespace is a run of whitespace that begins at the start of
/// the text or after a character that is none.
pub proof fn lemma_trailing_whitespace(s: Seq<char>)
    ensures
        trailing_whitespace(s) <= s.len(),
        forall|j: int| s.len() - trailing_whitespace(s) <= j < s.len() ==> is_whitespace(#[trigger] s[j]),
        trailing_whitespace(s) < s.len() ==> !is_whitespace(
            s[s.len() - trailing_whitespace(s) - 1],
        ),
    decreases s.len(),
{
    if s.len() > 0 && is_whitespace(s.last()) {
        let rest = s.drop_last();
        lemma_trailing_whitespace(rest);
        assert forall|j: int| s.len() - trailing_whitespace(s) <= j < s.len() implies is_whitespace(
            #[trigger] s[j],
        ) by {
            if j < s.len() - 1 {
                assert(s[j] == rest[j]);
            }
        }
    }
}

/// A run of whitespace at the end of `s` that cannot be made longer is the
/// trailing whitespace.
pub proof fn lemma_trailing_whitespace_is(s: Seq<char>, n: int)
    requires
        0 <= n <= s.len(),
        forall|j: int| s.len() - n <= j < s.len() ==> is_whitespace(#[trigger] s[j]),
        n < s.len() ==> !is_whitespace(s[s.len() - n - 1]),
    ensures
        trailing_whitespace(s) == n,
{
    lemma_trailing_whitespace(s);
}

/// The bounds of `trim(chars)` in `chars`.
pub fn trim_bounds(chars: &Vec<char>) -> (r: (usize, usize))
    ensures
        r.0 <= r.1 <= chars.len(),
        r.0 == leading_whitespace(chars@),
        chars@.subrange(r.0 as int, chars.len() as int) == trim_start(chars@),
        chars@.subrange(r.0 as int, r.1 as int) == trim(chars@),
{
    let n: usize = chars.len();
    let mut lo: usize = 0;
    while lo < n && char_is_whitespace(chars[lo])
        invariant
            lo <= n == chars.len(),
            forall|j: int| 0 <= j < lo ==> is_whitespace(#[trigger] chars@[j]),
        decreases n - lo,
    {
        lo += 1;
    }
    proof {
        lemma_leading_whitespace_is(chars@, lo as int);
    }
    let ghost rest = chars@.skip(lo as int);
    let mut hi: usize = n;
    while hi > lo && char_is_whitespace(chars[hi - 1])
        invariant
            lo <= hi <= n == chars.len(),
            rest == chars@.skip(lo as int),
            forall|j: int| hi - lo <= j < rest.len() ==> is_whitespace(#[trigger] rest[j]),
        decreases hi,
    {
        hi -= 1;
    }
    proof {
        lemma_trailing_whitespace_is(rest, n - hi);
    }
    (lo, hi)
}

/// A vector made of the characters `chars[from..to]`.
pub fn slice_of(chars: &Vec<char>, from: usize, to: usize) -> (v: Vec<char>)
    requires
        from <= to <= chars.len(),
    ensures
        v@ == chars@.subrange(from as int, to as int),
{
    let mut v: Vec<char> = Vec::new();
    let mut i: usize = from;
    while i < to
        invariant
            from <= i <= to <= chars.len(),
            v@ == chars@.subrange(from as int, i as int),
        decreases to - i,
    {
        v.push(chars[i]);
        i += 1;
    }
    v
}

/// Number of characters of `s` before its first line feed; the length of `s`
/// where it has none.
pub open spec fn line_end(s: Seq<char>) -> nat
    decreases s.len(),
{
    if s.len() == 0 || s.first() == '\n' {
        0
    } else {
        1 + line_end(s.drop_first())
    }
}

/// `line` without the carriage return at its end, if it has one.
pub open spec fn without_carriage_return(line: Seq<char>) -> Seq<char> {
    if line.len() > 0 && line.last() == '\r' {
        line.drop_last()
    } else {
        line
    }
}

/// The lines of `s`. A line ends with a line feed, or with a carriage return
/// and a line feed; neither belongs to the line. What follows the last line
/// feed is a line too unless it is empty, and keeps a carriage return at its
/// end.
pub open spec fn lines(s: Seq<char>) -> Seq<Seq<char>>
    decreases s.len(),
{
    if s.len() == 0 {
        Seq::empty()
    } else {
        let end = line_end(s) as int;
        if end >= s.len() {
            seq![s]
        } else {
            seq![without_carriage_return(s.take(end))] + lines(s.skip(end + 1))
        }
    }
}

/// The character sequences that the vectors of `v` hold.
pub open spec fn views_of(v: Seq<Vec<char>>) -> Seq<Seq<char>> {
    Seq::new(v.len(), |k: int| v[k]@)
}

/// An index before which `s` has no line feed, and which is the end of `s` or
/// holds a line feed, is `line_end(s)`.
pub proof fn lemma_line_end_is(s: Seq<char>, k: int)
    requires
        0 <= k <= s.len(),
        forall|j: int| 0 <= j < k ==> s[j] != '\n',
        k < s.len() ==> s[k] == '\n',
    ensures
        line_end(s) == k,
    decreases s.len(),
{
    if k > 0 {
        let rest = s.drop_first();
        lemma_line_end_is(rest, k - 1);
    }
}

/// The lines of `text`, each as a vector of its characters.
pub fn split_lines(text: &Vec<char>) -> (out: Vec<Vec<char>>)
    ensures
        views_of(out@) == lines(text@),
        forall|k: int| 0 <= k < out@.len() ==> utf8_len(#[trigger] out@[k]@) <= utf8_len(text@),
{
    let n: usize = text.len();
    let mut out: Vec<Vec<char>> = Vec::new();
    let mut start: usize = 0;
    let mut i: usize = 0;
    assert(text@.skip(0) == text@);
    while i < n
        invariant
            start <= i <= n == text.len(),
            forall|j: int| start <= j < i ==> text@[j] != '\n',
            lines(text@) == views_of(out@) + lines(text@.skip(start as int)),
            forall|k: int| 0 <= k < out@.len() ==> utf8_len(#[trigger] out@[k]@) <= utf8_len(text@),
        decreases n - i,
    {
        if text[i] == '\n' {
            let mut end: usize = i;
            if end > start && text[end - 1] == '\r' {
                end -= 1;
            }
            let line = slice_of(text, start, end);
            proof {
                let rest = text@.skip(start as int);
                lemma_line_end_is(rest, i - start);
                assert(line@ == without_carriage_return(rest.take(i - start)));
                assert(rest.skip(i - start + 1) == text@.skip(i + 1));
                lemma_utf8_len_subrange(text@, start as int, end as int);
            }
            out.push(line);
            start = i + 1;
        }
        i += 1;
    }
    if start < n {
        let line = slice_of(text, start, n);
        proof {
            let rest = text@.skip(start as int);
            lemma_line_end_is(rest, n - start);
            lemma_utf8_len_subrange(text@, start as int, n as int);
        }
        out.push(line);
    }
    out
}

/// The decimal digit of `d`, which is less than ten.
pub open spec fn digit(d: nat) -> char {
    seq!['0', '1', '2', '3', '4', '5', '6', '7', '8', '9'][d as int]
}

/// `n` written in decimal, without leading zeros.
pub open spec fn decimal(n: nat) -> Seq<char>
    decreases n,
{
    if n < 10 {
        seq![digit(n)]
    } else {
        decimal(n / 10).push(digit(n % 10))
    }
}

/// The decimal digit of `d`.
pub fn digit_char(d: u64) -> (c: char)
    requires
        d < 10,
    ensures
        c == digit(d as nat),
{
    if d == 0 {
        '0'
    } else if d == 1 {
        '1'
    } else if d == 2 {
        '2'
    } else if d == 3 {
        '3'
    } else if d == 4 {
        '4'
    } else if d == 5 {
        '5'
    } else if d == 6 {
        '6'
    } else if d == 7 {
        '7'
    } else if d == 8 {
        '8'
    } else {
        '9'
    }
}

/// Appends `n`, written in decimal, to `s`.
pub fn push_decimal(s: &mut String, n: u64)
    ensures
        final(s)@ == old(s)@ + decimal(n as nat),
    decreases n,
{
    if n >= 10 {
        push_decimal(s, n / 10);
    }
    s.push(digit_char(n % 10));
}

/// Appends the characters of `tail` to `s`.
pub fn push_chars(s: &mut String, tail: &Vec<char>)
    ensures
        final(s)@ == old(s)@ + tail@,
{
    let mut i: usize = 0;
    while i < tail.len()
        invariant
            i <= tail.len(),
            s@ == old(s)@ + tail@.take(i as int),
        decreases tail.len() - i,
    {
        s.push(tail[i]);
        i += 1;
    }
}

/// `s` without the copies of `prefix` at its start. An empty `prefix` leaves
/// `s` as it is.
pub open spec fn strip_prefixes(s: Seq<char>, prefix: Seq<char>) -> Seq<char>
    decreases s.len(),
{
    if prefix.len() > 0 && starts_with(s, prefix) {
        strip_prefixes(s.skip(prefix.len() as int), prefix)
    } else {
        s
    }
}

/// `s` without the copies of `suffix` at its end. An empty `suffix` leaves
/// `s` as it is.
pub open spec fn strip_suffixes(s: Seq<char>, suffix: Seq<char>) -> Seq<char>
    decreases s.len(),
{
    if suffix.len() > 0 && ends_with(s, suffix) {
        strip_suffixes(s.take(s.len() - suffix.len()), suffix)
    } else {
        s
    }
}

/// The characters `chars[from..to]` without the copies of `prefix` at their
/// start and the copies of `suffix` that then stand at their end: the bounds
/// of what is left.
pub fn strip_bounds(
    chars: &Vec<char>,
    from: usize,
    to: usize,
    prefix: &Vec<char>,
    suffix: &Vec<char>,
) -> (r: (usize, usize))
    requires
        from <= to <= chars.len(),
    ensures
        from <= r.0 <= r.1 <= to,
        chars@.subrange(r.0 as int, r.1 as int) == strip_suffixes(
            strip_prefixes(chars@.subrange(from as int, to as int), prefix@),
            suffix@,
        ),
{
    let mut lo: usize = from;
    while prefix.len() > 0 && prefix.len() <= to - lo && occurs_at_index(chars, prefix, lo)
        invariant
            from <= lo <= to <= chars.len(),
            strip_prefixes(chars@.subrange(lo as int, to as int), prefix@) == strip_prefixes(
                chars@.subrange(from as int, to as int),
                prefix@,
            ),
        decreases to - lo,
    {
        proof {
            let piece = chars@.subrange(lo as int, to as int);
            assert(piece.subrange(0, prefix@.len() as int) == chars@.subrange(
                lo as int,
                lo + prefix@.len(),
            ));
            assert(piece.skip(prefix@.len() as int) == chars@.subrange(
                lo + prefix@.len(),
                to as int,
            ));
        }
        lo += prefix.len();
    }
    proof {
        let piece = chars@.subrange(lo as int, to as int);
        if prefix@.len() > 0 && prefix@.len() <= to - lo {
            assert(piece.subrange(0, prefix@.len() as int) == chars@.subrange(
                lo as int,
                lo + prefix@.len(),
            ));
        }
    }
    let mut hi: usize = to;
    while suffix.len() > 0 && suffix.len() <= hi - lo && occurs_at_index(
        chars,
        suffix,
        hi - suffix.len(),
    )
        invariant
            from <= lo <= hi <= to <= chars.len(),
            strip_suffixes(chars@.subrange(lo as int, hi as int), suffix@) == strip_suffixes(
                chars@.subrange(lo as int, to as int),
                suffix@,
            ),
        decreases hi - lo,
    {
        proof {
            let piece = chars@.subrange(lo as int, hi as int);
            assert(piece.subrange(piece.len() - suffix@.len(), piece.len() as int)
                == chars@.subrange(hi - suffix@.len(), hi as int));
            assert(piece.take(piece.len() - suffix@.len()) == chars@.subrange(
                lo as int,
                hi - suffix@.len(),
            ));
        }
        hi -= suffix.len();
    }
    proof {
        let piece = chars@.subrange(lo as int, hi as int);
        if suffix@.len() > 0 && suffix@.len() <= hi - lo {
            assert(piece.subrange(piece.len() - suffix@.len(), piece.len() as int)
                == chars@.subrange(hi - suffix@.len(), hi as int));
        }
    }
    (lo, hi)
}

/// The lines `rows`, with a line feed between one and the next.
pub open spec fn joined(rows: Seq<Seq<char>>) -> Seq<char>
    decreases rows.len(),
{
    if rows.len() == 0 {
        Seq::empty()
    } else if rows.len() == 1 {
        rows[0]
    } else {
        joined(rows.drop_last()) + seq!['\n'] + rows.last()
    }
}

/// The lines `rows[from..]`, with a line feed between one and the next.
pub fn join_lines(rows: &Vec<Vec<char>>, from: usize) -> (s: String)
    requires
        from <= rows.len(),
    ensures
        s@ == joined(views_of(rows@).skip(from as int)),
{
    let mut s = String::new();
    let mut i: usize = from;
    let ghost all = views_of(rows@);
    while i < rows.len()
        invariant
            from <= i <= rows.len(),
            all == views_of(rows@),
            s@ == joined(all.subrange(from as int, i as int)),
        decreases rows.len() - i,
    {
        if i > from {
            s.push('\n');
        }
        push_chars(&mut s, &rows[i]);
        proof {
            let now = all.subrange(from as int, i + 1);
            assert(now.drop_last() == all.subrange(from as int, i as int));
        }
        i += 1;
    }
    s
}

/// The characters of an optional string.
pub open spec fn option_text(o: Option<String>) -> Option<Seq<char>> {
    match o {
        Some(s) => Some(s@),
        None => None,
    }
}

/// A copy of an optional string.
pub fn copy_option(o: &Option<String>) -> (r: Option<String>)
    ensures
        option_text(r) == option_text(*o),
{
    match o {
        Some(s) => Some(s.clone()),
        None => None,
    }
}

/// The text `context`, a colon, a space, and `detail`.
pub open spec fn described(context: Seq<char>, detail: Seq<char>) -> Seq<char> {
    context + ": "@ + detail
}

/// The text `context`, a colon, a space, and `detail`.
pub fn describe(context: &str, detail: &str) -> (s: String)
    ensures
        s@ == described(context@, detail@),
{
    let mut s = context.to_owned();
    s.append(": ");
    s.append(detail);
    s
}

} // verus!
