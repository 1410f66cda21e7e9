//! Character-level text primitives shared by the analyzers.
//!
//! All scanning in this crate works over vectors of `char`, whose view is the
//! same `Seq<char>` that `String` and `&str` views use, so contracts compose
//! directly with the string types of the public interfaces.
//!
//! Case folding, alphanumeric tests and whitespace tests are ASCII-only: the
//! texts these analyzers classify (severity words, code keywords, list
//! markers) are ASCII, and characters outside ASCII pass through unchanged.

use vstd::prelude::*;

verus! {

/// True for the ASCII uppercase letters.
pub open spec fn is_ascii_upper(c: char) -> bool {
    'A' <= c && c <= 'Z'
}

/// True for the ASCII lowercase letters.
pub open spec fn is_ascii_lower(c: char) -> bool {
    'a' <= c && c <= 'z'
}

/// True for the ASCII decimal digits.
pub open spec fn is_digit_char(c: char) -> bool {
    '0' <= c && c <= '9'
}

/// True for ASCII letters and digits.
pub open spec fn is_ascii_alnum(c: char) -> bool {
    is_ascii_upper(c) || is_ascii_lower(c) || is_digit_char(c)
}

/// True for ASCII whitespace.
pub open spec fn is_space_char(c: char) -> bool {
    c == ' ' || c == '\t' || c == '\n' || c == '\r' || c == '\u{b}' || c == '\u{c}'
}

/// ASCII lowercasing of a single character; anything outside `A..=Z` is kept.
pub open spec fn lower_char(c: char) -> char {
    if is_ascii_upper(c) {
        (c as u32 + 32) as char
    } else {
        c
    }
}

/// The numeric value of an ASCII digit.
pub open spec fn digit_val(c: char) -> int {
    c as int - '0' as int
}

/// Executable test for an ASCII digit.
pub fn check_digit(c: char) -> (r: bool)
    ensures
        r == is_digit_char(c),
{
    '0' <= c && c <= '9'
}

/// Executable test for ASCII whitespace.
pub fn check_space(c: char) -> (r: bool)
    ensures
        r == is_space_char(c),
{
    c == ' ' || c == '\t' || c == '\n' || c == '\r' || c == '\u{b}' || c == '\u{c}'
}

/// Executable test for an ASCII letter or digit.
pub fn check_alnum(c: char) -> (r: bool)
    ensures
        r == is_ascii_alnum(c),
{
    ('A' <= c && c <= 'Z') || ('a' <= c && c <= 'z') || ('0' <= c && c <= '9')
}

/// Executable ASCII lowercasing, exact to `lower_char`.
pub fn to_lower_char(c: char) -> (r: char)
    ensures
        r == lower_char(c),
{
    if 'A' <= c && c <= 'Z' {
        let code: u32 = c as u32;
        proof {
            vstd::utf8::char_is_scalar(c);
        }
        char_from_code_pub(code + 32)
    } else {
        c
    }
}

/// Builds a `char` from a code point that is known to be a Unicode scalar.
/// Relies on `char::from_u32`, which returns the character with that code point.
#[verifier::external_body]
pub fn char_from_code_pub(u: u32) -> (c: char)
    requires
        vstd::utf8::is_scalar(u),
    ensures
        c == (u as char),
{
    char::from_u32(u).unwrap_or(' ')
}

/// ASCII lowercasing of a character sequence.
pub open spec fn lower_seq(s: Seq<char>) -> Seq<char> {
    s.map_values(|c: char| lower_char(c))
}

/// Executable ASCII lowercasing of a character vector.
pub fn to_lower_chars(s: &Vec<char>) -> (r: Vec<char>)
    ensures
        r@ == lower_seq(s@),
{
    let mut out: Vec<char> = Vec::new();
    let mut i: usize = 0;
    while i < s.len()
        invariant
            i <= s.len(),
            out@ == lower_seq(s@.take(i as int)),
        decreases s.len() - i,
    {
        out.push(to_lower_char(s[i]));
        proof {
            assert(lower_seq(s@.take(i + 1 as int)) =~= lower_seq(s@.take(i as int)).push(
                lower_char(s@[i as int]),
            ));
        }
        i = i + 1;
    }
    proof {
        assert(s@.take(s@.len() as int) =~= s@);
    }
    out
}

/// The characters of a string slice, in order.
pub fn chars_of(s: &str) -> (r: Vec<char>)
    ensures
        r@ == s@,
{
    let n: usize = s.unicode_len();
    let mut out: Vec<char> = Vec::new();
    let mut i: usize = 0;
    while i < n
        invariant
            i <= n,
            n == s@.len(),
            out@ == s@.take(i as int),
        decreases n - i,
    {
        out.push(s.get_char(i));
        proof {
            assert(s@.take(i + 1 as int) =~= s@.take(i as int).push(s@[i as int]));
        }
        i = i + 1;
    }
    proof {
        assert(s@.take(s@.len() as int) =~= s@);
    }
    out
}

/// Builds a `String` whose characters are exactly `v`.
/// Relies on `String: FromIterator<char>`, which concatenates the characters.
#[verifier::external_body]
pub fn string_from_chars(v: &Vec<char>) -> (r: String)
    ensures
        r@ == v@,
{
    v.iter().collect()
}

/// Equality of two character vectors as sequences.
pub fn chars_eq(a: &Vec<char>, b: &Vec<char>) -> (r: bool)
    ensures
        r == (a@ == b@),
{
    if a.len() != b.len() {
        return false;
    }
    let mut i: usize = 0;
    while i < a.len()
        invariant
            i <= a.len(),
            a.len() == b.len(),
            forall|j: int| 0 <= j < i ==> a@[j] == b@[j],
        decreases a.len() - i,
    {
        if a[i] != b[i] {
            return false;
        }
        i = i + 1;
    }
    proof {
        assert(a@ =~= b@);
    }
    true
}

/// The needle occurs in `hay` starting at position `i`.
pub open spec fn match_at(hay: Seq<char>, needle: Seq<char>, i: int) -> bool {
    &&& 0 <= i
    &&& i + needle.len() <= hay.len()
    &&& hay.subrange(i, i + needle.len()) == needle
}

/// Position of the first occurrence of `needle` at or after `i`, if any.
pub open spec fn find_from(hay: Seq<char>, needle: Seq<char>, i: int) -> Option<int>
    decreases hay.len() - i when 0 <= i <= hay.len()
{
    if i + needle.len() > hay.len() {
        None
    } else if match_at(hay, needle, i) {
        Some(i)
    } else if i == hay.len() {
        None
    } else {
        find_from(hay, needle, i + 1)
    }
}

/// The needle occurs somewhere in `hay`.
pub open spec fn has_sub(hay: Seq<char>, needle: Seq<char>) -> bool {
    find_from(hay, needle, 0) is Some
}

/// `p` is a prefix of `s`.
pub open spec fn is_prefix(p: Seq<char>, s: Seq<char>) -> bool {
    p.len() <= s.len() && s.take(p.len() as int) == p
}

proof fn lemma_match_at_prefix(hay: Seq<char>, needle: Seq<char>)
    ensures
        match_at(hay, needle, 0) == is_prefix(needle, hay),
{
    if needle.len() <= hay.len() {
        assert(hay.subrange(0, needle.len() as int) =~= hay.take(needle.len() as int));
    }
}

/// Executable match test at one position.
pub fn check_match_at(hay: &Vec<char>, needle: &Vec<char>, i: usize) -> (r: bool)
    requires
        i <= hay@.len(),
    ensures
        r == match_at(hay@, needle@, i as int),
{
    if needle.len() > hay.len() - i {
        return false;
    }
    let mut j: usize = 0;
    while j < needle.len()
        invariant
            j <= needle.len(),
            i + needle.len() <= hay.len(),
            forall|k: int| 0 <= k < j ==> hay@[i + k] == needle@[k],
        decreases needle.len() - j,
    {
        if hay[i + j] != needle[j] {
            assert(hay@.subrange(i as int, i + needle@.len()) != needle@) by {
                assert(hay@.subrange(i as int, i + needle@.len())[j as int] == hay@[i + j]);
            }
            return false;
        }
        j = j + 1;
    }
    proof {
        assert(hay@.subrange(i as int, i + needle@.len()) =~= needle@);
    }
    true
}

/// A prefix test against the start of the vector.
pub fn check_prefix(s: &Vec<char>, p: &Vec<char>) -> (r: bool)
    ensures
        r == is_prefix(p@, s@),
{
    proof {
        lemma_match_at_prefix(s@, p@);
    }
    check_match_at(s, p, 0)
}

proof fn lemma_find_from_skip(hay: Seq<char>, needle: Seq<char>, i: int, j: int)
    requires
        0 <= i <= j <= hay.len(),
        forall|k: int| i <= k < j ==> !match_at(hay, needle, k),
    ensures
        find_from(hay, needle, i) == find_from(hay, needle, j),
    decreases j - i,
{
    if i < j {
        lemma_find_from_skip(hay, needle, i + 1, j);
    }
}

/// If `find_from` returns a position, the needle matches there and nowhere earlier.
pub proof fn lemma_find_from_some(hay: Seq<char>, needle: Seq<char>, i: int)
    requires
        0 <= i <= hay.len(),
    ensures
        find_from(hay, needle, i) matches Some(p) ==> i <= p && match_at(hay, needle, p)
            && (forall|k: int| i <= k < p ==> !match_at(hay, needle, k)),
        find_from(hay, needle, i) is None ==> forall|k: int|
            i <= k ==> !match_at(hay, needle, k),
    decreases hay.len() - i,
{
    if i + needle.len() > hay.len() {
        assert forall|k: int| i <= k implies !match_at(hay, needle, k) by {}
    } else if match_at(hay, needle, i) {
    } else if i == hay.len() {
        assert forall|k: int| i <= k implies !match_at(hay, needle, k) by {}
    } else {
        lemma_find_from_some(hay, needle, i + 1);
    }
}

/// First occurrence of `needle` in `hay` at or after `start`, scanning left
/// to right.
pub fn find_from_at(hay: &Vec<char>, needle: &Vec<char>, start: usize) -> (r: Option<usize>)
    requires
        start <= hay@.len(),
    ensures
        match r {
            Some(p) => find_from(hay@, needle@, start as int) == Some(p as int) && start <= p
                && p + needle@.len() <= hay@.len(),
            None => find_from(hay@, needle@, start as int) is None,
        },
{
    if needle.len() > hay.len() - start {
        return None;
    }
    if needle.len() == 0 {
        proof {
            assert(hay@.subrange(start as int, start as int) =~= needle@);
        }
        return Some(start);
    }
    let last: usize = hay.len() - needle.len();
    let mut i: usize = start;
    while i < last
        invariant
            start <= i <= last,
            1 <= needle@.len() <= hay@.len() - start,
            last == hay@.len() - needle@.len(),
            forall|k: int| start <= k < i ==> !match_at(hay@, needle@, k),
        decreases last - i,
    {
        if check_match_at(hay, needle, i) {
            proof {
                lemma_find_from_skip(hay@, needle@, start as int, i as int);
            }
            return Some(i);
        }
        i = i + 1;
    }
    if check_match_at(hay, needle, last) {
        proof {
            lemma_find_from_skip(hay@, needle@, start as int, last as int);
        }
        return Some(last);
    }
    proof {
        lemma_find_from_skip(hay@, needle@, start as int, last + 1 as int);
    }
    None
}

/// First occurrence of `needle` in `hay`, scanning left to right.
pub fn find_sub(hay: &Vec<char>, needle: &Vec<char>) -> (r: Option<usize>)
    ensures
        match r {
            Some(p) => find_from(hay@, needle@, 0) == Some(p as int),
            None => find_from(hay@, needle@, 0) is None,
        },
{
    find_from_at(hay, needle, 0)
}

/// The characters of `s` from `a` up to `b`.
pub fn copy_range(s: &Vec<char>, a: usize, b: usize) -> (r: Vec<char>)
    requires
        a <= b <= s@.len(),
    ensures
        r@ == s@.subrange(a as int, b as int),
{
    let mut out: Vec<char> = Vec::new();
    let mut k: usize = a;
    while k < b
        invariant
            a <= k <= b <= s@.len(),
            out@ =~= s@.subrange(a as int, k as int),
        decreases b - k,
    {
        out.push(s[k]);
        k = k + 1;
    }
    proof {
        assert(out@ =~= s@.subrange(a as int, b as int));
    }
    out
}

/// Substring occurrence test.
pub fn contains_sub(hay: &Vec<char>, needle: &Vec<char>) -> (r: bool)
    ensures
        r == has_sub(hay@, needle@),
{
    match find_sub(hay, needle) {
        Some(_) => true,
        None => false,
    }
}

/// Length of the longest prefix of `s` all of whose characters satisfy `p`.
pub open spec fn leading_count(s: Seq<char>, p: spec_fn(char) -> bool) -> int
    decreases s.len(),
{
    if s.len() > 0 && p(s[0]) {
        1 + leading_count(s.drop_first(), p)
    } else {
        0
    }
}

/// Characterization of `leading_count` by its boundary.
pub proof fn lemma_leading_count(s: Seq<char>, p: spec_fn(char) -> bool, i: int)
    requires
        0 <= i <= s.len(),
        forall|j: int| 0 <= j < i ==> p(#[trigger] s[j]),
        i == s.len() || !p(s[i]),
    ensures
        leading_count(s, p) == i,
    decreases s.len(),
{
    if s.len() > 0 && p(s[0]) {
        lemma_leading_count(s.drop_first(), p, i - 1);
    }
}

/// Length of the longest suffix of `s` all of whose characters satisfy `p`.
pub open spec fn trailing_count(s: Seq<char>, p: spec_fn(char) -> bool) -> int
    decreases s.len(),
{
    if s.len() > 0 && p(s.last()) {
        1 + trailing_count(s.drop_last(), p)
    } else {
        0
    }
}

/// Characterization of `trailing_count` by its boundary.
pub proof fn lemma_trailing_count(s: Seq<char>, p: spec_fn(char) -> bool, i: int)
    requires
        0 <= i <= s.len(),
        forall|j: int| s.len() - i <= j < s.len() ==> p(#[trigger] s[j]),
        i == s.len() || !p(s[s.len() - i - 1]),
    ensures
        trailing_count(s, p) == i,
    decreases s.len(),
{
    if s.len() > 0 && p(s.last()) {
        lemma_trailing_count(s.drop_last(), p, i - 1);
    }
}

/// ASCII-whitespace trim of both ends, as a specification.
pub open spec fn trim_seq(s: Seq<char>) -> Seq<char> {
    let l = leading_count(s, |c: char| is_space_char(c));
    let rest = s.skip(l);
    let t = trailing_count(rest, |c: char| is_space_char(c));
    rest.take(rest.len() - t)
}

/// Executable trim of ASCII whitespace from both ends.
pub fn trim_chars(s: &Vec<char>) -> (r: Vec<char>)
    ensures
        r@ == trim_seq(s@),
{
    let ghost p = |c: char| is_space_char(c);
    let mut lo: usize = 0;
    while lo < s.len() && check_space(s[lo])
        invariant
            lo <= s.len(),
            forall|j: int| 0 <= j < lo ==> is_space_char(#[trigger] s@[j]),
        decreases s.len() - lo,
    {
        lo = lo + 1;
    }
    proof {
        lemma_leading_count(s@, p, lo as int);
    }
    let mut hi: usize = s.len();
    while hi > lo && check_space(s[hi - 1])
        invariant
            lo <= hi <= s.len(),
            forall|j: int| hi <= j < s.len() ==> is_space_char(#[trigger] s@[j]),
        decreases hi,
    {
        hi = hi - 1;
    }
    let ghost rest = s@.skip(lo as int);
    proof {
        if hi > lo {
            assert(!is_space_char(rest[hi - lo - 1]));
        } else {
            assert(forall|j: int| 0 <= j < rest.len() ==> rest[j] == s@[j + lo]);
        }
        lemma_trailing_count(rest, p, s@.len() - hi);
    }
    let mut out: Vec<char> = Vec::new();
    let mut i: usize = lo;
    while i < hi
        invariant
            lo <= i <= hi <= s.len(),
            out@ =~= s@.subrange(lo as int, i as int),
        decreases hi - i,
    {
        out.push(s[i]);
        i = i + 1;
    }
    proof {
        assert(out@ =~= rest.take(rest.len() - (s@.len() - hi)));
    }
    out
}

/// Appends every character of `v` to `out`.
pub fn push_all(out: &mut Vec<char>, v: &Vec<char>)
    ensures
        final(out)@ == old(out)@ + v@,
{
    let ghost base = out@;
    let mut j: usize = 0;
    while j < v.len()
        invariant
            j <= v.len(),
            out@ =~= base + v@.take(j as int),
        decreases v.len() - j,
    {
        out.push(v[j]);
        proof {
            assert(base + v@.take(j + 1 as int) =~= (base + v@.take(j as int)).push(v@[j as int]));
        }
        j = j + 1;
    }
    proof {
        assert(v@.take(v@.len() as int) =~= v@);
        assert(out@ =~= base + v@);
    }
}

/// All occurrences of `from` replaced by `to`, scanning left to right and
/// never rescanning replaced text; an empty `from` replaces nothing.
pub open spec fn replace_seq(hay: Seq<char>, from: Seq<char>, to: Seq<char>) -> Seq<char>
    decreases hay.len(),
{
    if from.len() == 0 || hay.len() == 0 {
        hay
    } else if match_at(hay, from, 0) {
        to + replace_seq(hay.skip(from.len() as int), from, to)
    } else {
        seq![hay[0]] + replace_seq(hay.drop_first(), from, to)
    }
}

/// Executable replacement of every occurrence of `from` by `to`.
pub fn replace_chars(hay: &Vec<char>, from: &Vec<char>, to: &Vec<char>) -> (r: Vec<char>)
    ensures
        r@ == replace_seq(hay@, from@, to@),
{
    if from.len() == 0 {
        let mut out: Vec<char> = Vec::new();
        let mut i: usize = 0;
        while i < hay.len()
            invariant
                i <= hay.len(),
                out@ =~= hay@.take(i as int),
            decreases hay.len() - i,
        {
            out.push(hay[i]);
            i = i + 1;
        }
        proof {
            assert(hay@.take(hay@.len() as int) =~= hay@);
        }
        return out;
    }
    let mut out: Vec<char> = Vec::new();
    let mut i: usize = 0;
    proof {
        assert(hay@.skip(0) =~= hay@);
        assert(out@ + replace_seq(hay@, from@, to@) =~= replace_seq(hay@, from@, to@));
    }
    while i < hay.len()
        invariant
            i <= hay.len(),
            from@.len() > 0,
            replace_seq(hay@, from@, to@) == out@ + replace_seq(
                hay@.skip(i as int),
                from@,
                to@,
            ),
        decreases hay.len() - i,
    {
        let ghost rest = hay@.skip(i as int);
        let ghost base = out@;
        if check_match_at(hay, from, i) {
            proof {
                assert(match_at(rest, from@, 0)) by {
                    assert(rest.subrange(0, from@.len() as int) =~= hay@.subrange(
                        i as int,
                        i + from@.len(),
                    ));
                }
                assert(replace_seq(rest, from@, to@) == to@ + replace_seq(
                    rest.skip(from@.len() as int),
                    from@,
                    to@,
                ));
                assert(rest.skip(from@.len() as int) =~= hay@.skip(i + from@.len()));
            }
            push_all(&mut out, to);
            proof {
                assert((base + to@) + replace_seq(hay@.skip(i + from@.len()), from@, to@) =~= base
                    + (to@ + replace_seq(hay@.skip(i + from@.len()), from@, to@)));
            }
            i = i + from.len();
        } else {
            proof {
                assert(rest.len() > 0);
                assert(rest[0] == hay@[i as int]);
                assert(!match_at(rest, from@, 0)) by {
                    if match_at(rest, from@, 0) {
                        assert(hay@.subrange(i as int, i + from@.len()) =~= rest.subrange(
                            0,
                            from@.len() as int,
                        ));
                    }
                }
                assert(replace_seq(rest, from@, to@) == seq![rest[0]] + replace_seq(
                    rest.drop_first(),
                    from@,
                    to@,
                ));
                assert(rest.drop_first() =~= hay@.skip(i + 1));
            }
            out.push(hay[i]);
            proof {
                assert(out@ =~= base + seq![rest[0]]);
                assert((base + seq![rest[0]]) + replace_seq(hay@.skip(i + 1), from@, to@) =~= base
                    + (seq![rest[0]] + replace_seq(hay@.skip(i + 1), from@, to@)));
            }
            i = i + 1;
        }
    }
    proof {
        assert(hay@.skip(hay@.len() as int) =~= Seq::<char>::empty());
        assert(out@ + Seq::<char>::empty() =~= out@);
    }
    out
}

/// Index of the first character at or after `i` that satisfies `p`, or the
/// length of `s` when none does.
pub open spec fn first_at(s: Seq<char>, p: spec_fn(char) -> bool, i: int) -> int
    decreases s.len() - i when 0 <= i <= s.len()
{
    if i >= s.len() {
        i
    } else if p(s[i]) {
        i
    } else {
        first_at(s, p, i + 1)
    }
}

/// Characterization of `first_at`.
pub proof fn lemma_first_at(s: Seq<char>, p: spec_fn(char) -> bool, i: int)
    requires
        0 <= i <= s.len(),
    ensures
        i <= first_at(s, p, i) <= s.len(),
        first_at(s, p, i) < s.len() ==> p(s[first_at(s, p, i)]),
        forall|k: int| i <= k < first_at(s, p, i) ==> !p(#[trigger] s[k]),
    decreases s.len() - i,
{
    if i < s.len() && !p(s[i]) {
        lemma_first_at(s, p, i + 1);
    }
}

/// Boundary characterization: a scan that stops at `j` computes `first_at`.
pub proof fn lemma_first_at_is(s: Seq<char>, p: spec_fn(char) -> bool, i: int, j: int)
    requires
        0 <= i <= j <= s.len(),
        forall|k: int| i <= k < j ==> !p(#[trigger] s[k]),
        j == s.len() || p(s[j]),
    ensures
        first_at(s, p, i) == j,
    decreases j - i,
{
    if i < j {
        lemma_first_at_is(s, p, i + 1, j);
    }
}

/// A final `'\r'` removed, as `str::lines` does before a line feed.
pub open spec fn strip_cr(s: Seq<char>) -> Seq<char> {
    if s.len() > 0 && s.last() == '\r' {
        s.drop_last()
    } else {
        s
    }
}

pub open spec fn is_nl(c: char) -> bool {
    c == '\n'
}

/// The lines of `s` from position `i` on: segments split at `'\n'`, each with
/// a final `'\r'` removed, the empty segment after a final `'\n'` dropped.
pub open spec fn lines_from(s: Seq<char>, i: int) -> Seq<Seq<char>>
    decreases s.len() - i when 0 <= i <= s.len() via lines_from_dec
{
    if i >= s.len() {
        Seq::empty()
    } else {
        let j = first_at(s, |c: char| is_nl(c), i);
        if j < s.len() {
            seq![strip_cr(s.subrange(i, j))] + lines_from(s, j + 1)
        } else {
            seq![s.skip(i)]
        }
    }
}

#[via_fn]
proof fn lines_from_dec(s: Seq<char>, i: int) {
    if 0 <= i <= s.len() && i < s.len() {
        lemma_first_at(s, |c: char| is_nl(c), i);
    }
}

/// The lines of `s`, as `str::lines` splits them.
pub open spec fn lines_of(s: Seq<char>) -> Seq<Seq<char>> {
    lines_from(s, 0)
}

/// Executable line splitting, exact to `lines_of`.
pub fn split_lines(s: &Vec<char>) -> (r: Vec<Vec<char>>)
    ensures
        r.deep_view() == lines_of(s@),
{
    let mut out: Vec<Vec<char>> = Vec::new();
    let mut i: usize = 0;
    proof {
        assert(out.deep_view() + lines_from(s@, 0) =~= lines_from(s@, 0));
    }
    while i < s.len()
        invariant
            i <= s.len(),
            lines_of(s@) == out.deep_view() + lines_from(s@, i as int),
        decreases s.len() - i,
    {
        let ghost base = out.deep_view();
        let mut j: usize = i;
        while j < s.len() && s[j] != '\n'
            invariant
                i <= j <= s.len(),
                forall|k: int| i <= k < j ==> #[trigger] s@[k] != '\n',
            decreases s.len() - j,
        {
            j = j + 1;
        }
        proof {
            lemma_first_at_is(s@, |c: char| is_nl(c), i as int, j as int);
        }
        let mut line: Vec<char> = Vec::new();
        let hi: usize = if j > i && j < s.len() && s[j - 1] == '\r' {
            j - 1
        } else {
            j
        };
        let mut k: usize = i;
        while k < hi
            invariant
                i <= k <= hi <= s.len(),
                line@ =~= s@.subrange(i as int, k as int),
            decreases hi - k,
        {
            line.push(s[k]);
            k = k + 1;
        }
        if j < s.len() {
            proof {
                assert(line@ =~= strip_cr(s@.subrange(i as int, j as int))) by {
                    let seg = s@.subrange(i as int, j as int);
                    if j > i && s@[j - 1] == '\r' {
                        assert(seg.last() == '\r');
                        assert(seg.drop_last() =~= s@.subrange(i as int, j - 1));
                    }
                }
            }
            out.push(line);
            proof {
                assert(out.deep_view() =~~= base.push(line@));
                assert(base.push(line@) + lines_from(s@, j + 1) =~~= base + (seq![line@]
                    + lines_from(s@, j + 1)));
            }
            i = j + 1;
        } else {
            proof {
                assert(line@ =~= s@.skip(i as int)) by {
                    assert(hi == j);
                }
                assert(lines_from(s@, i as int) == seq![s@.skip(i as int)]);
            }
            out.push(line);
            proof {
                assert(out.deep_view() =~~= base.push(line@));
                assert(base.push(line@) =~~= base + seq![line@]);
                assert(out.deep_view() + lines_from(s@, s@.len() as int) =~~= out.deep_view());
            }
            i = j;
        }
    }
    proof {
        assert(out.deep_view() + lines_from(s@, s@.len() as int) =~~= out.deep_view());
    }
    out
}

/// The whitespace-separated words of `s` from position `i` on.
pub open spec fn words_from(s: Seq<char>, i: int) -> Seq<Seq<char>>
    decreases s.len() - i when 0 <= i <= s.len() via words_from_dec
{
    if i >= s.len() {
        Seq::empty()
    } else if is_space_char(s[i]) {
        words_from(s, i + 1)
    } else {
        let j = first_at(s, |c: char| is_space_char(c), i);
        seq![s.subrange(i, j)] + words_from(s, j)
    }
}

#[via_fn]
proof fn words_from_dec(s: Seq<char>, i: int) {
    if 0 <= i < s.len() && !is_space_char(s[i]) {
        lemma_first_at(s, |c: char| is_space_char(c), i);
    }
}

/// The whitespace-separated words of `s`.
pub open spec fn words_of(s: Seq<char>) -> Seq<Seq<char>> {
    words_from(s, 0)
}

/// Executable word splitting, exact to `words_of`.
pub fn split_words(s: &Vec<char>) -> (r: Vec<Vec<char>>)
    ensures
        r.deep_view() == words_of(s@),
{
    let mut out: Vec<Vec<char>> = Vec::new();
    let mut i: usize = 0;
    proof {
        assert(out.deep_view() + words_from(s@, 0) =~= words_from(s@, 0));
    }
    while i < s.len()
        invariant
            i <= s.len(),
            words_of(s@) == out.deep_view() + words_from(s@, i as int),
        decreases s.len() - i,
    {
        if check_space(s[i]) {
            i = i + 1;
        } else {
            let ghost base = out.deep_view();
            let mut j: usize = i;
            while j < s.len() && !check_space(s[j])
                invariant
                    i <= j <= s.len(),
                    forall|k: int| i <= k < j ==> !is_space_char(#[trigger] s@[k]),
                decreases s.len() - j,
            {
                j = j + 1;
            }
            proof {
                lemma_first_at_is(s@, |c: char| is_space_char(c), i as int, j as int);
            }
            let mut word: Vec<char> = Vec::new();
            let mut k: usize = i;
            while k < j
                invariant
                    i <= k <= j <= s.len(),
                    word@ =~= s@.subrange(i as int, k as int),
                decreases j - k,
            {
                word.push(s[k]);
                k = k + 1;
            }
            out.push(word);
            proof {
                assert(out.deep_view() =~~= base.push(word@));
                assert(base.push(word@) + words_from(s@, j as int) =~~= base + (seq![word@]
                    + words_from(s@, j as int)));
            }
            i = j;
        }
    }
    proof {
        assert(out.deep_view() + words_from(s@, s@.len() as int) =~= out.deep_view());
    }
    out
}

/// Whether some word of `ws` equals `w`.
pub open spec fn has_word(ws: Seq<Seq<char>>, w: Seq<char>) -> bool {
    exists|k: int| 0 <= k < ws.len() && ws[k] == w
}

/// All characters of `s` are ASCII digits.
pub open spec fn all_digits(s: Seq<char>) -> bool {
    forall|k: int| 0 <= k < s.len() ==> is_digit_char(#[trigger] s[k])
}

/// The value of a sequence of decimal digits.
pub open spec fn dec_value(s: Seq<char>) -> int
    decreases s.len(),
{
    if s.len() == 0 {
        0
    } else {
        dec_value(s.drop_last()) * 10 + digit_val(s.last())
    }
}

/// A digit string's value is nonnegative.
pub proof fn lemma_dec_value_nonneg(s: Seq<char>)
    requires
        all_digits(s),
    ensures
        dec_value(s) >= 0,
    decreases s.len(),
{
    if s.len() > 0 {
        lemma_dec_value_nonneg(s.drop_last());
    }
}

/// Appending digits never decreases the value.
pub proof fn lemma_dec_value_prefix(s: Seq<char>, i: int)
    requires
        all_digits(s),
        0 <= i <= s.len(),
    ensures
        dec_value(s.take(i)) <= dec_value(s),
    decreases s.len() - i,
{
    if i < s.len() {
        lemma_dec_value_prefix(s, i + 1);
        let a = s.take(i + 1);
        assert(a.drop_last() =~= s.take(i));
        assert(all_digits(s.take(i)));
        lemma_dec_value_nonneg(s.take(i));
        assert(dec_value(s.take(i)) <= dec_value(a));
    } else {
        assert(s.take(i) =~= s);
    }
}

/// Parses a nonempty all-digit string into a `u32`; anything else, and any
/// value that does not fit, is `None`.
pub fn parse_u32_digits(s: &Vec<char>) -> (r: Option<u32>)
    ensures
        r == (if s@.len() > 0 && all_digits(s@) && dec_value(s@) <= u32::MAX {
            Some(dec_value(s@) as u32)
        } else {
            None::<u32>
        }),
{
    if s.len() == 0 {
        return None;
    }
    let mut acc: u64 = 0;
    let mut i: usize = 0;
    while i < s.len()
        invariant
            i <= s.len(),
            all_digits(s@.take(i as int)),
            acc == dec_value(s@.take(i as int)),
            acc <= u32::MAX,
        decreases s.len() - i,
    {
        let c = s[i];
        if !check_digit(c) {
            return None;
        }
        let d: u32 = c as u32;
        proof {
            assert(s@.take(i + 1 as int).drop_last() =~= s@.take(i as int));
            assert(s@.take(i + 1 as int).last() == s@[i as int]);
        }
        acc = acc * 10 + (d - 48) as u64;
        proof {
            assert(digit_val(s@[i as int]) == d - 48);
        }
        i = i + 1;
        if acc > u32::MAX as u64 {
            proof {
                assert(s@.take(i as int).take(i as int) =~= s@.take(i as int));
                if all_digits(s@) {
                    lemma_dec_value_prefix(s@, i as int);
                    assert(s@.take(s@.len() as int) =~= s@);
                }
            }
            return None;
        }
    }
    proof {
        assert(s@.take(s@.len() as int) =~= s@);
    }
    Some(acc as u32)
}

/// Parses an all-digit string into a `usize`; anything else, and any value
/// that does not fit, yields 0.
pub fn parse_usize_or_zero(s: &Vec<char>) -> (r: usize)
    ensures
        r == (if s@.len() > 0 && all_digits(s@) && dec_value(s@) <= usize::MAX {
            dec_value(s@)
        } else {
            0
        }),
{
    if s.len() == 0 {
        return 0;
    }
    let mut acc: u128 = 0;
    let mut i: usize = 0;
    while i < s.len()
        invariant
            i <= s.len(),
            all_digits(s@.take(i as int)),
            acc == dec_value(s@.take(i as int)),
            acc <= usize::MAX,
        decreases s.len() - i,
    {
        let c = s[i];
        if !check_digit(c) {
            return 0;
        }
        let d: u32 = c as u32;
        proof {
            assert(s@.take(i + 1 as int).drop_last() =~= s@.take(i as int));
            assert(s@.take(i + 1 as int).last() == s@[i as int]);
        }
        acc = acc * 10 + (d - 48) as u128;
        proof {
            assert(digit_val(s@[i as int]) == d - 48);
        }
        i = i + 1;
        if acc > usize::MAX as u128 {
            proof {
                if all_digits(s@) {
                    lemma_dec_value_prefix(s@, i as int);
                    assert(s@.take(s@.len() as int) =~= s@);
                }
            }
            return 0;
        }
    }
    proof {
        assert(s@.take(s@.len() as int) =~= s@);
    }
    acc as usize
}

/// The decimal digit character for a value in `0..=9`.
pub open spec fn digit_char(d: int) -> char {
    ('0' as int + d) as char
}

/// The decimal rendering of a nonnegative number.
pub open spec fn dec_repr(n: int) -> Seq<char>
    decreases n,
{
    if n < 10 {
        seq![digit_char(if n >= 0 { n } else { 0 })]
    } else {
        dec_repr(n / 10).push(digit_char(n % 10))
    }
}

/// Executable decimal rendering, exact to `dec_repr`.
pub fn usize_to_chars(n: usize) -> (r: Vec<char>)
    ensures
        r@ == dec_repr(n as int),
    decreases n,
{
    if n < 10 {
        let c = digit_char_exec((n % 10) as u32);
        let mut out: Vec<char> = Vec::new();
        out.push(c);
        proof {
            assert(out@ =~= seq![digit_char(n as int)]);
        }
        out
    } else {
        let mut out = usize_to_chars(n / 10);
        out.push(digit_char_exec((n % 10) as u32));
        out
    }
}

/// The character for one decimal digit.
fn digit_char_exec(d: u32) -> (c: char)
    requires
        d < 10,
    ensures
        c == digit_char(d as int),
{
    proof {
        assert(vstd::utf8::is_scalar((48 + d) as u32));
    }
    char_from_code_pub(48 + d)
}

/// The UTF-8 encoded length of one character.
pub open spec fn char_blen(c: char) -> int {
    if (c as u32) < 0x80 {
        1
    } else if (c as u32) < 0x800 {
        2
    } else if (c as u32) < 0x10000 {
        3
    } else {
        4
    }
}

/// The byte offset of character position `i`, saturating at `usize::MAX`.
pub open spec fn byte_offset_spec(s: Seq<char>, i: int) -> int
    decreases i,
{
    if i <= 0 {
        0
    } else {
        let p = byte_offset_spec(s, i - 1);
        if p + char_blen(s[i - 1]) > usize::MAX {
            usize::MAX as int
        } else {
            p + char_blen(s[i - 1])
        }
    }
}

/// Executable byte offset of a character position, exact to
/// `byte_offset_spec`.
pub fn byte_offset_of(s: &Vec<char>, i: usize) -> (r: usize)
    requires
        i <= s@.len(),
    ensures
        r == byte_offset_spec(s@, i as int),
{
    let mut off: usize = 0;
    let mut k: usize = 0;
    while k < i
        invariant
            k <= i <= s@.len(),
            off == byte_offset_spec(s@, k as int),
        decreases i - k,
    {
        let c = s[k];
        let u: u32 = c as u32;
        let b: usize = if u < 0x80 {
            1
        } else if u < 0x800 {
            2
        } else if u < 0x10000 {
            3
        } else {
            4
        };
        proof {
            assert(b == char_blen(s@[k as int]));
        }
        if off > usize::MAX - b {
            off = usize::MAX;
        } else {
            off = off + b;
        }
        k = k + 1;
    }
    off
}

/// Index of the first occurrence of `c` at or after `i`, or the length.
pub open spec fn first_char_at(s: Seq<char>, c: char, i: int) -> int
    decreases s.len() - i when 0 <= i <= s.len()
{
    if i >= s.len() {
        i
    } else if s[i] == c {
        i
    } else {
        first_char_at(s, c, i + 1)
    }
}

/// Characterization of `first_char_at`.
pub proof fn lemma_first_char_at(s: Seq<char>, c: char, i: int)
    requires
        0 <= i <= s.len(),
    ensures
        i <= first_char_at(s, c, i) <= s.len(),
        first_char_at(s, c, i) < s.len() ==> s[first_char_at(s, c, i)] == c,
        forall|k: int| i <= k < first_char_at(s, c, i) ==> s[k] != c,
    decreases s.len() - i,
{
    if i < s.len() && s[i] != c {
        lemma_first_char_at(s, c, i + 1);
    }
}

pub proof fn lemma_first_char_at_is(s: Seq<char>, c: char, i: int, j: int)
    requires
        0 <= i <= j <= s.len(),
        forall|k: int| i <= k < j ==> s[k] != c,
        j == s.len() || s[j] == c,
    ensures
        first_char_at(s, c, i) == j,
    decreases j - i,
{
    if i < j {
        lemma_first_char_at_is(s, c, i + 1, j);
    }
}


/// The pieces of `s` split at every occurrence of `c`, from position `i`;
/// empty pieces are kept.
pub open spec fn split_char_from(s: Seq<char>, c: char, i: int) -> Seq<Seq<char>>
    decreases s.len() - i when 0 <= i <= s.len() via split_char_from_dec
{
    let j = first_char_at(s, c, i);
    if j < s.len() {
        seq![s.subrange(i, j)] + split_char_from(s, c, j + 1)
    } else {
        seq![s.skip(i)]
    }
}

#[via_fn]
proof fn split_char_from_dec(s: Seq<char>, c: char, i: int) {
    if 0 <= i <= s.len() {
        lemma_first_char_at(s, c, i);
    }
}

/// Executable split at a character, exact to `split_char_from`.
pub fn split_on_char(s: &Vec<char>, c: char) -> (r: Vec<Vec<char>>)
    ensures
        r.deep_view() == split_char_from(s@, c, 0),
{
    let mut out: Vec<Vec<char>> = Vec::new();
    let mut i: usize = 0;
    loop
        invariant
            i <= s@.len(),
            split_char_from(s@, c, 0) == out.deep_view() + split_char_from(s@, c, i as int),
        decreases s@.len() - i,
    {
        let ghost base = out.deep_view();
        let mut j: usize = i;
        while j < s.len() && s[j] != c
            invariant
                i <= j <= s@.len(),
                forall|k: int| i <= k < j ==> s@[k] != c,
            decreases s@.len() - j,
        {
            j = j + 1;
        }
        proof {
            lemma_first_char_at_is(s@, c, i as int, j as int);
        }
        let piece = copy_range(s, i, j);
        out.push(piece);
        if j < s.len() {
            proof {
                assert(out.deep_view() =~~= base.push(piece@));
                assert(base.push(piece@) + split_char_from(s@, c, j + 1) =~~= base + (seq![piece@]
                    + split_char_from(s@, c, j + 1)));
            }
            i = j + 1;
        } else {
            proof {
                assert(piece@ =~= s@.skip(i as int));
                assert(split_char_from(s@, c, i as int) == seq![s@.skip(i as int)]);
                assert(out.deep_view() =~~= base.push(piece@));
                assert(base.push(piece@) =~~= base + seq![piece@]);
                assert(out.deep_view() =~~= split_char_from(s@, c, 0));
            }
            return out;
        }
    }
}

/// Some `/`-separated component of the path equals one of the names.
pub open spec fn path_has_component(path: Seq<char>, names: Seq<Seq<char>>) -> bool {
    exists|k: int, m: int|
        0 <= k < split_char_from(path, '/', 0).len() && 0 <= m < names.len()
            && split_char_from(path, '/', 0)[k] == names[m]
}

/// Tests whether any path component equals one of the names, exactly
/// `path_has_component`.
pub fn check_path_component(path: &Vec<char>, names: &Vec<Vec<char>>) -> (r: bool)
    ensures
        r == path_has_component(path@, names.deep_view()),
{
    let ghost parts_g = split_char_from(path@, '/', 0);
    let parts = split_on_char(path, '/');
    let mut k: usize = 0;
    while k < parts.len()
        invariant
            k <= parts@.len(),
            parts.deep_view() == parts_g,
            parts_g == split_char_from(path@, '/', 0),
            forall|a: int, m: int|
                0 <= a < k && 0 <= m < names.deep_view().len() ==> parts_g[a] != names.deep_view()[m],
        decreases parts@.len() - k,
    {
        let mut m: usize = 0;
        while m < names.len()
            invariant
                m <= names@.len(),
                k < parts@.len(),
                parts.deep_view() == parts_g,
                parts_g == split_char_from(path@, '/', 0),
                forall|b: int| 0 <= b < m ==> parts_g[k as int] != names.deep_view()[b],
            decreases names@.len() - m,
        {
            if chars_eq(&parts[k], &names[m]) {
                proof {
                    assert(parts.deep_view()[k as int] == parts@[k as int]@);
                    assert(names.deep_view()[m as int] == names@[m as int]@);
                    assert(split_char_from(path@, '/', 0)[k as int] == names.deep_view()[m as int]);
                }
                return true;
            }
            proof {
                assert(parts_g[k as int] == parts@[k as int]@);
                assert(names.deep_view()[m as int] == names@[m as int]@);
            }
            m = m + 1;
        }
        k = k + 1;
    }
    proof {
        assert(!path_has_component(path@, names.deep_view()));
    }
    false
}


/// The length of the longest prefix of `s` made of `c` alone.
pub open spec fn leading_char_count(s: Seq<char>, c: char) -> int
    decreases s.len(),
{
    if s.len() > 0 && s[0] == c {
        1 + leading_char_count(s.drop_first(), c)
    } else {
        0
    }
}

/// Characterization of `leading_char_count` by its boundary.
pub proof fn lemma_leading_char_count(s: Seq<char>, c: char, i: int)
    requires
        0 <= i <= s.len(),
        forall|j: int| 0 <= j < i ==> #[trigger] s[j] == c,
        i == s.len() || s[i] != c,
    ensures
        leading_char_count(s, c) == i,
    decreases s.len(),
{
    if s.len() > 0 && s[0] == c {
        lemma_leading_char_count(s.drop_first(), c, i - 1);
    }
}

/// The length of the longest suffix of `s` made of `c` alone.
pub open spec fn trailing_char_count(s: Seq<char>, c: char) -> int
    decreases s.len(),
{
    if s.len() > 0 && s.last() == c {
        1 + trailing_char_count(s.drop_last(), c)
    } else {
        0
    }
}

/// Characterization of `trailing_char_count` by its boundary.
pub proof fn lemma_trailing_char_count(s: Seq<char>, c: char, i: int)
    requires
        0 <= i <= s.len(),
        forall|j: int| s.len() - i <= j < s.len() ==> #[trigger] s[j] == c,
        i == s.len() || s[s.len() - i - 1] != c,
    ensures
        trailing_char_count(s, c) == i,
    decreases s.len(),
{
    if s.len() > 0 && s.last() == c {
        lemma_trailing_char_count(s.drop_last(), c, i - 1);
    }
}

/// `s` with every leading and trailing occurrence of `c` removed.
pub open spec fn trim_char_seq(s: Seq<char>, c: char) -> Seq<char> {
    let rest = s.skip(leading_char_count(s, c));
    rest.take(rest.len() - trailing_char_count(rest, c))
}

/// Removes leading and trailing occurrences of one character, exactly
/// `trim_char_seq`.
pub fn trim_char(s: &Vec<char>, c: char) -> (r: Vec<char>)
    ensures
        r@ == trim_char_seq(s@, c),
{
    let mut lo: usize = 0;
    while lo < s.len() && s[lo] == c
        invariant
            lo <= s.len(),
            forall|j: int| 0 <= j < lo ==> #[trigger] s@[j] == c,
        decreases s.len() - lo,
    {
        lo = lo + 1;
    }
    proof {
        lemma_leading_char_count(s@, c, lo as int);
    }
    let mut hi: usize = s.len();
    while hi > lo && s[hi - 1] == c
        invariant
            lo <= hi <= s.len(),
            forall|j: int| hi <= j < s.len() ==> #[trigger] s@[j] == c,
        decreases hi,
    {
        hi = hi - 1;
    }
    let ghost rest = s@.skip(lo as int);
    proof {
        if hi > lo {
            assert(rest[hi - lo - 1] != c);
        } else {
            assert(forall|j: int| 0 <= j < rest.len() ==> rest[j] == s@[j + lo]);
        }
        lemma_trailing_char_count(rest, c, s@.len() - hi);
    }
    let out = copy_range(s, lo, hi);
    proof {
        assert(out@ =~= rest.take(rest.len() - (s@.len() - hi)));
    }
    out
}

/// Some element of `a` equals some element of `b`.
pub open spec fn seq_any_in(a: Seq<Seq<char>>, b: Seq<Seq<char>>) -> bool {
    exists|i: int, j: int| 0 <= i < a.len() && 0 <= j < b.len() && a[i] == b[j]
}

/// Tests whether the collections share an element, exactly `seq_any_in`.
pub fn check_any_in(xs: &Vec<Vec<char>>, keys: &Vec<Vec<char>>) -> (r: bool)
    ensures
        r == seq_any_in(xs.deep_view(), keys.deep_view()),
{
    let mut i: usize = 0;
    while i < xs.len()
        invariant
            i <= xs@.len(),
            forall|a: int, b: int|
                0 <= a < i && 0 <= b < keys.deep_view().len() ==> xs.deep_view()[a]
                    != keys.deep_view()[b],
        decreases xs@.len() - i,
    {
        let mut j: usize = 0;
        while j < keys.len()
            invariant
                j <= keys@.len(),
                i < xs@.len(),
                forall|b: int| 0 <= b < j ==> xs.deep_view()[i as int] != keys.deep_view()[b],
            decreases keys@.len() - j,
        {
            if chars_eq(&xs[i], &keys[j]) {
                proof {
                    assert(xs.deep_view()[i as int] == xs@[i as int]@);
                    assert(keys.deep_view()[j as int] == keys@[j as int]@);
                    assert(xs.deep_view()[i as int] == keys.deep_view()[j as int]);
                }
                return true;
            }
            proof {
                assert(xs.deep_view()[i as int] == xs@[i as int]@);
                assert(keys.deep_view()[j as int] == keys@[j as int]@);
            }
            j = j + 1;
        }
        i = i + 1;
    }
    proof {
        assert(!seq_any_in(xs.deep_view(), keys.deep_view()));
    }
    false
}


/// A template with each `{{key}}` placeholder replaced by its value, the
/// substitutions applied in the order the pairs are listed.
pub open spec fn template_spec(t: Seq<char>, vars: Seq<(Seq<char>, Seq<char>)>, i: int) -> Seq<
    char,
>
    decreases vars.len() - i when 0 <= i <= vars.len()
{
    if i >= vars.len() {
        t
    } else {
        template_spec(replace_seq(t, "{{"@ + vars[i].0 + "}}"@, vars[i].1), vars, i + 1)
    }
}

/// Renders a template, exactly `template_spec`.
pub fn render_template(template: &str, vars: &Vec<(String, String)>) -> (r: String)
    ensures
        r@ == template_spec(
            template@,
            vars@.map_values(|p: (String, String)| (p.0@, p.1@)),
            0,
        ),
{
    let ghost vg = vars@.map_values(|p: (String, String)| (p.0@, p.1@));
    let mut cur = chars_of(template);
    let mut i: usize = 0;
    while i < vars.len()
        invariant
            i <= vars@.len(),
            vg == vars@.map_values(|p: (String, String)| (p.0@, p.1@)),
            vg.len() == vars@.len(),
            template_spec(template@, vg, 0) == template_spec(cur@, vg, i as int),
        decreases vars@.len() - i,
    {
        let pair = &vars[i];
        let mut pat = chars_of("{{");
        let key = chars_of(pair.0.as_str());
        push_all(&mut pat, &key);
        let close = chars_of("}}");
        push_all(&mut pat, &close);
        let val = chars_of(pair.1.as_str());
        proof {
            assert(vg[i as int] == (vars@[i as int].0@, vars@[i as int].1@));
            assert(pat@ =~= "{{"@ + vg[i as int].0 + "}}"@);
        }
        cur = replace_chars(&cur, &pat, &val);
        i = i + 1;
    }
    string_from_chars(&cur)
}

/// Scans to the next occurrence of one character.
pub fn scan_char(s: &Vec<char>, c: char, i: usize) -> (r: usize)
    requires
        i <= s@.len(),
    ensures
        r == first_char_at(s@, c, i as int),
        i <= r <= s@.len(),
        r < s@.len() ==> s@[r as int] == c,
{
    let mut j: usize = i;
    while j < s.len() && s[j] != c
        invariant
            i <= j <= s@.len(),
            forall|k: int| i <= k < j ==> s@[k] != c,
        decreases s@.len() - j,
    {
        j = j + 1;
    }
    proof {
        lemma_first_char_at_is(s@, c, i as int, j as int);
    }
    j
}


} // verus!
