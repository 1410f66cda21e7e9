//! A forward-only tokenizer for the XML subset that coverage reports use.
//!
//! The input is one document held in memory; the tokenizer walks it left to
//! right and yields start tags (with their raw attributes, in order), end
//! tags, and self-closing tags, which stand for a start tag followed at once
//! by its end tag. Declarations (`<? … ?>`), comments (`<!-- … -->`) and
//! other `<! … >` markup are passed over, as is all character data between
//! tags. Attribute values are handed on raw, without entity unescaping.
//!
//! Scanning stops at the first malformation — an unterminated construct, an
//! empty tag name, or an attribute without a quoted value — and reports the
//! character position where scanning stopped; the caller turns that into a
//! byte offset.

use vstd::prelude::*;

use crate::text::{
    check_match_at, check_space, find_from, find_from_at, first_at, first_char_at, is_space_char,
    lemma_find_from_some, lemma_first_at, lemma_first_at_is, lemma_first_char_at, scan_char,
    match_at,
};

verus! {

/// One attribute of a start tag: its raw name and raw value.
pub struct Attr {
    pub name: Vec<char>,
    pub value: Vec<char>,
}

impl View for Attr {
    type V = (Seq<char>, Seq<char>);

    open spec fn view(&self) -> (Seq<char>, Seq<char>) {
        (self.name@, self.value@)
    }
}

/// A tag of the document.
pub enum XmlToken {
    /// A start tag; `selfclose` marks `<name …/>`.
    Open { name: Vec<char>, attrs: Vec<Attr>, selfclose: bool },
    /// An end tag `</name>`.
    Close { name: Vec<char> },
}

/// The mathematical shape of a tag.
pub enum TokenModel {
    Open { name: Seq<char>, attrs: Seq<(Seq<char>, Seq<char>)>, selfclose: bool },
    Close { name: Seq<char> },
}

impl View for XmlToken {
    type V = TokenModel;

    open spec fn view(&self) -> TokenModel {
        match self {
            XmlToken::Open { name, attrs, selfclose } => TokenModel::Open {
                name: name@,
                attrs: attrs@.map_values(|a: Attr| a@),
                selfclose: *selfclose,
            },
            XmlToken::Close { name } => TokenModel::Close { name: name@ },
        }
    }
}

/// A character that ends a tag or attribute name.
pub open spec fn is_name_end(c: char) -> bool {
    is_space_char(c) || c == '>' || c == '/' || c == '='
}

/// Executable test for `is_name_end`.
pub fn check_name_end(c: char) -> (r: bool)
    ensures
        r == is_name_end(c),
{
    check_space(c) || c == '>' || c == '/' || c == '='
}

/// What one scanning step yields: possibly a token, and the position where
/// the next step starts; or the position where scanning failed.
pub type StepModel = Result<(Option<TokenModel>, int), int>;

/// The attributes of a start tag from position `p` on, ending at `>` or
/// `/>`. Accumulates into `acc` so that the step function below is a plain
/// fold of the document.
pub open spec fn attrs_from(
    s: Seq<char>,
    p: int,
    name: Seq<char>,
    acc: Seq<(Seq<char>, Seq<char>)>,
) -> StepModel
    decreases s.len() - p when 0 <= p <= s.len() via attrs_from_dec
{
    let q = first_at(s, |c: char| !is_space_char(c), p);
    if q >= s.len() {
        Err(s.len() as int)
    } else if s[q] == '>' {
        Ok((Some(TokenModel::Open { name, attrs: acc, selfclose: false }), q + 1))
    } else if s[q] == '/' {
        if q + 1 < s.len() && s[q + 1] == '>' {
            Ok((Some(TokenModel::Open { name, attrs: acc, selfclose: true }), q + 2))
        } else {
            Err(q + 1)
        }
    } else {
        let e = first_at(s, |c: char| is_name_end(c), q);
        if e == q {
            Err(q)
        } else {
            let g = first_at(s, |c: char| !is_space_char(c), e);
            if g >= s.len() {
                Err(s.len() as int)
            } else if s[g] != '=' {
                Err(g)
            } else {
                let t = first_at(s, |c: char| !is_space_char(c), g + 1);
                if t >= s.len() {
                    Err(s.len() as int)
                } else if s[t] != '"' && s[t] != '\'' {
                    Err(t)
                } else {
                    let u = first_char_at(s, s[t], t + 1);
                    if u >= s.len() {
                        Err(s.len() as int)
                    } else {
                        attrs_from(s, u + 1, name, acc.push((s.subrange(q, e), s.subrange(t + 1, u))))
                    }
                }
            }
        }
    }
}

#[via_fn]
proof fn attrs_from_dec(s: Seq<char>, p: int, name: Seq<char>, acc: Seq<(Seq<char>, Seq<char>)>) {
    if 0 <= p <= s.len() {
        let q = first_at(s, |c: char| !is_space_char(c), p);
        lemma_first_at(s, |c: char| !is_space_char(c), p);
        if q < s.len() && s[q] != '>' && s[q] != '/' {
            let e = first_at(s, |c: char| is_name_end(c), q);
            lemma_first_at(s, |c: char| is_name_end(c), q);
            if e != q {
                let g = first_at(s, |c: char| !is_space_char(c), e);
                lemma_first_at(s, |c: char| !is_space_char(c), e);
                if g < s.len() && s[g] == '=' {
                    let t = first_at(s, |c: char| !is_space_char(c), g + 1);
                    lemma_first_at(s, |c: char| !is_space_char(c), g + 1);
                    if t < s.len() && (s[t] == '"' || s[t] == '\'') {
                        lemma_first_char_at(s, s[t], t + 1);
                    }
                }
            }
        }
    }
}

/// The markup construct that starts at the `<` in position `j`.
pub open spec fn markup_at(s: Seq<char>, j: int) -> StepModel
    recommends
        0 <= j < s.len(),
{
    if j + 1 >= s.len() {
        Err(s.len() as int)
    } else if s[j + 1] == '?' {
        match find_from(s, seq!['?', '>'], j + 2) {
            Some(k) => Ok((None, k + 2)),
            None => Err(s.len() as int),
        }
    } else if s[j + 1] == '!' {
        if match_at(s, seq!['<', '!', '-', '-'], j) {
            match find_from(s, seq!['-', '-', '>'], j + 4) {
                Some(k) => Ok((None, k + 3)),
                None => Err(s.len() as int),
            }
        } else {
            match find_from(s, seq!['>'], j + 2) {
                Some(k) => Ok((None, k + 1)),
                None => Err(s.len() as int),
            }
        }
    } else if s[j + 1] == '/' {
        if j + 2 > s.len() {
            Err(s.len() as int)
        } else {
            let e = first_at(s, |c: char| is_name_end(c), j + 2);
            if e == j + 2 {
                Err(j + 2)
            } else {
                let g = first_at(s, |c: char| !is_space_char(c), e);
                if g >= s.len() {
                    Err(s.len() as int)
                } else if s[g] == '>' {
                    Ok((Some(TokenModel::Close { name: s.subrange(j + 2, e) }), g + 1))
                } else {
                    Err(g)
                }
            }
        }
    } else {
        let e = first_at(s, |c: char| is_name_end(c), j + 1);
        if e == j + 1 {
            Err(j + 1)
        } else {
            attrs_from(s, e, s.subrange(j + 1, e), Seq::empty())
        }
    }
}

/// One scanning step from position `i`: character data is passed over up to
/// the next `<`; the document's end yields no token.
pub open spec fn next_token(s: Seq<char>, i: int) -> StepModel
    recommends
        0 <= i <= s.len(),
{
    let j = first_char_at(s, '<', i);
    if j >= s.len() {
        Ok((None, s.len() as int))
    } else {
        markup_at(s, j)
    }
}

/// Every successful step lands strictly further right, inside the document;
/// every failing step points into the document or at its end.
pub proof fn lemma_next_token_advances(s: Seq<char>, i: int)
    requires
        0 <= i < s.len(),
    ensures
        next_token(s, i) matches Ok(st) ==> i < st.1 <= s.len(),
        next_token(s, i) matches Err(e) ==> 0 <= e <= s.len(),
{
    lemma_first_char_at(s, '<', i);
    let j = first_char_at(s, '<', i);
    if j < s.len() {
        lemma_markup_at_advances(s, j);
    }
}

proof fn lemma_markup_at_advances(s: Seq<char>, j: int)
    requires
        0 <= j < s.len(),
    ensures
        markup_at(s, j) matches Ok(st) ==> j < st.1 <= s.len(),
        markup_at(s, j) matches Err(e) ==> 0 <= e <= s.len(),
{
    if j + 1 < s.len() {
        if s[j + 1] == '?' {
            lemma_find_from_some(s, seq!['?', '>'], j + 2);
        } else if s[j + 1] == '!' {
            if match_at(s, seq!['<', '!', '-', '-'], j) {
                lemma_find_from_some(s, seq!['-', '-', '>'], j + 4);
            } else {
                lemma_find_from_some(s, seq!['>'], j + 2);
            }
        } else if s[j + 1] == '/' {
            let e = first_at(s, |c: char| is_name_end(c), j + 2);
            lemma_first_at(s, |c: char| is_name_end(c), j + 2);
            if e != j + 2 {
                lemma_first_at(s, |c: char| !is_space_char(c), e);
            }
        } else {
            let e = first_at(s, |c: char| is_name_end(c), j + 1);
            lemma_first_at(s, |c: char| is_name_end(c), j + 1);
            if e != j + 1 {
                lemma_attrs_from_advances(s, e, s.subrange(j + 1, e), Seq::empty());
            }
        }
    }
}

proof fn lemma_attrs_from_advances(
    s: Seq<char>,
    p: int,
    name: Seq<char>,
    acc: Seq<(Seq<char>, Seq<char>)>,
)
    requires
        0 <= p <= s.len(),
    ensures
        attrs_from(s, p, name, acc) matches Ok(st) ==> p < st.1 <= s.len(),
        attrs_from(s, p, name, acc) matches Err(e) ==> 0 <= e <= s.len(),
    decreases s.len() - p,
{
    let q = first_at(s, |c: char| !is_space_char(c), p);
    lemma_first_at(s, |c: char| !is_space_char(c), p);
    if q < s.len() && s[q] != '>' && s[q] != '/' {
        let e = first_at(s, |c: char| is_name_end(c), q);
        lemma_first_at(s, |c: char| is_name_end(c), q);
        if e != q {
            let g = first_at(s, |c: char| !is_space_char(c), e);
            lemma_first_at(s, |c: char| !is_space_char(c), e);
            if g < s.len() && s[g] == '=' {
                let t = first_at(s, |c: char| !is_space_char(c), g + 1);
                lemma_first_at(s, |c: char| !is_space_char(c), g + 1);
                if t < s.len() && (s[t] == '"' || s[t] == '\'') {
                    let u = first_char_at(s, s[t], t + 1);
                    lemma_first_char_at(s, s[t], t + 1);
                    if u < s.len() {
                        lemma_attrs_from_advances(
                            s,
                            u + 1,
                            name,
                            acc.push((s.subrange(q, e), s.subrange(t + 1, u))),
                        );
                    }
                }
            }
        }
    }
}

/// Scans past ASCII whitespace; lands on the first non-space character.
fn skip_spaces(s: &Vec<char>, i: usize) -> (r: usize)
    requires
        i <= s@.len(),
    ensures
        r == first_at(s@, |c: char| !is_space_char(c), i as int),
        i <= r <= s@.len(),
        r < s@.len() ==> !is_space_char(s@[r as int]),
{
    let mut j: usize = i;
    while j < s.len() && check_space(s[j])
        invariant
            i <= j <= s@.len(),
            forall|k: int| i <= k < j ==> is_space_char(#[trigger] s@[k]),
        decreases s@.len() - j,
    {
        j = j + 1;
    }
    proof {
        lemma_first_at_is(s@, |c: char| !is_space_char(c), i as int, j as int);
    }
    j
}

/// Scans to the end of a name; lands on the first name-ending character.
fn scan_name_end(s: &Vec<char>, i: usize) -> (r: usize)
    requires
        i <= s@.len(),
    ensures
        r == first_at(s@, |c: char| is_name_end(c), i as int),
        i <= r <= s@.len(),
{
    let mut j: usize = i;
    while j < s.len() && !check_name_end(s[j])
        invariant
            i <= j <= s@.len(),
            forall|k: int| i <= k < j ==> !is_name_end(#[trigger] s@[k]),
        decreases s@.len() - j,
    {
        j = j + 1;
    }
    proof {
        lemma_first_at_is(s@, |c: char| is_name_end(c), i as int, j as int);
    }
    j
}

/// One executable scanning step, exact to `next_token`.
pub fn scan_token(s: &Vec<char>, i: usize) -> (r: Result<(Option<XmlToken>, usize), usize>)
    requires
        i <= s@.len(),
    ensures
        ({
            let sp = next_token(s@, i as int);
            match r {
                Ok((ot, p)) => {
                    &&& sp is Ok
                    &&& sp->Ok_0.1 == p as int
                    &&& match ot {
                        Some(t) => sp->Ok_0.0 == Some(t@),
                        None => sp->Ok_0.0 is None,
                    }
                },
                Err(e) => sp == Err::<(Option<TokenModel>, int), int>(e as int),
            }
        }),
{
    let j = scan_char(s, '<', i);
    if j >= s.len() {
        return Ok((None, s.len()));
    }
    // a markup construct starts here
    if j + 1 >= s.len() {
        return Err(s.len());
    }
    let c1 = s[j + 1];
    if c1 == '?' {
        let needle: Vec<char> = vec!['?', '>'];
        proof {
            assert(needle@ =~= seq!['?', '>']);
        }
        match find_from_at(s, &needle, j + 2) {
            Some(k) => Ok((None, k + 2)),
            None => Err(s.len()),
        }
    } else if c1 == '!' {
        let opener: Vec<char> = vec!['<', '!', '-', '-'];
        proof {
            assert(opener@ =~= seq!['<', '!', '-', '-']);
        }
        if check_match_at(s, &opener, j) {
            let needle: Vec<char> = vec!['-', '-', '>'];
            proof {
                assert(needle@ =~= seq!['-', '-', '>']);
            }
            match find_from_at(s, &needle, j + 4) {
                Some(k) => Ok((None, k + 3)),
                None => Err(s.len()),
            }
        } else {
            let needle: Vec<char> = vec!['>'];
            proof {
                assert(needle@ =~= seq!['>']);
            }
            match find_from_at(s, &needle, j + 2) {
                Some(k) => Ok((None, k + 1)),
                None => Err(s.len()),
            }
        }
    } else if c1 == '/' {
        let e = scan_name_end(s, j + 2);
        if e == j + 2 {
            return Err(j + 2);
        }
        let g = skip_spaces(s, e);
        if g >= s.len() {
            return Err(s.len());
        }
        if s[g] == '>' {
            let name = crate::text::copy_range(s, j + 2, e);
            Ok((Some(XmlToken::Close { name }), g + 1))
        } else {
            Err(g)
        }
    } else {
        let e = scan_name_end(s, j + 1);
        if e == j + 1 {
            return Err(j + 1);
        }
        let name = crate::text::copy_range(s, j + 1, e);
        scan_attrs(s, e, name)
    }
}

/// Executable attribute scanning, exact to `attrs_from`.
fn scan_attrs(s: &Vec<char>, p0: usize, name: Vec<char>) -> (r: Result<
    (Option<XmlToken>, usize),
    usize,
>)
    requires
        p0 <= s@.len(),
    ensures
        ({
            let sp = attrs_from(s@, p0 as int, name@, Seq::empty());
            match r {
                Ok((ot, p)) => {
                    &&& sp is Ok
                    &&& sp->Ok_0.1 == p as int
                    &&& match ot {
                        Some(t) => sp->Ok_0.0 == Some(t@),
                        None => sp->Ok_0.0 is None,
                    }
                },
                Err(e) => sp == Err::<(Option<TokenModel>, int), int>(e as int),
            }
        }),
{
    let mut attrs: Vec<Attr> = Vec::new();
    let mut p: usize = p0;
    proof {
        assert(attrs@.map_values(|a: Attr| a@) =~= Seq::<(Seq<char>, Seq<char>)>::empty());
    }
    loop
        invariant
            p <= s@.len(),
            attrs_from(s@, p0 as int, name@, Seq::empty()) == attrs_from(
                s@,
                p as int,
                name@,
                attrs@.map_values(|a: Attr| a@),
            ),
        decreases s@.len() - p,
    {
        let ghost acc = attrs@.map_values(|a: Attr| a@);
        let q = skip_spaces(s, p);
        if q >= s.len() {
            return Err(s.len());
        }
        if s[q] == '>' {
            return Ok((Some(XmlToken::Open { name, attrs, selfclose: false }), q + 1));
        }
        if s[q] == '/' {
            if q + 1 < s.len() && s[q + 1] == '>' {
                return Ok((Some(XmlToken::Open { name, attrs, selfclose: true }), q + 2));
            } else {
                return Err(q + 1);
            }
        }
        let e = scan_name_end(s, q);
        if e == q {
            return Err(q);
        }
        let g = skip_spaces(s, e);
        if g >= s.len() {
            return Err(s.len());
        }
        if s[g] != '=' {
            return Err(g);
        }
        let t = skip_spaces(s, g + 1);
        if t >= s.len() {
            return Err(s.len());
        }
        let quote = s[t];
        if quote != '"' && quote != '\'' {
            return Err(t);
        }
        let u = scan_char(s, quote, t + 1);
        if u >= s.len() {
            return Err(s.len());
        }
        let aname = crate::text::copy_range(s, q, e);
        let avalue = crate::text::copy_range(s, t + 1, u);
        attrs.push(Attr { name: aname, value: avalue });
        proof {
            assert(attrs@.map_values(|a: Attr| a@) =~= acc.push(
                (s@.subrange(q as int, e as int), s@.subrange(t + 1, u as int)),
            ));
        }
        p = u + 1;
    }
}

} // verus!
