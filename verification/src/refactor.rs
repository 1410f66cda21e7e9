//! Source metrics that flag functions worth refactoring.
//!
//! The metrics are heuristic text scans: a brace matcher finds the end of a
//! function body, a keyword count estimates cyclomatic complexity, and a
//! brace depth tracker estimates nesting.

use vstd::prelude::*;

use crate::text::{
    chars_of, check_alnum, check_space, first_at, is_ascii_alnum, is_space_char,
    lemma_first_at, lemma_first_at_is, match_at, path_has_component, check_path_component,
    seq_any_in, split_words, string_from_chars, trim_seq, words_of,
};

verus! {

/// One function flagged for refactoring.
#[derive(Debug, Clone)]
pub struct RefactorCandidate {
    pub file: String,
    pub function: String,
    pub line_start: usize,
    pub line_end: usize,
    pub complexity_score: u8,
    pub lines_of_code: usize,
    pub nesting_depth: u8,
    pub num_parameters: usize,
    pub issues: Vec<String>,
}

/// The directory names never scanned for candidates.
pub open spec fn excluded_names() -> Seq<Seq<char>> {
    seq!["target"@, "node_modules"@, ".git"@, "dist"@, "build"@]
}

/// A path is excluded when any of its `/`-separated components is one of
/// the excluded directory names.
pub open spec fn is_excluded_path(path: Seq<char>) -> bool {
    path_has_component(path, excluded_names())
}

/// Whether a path lies under an excluded directory, exactly
/// `is_excluded_path`.
pub fn is_excluded(path: &str) -> (r: bool)
    ensures
        r == is_excluded_path(path@),
{
    let p = chars_of(path);
    let mut names: Vec<Vec<char>> = Vec::new();
    names.push(chars_of("target"));
    names.push(chars_of("node_modules"));
    names.push(chars_of(".git"));
    names.push(chars_of("dist"));
    names.push(chars_of("build"));
    proof {
        assert(names.deep_view() =~~= excluded_names());
    }
    check_path_component(&p, &names)
}

/// Where a function body ends: characters are scanned with a brace
/// counter, and the position just past the brace that closes the first
/// opened one is the end; text that never closes ends at its length.
pub open spec fn body_end_from(s: Seq<char>, i: int, depth: int, started: bool) -> int
    decreases s.len() - i when 0 <= i <= s.len()
{
    if i >= s.len() {
        s.len() as int
    } else if s[i] == '{' {
        body_end_from(s, i + 1, depth + 1, true)
    } else if s[i] == '}' {
        if started && depth == 1 {
            i + 1
        } else {
            body_end_from(s, i + 1, depth - 1, started)
        }
    } else {
        body_end_from(s, i + 1, depth, started)
    }
}

/// Finds the end of a function body, exactly `body_end_from` started at
/// the text's beginning; the result is a character position.
pub fn find_function_end(code: &str) -> (r: usize)
    ensures
        r == body_end_from(code@, 0, 0, false),
{
    let cs = chars_of(code);
    body_end_of(&cs)
}

/// The brace matcher over a character vector.
fn body_end_of(cs: &Vec<char>) -> (r: usize)
    ensures
        r == body_end_from(cs@, 0, 0, false),
{
    let mut i: usize = 0;
    let mut depth: i128 = 0;
    let mut started = false;
    while i < cs.len()
        invariant
            i <= cs@.len(),
            -(i as int) <= depth <= i as int,
            body_end_from(cs@, 0, 0, false) == body_end_from(
                cs@,
                i as int,
                depth as int,
                started,
            ),
        decreases cs@.len() - i,
    {
        let c = cs[i];
        if c == '{' {
            depth = depth + 1;
            started = true;
        } else if c == '}' {
            if started && depth == 1 {
                return i + 1;
            }
            depth = depth - 1;
        }
        i = i + 1;
    }
    cs.len()
}

/// The words counted as decision points.
pub open spec fn decision_words() -> Seq<Seq<char>> {
    seq!["if"@, "else"@, "for"@, "while"@, "match"@, "&&"@, "||"@, "?"@, "case"@]
}

/// Whether one whitespace-separated word is a decision point.
pub open spec fn is_decision_word(w: Seq<char>) -> bool {
    seq_any_in(seq![w], decision_words())
}

/// How many of the words are decision points.
pub open spec fn decision_count(ws: Seq<Seq<char>>) -> int
    decreases ws.len(),
{
    if ws.len() == 0 {
        0
    } else {
        (if is_decision_word(ws[0]) {
            1int
        } else {
            0int
        }) + decision_count(ws.drop_first())
    }
}

/// The complexity estimate: one more than the number of decision-point
/// words, capped at ten.
pub open spec fn complexity_estimate(code: Seq<char>) -> int {
    let c = 1 + decision_count(words_of(code));
    if c > 10 {
        10
    } else {
        c
    }
}

/// Estimates cyclomatic complexity, exactly `complexity_estimate`.
pub fn calculate_complexity(code: &str) -> (r: u8)
    ensures
        r == complexity_estimate(code@),
{
    let cs = chars_of(code);
    let ws = split_words(&cs);
    let ghost words_g = words_of(code@);
    let mut hits: usize = 0;
    let mut i: usize = 0;
    proof {
        assert(words_g.skip(0) =~= words_g);
    }
    while i < ws.len()
        invariant
            i <= ws@.len(),
            ws.deep_view() == words_g,
            hits <= i,
            decision_count(words_g) == hits + decision_count(words_g.skip(i as int)),
        decreases ws@.len() - i,
    {
        proof {
            assert(words_g.skip(i as int)[0] == words_g[i as int]);
            assert(words_g.skip(i as int).drop_first() =~= words_g.skip(i + 1));
            assert(ws.deep_view()[i as int] == ws@[i as int]@);
        }
        if check_decision_word(&ws[i]) {
            hits = hits + 1;
        }
        i = i + 1;
    }
    proof {
        assert(words_g.skip(words_g.len() as int) =~= Seq::<Seq<char>>::empty());
        lemma_decision_count_bounds(words_g);
    }
    if hits >= 9 {
        10
    } else {
        (hits + 1) as u8
    }
}

proof fn lemma_decision_count_bounds(ws: Seq<Seq<char>>)
    ensures
        0 <= decision_count(ws) <= ws.len(),
    decreases ws.len(),
{
    if ws.len() > 0 {
        lemma_decision_count_bounds(ws.drop_first());
    }
}

/// Tests one word against the decision-point words.
fn check_decision_word(w: &Vec<char>) -> (r: bool)
    ensures
        r == is_decision_word(w@),
{
    let keys = decision_word_list();
    let mut one: Vec<Vec<char>> = Vec::new();
    let copy = crate::text::copy_range(w, 0, w.len());
    proof {
        assert(copy@ =~= w@);
    }
    one.push(copy);
    proof {
        assert(one.deep_view() =~~= seq![w@]);
    }
    crate::text::check_any_in(&one, &keys)
}

fn decision_word_list() -> (r: Vec<Vec<char>>)
    ensures
        r.deep_view() =~= decision_words(),
{
    let mut v: Vec<Vec<char>> = Vec::new();
    v.push(chars_of("if"));
    v.push(chars_of("else"));
    v.push(chars_of("for"));
    v.push(chars_of("while"));
    v.push(chars_of("match"));
    v.push(chars_of("&&"));
    v.push(chars_of("||"));
    v.push(chars_of("?"));
    v.push(chars_of("case"));
    proof {
        assert(v.deep_view() =~~= decision_words());
    }
    v
}

/// The deepest brace nesting reached while scanning: opening braces raise
/// the current depth, closing braces lower it, and the maximum is kept.
pub open spec fn nesting_from(s: Seq<char>, i: int, cur: int, mx: int) -> int
    decreases s.len() - i when 0 <= i <= s.len()
{
    if i >= s.len() {
        mx
    } else if s[i] == '{' {
        nesting_from(
            s,
            i + 1,
            cur + 1,
            if cur + 1 > mx {
                cur + 1
            } else {
                mx
            },
        )
    } else if s[i] == '}' {
        nesting_from(s, i + 1, cur - 1, mx)
    } else {
        nesting_from(s, i + 1, cur, mx)
    }
}

/// The nesting estimate, capped at 255.
pub open spec fn nesting_estimate(code: Seq<char>) -> int {
    let m = nesting_from(code, 0, 0, 0);
    if m > 255 {
        255
    } else {
        m
    }
}

/// Estimates the maximum nesting depth, exactly `nesting_estimate`.
pub fn calculate_nesting_depth(code: &str) -> (r: u8)
    ensures
        r == nesting_estimate(code@),
{
    let cs = chars_of(code);
    let mut i: usize = 0;
    let mut cur: i128 = 0;
    let mut mx: i128 = 0;
    while i < cs.len()
        invariant
            i <= cs@.len(),
            cs@ == code@,
            -(i as int) <= cur <= i as int,
            0 <= mx <= i as int,
            nesting_from(code@, 0, 0, 0) == nesting_from(code@, i as int, cur as int, mx as int),
        decreases cs@.len() - i,
    {
        let c = cs[i];
        if c == '{' {
            cur = cur + 1;
            if cur > mx {
                mx = cur;
            }
        } else if c == '}' {
            cur = cur - 1;
        }
        i = i + 1;
    }
    if mx > 255 {
        255
    } else {
        mx as u8
    }
}


/// A character of a function name.
pub open spec fn is_ident_char(c: char) -> bool {
    is_ascii_alnum(c) || c == '_'
}

fn check_ident_char(c: char) -> (r: bool)
    ensures
        r == is_ident_char(c),
{
    check_alnum(c) || c == '_'
}

/// A function head matches at `j`: the word `fn`, at least one space, a
/// name, optional spaces, an opening parenthesis, and a closing one on the
/// same line.
pub open spec fn fn_head_at(s: Seq<char>, j: int) -> bool {
    let b = first_at(s, |c: char| !is_space_char(c), j + 2);
    let we = first_at(s, |c: char| !is_ident_char(c), b);
    let p = first_at(s, |c: char| !is_space_char(c), we);
    let c = first_at(s, |c: char| c == ')' || c == '\n', p + 1);
    &&& 0 <= j
    &&& j + 2 < s.len()
    &&& match_at(s, seq!['f', 'n'], j)
    &&& is_space_char(s[j + 2])
    &&& b < s.len()
    &&& is_ident_char(s[b])
    &&& p < s.len()
    &&& s[p] == '('
    &&& c < s.len()
    &&& s[c] == ')'
}

/// The parameter text of a function head matching at `j`: between its
/// parentheses.
pub open spec fn fn_params_text(s: Seq<char>, j: int) -> Seq<char> {
    let b = first_at(s, |c: char| !is_space_char(c), j + 2);
    let we = first_at(s, |c: char| !is_ident_char(c), b);
    let p = first_at(s, |c: char| !is_space_char(c), we);
    let c = first_at(s, |c: char| c == ')' || c == '\n', p + 1);
    s.subrange(p + 1, c)
}

/// The first function head at or after `i`.
pub open spec fn fn_head_pos(s: Seq<char>, i: int) -> Option<int>
    decreases s.len() - i when 0 <= i <= s.len()
{
    if i >= s.len() {
        None
    } else if fn_head_at(s, i) {
        Some(i)
    } else {
        fn_head_pos(s, i + 1)
    }
}

proof fn lemma_fn_head_pos_skip(s: Seq<char>, i: int, j: int)
    requires
        0 <= i <= j <= s.len(),
        forall|k: int| i <= k < j ==> !fn_head_at(s, k),
    ensures
        fn_head_pos(s, i) == fn_head_pos(s, j),
    decreases j - i,
{
    if i < j {
        lemma_fn_head_pos_skip(s, i + 1, j);
    }
}

/// How many commas a text holds.
pub open spec fn comma_count(s: Seq<char>) -> int
    decreases s.len(),
{
    if s.len() == 0 {
        0
    } else {
        (if s[0] == ',' {
            1int
        } else {
            0int
        }) + comma_count(s.drop_first())
    }
}

proof fn lemma_comma_count_bounds(s: Seq<char>)
    ensures
        0 <= comma_count(s) <= s.len(),
    decreases s.len(),
{
    if s.len() > 0 {
        lemma_comma_count_bounds(s.drop_first());
    }
}

/// The parameter count of the first function head in the text: zero when
/// there is none or its parameter text is blank, else one more than its
/// commas.
pub open spec fn param_count_spec(s: Seq<char>) -> int {
    match fn_head_pos(s, 0) {
        None => 0,
        Some(j) => {
            let params = fn_params_text(s, j);
            if trim_seq(params).len() == 0 {
                0
            } else {
                comma_count(params) + 1
            }
        },
    }
}

/// Counts the parameters of the first function head, exactly
/// `param_count_spec`.
pub fn count_parameters(code: &str) -> (r: usize)
    ensures
        r == param_count_spec(code@),
{
    let cs = chars_of(code);
    let mut j: usize = 0;
    let mut found = false;
    while j < cs.len() && !found
        invariant
            j <= cs@.len(),
            cs@ == code@,
            cs@.len() == cs.len(),
            forall|k: int| 0 <= k < j ==> !fn_head_at(code@, k),
            found ==> j < cs@.len() && fn_head_at(code@, j as int),
        decreases cs@.len() - j + (if found {
            0int
        } else {
            1int
        }),
    {
        if check_fn_head_at(&cs, j) {
            found = true;
        } else {
            j = j + 1;
        }
    }
    if !found {
        proof {
            lemma_fn_head_pos_skip(code@, 0, cs@.len() as int);
        }
        return 0;
    }
    proof {
        lemma_fn_head_pos_skip(code@, 0, j as int);
    }
    let (p, c) = scan_fn_head(&cs, j);
    let params = crate::text::copy_range(&cs, p + 1, c);
    proof {
        assert(params@ =~= fn_params_text(code@, j as int));
    }
    let trimmed = crate::text::trim_chars(&params);
    if trimmed.len() == 0 {
        return 0;
    }
    let mut commas: usize = 0;
    let mut k: usize = 0;
    proof {
        assert(params@.skip(0) =~= params@);
    }
    while k < params.len()
        invariant
            k <= params@.len(),
            commas <= k,
            comma_count(params@) == commas + comma_count(params@.skip(k as int)),
        decreases params@.len() - k,
    {
        proof {
            assert(params@.skip(k as int)[0] == params@[k as int]);
            assert(params@.skip(k as int).drop_first() =~= params@.skip(k + 1));
            lemma_comma_count_bounds(params@.skip(k + 1));
        }
        if params[k] == ',' {
            commas = commas + 1;
        }
        k = k + 1;
    }
    proof {
        assert(params@.skip(params@.len() as int) =~= Seq::<char>::empty());
        lemma_comma_count_bounds(params@);
    }
    commas + 1
}

/// The parenthesis positions of the function head matching at `j`.
fn scan_fn_head(s: &Vec<char>, j: usize) -> (r: (usize, usize))
    requires
        j + 2 < s@.len(),
        fn_head_at(s@, j as int),
    ensures
        ({
            let b = first_at(s@, |c: char| !is_space_char(c), j + 2);
            let we = first_at(s@, |c: char| !is_ident_char(c), b);
            let p = first_at(s@, |c: char| !is_space_char(c), we);
            let c = first_at(s@, |c: char| c == ')' || c == '\n', p + 1);
            r.0 == p && r.1 == c && p + 1 <= c < s@.len()
        }),
{
    let n: usize = s.len();
    let mut b: usize = j + 2;
    while b < n && check_space(s[b])
        invariant
            n == s@.len(),
            j + 2 <= b <= s@.len(),
            forall|k: int| j + 2 <= k < b ==> is_space_char(#[trigger] s@[k]),
        decreases s@.len() - b,
    {
        b = b + 1;
    }
    proof {
        lemma_first_at_is(s@, |c: char| !is_space_char(c), j + 2 as int, b as int);
    }
    let mut we: usize = b;
    while we < n && check_ident_char(s[we])
        invariant
            n == s@.len(),
            b <= we <= s@.len(),
            forall|k: int| b <= k < we ==> is_ident_char(#[trigger] s@[k]),
        decreases s@.len() - we,
    {
        we = we + 1;
    }
    proof {
        lemma_first_at_is(s@, |c: char| !is_ident_char(c), b as int, we as int);
    }
    let mut p: usize = we;
    while p < n && check_space(s[p])
        invariant
            n == s@.len(),
            we <= p <= s@.len(),
            forall|k: int| we <= k < p ==> is_space_char(#[trigger] s@[k]),
        decreases s@.len() - p,
    {
        p = p + 1;
    }
    proof {
        lemma_first_at_is(s@, |c: char| !is_space_char(c), we as int, p as int);
    }
    let mut c: usize = p + 1;
    while c < n && s[c] != ')' && s[c] != '\n'
        invariant
            n == s@.len(),
            p + 1 <= c <= s@.len(),
            forall|k: int| p + 1 <= k < c ==> #[trigger] s@[k] != ')' && s@[k] != '\n',
        decreases s@.len() - c,
    {
        c = c + 1;
    }
    proof {
        lemma_first_at_is(s@, |x: char| x == ')' || x == '\n', p + 1 as int, c as int);
    }
    (p, c)
}

/// Tests one position for a function head, executably.
fn check_fn_head_at(s: &Vec<char>, j: usize) -> (r: bool)
    requires
        j <= s@.len(),
    ensures
        r == fn_head_at(s@, j as int),
{
    let needle: Vec<char> = vec!['f', 'n'];
    proof {
        assert(needle@ =~= seq!['f', 'n']);
    }
    if s.len() - j < 3 {
        return false;
    }
    if !crate::text::check_match_at(s, &needle, j) {
        return false;
    }
    if !check_space(s[j + 2]) {
        return false;
    }
    let mut b: usize = j + 2;
    while b < s.len() && check_space(s[b])
        invariant
            j + 2 <= b <= s@.len(),
            forall|k: int| j + 2 <= k < b ==> is_space_char(#[trigger] s@[k]),
        decreases s@.len() - b,
    {
        b = b + 1;
    }
    proof {
        lemma_first_at_is(s@, |c: char| !is_space_char(c), j + 2 as int, b as int);
    }
    if b >= s.len() || !check_ident_char(s[b]) {
        return false;
    }
    let mut we: usize = b;
    while we < s.len() && check_ident_char(s[we])
        invariant
            b <= we <= s@.len(),
            forall|k: int| b <= k < we ==> is_ident_char(#[trigger] s@[k]),
        decreases s@.len() - we,
    {
        we = we + 1;
    }
    proof {
        lemma_first_at_is(s@, |c: char| !is_ident_char(c), b as int, we as int);
    }
    let mut p: usize = we;
    while p < s.len() && check_space(s[p])
        invariant
            we <= p <= s@.len(),
            forall|k: int| we <= k < p ==> is_space_char(#[trigger] s@[k]),
        decreases s@.len() - p,
    {
        p = p + 1;
    }
    proof {
        lemma_first_at_is(s@, |c: char| !is_space_char(c), we as int, p as int);
    }
    if p >= s.len() || s[p] != '(' {
        return false;
    }
    let mut c: usize = p + 1;
    while c < s.len() && s[c] != ')' && s[c] != '\n'
        invariant
            p + 1 <= c <= s@.len(),
            forall|k: int| p + 1 <= k < c ==> #[trigger] s@[k] != ')' && s@[k] != '\n',
        decreases s@.len() - c,
    {
        c = c + 1;
    }
    proof {
        lemma_first_at_is(s@, |x: char| x == ')' || x == '\n', p + 1 as int, c as int);
    }
    c < s.len() && s[c] == ')'
}


/// The mathematical shape of a candidate.
pub struct RefactorCandidateModel {
    pub file: Seq<char>,
    pub function: Seq<char>,
    pub line_start: usize,
    pub line_end: usize,
    pub complexity_score: u8,
    pub lines_of_code: usize,
    pub nesting_depth: u8,
    pub num_parameters: usize,
    pub issues: Seq<Seq<char>>,
}

impl View for RefactorCandidate {
    type V = RefactorCandidateModel;

    open spec fn view(&self) -> RefactorCandidateModel {
        RefactorCandidateModel {
            file: self.file@,
            function: self.function@,
            line_start: self.line_start,
            line_end: self.line_end,
            complexity_score: self.complexity_score,
            lines_of_code: self.lines_of_code,
            nesting_depth: self.nesting_depth,
            num_parameters: self.num_parameters,
            issues: self.issues.deep_view(),
        }
    }
}

/// The head of the named function matches at `j`: the word `fn`, spaces,
/// exactly the name, optional spaces, and an opening parenthesis.
pub open spec fn named_fn_at(s: Seq<char>, name: Seq<char>, j: int) -> bool {
    let b = first_at(s, |c: char| !is_space_char(c), j + 2);
    let p = first_at(s, |c: char| !is_space_char(c), b + name.len());
    &&& 0 <= j
    &&& j + 2 < s.len()
    &&& match_at(s, seq!['f', 'n'], j)
    &&& is_space_char(s[j + 2])
    &&& match_at(s, name, b)
    &&& p < s.len()
    &&& s[p] == '('
}

/// The first position of the named function's head, if any.
pub open spec fn named_fn_pos(s: Seq<char>, name: Seq<char>, i: int) -> Option<int>
    decreases s.len() - i when 0 <= i <= s.len()
{
    if i >= s.len() {
        None
    } else if named_fn_at(s, name, i) {
        Some(i)
    } else {
        named_fn_pos(s, name, i + 1)
    }
}

proof fn lemma_named_fn_pos_skip(s: Seq<char>, name: Seq<char>, i: int, j: int)
    requires
        0 <= i <= j <= s.len(),
        forall|k: int| i <= k < j ==> !named_fn_at(s, name, k),
    ensures
        named_fn_pos(s, name, i) == named_fn_pos(s, name, j),
    decreases j - i,
{
    if i < j {
        lemma_named_fn_pos_skip(s, name, i + 1, j);
    }
}

/// A line count never exceeds the character count.
proof fn lemma_lines_len(s: Seq<char>, i: int)
    requires
        0 <= i <= s.len(),
    ensures
        0 <= crate::text::lines_from(s, i).len() <= s.len() - i,
    decreases s.len() - i,
{
    if i < s.len() {
        let j = first_at(s, |c: char| crate::text::is_nl(c), i);
        lemma_first_at(s, |c: char| crate::text::is_nl(c), i);
        if j < s.len() {
            lemma_lines_len(s, j + 1);
        }
    }
}

/// The issue lines a function's metrics raise, in a fixed order.
pub open spec fn metric_issues(cx: int, loc: int, nest: int, params: int) -> Seq<Seq<char>> {
    (if cx >= 8 {
        seq!["High cyclomatic complexity: "@ + crate::text::dec_repr(cx)]
    } else {
        Seq::empty()
    }) + (if loc > 50 {
        seq!["Function too long: "@ + crate::text::dec_repr(loc) + " lines"@]
    } else {
        Seq::empty()
    }) + (if nest > 4 {
        seq!["Deep nesting: "@ + crate::text::dec_repr(nest) + " levels"@]
    } else {
        Seq::empty()
    }) + (if params > 5 {
        seq!["Too many parameters: "@ + crate::text::dec_repr(params)]
    } else {
        Seq::empty()
    })
}

/// What analyzing one named function concludes: nothing when the text has
/// no head for that name or its complexity is below the threshold, else a
/// candidate with the body's metrics, its one-based start and end lines,
/// and the issue lines its metrics raise.
pub open spec fn analyze_fn_spec(
    file: Seq<char>,
    content: Seq<char>,
    name: Seq<char>,
    threshold: u8,
) -> Option<RefactorCandidateModel> {
    match named_fn_pos(content, name, 0) {
        None => None,
        Some(start) => {
            let end_rel = body_end_from(content.skip(start), 0, 0, false);
            let code = content.subrange(start, start + end_rel);
            let cx = complexity_estimate(code);
            if cx >= threshold {
                Some(
                    RefactorCandidateModel {
                        file: file,
                        function: name,
                        line_start: (crate::text::lines_of(content.take(start)).len() + 1) as usize,
                        line_end: (crate::text::lines_of(
                            content.take(start + end_rel),
                        ).len() + 1) as usize,
                        complexity_score: cx as u8,
                        lines_of_code: crate::text::lines_of(code).len() as usize,
                        nesting_depth: nesting_estimate(code) as u8,
                        num_parameters: param_count_spec(code) as usize,
                        issues: metric_issues(
                            cx,
                            crate::text::lines_of(code).len() as int,
                            nesting_estimate(code),
                            param_count_spec(code),
                        ),
                    },
                )
            } else {
                None
            }
        },
    }
}

/// Analyzes one named function of a text, exactly `analyze_fn_spec`. The
/// text must leave room for one-based line numbers.
pub fn analyze_function(file: &str, content: &str, func_name: &str, threshold: u8) -> (r: Option<
    RefactorCandidate,
>)
    requires
        content@.len() < usize::MAX,
    ensures
        match r {
            Some(cand) => analyze_fn_spec(file@, content@, func_name@, threshold) == Some(cand@),
            None => analyze_fn_spec(file@, content@, func_name@, threshold) is None,
        },
{
    let cs = chars_of(content);
    let name = chars_of(func_name);
    let mut j: usize = 0;
    let mut found = false;
    while j < cs.len() && !found
        invariant
            j <= cs@.len(),
            cs@ == content@,
            cs@.len() == cs.len(),
            name@ == func_name@,
            forall|k: int| 0 <= k < j ==> !named_fn_at(content@, func_name@, k),
            found ==> j < cs@.len() && named_fn_at(content@, func_name@, j as int),
        decreases cs@.len() - j + (if found {
            0int
        } else {
            1int
        }),
    {
        if check_named_fn_at(&cs, &name, j) {
            found = true;
        } else {
            j = j + 1;
        }
    }
    if !found {
        proof {
            lemma_named_fn_pos_skip(content@, func_name@, 0, cs@.len() as int);
        }
        return None;
    }
    proof {
        lemma_named_fn_pos_skip(content@, func_name@, 0, j as int);
    }
    let body = crate::text::copy_range(&cs, j, cs.len());
    proof {
        assert(body@ =~= content@.skip(j as int));
    }
    let end_rel = body_end_of(&body);
    proof {
        lemma_body_end_bounds(body@, 0, 0, false);
    }
    let code = crate::text::copy_range(&cs, j, j + end_rel);
    proof {
        assert(code@ =~= content@.subrange(j as int, j + end_rel));
    }
    let code_str = string_from_chars(&code);
    let cx = calculate_complexity(code_str.as_str());
    if cx < threshold {
        return None;
    }
    let prefix_start = crate::text::copy_range(&cs, 0, j);
    proof {
        assert(prefix_start@ =~= content@.take(j as int));
        lemma_lines_len(content@.take(j as int), 0);
    }
    let lines_before = crate::text::split_lines(&prefix_start);
    let prefix_end = crate::text::copy_range(&cs, 0, j + end_rel);
    proof {
        assert(prefix_end@ =~= content@.take(j + end_rel));
        lemma_lines_len(content@.take(j + end_rel), 0);
        lemma_lines_len(code@, 0);
    }
    let lines_to_end = crate::text::split_lines(&prefix_end);
    let code_lines = crate::text::split_lines(&code);
    let nest = calculate_nesting_depth(code_str.as_str());
    let params = count_parameters(code_str.as_str());
    let mut issues: Vec<String> = Vec::new();
    if cx >= 8 {
        let mut m = chars_of("High cyclomatic complexity: ");
        let num = crate::text::usize_to_chars(cx as usize);
        crate::text::push_all(&mut m, &num);
        issues.push(string_from_chars(&m));
    }
    if code_lines.len() > 50 {
        let mut m = chars_of("Function too long: ");
        let num = crate::text::usize_to_chars(code_lines.len());
        crate::text::push_all(&mut m, &num);
        let tail = chars_of(" lines");
        crate::text::push_all(&mut m, &tail);
        issues.push(string_from_chars(&m));
    }
    if nest > 4 {
        let mut m = chars_of("Deep nesting: ");
        let num = crate::text::usize_to_chars(nest as usize);
        crate::text::push_all(&mut m, &num);
        let tail = chars_of(" levels");
        crate::text::push_all(&mut m, &tail);
        issues.push(string_from_chars(&m));
    }
    if params > 5 {
        let mut m = chars_of("Too many parameters: ");
        let num = crate::text::usize_to_chars(params);
        crate::text::push_all(&mut m, &num);
        issues.push(string_from_chars(&m));
    }
    proof {
        assert(issues.deep_view() =~~= metric_issues(
            cx as int,
            code_lines@.len() as int,
            nest as int,
            params as int,
        ));
    }
    let file_chars = chars_of(file);
    let cand = RefactorCandidate {
        file: string_from_chars(&file_chars),
        function: string_from_chars(&name),
        line_start: lines_before.len() + 1,
        line_end: lines_to_end.len() + 1,
        complexity_score: cx,
        lines_of_code: code_lines.len(),
        nesting_depth: nest,
        num_parameters: params,
        issues,
    };
    proof {
        assert(lines_before@.len() == crate::text::lines_of(content@.take(j as int)).len());
        assert(lines_to_end@.len() == crate::text::lines_of(content@.take(j + end_rel)).len());
        assert(code_lines@.len() == crate::text::lines_of(code@).len());
        assert(cand@ == analyze_fn_spec(file@, content@, func_name@, threshold)->Some_0);
    }
    Some(cand)
}

proof fn lemma_body_end_bounds(s: Seq<char>, i: int, depth: int, started: bool)
    requires
        0 <= i <= s.len(),
    ensures
        i <= body_end_from(s, i, depth, started) <= s.len(),
    decreases s.len() - i,
{
    if i < s.len() {
        if s[i] == '{' {
            lemma_body_end_bounds(s, i + 1, depth + 1, true);
        } else if s[i] == '}' {
            if !(started && depth == 1) {
                lemma_body_end_bounds(s, i + 1, depth - 1, started);
            }
        } else {
            lemma_body_end_bounds(s, i + 1, depth, started);
        }
    }
}

/// Tests one position for the named function's head, executably.
fn check_named_fn_at(s: &Vec<char>, name: &Vec<char>, j: usize) -> (r: bool)
    requires
        j <= s@.len(),
    ensures
        r == named_fn_at(s@, name@, j as int),
{
    let n: usize = s.len();
    let needle: Vec<char> = vec!['f', 'n'];
    proof {
        assert(needle@ =~= seq!['f', 'n']);
    }
    if n - j < 3 {
        return false;
    }
    if !crate::text::check_match_at(s, &needle, j) {
        return false;
    }
    if !check_space(s[j + 2]) {
        return false;
    }
    let mut b: usize = j + 2;
    while b < n && check_space(s[b])
        invariant
            n == s@.len(),
            j + 2 <= b <= s@.len(),
            forall|k: int| j + 2 <= k < b ==> is_space_char(#[trigger] s@[k]),
        decreases s@.len() - b,
    {
        b = b + 1;
    }
    proof {
        lemma_first_at_is(s@, |c: char| !is_space_char(c), j + 2 as int, b as int);
    }
    if name.len() > n - b {
        proof {
            assert(!match_at(s@, name@, b as int));
        }
        return false;
    }
    if !crate::text::check_match_at(s, name, b) {
        return false;
    }
    let mut p: usize = b + name.len();
    while p < n && check_space(s[p])
        invariant
            n == s@.len(),
            b + name@.len() <= p <= s@.len(),
            forall|k: int| b + name@.len() <= k < p ==> is_space_char(#[trigger] s@[k]),
        decreases s@.len() - p,
    {
        p = p + 1;
    }
    proof {
        lemma_first_at_is(s@, |c: char| !is_space_char(c), b + name.len() as int, p as int);
    }
    p < n && s[p] == '('
}


/// The name a line declares, when the line is a function declaration:
/// optional leading spaces, an optional `pub` and an optional `async`
/// (each followed by spaces), then `fn`, spaces, and the name.
pub open spec fn decl_name_of(l: Seq<char>) -> Option<Seq<char>> {
    let a = first_at(l, |c: char| !is_space_char(c), 0);
    let after_pub = if match_at(l, seq!['p', 'u', 'b'], a) && a + 3 < l.len() && is_space_char(
        l[a + 3],
    ) {
        first_at(l, |c: char| !is_space_char(c), a + 3)
    } else {
        a
    };
    let after_async = if match_at(l, seq!['a', 's', 'y', 'n', 'c'], after_pub) && after_pub + 5
        < l.len() && is_space_char(l[after_pub + 5]) {
        first_at(l, |c: char| !is_space_char(c), after_pub + 5)
    } else {
        after_pub
    };
    if match_at(l, seq!['f', 'n'], after_async) && after_async + 2 < l.len() && is_space_char(
        l[after_async + 2],
    ) {
        let b = first_at(l, |c: char| !is_space_char(c), after_async + 2);
        if b < l.len() && is_ident_char(l[b]) {
            Some(l.subrange(b, first_at(l, |c: char| !is_ident_char(c), b)))
        } else {
            None
        }
    } else {
        None
    }
}

/// The names the text's lines declare, in line order.
pub open spec fn decl_names(lines: Seq<Seq<char>>, i: int) -> Seq<Seq<char>>
    decreases lines.len() - i when 0 <= i <= lines.len()
{
    if i >= lines.len() {
        Seq::empty()
    } else {
        (match decl_name_of(lines[i]) {
            Some(n) => seq![n],
            None => Seq::empty(),
        }) + decl_names(lines, i + 1)
    }
}

/// The candidates of a text: for each declared name in line order, the
/// analysis of that name, where it clears the threshold. A name declared
/// twice is analyzed twice, both times at its first occurrence.
pub open spec fn analyze_source_spec(
    file: Seq<char>,
    content: Seq<char>,
    names: Seq<Seq<char>>,
    i: int,
    threshold: u8,
) -> Seq<RefactorCandidateModel>
    decreases names.len() - i when 0 <= i <= names.len()
{
    if i >= names.len() {
        Seq::empty()
    } else {
        (match analyze_fn_spec(file, content, names[i], threshold) {
            Some(c) => seq![c],
            None => Seq::empty(),
        }) + analyze_source_spec(file, content, names, i + 1, threshold)
    }
}

/// Reads the name one line declares, executably.
fn scan_decl_name(l: &Vec<char>) -> (r: Option<Vec<char>>)
    ensures
        match r {
            Some(n) => decl_name_of(l@) == Some(n@),
            None => decl_name_of(l@) is None,
        },
{
    let n: usize = l.len();
    let mut a: usize = 0;
    while a < n && check_space(l[a])
        invariant
            n == l@.len(),
            a <= l@.len(),
            forall|k: int| 0 <= k < a ==> is_space_char(#[trigger] l@[k]),
        decreases l@.len() - a,
    {
        a = a + 1;
    }
    proof {
        lemma_first_at_is(l@, |c: char| !is_space_char(c), 0, a as int);
    }
    let kw_pub: Vec<char> = vec!['p', 'u', 'b'];
    let kw_async: Vec<char> = vec!['a', 's', 'y', 'n', 'c'];
    let kw_fn: Vec<char> = vec!['f', 'n'];
    proof {
        assert(kw_pub@ =~= seq!['p', 'u', 'b']);
        assert(kw_async@ =~= seq!['a', 's', 'y', 'n', 'c']);
        assert(kw_fn@ =~= seq!['f', 'n']);
    }
    let mut after_pub: usize = a;
    if crate::text::check_match_at(l, &kw_pub, a) && n - a > 3 && check_space(l[a + 3]) {
        let mut q: usize = a + 3;
        while q < n && check_space(l[q])
            invariant
                n == l@.len(),
                a + 3 <= q <= l@.len(),
                forall|k: int| a + 3 <= k < q ==> is_space_char(#[trigger] l@[k]),
            decreases l@.len() - q,
        {
            q = q + 1;
        }
        proof {
            lemma_first_at_is(l@, |c: char| !is_space_char(c), a + 3 as int, q as int);
        }
        after_pub = q;
    }
    let mut after_async: usize = after_pub;
    if crate::text::check_match_at(l, &kw_async, after_pub) && n - after_pub > 5 && check_space(
        l[after_pub + 5],
    ) {
        let mut q: usize = after_pub + 5;
        while q < n && check_space(l[q])
            invariant
                n == l@.len(),
                after_pub + 5 <= q <= l@.len(),
                forall|k: int| after_pub + 5 <= k < q ==> is_space_char(#[trigger] l@[k]),
            decreases l@.len() - q,
        {
            q = q + 1;
        }
        proof {
            lemma_first_at_is(l@, |c: char| !is_space_char(c), after_pub + 5 as int, q as int);
        }
        after_async = q;
    }
    if !(crate::text::check_match_at(l, &kw_fn, after_async) && n - after_async > 2 && check_space(
        l[after_async + 2],
    )) {
        return None;
    }
    let mut b: usize = after_async + 2;
    while b < n && check_space(l[b])
        invariant
            n == l@.len(),
            after_async + 2 <= b <= l@.len(),
            forall|k: int| after_async + 2 <= k < b ==> is_space_char(#[trigger] l@[k]),
        decreases l@.len() - b,
    {
        b = b + 1;
    }
    proof {
        lemma_first_at_is(l@, |c: char| !is_space_char(c), after_async + 2 as int, b as int);
    }
    if b >= n || !check_ident_char(l[b]) {
        return None;
    }
    let mut e: usize = b;
    while e < n && check_ident_char(l[e])
        invariant
            n == l@.len(),
            b <= e <= l@.len(),
            forall|k: int| b <= k < e ==> is_ident_char(#[trigger] l@[k]),
        decreases l@.len() - e,
    {
        e = e + 1;
    }
    proof {
        lemma_first_at_is(l@, |c: char| !is_ident_char(c), b as int, e as int);
    }
    Some(crate::text::copy_range(l, b, e))
}

/// Finds every declared function of a text and analyzes each against the
/// threshold, exactly `analyze_source_spec` over the declared names.
pub fn analyze_source(file: &str, content: &str, threshold: u8) -> (r: Vec<RefactorCandidate>)
    requires
        content@.len() < usize::MAX,
    ensures
        r@.map_values(|c: RefactorCandidate| c@) == analyze_source_spec(
            file@,
            content@,
            decl_names(crate::text::lines_of(content@), 0),
            0,
            threshold,
        ),
{
    let cs = chars_of(content);
    let ls = crate::text::split_lines(&cs);
    let ghost lines_g = crate::text::lines_of(content@);
    let mut names: Vec<Vec<char>> = Vec::new();
    let mut i: usize = 0;
    proof {
        assert(names.deep_view() + decl_names(lines_g, 0) =~~= decl_names(lines_g, 0));
    }
    while i < ls.len()
        invariant
            i <= ls@.len(),
            ls.deep_view() == lines_g,
            lines_g.len() == ls@.len(),
            decl_names(lines_g, 0) == names.deep_view() + decl_names(lines_g, i as int),
        decreases ls@.len() - i,
    {
        let ghost base = names.deep_view();
        proof {
            assert(ls.deep_view()[i as int] == ls@[i as int]@);
        }
        match scan_decl_name(&ls[i]) {
            Some(nm) => {
                names.push(nm);
                proof {
                    assert(names.deep_view() =~~= base.push(
                        decl_name_of(lines_g[i as int])->Some_0,
                    ));
                    assert(base.push(decl_name_of(lines_g[i as int])->Some_0) + decl_names(
                        lines_g,
                        i + 1,
                    ) =~~= base + (seq![decl_name_of(lines_g[i as int])->Some_0] + decl_names(
                        lines_g,
                        i + 1,
                    )));
                }
            },
            None => {
                proof {
                    assert(decl_names(lines_g, i as int) =~~= decl_names(lines_g, i + 1));
                }
            },
        }
        i = i + 1;
    }
    proof {
        assert(decl_names(lines_g, lines_g.len() as int) =~~= Seq::<Seq<char>>::empty());
        assert(names.deep_view() + Seq::<Seq<char>>::empty() =~~= names.deep_view());
    }
    let ghost names_g = names.deep_view();
    let mut out: Vec<RefactorCandidate> = Vec::new();
    let mut k: usize = 0;
    proof {
        assert(out@.map_values(|c: RefactorCandidate| c@) + analyze_source_spec(
            file@,
            content@,
            names_g,
            0,
            threshold,
        ) =~= analyze_source_spec(file@, content@, names_g, 0, threshold));
    }
    while k < names.len()
        invariant
            k <= names@.len(),
            names.deep_view() == names_g,
            names_g.len() == names@.len(),
            cs@ == content@,
            content@.len() < usize::MAX,
            analyze_source_spec(file@, content@, names_g, 0, threshold) == out@.map_values(
                |c: RefactorCandidate| c@,
            ) + analyze_source_spec(file@, content@, names_g, k as int, threshold),
        decreases names@.len() - k,
    {
        let ghost base = out@.map_values(|c: RefactorCandidate| c@);
        proof {
            assert(names.deep_view()[k as int] == names@[k as int]@);
        }
        let name_str = string_from_chars(&names[k]);
        match analyze_function(file, content, name_str.as_str(), threshold) {
            Some(cand) => {
                out.push(cand);
                proof {
                    assert(analyze_source_spec(file@, content@, names_g, k as int, threshold)
                        == seq![
                        analyze_fn_spec(file@, content@, names_g[k as int], threshold)->Some_0,
                    ] + analyze_source_spec(file@, content@, names_g, k + 1, threshold));
                    assert(out@.map_values(|c: RefactorCandidate| c@) =~= base.push(
                        analyze_fn_spec(file@, content@, names_g[k as int], threshold)->Some_0,
                    ));
                    assert(base.push(
                        analyze_fn_spec(file@, content@, names_g[k as int], threshold)->Some_0,
                    ) + analyze_source_spec(file@, content@, names_g, k + 1, threshold) =~= base + (
                    seq![analyze_fn_spec(file@, content@, names_g[k as int], threshold)->Some_0]
                        + analyze_source_spec(file@, content@, names_g, k + 1, threshold)));
                }
            },
            None => {
                proof {
                    assert(analyze_source_spec(file@, content@, names_g, k as int, threshold)
                        =~= analyze_source_spec(file@, content@, names_g, k + 1, threshold));
                }
            },
        }
        k = k + 1;
    }
    proof {
        assert(analyze_source_spec(file@, content@, names_g, names_g.len() as int, threshold)
            =~= Seq::<RefactorCandidateModel>::empty());
        assert(out@.map_values(|c: RefactorCandidate| c@) + Seq::<
            RefactorCandidateModel,
        >::empty() =~= out@.map_values(|c: RefactorCandidate| c@));
    }
    out
}

} // verus!
