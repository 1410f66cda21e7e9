//! Classification of TODO comments and selection of one to resolve.
//!
//! A TODO is a line of source text; its wording decides how involved the
//! work is, what kind of work it is, and how to approach it. The selection
//! rule picks the shortest TODO, earliest first, as the easiest to resolve.

use vstd::prelude::*;

use vstd::string::StringSliceAdditionalSpecFns;

use crate::text::{
    chars_of, chars_eq, contains_sub, has_sub, is_space_char, lower_char, lower_seq, push_all,
    string_from_chars, to_lower_chars, trim_chars, trim_seq, lemma_first_at_is, first_at,
};

verus! {

/// One TODO comment found in a repository.
#[derive(Debug, Clone)]
pub struct TodoItem {
    pub file: String,
    pub line: usize,
    pub content: String,
    pub issue_number: Option<u32>,
}

/// What an analysis of one TODO concludes.
#[derive(Debug, Clone)]
pub struct TodoAnalysis {
    pub todo_type: String,
    pub complexity: String,
    pub approach: String,
    pub estimated_lines: usize,
    pub requires_tests: bool,
}

/// Asking for a TODO from an empty collection.
#[derive(Debug, Clone, Copy, PartialEq, Eq, Structural)]
pub struct NoTodos;

/// The complexity word for a TODO: decided by the first of the keywords
/// `refactor`, `implement`, `add`, `fix`, `update`, `move`, `extract` that
/// its text contains (case-insensitively), and failing those, by whether
/// the source line declares something public.
pub open spec fn complexity_spec(line: Seq<char>, content: Seq<char>) -> Seq<char> {
    let l = lower_seq(content);
    if has_sub(l, "refactor"@) {
        "high"@
    } else if has_sub(l, "implement"@) {
        "high"@
    } else if has_sub(l, "add"@) {
        "medium"@
    } else if has_sub(l, "fix"@) {
        "medium"@
    } else if has_sub(l, "update"@) {
        "low"@
    } else if has_sub(l, "move"@) {
        "low"@
    } else if has_sub(l, "extract"@) {
        "medium"@
    } else if has_sub(line, "pub fn"@) || has_sub(line, "pub struct"@) {
        "medium"@
    } else {
        "low"@
    }
}

/// The complexity word for a TODO, exactly `complexity_spec`.
pub fn determine_complexity(line: &str, content: &str) -> (r: String)
    ensures
        r@ == complexity_spec(line@, content@),
{
    let lc = chars_of(content);
    let l = to_lower_chars(&lc);
    let k_refactor = chars_of("refactor");
    let k_implement = chars_of("implement");
    let k_add = chars_of("add");
    let k_fix = chars_of("fix");
    let k_update = chars_of("update");
    let k_move = chars_of("move");
    let k_extract = chars_of("extract");
    if contains_sub(&l, &k_refactor) {
        return chars_to_string("high");
    }
    if contains_sub(&l, &k_implement) {
        return chars_to_string("high");
    }
    if contains_sub(&l, &k_add) {
        return chars_to_string("medium");
    }
    if contains_sub(&l, &k_fix) {
        return chars_to_string("medium");
    }
    if contains_sub(&l, &k_update) {
        return chars_to_string("low");
    }
    if contains_sub(&l, &k_move) {
        return chars_to_string("low");
    }
    if contains_sub(&l, &k_extract) {
        return chars_to_string("medium");
    }
    let lv = chars_of(line);
    let k_pub_fn = chars_of("pub fn");
    let k_pub_struct = chars_of("pub struct");
    if contains_sub(&lv, &k_pub_fn) || contains_sub(&lv, &k_pub_struct) {
        chars_to_string("medium")
    } else {
        chars_to_string("low")
    }
}

/// An owned string with exactly the characters of a literal.
fn chars_to_string(s: &str) -> (r: String)
    ensures
        r@ == s@,
{
    let v = chars_of(s);
    string_from_chars(&v)
}

/// The kind word for a TODO: the first of `test`, `implement`, `refactor`,
/// `fix`/`bug`, `add`/`feature` that its text contains, else `general`.
pub open spec fn todo_type_spec(content: Seq<char>) -> Seq<char> {
    let l = lower_seq(content);
    if has_sub(l, "test"@) {
        "testing"@
    } else if has_sub(l, "implement"@) {
        "implementation"@
    } else if has_sub(l, "refactor"@) {
        "refactoring"@
    } else if has_sub(l, "fix"@) || has_sub(l, "bug"@) {
        "bugfix"@
    } else if has_sub(l, "add"@) || has_sub(l, "feature"@) {
        "feature"@
    } else {
        "general"@
    }
}

/// The kind word for a TODO, exactly `todo_type_spec`.
pub fn determine_type(content: &str) -> (r: String)
    ensures
        r@ == todo_type_spec(content@),
{
    let lc = chars_of(content);
    let l = to_lower_chars(&lc);
    let k_test = chars_of("test");
    let k_implement = chars_of("implement");
    let k_refactor = chars_of("refactor");
    let k_fix = chars_of("fix");
    let k_bug = chars_of("bug");
    let k_add = chars_of("add");
    let k_feature = chars_of("feature");
    if contains_sub(&l, &k_test) {
        chars_to_string("testing")
    } else if contains_sub(&l, &k_implement) {
        chars_to_string("implementation")
    } else if contains_sub(&l, &k_refactor) {
        chars_to_string("refactoring")
    } else if contains_sub(&l, &k_fix) || contains_sub(&l, &k_bug) {
        chars_to_string("bugfix")
    } else if contains_sub(&l, &k_add) || contains_sub(&l, &k_feature) {
        chars_to_string("feature")
    } else {
        chars_to_string("general")
    }
}

/// The suggested approach for each kind of TODO; unknown kinds fall back to
/// implementing the text itself.
pub open spec fn approach_spec(todo_type: Seq<char>, content: Seq<char>) -> Seq<char> {
    if todo_type == "testing"@ {
        "Write unit tests following AAA pattern (Arrange, Act, Assert)"@
    } else if todo_type == "implementation"@ {
        "Implement the feature with proper error handling"@
    } else if todo_type == "refactoring"@ {
        "Extract to separate function/module maintaining existing behavior"@
    } else if todo_type == "bugfix"@ {
        "Write failing test first, then fix the bug"@
    } else if todo_type == "feature"@ {
        "Design API, write tests, implement incrementally"@
    } else {
        "Implement: "@ + content
    }
}

/// The suggested approach, exactly `approach_spec`.
pub fn suggest_approach(todo_type: &str, content: &str) -> (r: String)
    ensures
        r@ == approach_spec(todo_type@, content@),
{
    let tv = chars_of(todo_type);
    let k_testing = chars_of("testing");
    let k_implementation = chars_of("implementation");
    let k_refactoring = chars_of("refactoring");
    let k_bugfix = chars_of("bugfix");
    let k_feature = chars_of("feature");
    if chars_eq(&tv, &k_testing) {
        chars_to_string("Write unit tests following AAA pattern (Arrange, Act, Assert)")
    } else if chars_eq(&tv, &k_implementation) {
        chars_to_string("Implement the feature with proper error handling")
    } else if chars_eq(&tv, &k_refactoring) {
        chars_to_string("Extract to separate function/module maintaining existing behavior")
    } else if chars_eq(&tv, &k_bugfix) {
        chars_to_string("Write failing test first, then fix the bug")
    } else if chars_eq(&tv, &k_feature) {
        chars_to_string("Design API, write tests, implement incrementally")
    } else {
        let mut v = chars_of("Implement: ");
        let cv = chars_of(content);
        push_all(&mut v, &cv);
        string_from_chars(&v)
    }
}

/// The size estimate for each complexity word.
pub open spec fn estimate_spec(complexity: Seq<char>) -> usize {
    if complexity == "high"@ {
        100
    } else if complexity == "medium"@ {
        30
    } else {
        10
    }
}

/// Estimated lines of work, exactly `estimate_spec`.
pub fn estimate_implementation_size(complexity: &str) -> (r: usize)
    ensures
        r == estimate_spec(complexity@),
{
    let cv = chars_of(complexity);
    let k_high = chars_of("high");
    let k_medium = chars_of("medium");
    if chars_eq(&cv, &k_high) {
        100
    } else if chars_eq(&cv, &k_medium) {
        30
    } else {
        10
    }
}

/// Whether the line a TODO sits on declares something that should carry
/// tests: a public function, struct or enum.
pub open spec fn needs_tests_spec(line: Seq<char>) -> bool {
    has_sub(line, "pub fn"@) || has_sub(line, "pub struct"@) || has_sub(line, "pub enum"@)
}

/// Whether the TODO's line should carry tests, exactly `needs_tests_spec`.
pub fn should_have_tests(line: &str) -> (r: bool)
    ensures
        r == needs_tests_spec(line@),
{
    let lv = chars_of(line);
    let k_fn = chars_of("pub fn");
    let k_struct = chars_of("pub struct");
    let k_enum = chars_of("pub enum");
    contains_sub(&lv, &k_fn) || contains_sub(&lv, &k_struct) || contains_sub(&lv, &k_enum)
}

/// The byte length of a TODO's text, as `str::len` reports it.
pub open spec fn content_blen(t: TodoItem) -> int {
    vstd::utf8::encode_utf8(t.content@).len() as usize as int
}

/// Index of the TODO that a stable sort by content length would put first:
/// the earliest one of minimal byte length, folded from `i` with the best
/// index `b` so far.
pub open spec fn best_todo(ts: Seq<TodoItem>, i: int, b: int) -> int
    decreases ts.len() - i,
{
    if i < 0 || i >= ts.len() {
        b
    } else if 0 <= b < ts.len() && content_blen(ts[i]) < content_blen(ts[b]) {
        best_todo(ts, i + 1, i)
    } else {
        best_todo(ts, i + 1, b)
    }
}

/// Picks the shortest TODO, earliest first — the one a stable sort by
/// content length would put in front. Fails exactly on an empty collection.
pub fn select_todo_automatically(todos: &Vec<TodoItem>) -> (r: Result<TodoItem, NoTodos>)
    ensures
        r is Ok <==> todos@.len() > 0,
        r matches Ok(t) ==> {
            let b = best_todo(todos@, 1, 0);
            &&& 0 <= b < todos@.len()
            &&& t == todos@[b]
        },
{
    if todos.len() == 0 {
        return Err(NoTodos);
    }
    let mut b: usize = 0;
    let mut i: usize = 1;
    while i < todos.len()
        invariant
            1 <= i <= todos@.len(),
            b < i,
            best_todo(todos@, 1, 0) == best_todo(todos@, i as int, b as int),
        decreases todos.len() - i,
    {
        let cur = byte_len(&todos[i].content);
        let best = byte_len(&todos[b].content);
        if cur < best {
            b = i;
        }
        i = i + 1;
    }
    let t = &todos[b];
    let picked = TodoItem {
        file: t.file.clone(),
        line: t.line,
        content: t.content.clone(),
        issue_number: t.issue_number,
    };
    proof {
        assert(picked == todos@[b as int]);
    }
    Ok(picked)
}

/// The UTF-8 byte length of a string.
fn byte_len(s: &String) -> (r: usize)
    ensures
        r == vstd::utf8::encode_utf8(s@).len() as usize,
{
    let t = s.as_str();
    proof {
        assert(t.spec_bytes() =~= vstd::utf8::encode_utf8(s@));
    }
    t.len()
}

/// The comma-separated pieces of a pattern list, each trimmed, empty pieces
/// dropped.
pub open spec fn patterns_spec(s: Seq<char>, i: int) -> Seq<Seq<char>>
    decreases s.len() - i when 0 <= i <= s.len() via patterns_spec_dec
{
    if i > s.len() {
        Seq::empty()
    } else {
        let j = first_at(s, |c: char| c == ',', i);
        let piece = trim_seq(s.subrange(i, j));
        let rest = if j < s.len() {
            patterns_spec(s, j + 1)
        } else {
            Seq::empty()
        };
        if piece.len() > 0 {
            seq![piece] + rest
        } else {
            rest
        }
    }
}

#[via_fn]
proof fn patterns_spec_dec(s: Seq<char>, i: int) {
    if 0 <= i <= s.len() {
        crate::text::lemma_first_at(s, |c: char| c == ',', i);
    }
}

/// Splits a comma-separated pattern list, exactly `patterns_spec`.
pub fn parse_patterns(patterns: &str) -> (r: Vec<String>)
    ensures
        r@.map_values(|p: String| p@) == patterns_spec(patterns@, 0),
{
    let s = chars_of(patterns);
    let mut out: Vec<String> = Vec::new();
    let mut i: usize = 0;
    let ghost sv = patterns@;
    proof {
        assert(out@.map_values(|p: String| p@) + patterns_spec(sv, 0) =~= patterns_spec(sv, 0));
    }
    loop
        invariant
            i <= sv.len(),
            sv == patterns@,
            s@ == sv,
            s@.len() == s.len(),
            patterns_spec(sv, 0) == out@.map_values(|p: String| p@) + patterns_spec(sv, i as int),
        decreases sv.len() - i,
    {
        let ghost base = out@.map_values(|p: String| p@);
        let mut j: usize = i;
        while j < s.len() && s[j] != ','
            invariant
                i <= j <= s@.len(),
                forall|k: int| i <= k < j ==> #[trigger] s@[k] != ',',
            decreases s@.len() - j,
        {
            j = j + 1;
        }
        proof {
            lemma_first_at_is(s@, |c: char| c == ',', i as int, j as int);
        }
        let piece_raw = crate::text::copy_range(&s, i, j);
        let piece = trim_chars(&piece_raw);
        if piece.len() > 0 {
            out.push(string_from_chars(&piece));
            proof {
                assert(out@.map_values(|p: String| p@) =~= base.push(piece@));
                assert(base.push(piece@) =~= base + seq![piece@]);
            }
        }
        if j < s.len() {
            proof {
                if piece@.len() > 0 {
                    assert(base + (seq![piece@] + patterns_spec(sv, j + 1)) =~= (base + seq![piece@])
                        + patterns_spec(sv, j + 1));
                }
            }
            i = j + 1;
        } else {
            proof {
                if piece@.len() > 0 {
                    assert(seq![piece@] + Seq::<Seq<char>>::empty() =~= seq![piece@]);
                    assert(patterns_spec(sv, i as int) == seq![piece@]);
                } else {
                    assert(patterns_spec(sv, i as int) =~= Seq::<Seq<char>>::empty());
                }
                assert(base + patterns_spec(sv, i as int) =~= out@.map_values(|p: String| p@));
                assert(out@.map_values(|p: String| p@) =~= patterns_spec(sv, 0));
            }
            return out;
        }
    }
}


/// A TODO comment matches at `i` of a line: a comment marker, optional
/// spaces, and the word `todo` in any casing.
pub open spec fn todo_at(l: Seq<char>, i: int) -> bool {
    let a = first_at(l, |c: char| !is_space_char(c), i + 2);
    &&& 0 <= i
    &&& i + 1 < l.len()
    &&& l[i] == '/'
    &&& l[i + 1] == '/'
    &&& a + 4 <= l.len()
    &&& lower_char(l[a]) == 't'
    &&& lower_char(l[a + 1]) == 'o'
    &&& lower_char(l[a + 2]) == 'd'
    &&& lower_char(l[a + 3]) == 'o'
}

/// The text of a TODO matching at `i`: everything after the word and its
/// optional colon, trimmed.
pub open spec fn todo_text(l: Seq<char>, i: int) -> Seq<char> {
    let a = first_at(l, |c: char| !is_space_char(c), i + 2);
    let p = if a + 4 < l.len() && l[a + 4] == ':' {
        a + 5
    } else {
        a + 4
    };
    trim_seq(l.skip(p))
}

/// The leftmost TODO at or after `i`.
pub open spec fn first_todo_at(l: Seq<char>, i: int) -> Option<int>
    decreases l.len() - i when 0 <= i <= l.len()
{
    if i >= l.len() {
        None
    } else if todo_at(l, i) {
        Some(i)
    } else {
        first_todo_at(l, i + 1)
    }
}

proof fn lemma_first_todo_skip(l: Seq<char>, i: int, j: int)
    requires
        0 <= i <= j <= l.len(),
        forall|k: int| i <= k < j ==> !todo_at(l, k),
    ensures
        first_todo_at(l, i) == first_todo_at(l, j),
    decreases j - i,
{
    if i < j {
        lemma_first_todo_skip(l, i + 1, j);
    }
}

/// The TODO text a line carries, if any.
pub open spec fn todo_in_line_spec(l: Seq<char>) -> Option<Seq<char>> {
    match first_todo_at(l, 0) {
        Some(i) => Some(todo_text(l, i)),
        None => None,
    }
}

/// Reads the TODO of one source line, exactly `todo_in_line_spec`.
pub fn todo_in_line(line: &str) -> (r: Option<String>)
    ensures
        match r {
            Some(t) => todo_in_line_spec(line@) == Some(t@),
            None => todo_in_line_spec(line@) is None,
        },
{
    let l = chars_of(line);
    let mut i: usize = 0;
    while i < l.len()
        invariant
            i <= l@.len(),
            l@ == line@,
            l@.len() == l.len(),
            forall|k: int| 0 <= k < i ==> !todo_at(line@, k),
        decreases l@.len() - i,
    {
        if check_todo_at(&l, i) {
            proof {
                lemma_first_todo_skip(line@, 0, i as int);
            }
            let mut a: usize = i + 2;
            while a < l.len() && crate::text::check_space(l[a])
                invariant
                    i + 2 <= a <= l@.len(),
                    l@ == line@,
                    forall|k: int| i + 2 <= k < a ==> is_space_char(#[trigger] line@[k]),
                decreases l@.len() - a,
            {
                a = a + 1;
            }
            proof {
                lemma_first_at_is(line@, |c: char| !is_space_char(c), i + 2 as int, a as int);
            }
            let p: usize = if a + 4 < l.len() && l[a + 4] == ':' {
                a + 5
            } else {
                a + 4
            };
            let rest = crate::text::copy_range(&l, p, l.len());
            proof {
                assert(rest@ =~= line@.skip(p as int));
            }
            let t = trim_chars(&rest);
            return Some(string_from_chars(&t));
        }
        i = i + 1;
    }
    proof {
        lemma_first_todo_skip(line@, 0, line@.len() as int);
    }
    None
}

/// Tests one position for a TODO, executably.
fn check_todo_at(l: &Vec<char>, i: usize) -> (r: bool)
    requires
        i <= l@.len(),
    ensures
        r == todo_at(l@, i as int),
{
    let n: usize = l.len();
    if n - i < 2 || l[i] != '/' || l[i + 1] != '/' {
        return false;
    }
    let mut a: usize = i + 2;
    while a < n && crate::text::check_space(l[a])
        invariant
            n == l@.len(),
            i + 2 <= a <= l@.len(),
            forall|k: int| i + 2 <= k < a ==> is_space_char(#[trigger] l@[k]),
        decreases l@.len() - a,
    {
        a = a + 1;
    }
    proof {
        lemma_first_at_is(l@, |c: char| !is_space_char(c), i + 2 as int, a as int);
    }
    if n - a < 4 {
        return false;
    }
    crate::text::to_lower_char(l[a]) == 't' && crate::text::to_lower_char(l[a + 1]) == 'o'
        && crate::text::to_lower_char(l[a + 2]) == 'd' && crate::text::to_lower_char(l[a + 3])
        == 'o'
}

} // verus!
