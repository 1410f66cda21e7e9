//! Notes left in source comments and their severity.
//!
//! A note is an annotated comment (`NOTE`, `WARNING`, `PERF`, …) found in a
//! code file. Its severity follows first from alarm words in its text, then
//! from the kind of annotation; reports can be narrowed to a minimum
//! severity.

use vstd::prelude::*;

use crate::text::{
    chars_of, chars_eq, contains_sub, has_sub, is_space_char, lower_seq, path_has_component,
    check_path_component, string_from_chars, to_lower_chars,
};

verus! {

/// How urgent a note is.
#[derive(Debug, Clone, Copy, PartialEq, Eq, Structural)]
pub enum Severity {
    Low,
    Medium,
    High,
}

/// The rank a severity sorts by.
pub open spec fn severity_rank(s: Severity) -> int {
    match s {
        Severity::Low => 0,
        Severity::Medium => 1,
        Severity::High => 2,
    }
}

/// Executable severity rank.
pub fn rank_of(s: Severity) -> (r: u8)
    ensures
        r == severity_rank(s),
{
    match s {
        Severity::Low => 0,
        Severity::Medium => 1,
        Severity::High => 2,
    }
}

/// A severity word that names no severity.
#[derive(Debug, Clone, Copy, PartialEq, Eq, Structural)]
pub struct InvalidSeverity;

/// The severity a word names, case-insensitively: `low`, `medium` or
/// `high`; anything else names none.
pub open spec fn severity_of_word(s: Seq<char>) -> Result<Severity, InvalidSeverity> {
    let l = lower_seq(s);
    if l == "low"@ {
        Ok(Severity::Low)
    } else if l == "medium"@ {
        Ok(Severity::Medium)
    } else if l == "high"@ {
        Ok(Severity::High)
    } else {
        Err(InvalidSeverity)
    }
}

/// Parses a severity word, exactly `severity_of_word`.
pub fn parse_severity(s: &str) -> (r: Result<Severity, InvalidSeverity>)
    ensures
        r == severity_of_word(s@),
{
    let cs = chars_of(s);
    let l = to_lower_chars(&cs);
    let w_low = chars_of("low");
    let w_medium = chars_of("medium");
    let w_high = chars_of("high");
    if chars_eq(&l, &w_low) {
        Ok(Severity::Low)
    } else if chars_eq(&l, &w_medium) {
        Ok(Severity::Medium)
    } else if chars_eq(&l, &w_high) {
        Ok(Severity::High)
    } else {
        Err(InvalidSeverity)
    }
}

/// One note found in a code file.
#[derive(Debug, Clone)]
pub struct Note {
    pub file: String,
    pub line: usize,
    pub note_type: String,
    pub content: String,
    pub severity: Severity,
    pub category: String,
}

/// The mathematical shape of a note.
pub struct NoteModel {
    pub file: Seq<char>,
    pub line: usize,
    pub note_type: Seq<char>,
    pub content: Seq<char>,
    pub severity: Severity,
    pub category: Seq<char>,
}

impl View for Note {
    type V = NoteModel;

    open spec fn view(&self) -> NoteModel {
        NoteModel {
            file: self.file@,
            line: self.line,
            note_type: self.note_type@,
            content: self.content@,
            severity: self.severity,
            category: self.category@,
        }
    }
}

/// The severity of a note: high when its text holds an alarm word
/// (`critical`, `security`, `unsafe`, `panic`, `crash`, case-insensitively);
/// else high for warning-like annotations, medium for ones that call for
/// action, and low for the rest.
pub open spec fn note_severity_spec(note_type: Seq<char>, content: Seq<char>) -> Severity {
    let l = lower_seq(content);
    if has_sub(l, "critical"@) || has_sub(l, "security"@) || has_sub(l, "unsafe"@) || has_sub(
        l,
        "panic"@,
    ) || has_sub(l, "crash"@) {
        Severity::High
    } else if note_type == "WARNING"@ || note_type == "CAUTION"@ || note_type == "DEPRECATED"@ {
        Severity::High
    } else if note_type == "IMPORTANT"@ || note_type == "REVIEW"@ || note_type == "REFACTOR"@ {
        Severity::Medium
    } else {
        Severity::Low
    }
}

/// The severity of a note, exactly `note_severity_spec`.
pub fn determine_severity(note_type: &str, content: &str) -> (r: Severity)
    ensures
        r == note_severity_spec(note_type@, content@),
{
    let cv = chars_of(content);
    let l = to_lower_chars(&cv);
    let w_critical = chars_of("critical");
    let w_security = chars_of("security");
    let w_unsafe = chars_of("unsafe");
    let w_panic = chars_of("panic");
    let w_crash = chars_of("crash");
    if contains_sub(&l, &w_critical) || contains_sub(&l, &w_security) || contains_sub(
        &l,
        &w_unsafe,
    ) || contains_sub(&l, &w_panic) || contains_sub(&l, &w_crash) {
        return Severity::High;
    }
    let tv = chars_of(note_type);
    let t_warning = chars_of("WARNING");
    let t_caution = chars_of("CAUTION");
    let t_deprecated = chars_of("DEPRECATED");
    if chars_eq(&tv, &t_warning) || chars_eq(&tv, &t_caution) || chars_eq(&tv, &t_deprecated) {
        return Severity::High;
    }
    let t_important = chars_of("IMPORTANT");
    let t_review = chars_of("REVIEW");
    let t_refactor = chars_of("REFACTOR");
    if chars_eq(&tv, &t_important) || chars_eq(&tv, &t_review) || chars_eq(&tv, &t_refactor) {
        return Severity::Medium;
    }
    Severity::Low
}

/// The notes at or above a minimum severity, in order.
pub open spec fn filtered_notes(ns: Seq<Note>, min: Severity) -> Seq<Note>
    decreases ns.len(),
{
    if ns.len() == 0 {
        Seq::empty()
    } else if severity_rank(ns[0].severity) >= severity_rank(min) {
        seq![ns[0]] + filtered_notes(ns.drop_first(), min)
    } else {
        filtered_notes(ns.drop_first(), min)
    }
}

/// Keeps the notes at or above the minimum severity, in their order —
/// exactly `filtered_notes`.
pub fn filter_by_severity(notes: &Vec<Note>, min_severity: Severity) -> (r: Vec<Note>)
    ensures
        r@ == filtered_notes(notes@, min_severity),
{
    let mut out: Vec<Note> = Vec::new();
    let mut i: usize = 0;
    proof {
        assert(notes@.skip(0) =~= notes@);
        assert(out@ + filtered_notes(notes@, min_severity) =~= filtered_notes(
            notes@,
            min_severity,
        ));
    }
    while i < notes.len()
        invariant
            i <= notes@.len(),
            filtered_notes(notes@, min_severity) == out@ + filtered_notes(
                notes@.skip(i as int),
                min_severity,
            ),
        decreases notes@.len() - i,
    {
        let ghost base = out@;
        proof {
            assert(notes@.skip(i as int)[0] == notes@[i as int]);
            assert(notes@.skip(i as int).drop_first() =~= notes@.skip(i + 1));
        }
        let n = &notes[i];
        if rank_of(n.severity) >= rank_of(min_severity) {
            let kept = Note {
                file: n.file.clone(),
                line: n.line,
                note_type: n.note_type.clone(),
                content: n.content.clone(),
                severity: n.severity,
                category: n.category.clone(),
            };
            proof {
                assert(kept == notes@[i as int]);
            }
            out.push(kept);
            proof {
                assert(out@ =~= base.push(notes@[i as int]));
                assert(base.push(notes@[i as int]) + filtered_notes(
                    notes@.skip(i + 1),
                    min_severity,
                ) =~= base + (seq![notes@[i as int]] + filtered_notes(
                    notes@.skip(i + 1),
                    min_severity,
                )));
            }
        }
        i = i + 1;
    }
    proof {
        assert(notes@.skip(notes@.len() as int) =~= Seq::<Note>::empty());
        assert(out@ + Seq::<Note>::empty() =~= out@);
    }
    out
}

/// The file extensions scanned for notes.
pub open spec fn is_code_ext(ext: Seq<char>) -> bool {
    ||| ext == "rs"@
    ||| ext == "py"@
    ||| ext == "js"@
    ||| ext == "ts"@
    ||| ext == "go"@
    ||| ext == "java"@
    ||| ext == "cpp"@
    ||| ext == "c"@
    ||| ext == "h"@
    ||| ext == "hpp"@
    ||| ext == "rb"@
    ||| ext == "php"@
}

/// Whether an extension belongs to a code file, exactly `is_code_ext`.
pub fn is_code_file(ext: &str) -> (r: bool)
    ensures
        r == is_code_ext(ext@),
{
    let e = chars_of(ext);
    let exts = code_exts();
    let mut m: usize = 0;
    while m < exts.len()
        invariant
            m <= exts@.len(),
            exts.deep_view() =~= code_ext_names(),
            e@ == ext@,
            forall|b: int| 0 <= b < m ==> e@ != code_ext_names()[b],
        decreases exts@.len() - m,
    {
        if chars_eq(&e, &exts[m]) {
            proof {
                assert(exts.deep_view()[m as int] == exts@[m as int]@);
                assert(ext@ == code_ext_names()[m as int]);
                lemma_code_ext_names_index();
            }
            return true;
        }
        proof {
            assert(exts.deep_view()[m as int] == exts@[m as int]@);
        }
        m = m + 1;
    }
    proof {
        lemma_code_ext_names_index();
        assert(ext@ != code_ext_names()[0]);
        assert(ext@ != code_ext_names()[1]);
        assert(ext@ != code_ext_names()[2]);
        assert(ext@ != code_ext_names()[3]);
        assert(ext@ != code_ext_names()[4]);
        assert(ext@ != code_ext_names()[5]);
        assert(ext@ != code_ext_names()[6]);
        assert(ext@ != code_ext_names()[7]);
        assert(ext@ != code_ext_names()[8]);
        assert(ext@ != code_ext_names()[9]);
        assert(ext@ != code_ext_names()[10]);
        assert(ext@ != code_ext_names()[11]);
    }
    false
}

proof fn lemma_code_ext_names_index()
    ensures
        code_ext_names().len() == 12,
        code_ext_names()[0] == "rs"@,
        code_ext_names()[1] == "py"@,
        code_ext_names()[2] == "js"@,
        code_ext_names()[3] == "ts"@,
        code_ext_names()[4] == "go"@,
        code_ext_names()[5] == "java"@,
        code_ext_names()[6] == "cpp"@,
        code_ext_names()[7] == "c"@,
        code_ext_names()[8] == "h"@,
        code_ext_names()[9] == "hpp"@,
        code_ext_names()[10] == "rb"@,
        code_ext_names()[11] == "php"@,
{
}

/// The code extensions, as sequences.
pub open spec fn code_ext_names() -> Seq<Seq<char>> {
    seq![
        "rs"@,
        "py"@,
        "js"@,
        "ts"@,
        "go"@,
        "java"@,
        "cpp"@,
        "c"@,
        "h"@,
        "hpp"@,
        "rb"@,
        "php"@,
    ]
}

fn code_exts() -> (r: Vec<Vec<char>>)
    ensures
        r.deep_view() =~= code_ext_names(),
        r@.len() == code_ext_names().len(),
{
    let mut v: Vec<Vec<char>> = Vec::new();
    v.push(chars_of("rs"));
    v.push(chars_of("py"));
    v.push(chars_of("js"));
    v.push(chars_of("ts"));
    v.push(chars_of("go"));
    v.push(chars_of("java"));
    v.push(chars_of("cpp"));
    v.push(chars_of("c"));
    v.push(chars_of("h"));
    v.push(chars_of("hpp"));
    v.push(chars_of("rb"));
    v.push(chars_of("php"));
    proof {
        assert(v.deep_view() =~~= code_ext_names());
    }
    v
}

/// The directory names whose contents are never scanned.
pub open spec fn excluded_names() -> Seq<Seq<char>> {
    seq!["target"@, "node_modules"@, ".git"@, "dist"@, "build"@, "vendor"@]
}

/// A path is excluded when any of its `/`-separated components is one of
/// the excluded directory names.
pub open spec fn is_excluded_path(path: Seq<char>) -> bool {
    path_has_component(path, excluded_names())
}

/// Whether a path lies under an excluded directory, exactly
/// `is_excluded_path`.
pub fn is_excluded(path: &str) -> (r: bool)
    ensures
        r == is_excluded_path(path@),
{
    let p = chars_of(path);
    let mut names: Vec<Vec<char>> = Vec::new();
    names.push(chars_of("target"));
    names.push(chars_of("node_modules"));
    names.push(chars_of(".git"));
    names.push(chars_of("dist"));
    names.push(chars_of("build"));
    names.push(chars_of("vendor"));
    proof {
        assert(names.deep_view() =~~= excluded_names());
    }
    check_path_component(&p, &names)
}

/// A string cut to at most `max_len` characters: longer texts keep their
/// first `max_len - 3` characters and end in an ellipsis.
pub open spec fn truncated_spec(s: Seq<char>, max_len: int) -> Seq<char> {
    if s.len() <= max_len {
        s
    } else {
        s.take(max_len - 3) + "..."@
    }
}

/// Cuts a string for a headline, exactly `truncated_spec`. Texts within
/// the limit are returned whole, so the limit must leave room for the
/// ellipsis only when the text is longer.
pub fn truncate(s: &str, max_len: usize) -> (r: String)
    requires
        max_len >= 3,
    ensures
        r@ == truncated_spec(s@, max_len as int),
{
    let cs = chars_of(s);
    if cs.len() <= max_len {
        return string_from_chars(&cs);
    }
    let mut head = crate::text::copy_range(&cs, 0, max_len - 3);
    let dots = chars_of("...");
    crate::text::push_all(&mut head, &dots);
    proof {
        assert(head@ =~= truncated_spec(s@, max_len as int));
    }
    string_from_chars(&head)
}


/// A note annotation matches at position `i` of a line: a comment marker,
/// optional spaces, the annotation word, a colon, and at least one
/// character after the colon.
pub open spec fn note_at(line: Seq<char>, ty: Seq<char>, i: int) -> bool {
    let a = crate::text::first_at(line, |c: char| !is_space_char(c), i + 2);
    &&& 0 <= i
    &&& i + 2 <= line.len()
    &&& line[i] == '/'
    &&& line[i + 1] == '/'
    &&& crate::text::match_at(line, ty, a)
    &&& a + ty.len() < line.len()
    &&& line[a + ty.len()] == ':'
    &&& a + ty.len() + 1 < line.len()
}

/// The position after the colon of the leftmost note annotation at or
/// after `i`, if the line has one.
pub open spec fn first_note_at(line: Seq<char>, ty: Seq<char>, i: int) -> Option<int>
    decreases line.len() - i when 0 <= i <= line.len()
{
    if i >= line.len() {
        None
    } else if note_at(line, ty, i) {
        Some(
            crate::text::first_at(line, |c: char| !is_space_char(c), i + 2) + ty.len() + 1,
        )
    } else {
        first_note_at(line, ty, i + 1)
    }
}

/// The text of a line's note annotation, trimmed, if the line has one.
pub open spec fn note_content(line: Seq<char>, ty: Seq<char>) -> Option<Seq<char>> {
    match first_note_at(line, ty, 0) {
        Some(p) => Some(crate::text::trim_seq(line.skip(p))),
        None => None,
    }
}

/// The note annotations scanned for, with their categories, in scan order.
pub open spec fn note_patterns() -> Seq<(Seq<char>, Seq<char>)> {
    seq![
        ("NOTE"@, "documentation"@),
        ("IMPORTANT"@, "documentation"@),
        ("WARNING"@, "safety"@),
        ("CAUTION"@, "safety"@),
        ("PERF"@, "performance"@),
        ("PERFORMANCE"@, "performance"@),
        ("OPTIMIZE"@, "performance"@),
        ("REFACTOR"@, "technical-debt"@),
        ("DEPRECATED"@, "technical-debt"@),
        ("REVIEW"@, "code-quality"@),
        ("QUESTION"@, "clarification"@),
        ("CONSIDER"@, "enhancement"@),
    ]
}

/// The notes one annotation kind yields over the lines from `i` on; line
/// numbers count from one.
pub open spec fn notes_for(
    file: Seq<char>,
    lines: Seq<Seq<char>>,
    ty: Seq<char>,
    cat: Seq<char>,
    i: int,
) -> Seq<NoteModel>
    decreases lines.len() - i when 0 <= i <= lines.len()
{
    if i >= lines.len() {
        Seq::empty()
    } else {
        (match note_content(lines[i], ty) {
            Some(content) => seq![
                NoteModel {
                    file: file,
                    line: (i + 1) as usize,
                    note_type: ty,
                    content: content,
                    severity: note_severity_spec(ty, content),
                    category: cat,
                },
            ],
            None => Seq::empty(),
        }) + notes_for(file, lines, ty, cat, i + 1)
    }
}

/// All notes of a text: annotation kinds in scan order, and within each
/// kind the lines in order.
pub open spec fn scan_spec(file: Seq<char>, content: Seq<char>, k: int) -> Seq<NoteModel>
    decreases note_patterns().len() - k when 0 <= k <= note_patterns().len()
{
    if k >= note_patterns().len() {
        Seq::empty()
    } else {
        notes_for(
            file,
            crate::text::lines_of(content),
            note_patterns()[k].0,
            note_patterns()[k].1,
            0,
        ) + scan_spec(file, content, k + 1)
    }
}

/// Finds the leftmost note annotation of one kind in a line, executably.
fn scan_note(line: &Vec<char>, ty: &Vec<char>) -> (r: Option<usize>)
    ensures
        match r {
            Some(p) => first_note_at(line@, ty@, 0) == Some(p as int) && p <= line@.len(),
            None => first_note_at(line@, ty@, 0) is None,
        },
{
    let mut i: usize = 0;
    while i < line.len()
        invariant
            i <= line@.len(),
            forall|k: int| 0 <= k < i ==> !note_at(line@, ty@, k),
        decreases line@.len() - i,
    {
        if check_note_at(line, ty, i) {
            let mut a: usize = i + 2;
            while a < line.len() && crate::text::check_space(line[a])
                invariant
                    i + 2 <= a <= line@.len(),
                    forall|k: int| i + 2 <= k < a ==> is_space_char(#[trigger] line@[k]),
                decreases line@.len() - a,
            {
                a = a + 1;
            }
            proof {
                crate::text::lemma_first_at_is(
                    line@,
                    |c: char| !is_space_char(c),
                    i + 2 as int,
                    a as int,
                );
                lemma_first_note_skip(line@, ty@, 0, i as int);
            }
            return Some(a + ty.len() + 1);
        }
        i = i + 1;
    }
    proof {
        lemma_first_note_skip(line@, ty@, 0, line@.len() as int);
    }
    None
}

proof fn lemma_first_note_skip(line: Seq<char>, ty: Seq<char>, i: int, j: int)
    requires
        0 <= i <= j <= line.len(),
        forall|k: int| i <= k < j ==> !note_at(line, ty, k),
    ensures
        first_note_at(line, ty, i) == first_note_at(line, ty, j),
    decreases j - i,
{
    if i < j {
        lemma_first_note_skip(line, ty, i + 1, j);
    }
}

/// Tests one position for a note annotation, executably.
fn check_note_at(line: &Vec<char>, ty: &Vec<char>, i: usize) -> (r: bool)
    requires
        i <= line@.len(),
    ensures
        r == note_at(line@, ty@, i as int),
{
    if line.len() - i < 2 || line[i] != '/' || line[i + 1] != '/' {
        return false;
    }
    let mut a: usize = i + 2;
    while a < line.len() && crate::text::check_space(line[a])
        invariant
            i + 2 <= a <= line@.len(),
            forall|k: int| i + 2 <= k < a ==> is_space_char(#[trigger] line@[k]),
        decreases line@.len() - a,
    {
        a = a + 1;
    }
    proof {
        crate::text::lemma_first_at_is(line@, |c: char| !is_space_char(c), i + 2 as int, a as int);
    }
    if !crate::text::check_match_at(line, ty, a) {
        return false;
    }
    if line.len() - a <= ty.len() {
        return false;
    }
    if line[a + ty.len()] != ':' {
        return false;
    }
    line.len() - a > ty.len() + 1
}

/// Scans a text for annotated notes, exactly `scan_spec`: one pass per
/// annotation kind, in kind order then line order, each note carrying the
/// file name it was found in and its one-based line.
pub fn scan_text(file: &str, content: &str) -> (r: Vec<Note>)
    ensures
        r@.map_values(|n: Note| n@) == scan_spec(file@, content@, 0),
{
    let cv = chars_of(content);
    let ls = crate::text::split_lines(&cv);
    let ghost lines_g = crate::text::lines_of(content@);
    let mut pats: Vec<(Vec<char>, Vec<char>)> = Vec::new();
    pats.push((chars_of("NOTE"), chars_of("documentation")));
    pats.push((chars_of("IMPORTANT"), chars_of("documentation")));
    pats.push((chars_of("WARNING"), chars_of("safety")));
    pats.push((chars_of("CAUTION"), chars_of("safety")));
    pats.push((chars_of("PERF"), chars_of("performance")));
    pats.push((chars_of("PERFORMANCE"), chars_of("performance")));
    pats.push((chars_of("OPTIMIZE"), chars_of("performance")));
    pats.push((chars_of("REFACTOR"), chars_of("technical-debt")));
    pats.push((chars_of("DEPRECATED"), chars_of("technical-debt")));
    pats.push((chars_of("REVIEW"), chars_of("code-quality")));
    pats.push((chars_of("QUESTION"), chars_of("clarification")));
    pats.push((chars_of("CONSIDER"), chars_of("enhancement")));
    proof {
        assert(pats@.map_values(|p: (Vec<char>, Vec<char>)| (p.0@, p.1@)) =~~= note_patterns());
    }
    let mut out: Vec<Note> = Vec::new();
    let mut k: usize = 0;
    proof {
        assert(out@.map_values(|n: Note| n@) + scan_spec(file@, content@, 0) =~= scan_spec(
            file@,
            content@,
            0,
        ));
    }
    while k < pats.len()
        invariant
            k <= pats@.len(),
            pats@.map_values(|p: (Vec<char>, Vec<char>)| (p.0@, p.1@)) =~~= note_patterns(),
            pats@.len() == note_patterns().len(),
            cv@ == content@,
            ls.deep_view() == lines_g,
            lines_g == crate::text::lines_of(content@),
            scan_spec(file@, content@, 0) == out@.map_values(|n: Note| n@) + scan_spec(
                file@,
                content@,
                k as int,
            ),
        decreases pats@.len() - k,
    {
        let ghost base_k = out@.map_values(|n: Note| n@);
        let ghost ty_g = note_patterns()[k as int].0;
        let ghost cat_g = note_patterns()[k as int].1;
        proof {
            assert(pats@.map_values(|p: (Vec<char>, Vec<char>)| (p.0@, p.1@))[k as int] == (
            pats@[k as int].0@, pats@[k as int].1@));
        }
        let mut i: usize = 0;
        proof {
            assert(base_k + (notes_for(file@, lines_g, ty_g, cat_g, 0) + scan_spec(
                file@,
                content@,
                k + 1,
            )) =~= (base_k + notes_for(file@, lines_g, ty_g, cat_g, 0)) + scan_spec(
                file@,
                content@,
                k + 1,
            ));
        }
        while i < ls.len()
            invariant
                i <= ls@.len(),
                k < pats@.len(),
                ls.deep_view() == lines_g,
                ty_g == pats@[k as int].0@,
                cat_g == pats@[k as int].1@,
                cv@ == content@,
                lines_g == crate::text::lines_of(content@),
                lines_g.len() == ls@.len(),
                out@.map_values(|n: Note| n@) + notes_for(file@, lines_g, ty_g, cat_g, i as int)
                    == base_k + notes_for(file@, lines_g, ty_g, cat_g, 0),
            decreases ls@.len() - i,
        {
            let ghost before = out@.map_values(|n: Note| n@);
            proof {
                assert(ls.deep_view()[i as int] == ls@[i as int]@);
            }
            match scan_note(&ls[i], &pats[k].0) {
                Some(p) => {
                    let rest = crate::text::copy_range(&ls[i], p, ls[i].len());
                    let content_chars = crate::text::trim_chars(&rest);
                    proof {
                        assert(rest@ =~= lines_g[i as int].skip(p as int));
                        assert(note_content(lines_g[i as int], ty_g) == Some(content_chars@));
                    }
                    let content_str = string_from_chars(&content_chars);
                    let ty_str = string_from_chars(&pats[k].0);
                    let cat_str = string_from_chars(&pats[k].1);
                    let file_chars = chars_of(file);
                    let severity = determine_severity(ty_str.as_str(), content_str.as_str());
                    let note = Note {
                        file: string_from_chars(&file_chars),
                        line: i + 1,
                        note_type: ty_str,
                        content: content_str,
                        severity,
                        category: cat_str,
                    };
                    proof {
                        assert(note@ == NoteModel {
                            file: file@,
                            line: (i + 1) as usize,
                            note_type: ty_g,
                            content: content_chars@,
                            severity: note_severity_spec(ty_g, content_chars@),
                            category: cat_g,
                        });
                    }
                    out.push(note);
                    proof {
                        assert(notes_for(file@, lines_g, ty_g, cat_g, i as int) == seq![note@]
                            + notes_for(file@, lines_g, ty_g, cat_g, i + 1));
                        assert(out@.map_values(|n: Note| n@) =~= before.push(note@));
                        assert(before.push(note@) + notes_for(file@, lines_g, ty_g, cat_g, i + 1)
                            =~= before + (seq![note@] + notes_for(
                            file@,
                            lines_g,
                            ty_g,
                            cat_g,
                            i + 1,
                        )));
                    }
                },
                None => {
                    proof {
                        assert(notes_for(file@, lines_g, ty_g, cat_g, i as int) =~= notes_for(
                            file@,
                            lines_g,
                            ty_g,
                            cat_g,
                            i + 1,
                        ));
                    }
                },
            }
            i = i + 1;
        }
        proof {
            assert(notes_for(file@, lines_g, ty_g, cat_g, lines_g.len() as int) =~= Seq::<
                NoteModel,
            >::empty());
            assert(out@.map_values(|n: Note| n@) + Seq::<NoteModel>::empty() =~= out@.map_values(
                |n: Note| n@,
            ));
            assert(scan_spec(file@, content@, k as int) == notes_for(
                file@,
                lines_g,
                ty_g,
                cat_g,
                0,
            ) + scan_spec(file@, content@, k + 1));
        }
        k = k + 1;
    }
    proof {
        assert(scan_spec(file@, content@, note_patterns().len() as int) =~= Seq::<
            NoteModel,
        >::empty());
        assert(out@.map_values(|n: Note| n@) + Seq::<NoteModel>::empty() =~= out@.map_values(
            |n: Note| n@,
        ));
    }
    out
}

} // verus!
