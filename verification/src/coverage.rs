//! Coverage reports and the gap detector.
//!
//! A report is built once from a Cobertura-format XML document by
//! [`parse_cobertura`] and then only read. [`find_uncovered`] filters it
//! against a threshold: files at or above the threshold are passed over
//! whole, and within the remaining files every function below the threshold
//! yields one [`UncoveredItem`], in file order and then function order.

use vstd::prelude::*;

use crate::percent::{lemma_rate_micros_bounds, rate_micros, Percent, MICROS_PER_UNIT_RATE};
use crate::text::{
    all_digits, byte_offset_of, byte_offset_spec, chars_of, chars_eq, check_prefix, copy_range,
    dec_value, is_prefix, push_all, replace_chars, replace_seq, string_from_chars,
};
use crate::xml::{
    lemma_next_token_advances, next_token, scan_token, Attr, TokenModel, XmlToken,
};

verus! {

/// Per-function coverage: binarized to hit or not hit.
#[derive(Debug, Clone)]
pub struct FunctionCoverage {
    pub name: String,
    pub line: usize,
    pub coverage_percentage: Percent,
    pub is_covered: bool,
}

/// The mathematical shape of a function entry.
pub struct FunctionModel {
    pub name: Seq<char>,
    pub line: usize,
    pub pct: u64,
    pub covered: bool,
}

impl View for FunctionCoverage {
    type V = FunctionModel;

    open spec fn view(&self) -> FunctionModel {
        FunctionModel {
            name: self.name@,
            line: self.line,
            pct: self.coverage_percentage.micros,
            covered: self.is_covered,
        }
    }
}

/// Per-file coverage with its function entries.
#[derive(Debug, Clone)]
pub struct FileCoverage {
    pub path: String,
    pub coverage_percentage: Percent,
    pub lines_covered: usize,
    pub lines_total: usize,
    pub uncovered_lines: Vec<usize>,
    pub functions: Vec<FunctionCoverage>,
}

/// The mathematical shape of a file entry.
pub struct FileModel {
    pub path: Seq<char>,
    pub pct: u64,
    pub lines_covered: usize,
    pub lines_total: usize,
    pub uncovered_lines: Seq<usize>,
    pub functions: Seq<FunctionModel>,
}

impl View for FileCoverage {
    type V = FileModel;

    open spec fn view(&self) -> FileModel {
        FileModel {
            path: self.path@,
            pct: self.coverage_percentage.micros,
            lines_covered: self.lines_covered,
            lines_total: self.lines_total,
            uncovered_lines: self.uncovered_lines@,
            functions: self.functions@.map_values(|f: FunctionCoverage| f@),
        }
    }
}

/// A whole coverage report.
#[derive(Debug, Clone)]
pub struct CoverageData {
    pub overall_percentage: Percent,
    pub files: Vec<FileCoverage>,
}

/// The mathematical shape of a report.
pub struct CoverageModel {
    pub overall: u64,
    pub files: Seq<FileModel>,
}

impl View for CoverageData {
    type V = CoverageModel;

    open spec fn view(&self) -> CoverageModel {
        CoverageModel {
            overall: self.overall_percentage.micros,
            files: self.files@.map_values(|f: FileCoverage| f@),
        }
    }
}

/// What kind of function an uncovered entry names.
#[derive(Debug, Clone, Copy, PartialEq, Eq, Structural)]
pub enum UncoveredType {
    Function,
    PublicFunction,
    TestFunction,
}

/// One function below the threshold, with where it lives.
#[derive(Debug, Clone)]
pub struct UncoveredItem {
    pub file: String,
    pub function: String,
    pub line: usize,
    pub coverage_percentage: Percent,
    pub item_type: UncoveredType,
}

/// The mathematical shape of an uncovered entry.
pub struct ItemModel {
    pub file: Seq<char>,
    pub function: Seq<char>,
    pub line: usize,
    pub pct: u64,
    pub item_type: UncoveredType,
}

impl View for UncoveredItem {
    type V = ItemModel;

    open spec fn view(&self) -> ItemModel {
        ItemModel {
            file: self.file@,
            function: self.function@,
            line: self.line,
            pct: self.coverage_percentage.micros,
            item_type: self.item_type,
        }
    }
}

/// Classification by name prefix: `test_` marks a test function, `pub ` a
/// public function, anything else a plain function — in that order, and
/// independent of any threshold.
pub open spec fn classify_name(name: Seq<char>) -> UncoveredType {
    if is_prefix("test_"@, name) {
        UncoveredType::TestFunction
    } else if is_prefix("pub "@, name) {
        UncoveredType::PublicFunction
    } else {
        UncoveredType::Function
    }
}

/// The entry that one function of one file contributes.
pub open spec fn item_model_of(path: Seq<char>, f: FunctionModel) -> ItemModel {
    ItemModel {
        file: path,
        function: f.name,
        line: f.line,
        pct: f.pct,
        item_type: classify_name(f.name),
    }
}

/// The uncovered entries of one file's functions, in order.
pub open spec fn uncovered_in_file(path: Seq<char>, fns: Seq<FunctionModel>, t: u64) -> Seq<
    ItemModel,
>
    decreases fns.len(),
{
    if fns.len() == 0 {
        Seq::empty()
    } else if fns[0].pct < t {
        seq![item_model_of(path, fns[0])] + uncovered_in_file(path, fns.drop_first(), t)
    } else {
        uncovered_in_file(path, fns.drop_first(), t)
    }
}

/// The uncovered entries of a report: files at or above the threshold are
/// passed over whole; the rest contribute their functions below the
/// threshold, in file order then function order.
pub open spec fn uncovered_spec(files: Seq<FileModel>, t: u64) -> Seq<ItemModel>
    decreases files.len(),
{
    if files.len() == 0 {
        Seq::empty()
    } else {
        (if files[0].pct < t {
            uncovered_in_file(files[0].path, files[0].functions, t)
        } else {
            Seq::empty()
        }) + uncovered_spec(files.drop_first(), t)
    }
}

/// Classifies one function name, executably.
pub fn classify_function_name(name: &str) -> (r: UncoveredType)
    ensures
        r == classify_name(name@),
{
    let cs = chars_of(name);
    let test_prefix = chars_of("test_");
    if check_prefix(&cs, &test_prefix) {
        return UncoveredType::TestFunction;
    }
    let pub_prefix = chars_of("pub ");
    if check_prefix(&cs, &pub_prefix) {
        return UncoveredType::PublicFunction;
    }
    UncoveredType::Function
}

/// Every function below the threshold, in every file below the threshold,
/// in report order — exactly `uncovered_spec`.
pub fn find_uncovered(coverage: &CoverageData, threshold: Percent) -> (r: Vec<UncoveredItem>)
    ensures
        r@.map_values(|it: UncoveredItem| it@) == uncovered_spec(coverage@.files, threshold.micros),
{
    let ghost files = coverage@.files;
    let ghost t = threshold.micros;
    let mut out: Vec<UncoveredItem> = Vec::new();
    let mut i: usize = 0;
    proof {
        assert(files.skip(0) =~= files);
        assert(out@.map_values(|it: UncoveredItem| it@) + uncovered_spec(files, t) =~= uncovered_spec(
            files,
            t,
        ));
    }
    while i < coverage.files.len()
        invariant
            i <= coverage.files.len(),
            files == coverage@.files,
            t == threshold.micros,
            uncovered_spec(files, t) == out@.map_values(|it: UncoveredItem| it@) + uncovered_spec(
                files.skip(i as int),
                t,
            ),
        decreases coverage.files.len() - i,
    {
        let file = &coverage.files[i];
        proof {
            assert(files.skip(i as int)[0] == files[i as int]);
            assert(files.skip(i as int).drop_first() =~= files.skip(i + 1));
        }
        if file.coverage_percentage.below(&threshold) {
            let ghost base = out@.map_values(|it: UncoveredItem| it@);
            let ghost fns = files[i as int].functions;
            let mut j: usize = 0;
            proof {
                assert(base + (uncovered_in_file(files[i as int].path, fns, t) + uncovered_spec(
                    files.skip(i + 1),
                    t,
                )) =~= (base + uncovered_in_file(files[i as int].path, fns, t)) + uncovered_spec(
                    files.skip(i + 1),
                    t,
                ));
                assert(fns.skip(0) =~= fns);
            }
            while j < file.functions.len()
                invariant
                    j <= file.functions.len(),
                    files == coverage@.files,
                    t == threshold.micros,
                    i < files.len(),
                    file == coverage.files@[i as int],
                    fns == files[i as int].functions,
                    fns.len() == file.functions.len(),
                    out@.map_values(|it: UncoveredItem| it@) + uncovered_in_file(
                        files[i as int].path,
                        fns.skip(j as int),
                        t,
                    ) == base + uncovered_in_file(files[i as int].path, fns, t),
                decreases file.functions.len() - j,
            {
                let func = &file.functions[j];
                proof {
                    assert(fns[j as int] == file.functions@.map_values(
                        |f: FunctionCoverage| f@,
                    )[j as int]);
                    assert(fns.skip(j as int)[0] == fns[j as int]);
                    assert(fns.skip(j as int).drop_first() =~= fns.skip(j + 1));
                }
                if func.coverage_percentage.below(&threshold) {
                    let ghost mid = out@.map_values(|it: UncoveredItem| it@);
                    let item_type = classify_function_name(func.name.as_str());
                    let item = UncoveredItem {
                        file: file.path.clone(),
                        function: func.name.clone(),
                        line: func.line,
                        coverage_percentage: func.coverage_percentage,
                        item_type,
                    };
                    proof {
                        assert(item@ == item_model_of(files[i as int].path, fns[j as int]));
                    }
                    out.push(item);
                    proof {
                        assert(out@.map_values(|it: UncoveredItem| it@) =~= mid.push(item@));
                        assert(mid.push(item@) + uncovered_in_file(
                            files[i as int].path,
                            fns.skip(j + 1),
                            t,
                        ) =~= mid + (seq![item@] + uncovered_in_file(
                            files[i as int].path,
                            fns.skip(j + 1),
                            t,
                        )));
                    }
                }
                j = j + 1;
            }
            proof {
                assert(fns.skip(fns.len() as int) =~= Seq::<FunctionModel>::empty());
                assert(out@.map_values(|it: UncoveredItem| it@) + Seq::<ItemModel>::empty() =~= out@.map_values(
                    |it: UncoveredItem| it@,
                ));
            }
        }
        i = i + 1;
    }
    proof {
        assert(files.skip(files.len() as int) =~= Seq::<FileModel>::empty());
        assert(out@.map_values(|it: UncoveredItem| it@) + Seq::<ItemModel>::empty() =~= out@.map_values(
            |it: UncoveredItem| it@,
        ));
    }
    out
}

/// The scan state of the report builder: the report so far, the file and
/// method being accumulated, and the open tags.
pub struct WalkModel {
    pub overall: u64,
    pub files: Seq<FileModel>,
    pub current: Option<FileModel>,
    pub in_method: bool,
    pub m_name: Seq<char>,
    pub m_line: usize,
    pub m_hits: bool,
    pub stack: Seq<Seq<char>>,
}

/// The state before any input.
pub open spec fn init_walk() -> WalkModel {
    WalkModel {
        overall: 0,
        files: Seq::empty(),
        current: None,
        in_method: false,
        m_name: Seq::empty(),
        m_line: 0,
        m_hits: false,
        stack: Seq::empty(),
    }
}

/// A rate attribute value as a percentage in millionths.
pub open spec fn rate_of(v: Seq<char>) -> u64 {
    rate_micros(v) as u64
}

/// A line-number attribute value: its decimal value when it is all digits
/// and fits, zero otherwise.
pub open spec fn line_num_of(v: Seq<char>) -> usize {
    if v.len() > 0 && all_digits(v) && dec_value(v) <= usize::MAX {
        dec_value(v) as usize
    } else {
        0
    }
}

/// Method names arrive with angle brackets escaped and sometimes with a
/// closure marker; both are undone, in this order.
pub open spec fn sanitize_name_spec(s: Seq<char>) -> Seq<char> {
    replace_seq(replace_seq(replace_seq(s, "&lt;"@, "<"@), "&gt;"@, ">"@), "::{closure#0}"@, ""@)
}

/// One attribute's effect on the overall percentage: the last `line-rate`
/// wins.
pub open spec fn overall_step(cur: u64, a: (Seq<char>, Seq<char>)) -> u64 {
    if a.0 == "line-rate"@ {
        rate_of(a.1)
    } else {
        cur
    }
}

pub open spec fn overall_fold(cur: u64, attrs: Seq<(Seq<char>, Seq<char>)>) -> u64
    decreases attrs.len(),
{
    if attrs.len() == 0 {
        cur
    } else {
        overall_fold(overall_step(cur, attrs[0]), attrs.drop_first())
    }
}

/// One attribute's effect on a class tag's filename and rate.
pub open spec fn class_step(cur: (Seq<char>, u64), a: (Seq<char>, Seq<char>)) -> (Seq<char>, u64) {
    if a.0 == "filename"@ {
        (a.1, cur.1)
    } else if a.0 == "line-rate"@ {
        (cur.0, rate_of(a.1))
    } else {
        cur
    }
}

pub open spec fn class_fold(cur: (Seq<char>, u64), attrs: Seq<(Seq<char>, Seq<char>)>) -> (
    Seq<char>,
    u64,
)
    decreases attrs.len(),
{
    if attrs.len() == 0 {
        cur
    } else {
        class_fold(class_step(cur, attrs[0]), attrs.drop_first())
    }
}

/// One attribute's effect on a method tag's name and hit flag.
pub open spec fn method_step(cur: (Seq<char>, bool), a: (Seq<char>, Seq<char>)) -> (
    Seq<char>,
    bool,
) {
    if a.0 == "name"@ {
        (sanitize_name_spec(a.1), cur.1)
    } else if a.0 == "line-rate"@ {
        (cur.0, rate_micros(a.1) > 0)
    } else {
        cur
    }
}

pub open spec fn method_fold(cur: (Seq<char>, bool), attrs: Seq<(Seq<char>, Seq<char>)>) -> (
    Seq<char>,
    bool,
)
    decreases attrs.len(),
{
    if attrs.len() == 0 {
        cur
    } else {
        method_fold(method_step(cur, attrs[0]), attrs.drop_first())
    }
}

/// One attribute's effect on the method's line: the last `number` wins.
pub open spec fn line_step(cur: usize, a: (Seq<char>, Seq<char>)) -> usize {
    if a.0 == "number"@ {
        line_num_of(a.1)
    } else {
        cur
    }
}

pub open spec fn line_fold(cur: usize, attrs: Seq<(Seq<char>, Seq<char>)>) -> usize
    decreases attrs.len(),
{
    if attrs.len() == 0 {
        cur
    } else {
        line_fold(line_step(cur, attrs[0]), attrs.drop_first())
    }
}

/// What a start tag does to the state. A `coverage` tag sets the overall
/// percentage from its last `line-rate`; a `class` tag with a nonempty
/// `filename` opens a fresh file; a `method` tag marks a method open,
/// clears the hit flag, and reads its name and rate; a `line` tag inside a
/// method sets the method's line, the last one seen winning. The method
/// name and line carried in the state are deliberately not cleared by a
/// `method` start tag: they are cleared only when a named method is closed.
pub open spec fn open_effect(
    st: WalkModel,
    name: Seq<char>,
    attrs: Seq<(Seq<char>, Seq<char>)>,
) -> WalkModel {
    if name == "coverage"@ {
        WalkModel { overall: overall_fold(st.overall, attrs), ..st }
    } else if name == "class"@ {
        let fa = class_fold((Seq::empty(), 0u64), attrs);
        if fa.0.len() > 0 {
            WalkModel {
                current: Some(
                    FileModel {
                        path: fa.0,
                        pct: fa.1,
                        lines_covered: 0,
                        lines_total: 0,
                        uncovered_lines: Seq::empty(),
                        functions: Seq::empty(),
                    },
                ),
                ..st
            }
        } else {
            st
        }
    } else if name == "method"@ {
        let ma = method_fold((st.m_name, false), attrs);
        WalkModel { in_method: true, m_name: ma.0, m_hits: ma.1, ..st }
    } else if name == "line"@ {
        if st.in_method {
            WalkModel { m_line: line_fold(st.m_line, attrs), ..st }
        } else {
            st
        }
    } else {
        st
    }
}

/// What an end tag does to the state. Closing a named method while one is
/// open appends its function entry — hit methods at one hundred percent,
/// missed ones at zero — to the open file if there is one, and clears the
/// method state. Closing a class keeps the file only if it gathered at
/// least one function. Anything else has no effect.
pub open spec fn end_effect(st: WalkModel, name: Seq<char>) -> WalkModel {
    if name == "method"@ {
        if st.in_method && st.m_name.len() > 0 {
            let cur2 = match st.current {
                Some(f) => Some(
                    FileModel {
                        functions: f.functions.push(
                            FunctionModel {
                                name: st.m_name,
                                line: st.m_line,
                                pct: if st.m_hits {
                                    MICROS_PER_UNIT_RATE
                                } else {
                                    0
                                },
                                covered: st.m_hits,
                            },
                        ),
                        ..f
                    },
                ),
                None => None,
            };
            WalkModel { current: cur2, in_method: false, m_name: Seq::empty(), m_line: 0, ..st }
        } else {
            st
        }
    } else if name == "class"@ {
        match st.current {
            Some(f) => WalkModel {
                current: None,
                files: if f.functions.len() > 0 {
                    st.files.push(f)
                } else {
                    st.files
                },
                ..st
            },
            None => st,
        }
    } else {
        st
    }
}

/// One tag's effect: a start tag opens and is pushed on the tag stack, a
/// self-closing tag opens and closes at once, and an end tag must match the
/// innermost open tag — anything else is a malformation.
pub open spec fn wstep(st: WalkModel, t: TokenModel) -> Result<WalkModel, ()> {
    match t {
        TokenModel::Open { name, attrs, selfclose } => {
            let st1 = open_effect(st, name, attrs);
            if selfclose {
                Ok(end_effect(st1, name))
            } else {
                Ok(WalkModel { stack: st1.stack.push(name), ..st1 })
            }
        },
        TokenModel::Close { name } => {
            if st.stack.len() > 0 && st.stack.last() == name {
                Ok(end_effect(WalkModel { stack: st.stack.drop_last(), ..st }, name))
            } else {
                Err(())
            }
        },
    }
}

/// The whole scan from position `i`: tokens are folded through `wstep`;
/// a mismatched end tag fails at the position after its tag, and a document
/// that ends with tags still open fails at its end.
pub open spec fn run_walk(s: Seq<char>, i: int, st: WalkModel) -> Result<WalkModel, int>
    decreases s.len() - i when 0 <= i <= s.len() via run_walk_dec
{
    if i >= s.len() {
        if st.stack.len() == 0 {
            Ok(st)
        } else {
            Err(s.len() as int)
        }
    } else {
        match next_token(s, i) {
            Err(e) => Err(e),
            Ok(step) => match step.0 {
                None => run_walk(s, step.1, st),
                Some(t) => match wstep(st, t) {
                    Ok(st2) => run_walk(s, step.1, st2),
                    Err(_) => Err(step.1),
                },
            },
        }
    }
}

#[via_fn]
proof fn run_walk_dec(s: Seq<char>, i: int, st: WalkModel) {
    if 0 <= i < s.len() {
        lemma_next_token_advances(s, i);
    }
}

/// The report a document denotes, or the character position of its first
/// malformation.
pub open spec fn parse_spec(s: Seq<char>) -> Result<CoverageModel, int> {
    match run_walk(s, 0, init_walk()) {
        Ok(st) => Ok(CoverageModel { overall: st.overall, files: st.files }),
        Err(e) => Err(e),
    }
}

/// A coverage document that cannot be tokenized, with the byte offset at
/// which scanning stopped.
#[derive(Debug, Clone, Copy, PartialEq, Eq, Structural)]
pub struct MalformedInput {
    pub byte_offset: usize,
}

/// The executable scan state.
struct Walk {
    overall: u64,
    files: Vec<FileCoverage>,
    current: Option<FileCoverage>,
    in_method: bool,
    m_name: Vec<char>,
    m_line: usize,
    m_hits: bool,
    stack: Vec<Vec<char>>,
}

impl View for Walk {
    type V = WalkModel;

    closed spec fn view(&self) -> WalkModel {
        WalkModel {
            overall: self.overall,
            files: self.files@.map_values(|f: FileCoverage| f@),
            current: match self.current {
                Some(f) => Some(f@),
                None => None,
            },
            in_method: self.in_method,
            m_name: self.m_name@,
            m_line: self.m_line,
            m_hits: self.m_hits,
            stack: self.stack@.map_values(|v: Vec<char>| v@),
        }
    }
}

/// The attribute pairs of a start tag, as the specification sees them.
pub open spec fn attrs_view(attrs: Vec<Attr>) -> Seq<(Seq<char>, Seq<char>)> {
    attrs@.map_values(|a: Attr| a@)
}

/// Undoes the escaping of a raw method name, exactly `sanitize_name_spec`.
fn sanitize_method_name(s: &Vec<char>) -> (r: Vec<char>)
    ensures
        r@ == sanitize_name_spec(s@),
{
    let lt_from = chars_of("&lt;");
    let lt_to = chars_of("<");
    let gt_from = chars_of("&gt;");
    let gt_to = chars_of(">");
    let cl_from = chars_of("::{closure#0}");
    let cl_to = chars_of("");
    let a = replace_chars(s, &lt_from, &lt_to);
    let b = replace_chars(&a, &gt_from, &gt_to);
    replace_chars(&b, &cl_from, &cl_to)
}

impl Walk {
    fn init() -> (w: Walk)
        ensures
            w@ == init_walk(),
    {
        let w = Walk {
            overall: 0,
            files: Vec::new(),
            current: None,
            in_method: false,
            m_name: Vec::new(),
            m_line: 0,
            m_hits: false,
            stack: Vec::new(),
        };
        proof {
            assert(w@.files =~= init_walk().files);
            assert(w@.stack =~= init_walk().stack);
        }
        w
    }

    /// Applies a start tag's effect, exactly `open_effect`.
    fn open_tag(&mut self, name: &Vec<char>, attrs: &Vec<Attr>)
        ensures
            final(self)@ == open_effect(old(self)@, name@, attrs_view(*attrs)),
    {
        let ghost av = attrs_view(*attrs);
        let tag_coverage = chars_of("coverage");
        let tag_class = chars_of("class");
        let tag_method = chars_of("method");
        let tag_line = chars_of("line");
        let key_rate = chars_of("line-rate");
        if chars_eq(name, &tag_coverage) {
            let mut cur: u64 = self.overall;
            let mut k: usize = 0;
            proof {
                assert(av.skip(0) =~= av);
            }
            while k < attrs.len()
                invariant
                    k <= attrs.len(),
                    av == attrs_view(*attrs),
                    key_rate@ == "line-rate"@,
                    overall_fold(old(self)@.overall, av) == overall_fold(cur, av.skip(k as int)),
                decreases attrs.len() - k,
            {
                let a = &attrs[k];
                proof {
                    assert(av.skip(k as int)[0] == av[k as int]);
                    assert(av.skip(k as int).drop_first() =~= av.skip(k + 1));
                }
                if chars_eq(&a.name, &key_rate) {
                    cur = crate::percent::parse_rate_micros(&a.value);
                    proof {
                        lemma_rate_micros_bounds(a.value@);
                    }
                }
                k = k + 1;
            }
            proof {
                assert(av.skip(av.len() as int) =~= Seq::<(Seq<char>, Seq<char>)>::empty());
            }
            self.overall = cur;
        } else if chars_eq(name, &tag_class) {
            let key_fname = chars_of("filename");
            let mut fname: Vec<char> = Vec::new();
            let mut frate: u64 = 0;
            let mut k: usize = 0;
            proof {
                assert(av.skip(0) =~= av);
                assert(fname@ =~= Seq::<char>::empty());
            }
            while k < attrs.len()
                invariant
                    k <= attrs.len(),
                    av == attrs_view(*attrs),
                    key_rate@ == "line-rate"@,
                    key_fname@ == "filename"@,
                    class_fold((Seq::empty(), 0u64), av) == class_fold(
                        (fname@, frate),
                        av.skip(k as int),
                    ),
                decreases attrs.len() - k,
            {
                let a = &attrs[k];
                proof {
                    assert(av.skip(k as int)[0] == av[k as int]);
                    assert(av.skip(k as int).drop_first() =~= av.skip(k + 1));
                }
                if chars_eq(&a.name, &key_fname) {
                    fname = copy_range(&a.value, 0, a.value.len());
                    proof {
                        assert(fname@ =~= a.value@);
                    }
                } else if chars_eq(&a.name, &key_rate) {
                    frate = crate::percent::parse_rate_micros(&a.value);
                    proof {
                        lemma_rate_micros_bounds(a.value@);
                    }
                }
                k = k + 1;
            }
            proof {
                assert(av.skip(av.len() as int) =~= Seq::<(Seq<char>, Seq<char>)>::empty());
            }
            if fname.len() > 0 {
                let file = FileCoverage {
                    path: string_from_chars(&fname),
                    coverage_percentage: Percent::from_micros(frate),
                    lines_covered: 0,
                    lines_total: 0,
                    uncovered_lines: Vec::new(),
                    functions: Vec::new(),
                };
                proof {
                    assert(file@.uncovered_lines =~= Seq::<usize>::empty());
                    assert(file@.functions =~= Seq::<FunctionModel>::empty());
                }
                self.current = Some(file);
            }
        } else if chars_eq(name, &tag_method) {
            let key_name = chars_of("name");
            let mut mname: Vec<char> = copy_range(&self.m_name, 0, self.m_name.len());
            let mut mhits = false;
            let mut k: usize = 0;
            proof {
                assert(av.skip(0) =~= av);
                assert(mname@ =~= old(self)@.m_name);
            }
            while k < attrs.len()
                invariant
                    k <= attrs.len(),
                    av == attrs_view(*attrs),
                    key_rate@ == "line-rate"@,
                    key_name@ == "name"@,
                    method_fold((old(self)@.m_name, false), av) == method_fold(
                        (mname@, mhits),
                        av.skip(k as int),
                    ),
                decreases attrs.len() - k,
            {
                let a = &attrs[k];
                proof {
                    assert(av.skip(k as int)[0] == av[k as int]);
                    assert(av.skip(k as int).drop_first() =~= av.skip(k + 1));
                }
                if chars_eq(&a.name, &key_name) {
                    mname = sanitize_method_name(&a.value);
                } else if chars_eq(&a.name, &key_rate) {
                    let m = crate::percent::parse_rate_micros(&a.value);
                    mhits = m > 0;
                }
                k = k + 1;
            }
            proof {
                assert(av.skip(av.len() as int) =~= Seq::<(Seq<char>, Seq<char>)>::empty());
            }
            self.in_method = true;
            self.m_name = mname;
            self.m_hits = mhits;
        } else if chars_eq(name, &tag_line) {
            if self.in_method {
                let key_number = chars_of("number");
                let mut ml: usize = self.m_line;
                let mut k: usize = 0;
                proof {
                    assert(av.skip(0) =~= av);
                }
                while k < attrs.len()
                    invariant
                        k <= attrs.len(),
                        av == attrs_view(*attrs),
                        key_number@ == "number"@,
                        line_fold(old(self)@.m_line, av) == line_fold(ml, av.skip(k as int)),
                    decreases attrs.len() - k,
                {
                    let a = &attrs[k];
                    proof {
                        assert(av.skip(k as int)[0] == av[k as int]);
                        assert(av.skip(k as int).drop_first() =~= av.skip(k + 1));
                    }
                    if chars_eq(&a.name, &key_number) {
                        ml = crate::text::parse_usize_or_zero(&a.value);
                    }
                    k = k + 1;
                }
                proof {
                    assert(av.skip(av.len() as int) =~= Seq::<(Seq<char>, Seq<char>)>::empty());
                }
                self.m_line = ml;
            }
        }
    }

    /// Applies an end tag's effect, exactly `end_effect`.
    fn end_tag(&mut self, name: &Vec<char>)
        ensures
            final(self)@ == end_effect(old(self)@, name@),
    {
        let tag_method = chars_of("method");
        let tag_class = chars_of("class");
        if chars_eq(name, &tag_method) {
            if self.in_method && self.m_name.len() > 0 {
                match &mut self.current {
                    Some(file) => {
                        let ghost fns0 = file@.functions;
                        let func = FunctionCoverage {
                            name: string_from_chars(&self.m_name),
                            line: self.m_line,
                            coverage_percentage: if self.m_hits {
                                Percent::full()
                            } else {
                                Percent::zero()
                            },
                            is_covered: self.m_hits,
                        };
                        file.functions.push(func);
                        proof {
                            assert(file@.functions =~= fns0.push(
                                FunctionModel {
                                    name: old(self)@.m_name,
                                    line: old(self)@.m_line,
                                    pct: if old(self)@.m_hits {
                                        MICROS_PER_UNIT_RATE
                                    } else {
                                        0
                                    },
                                    covered: old(self)@.m_hits,
                                },
                            ));
                        }
                    },
                    None => {},
                }
                self.in_method = false;
                self.m_name = Vec::new();
                self.m_line = 0;
                proof {
                    assert(self@.m_name =~= Seq::<char>::empty());
                }
            }
        } else if chars_eq(name, &tag_class) {
            let taken = self.current.take();
            match taken {
                Some(file) => {
                    if file.functions.len() > 0 {
                        let ghost files0 = self@.files;
                        let ghost fm = file@;
                        self.files.push(file);
                        proof {
                            assert(self@.files =~= files0.push(fm));
                        }
                    }
                },
                None => {},
            }
        }
    }

    /// Applies one tag, exactly `wstep`; a mismatched end tag reports
    /// failure and leaves the state meaningless for the caller.
    fn step(&mut self, t: XmlToken) -> (ok: bool)
        ensures
            match wstep(old(self)@, t@) {
                Ok(m) => ok && final(self)@ == m,
                Err(_) => !ok,
            },
    {
        match t {
            XmlToken::Open { name, attrs, selfclose } => {
                self.open_tag(&name, &attrs);
                if selfclose {
                    self.end_tag(&name);
                } else {
                    self.stack.push(name);
                    proof {
                        assert(self@.stack =~= old(self)@.stack.push(
                            t@->Open_name,
                        )) by {
                            assert(self.stack@.map_values(|v: Vec<char>| v@) =~= self.stack@.drop_last().map_values(
                                |v: Vec<char>| v@,
                            ).push(self.stack@.last()@));
                        }
                    }
                }
                true
            },
            XmlToken::Close { name } => {
                if self.stack.len() == 0 {
                    return false;
                }
                let top_matches = chars_eq(&self.stack[self.stack.len() - 1], &name);
                if !top_matches {
                    proof {
                        assert(old(self)@.stack.last() == self.stack@[self.stack@.len() - 1]@);
                    }
                    return false;
                }
                proof {
                    assert(old(self)@.stack.last() == self.stack@[self.stack@.len() - 1]@);
                }
                let ghost stack0 = self@.stack;
                self.stack.pop();
                proof {
                    assert(self@.stack =~= stack0.drop_last());
                }
                self.end_tag(&name);
                true
            },
        }
    }
}

/// Parses a Cobertura-format coverage document, reconstructing the overall
/// percentage and the per-file function entries exactly as `parse_spec`
/// states, and failing on exactly the malformed documents, with the byte
/// offset at which scanning stopped.
pub fn parse_cobertura(xml: &str) -> (r: Result<CoverageData, MalformedInput>)
    ensures
        parse_spec(xml@) is Ok <==> r is Ok,
        r matches Ok(d) ==> d@ == parse_spec(xml@)->Ok_0,
        r matches Err(e) ==> e.byte_offset == byte_offset_spec(xml@, parse_spec(xml@)->Err_0),
{
    let cs = chars_of(xml);
    let mut w = Walk::init();
    let mut i: usize = 0;
    while i < cs.len()
        invariant
            i <= cs@.len(),
            cs@ == xml@,
            run_walk(xml@, 0, init_walk()) == run_walk(xml@, i as int, w@),
        decreases cs@.len() - i,
    {
        proof {
            lemma_next_token_advances(cs@, i as int);
        }
        match scan_token(&cs, i) {
            Err(e) => {
                let off = byte_offset_of(&cs, e);
                return Err(MalformedInput { byte_offset: off });
            },
            Ok((tok, p)) => {
                match tok {
                    None => {
                        i = p;
                    },
                    Some(t) => {
                        let ghost tm = t@;
                        let ok = w.step(t);
                        if !ok {
                            let off = byte_offset_of(&cs, p);
                            return Err(MalformedInput { byte_offset: off });
                        }
                        i = p;
                    },
                }
            },
        }
    }
    if w.stack.len() == 0 {
        proof {
            assert(w@.stack.len() == 0);
        }
        let data = CoverageData {
            overall_percentage: Percent::from_micros(w.overall),
            files: w.files,
        };
        Ok(data)
    } else {
        proof {
            assert(w@.stack.len() > 0);
        }
        let off = byte_offset_of(&cs, cs.len());
        Err(MalformedInput { byte_offset: off })
    }
}

/// `a` appears within `b` in order, possibly with gaps.
pub open spec fn subseq_of<T>(a: Seq<T>, b: Seq<T>) -> bool
    decreases a.len() + b.len(),
{
    if a.len() == 0 {
        true
    } else if b.len() == 0 {
        false
    } else if a[0] == b[0] {
        subseq_of(a.drop_first(), b.drop_first())
    } else {
        subseq_of(a, b.drop_first())
    }
}

proof fn lemma_subseq_tail<T>(a: Seq<T>, b: Seq<T>)
    requires
        subseq_of(a, b),
        a.len() > 0,
    ensures
        subseq_of(a.drop_first(), b),
    decreases a.len() + b.len(),
{
    if b.len() > 0 {
        if a[0] == b[0] {
            if a.len() > 1 {
                lemma_subseq_tail(a.drop_first(), b.drop_first());
                lemma_subseq_cons(a.drop_first().drop_first(), b.drop_first(), b[0]);
                assert(seq![b[0]] + b.drop_first() =~= b);
            }
        } else {
            lemma_subseq_tail(a, b.drop_first());
            lemma_subseq_cons(a.drop_first(), b.drop_first(), b[0]);
            assert(seq![b[0]] + b.drop_first() =~= b);
        }
    }
}

proof fn lemma_subseq_cons<T>(a: Seq<T>, b: Seq<T>, x: T)
    requires
        subseq_of(a, b),
    ensures
        subseq_of(a, seq![x] + b),
    decreases a.len() + b.len() + 1,
{
    let bb = seq![x] + b;
    if a.len() > 0 {
        assert(bb[0] == x);
        assert(bb.drop_first() =~= b);
        if a[0] == x {
            lemma_subseq_tail(a, b);
        }
    }
}

proof fn lemma_subseq_prepend<T>(a: Seq<T>, b: Seq<T>, c: Seq<T>)
    requires
        subseq_of(a, b),
    ensures
        subseq_of(a, c + b),
    decreases c.len(),
{
    if c.len() == 0 {
        assert(c + b =~= b);
    } else {
        lemma_subseq_prepend(a, b, c.drop_first());
        lemma_subseq_cons(a, c.drop_first() + b, c[0]);
        assert(seq![c[0]] + (c.drop_first() + b) =~= c + b);
    }
}

proof fn lemma_subseq_concat<T>(a1: Seq<T>, a2: Seq<T>, b1: Seq<T>, b2: Seq<T>)
    requires
        subseq_of(a1, b1),
        subseq_of(a2, b2),
    ensures
        subseq_of(a1 + a2, b1 + b2),
    decreases a1.len() + b1.len(),
{
    if a1.len() == 0 {
        assert(a1 + a2 =~= a2);
        lemma_subseq_prepend(a2, b2, b1);
    } else {
        let aa = a1 + a2;
        let bb = b1 + b2;
        assert(aa[0] == a1[0]);
        assert(bb[0] == b1[0]);
        if a1[0] == b1[0] {
            lemma_subseq_concat(a1.drop_first(), a2, b1.drop_first(), b2);
            assert(aa.drop_first() =~= a1.drop_first() + a2);
            assert(bb.drop_first() =~= b1.drop_first() + b2);
        } else {
            lemma_subseq_concat(a1, a2, b1.drop_first(), b2);
            assert(bb.drop_first() =~= b1.drop_first() + b2);
        }
    }
}

proof fn lemma_uncovered_in_file_mono(path: Seq<char>, fns: Seq<FunctionModel>, t1: u64, t2: u64)
    requires
        t1 <= t2,
    ensures
        subseq_of(uncovered_in_file(path, fns, t1), uncovered_in_file(path, fns, t2)),
    decreases fns.len(),
{
    if fns.len() > 0 {
        lemma_uncovered_in_file_mono(path, fns.drop_first(), t1, t2);
        let r1 = uncovered_in_file(path, fns.drop_first(), t1);
        let r2 = uncovered_in_file(path, fns.drop_first(), t2);
        let it = item_model_of(path, fns[0]);
        if fns[0].pct < t1 {
            assert((seq![it] + r1)[0] == (seq![it] + r2)[0]);
            assert((seq![it] + r1).drop_first() =~= r1);
            assert((seq![it] + r2).drop_first() =~= r2);
        } else if fns[0].pct < t2 {
            lemma_subseq_cons(r1, r2, it);
        }
    }
}

/// Threshold monotonicity: against a fixed report, everything uncovered at
/// a lower threshold is still reported, in the same order, at any higher
/// threshold — the lower threshold's entries form a subsequence of the
/// higher threshold's.
pub proof fn lemma_threshold_monotonic(files: Seq<FileModel>, t1: u64, t2: u64)
    requires
        t1 <= t2,
    ensures
        subseq_of(uncovered_spec(files, t1), uncovered_spec(files, t2)),
    decreases files.len(),
{
    if files.len() > 0 {
        lemma_threshold_monotonic(files.drop_first(), t1, t2);
        let rest1 = uncovered_spec(files.drop_first(), t1);
        let rest2 = uncovered_spec(files.drop_first(), t2);
        let f = files[0];
        if f.pct < t1 {
            lemma_uncovered_in_file_mono(f.path, f.functions, t1, t2);
            lemma_subseq_concat(
                uncovered_in_file(f.path, f.functions, t1),
                rest1,
                uncovered_in_file(f.path, f.functions, t2),
                rest2,
            );
        } else if f.pct < t2 {
            assert(Seq::<ItemModel>::empty() + rest1 =~= rest1);
            lemma_subseq_prepend(rest1, rest2, uncovered_in_file(f.path, f.functions, t2));
        } else {
            assert(Seq::<ItemModel>::empty() + rest1 =~= rest1);
            assert(Seq::<ItemModel>::empty() + rest2 =~= rest2);
        }
    }
}

/// Classification by name prefix alone: a `test_` prefix marks a test
/// function; otherwise a `pub ` prefix marks a public function; otherwise
/// the entry is a plain function. No threshold enters into it.
pub proof fn lemma_classification(name: Seq<char>)
    ensures
        is_prefix("test_"@, name) ==> classify_name(name) == UncoveredType::TestFunction,
        !is_prefix("test_"@, name) && is_prefix("pub "@, name) ==> classify_name(name)
            == UncoveredType::PublicFunction,
        !is_prefix("test_"@, name) && !is_prefix("pub "@, name) ==> classify_name(name)
            == UncoveredType::Function,
{
}

/// Function entries are binary and files keep at least one entry.
pub open spec fn funcs_wf(fns: Seq<FunctionModel>) -> bool {
    forall|k: int|
        0 <= k < fns.len() ==> ((#[trigger] fns[k].pct == 0 || fns[k].pct == MICROS_PER_UNIT_RATE)
            && (fns[k].covered <==> fns[k].pct == MICROS_PER_UNIT_RATE))
}

pub open spec fn files_wf(files: Seq<FileModel>) -> bool {
    forall|k: int|
        0 <= k < files.len() ==> (#[trigger] files[k].functions.len() >= 1 && funcs_wf(
            files[k].functions,
        ))
}

pub open spec fn walk_wf(st: WalkModel) -> bool {
    &&& files_wf(st.files)
    &&& match st.current {
        Some(f) => funcs_wf(f.functions),
        None => true,
    }
}

proof fn lemma_open_effect_wf(st: WalkModel, name: Seq<char>, attrs: Seq<(Seq<char>, Seq<char>)>)
    requires
        walk_wf(st),
    ensures
        walk_wf(open_effect(st, name, attrs)),
{
}

proof fn lemma_end_effect_wf(st: WalkModel, name: Seq<char>)
    requires
        walk_wf(st),
    ensures
        walk_wf(end_effect(st, name)),
{
    let st2 = end_effect(st, name);
    if name == "method"@ && st.in_method && st.m_name.len() > 0 {
        match st.current {
            Some(f) => {
                let fns2 = (st2.current)->Some_0.functions;
                assert forall|k: int| 0 <= k < fns2.len() implies ((#[trigger] fns2[k].pct == 0
                    || fns2[k].pct == MICROS_PER_UNIT_RATE) && (fns2[k].covered <==> fns2[k].pct
                    == MICROS_PER_UNIT_RATE)) by {
                    if k < f.functions.len() {
                        assert(fns2[k] == f.functions[k]);
                    }
                }
            },
            None => {},
        }
    } else if name == "class"@ {
        match st.current {
            Some(f) => {
                if f.functions.len() > 0 {
                    let fl2 = st2.files;
                    assert forall|k: int| 0 <= k < fl2.len() implies (#[trigger] fl2[k].functions.len()
                        >= 1 && funcs_wf(fl2[k].functions)) by {
                        if k < st.files.len() {
                            assert(fl2[k] == st.files[k]);
                        } else {
                            assert(fl2[k] == f);
                        }
                    }
                }
            },
            None => {},
        }
    }
}

proof fn lemma_wstep_wf(st: WalkModel, t: TokenModel)
    requires
        walk_wf(st),
    ensures
        wstep(st, t) matches Ok(st2) ==> walk_wf(st2),
{
    match t {
        TokenModel::Open { name, attrs, selfclose } => {
            lemma_open_effect_wf(st, name, attrs);
            if selfclose {
                lemma_end_effect_wf(open_effect(st, name, attrs), name);
            }
        },
        TokenModel::Close { name } => {
            if st.stack.len() > 0 && st.stack.last() == name {
                lemma_end_effect_wf(WalkModel { stack: st.stack.drop_last(), ..st }, name);
            }
        },
    }
}

proof fn lemma_run_walk_wf(s: Seq<char>, i: int, st: WalkModel)
    requires
        0 <= i <= s.len(),
        walk_wf(st),
    ensures
        run_walk(s, i, st) matches Ok(m) ==> walk_wf(m),
    decreases s.len() - i,
{
    if i < s.len() {
        lemma_next_token_advances(s, i);
        match next_token(s, i) {
            Err(_) => {},
            Ok(step) => match step.0 {
                None => {
                    lemma_run_walk_wf(s, step.1, st);
                },
                Some(t) => {
                    lemma_wstep_wf(st, t);
                    match wstep(st, t) {
                        Ok(st2) => {
                            lemma_run_walk_wf(s, step.1, st2);
                        },
                        Err(_) => {},
                    }
                },
            },
        }
    }
}

/// Every file a parse retains has at least one function entry: class
/// elements that gathered no measured methods are dropped from the report.
pub proof fn lemma_report_files_have_functions(s: Seq<char>)
    ensures
        parse_spec(s) matches Ok(m) ==> forall|k: int|
            0 <= k < m.files.len() ==> #[trigger] m.files[k].functions.len() >= 1,
{
    lemma_run_walk_wf(s, 0, init_walk());
}

/// Function coverage is binarized: every function entry a parse produces is
/// at exactly zero or exactly one hundred percent, and its hit flag agrees
/// with which of the two it is.
pub proof fn lemma_report_coverage_binary(s: Seq<char>)
    ensures
        parse_spec(s) matches Ok(m) ==> forall|k: int|
            0 <= k < m.files.len() ==> funcs_wf(#[trigger] m.files[k].functions),
{
    lemma_run_walk_wf(s, 0, init_walk());
}

/// Overall-rate extraction: a `coverage` start tag whose attributes carry
/// one `line-rate` numeral sets the overall percentage to exactly that
/// numeral scaled to millionths of a percent — `rate_micros` states the
/// scaling, and `lemma_rate_micros_exact` states that it is exact.
pub proof fn lemma_overall_from_rate(
    st: WalkModel,
    v: Seq<char>,
    attrs: Seq<(Seq<char>, Seq<char>)>,
)
    requires
        attrs == seq![("line-rate"@, v)],
    ensures
        open_effect(st, "coverage"@, attrs).overall == rate_micros(v),
{
    crate::percent::lemma_rate_micros_bounds(v);
    assert(attrs.drop_first() =~= Seq::<(Seq<char>, Seq<char>)>::empty());
    assert(overall_fold(st.overall, attrs) == overall_fold(rate_of(v), attrs.drop_first()));
}

/// The words naming an uncovered entry's kind in its issue title.
pub open spec fn kind_words(t: UncoveredType) -> Seq<char> {
    match t {
        UncoveredType::PublicFunction => "public function"@,
        UncoveredType::Function => "function"@,
        UncoveredType::TestFunction => "test function"@,
    }
}

/// The issue title an uncovered entry is reported under.
pub open spec fn title_of(it: ItemModel) -> Seq<char> {
    "test: Add tests for "@ + kind_words(it.item_type) + " `"@ + it.function + "`"@
}

/// The severity word of an uncovered entry's kind: public functions are
/// errors, plain functions warnings, test functions informational.
pub open spec fn severity_of(t: UncoveredType) -> Seq<char> {
    match t {
        UncoveredType::PublicFunction => "error"@,
        UncoveredType::Function => "warning"@,
        UncoveredType::TestFunction => "info"@,
    }
}

impl UncoveredItem {
    /// The issue title for this entry, exactly `title_of`.
    pub fn title(&self) -> (r: String)
        ensures
            r@ == title_of(self@),
    {
        let mut v = chars_of("test: Add tests for ");
        let kind = match self.item_type {
            UncoveredType::PublicFunction => chars_of("public function"),
            UncoveredType::Function => chars_of("function"),
            UncoveredType::TestFunction => chars_of("test function"),
        };
        push_all(&mut v, &kind);
        let tick = chars_of(" `");
        push_all(&mut v, &tick);
        let fname = chars_of(self.function.as_str());
        push_all(&mut v, &fname);
        let close_tick = chars_of("`");
        push_all(&mut v, &close_tick);
        proof {
            assert(v@ =~= title_of(self@));
        }
        string_from_chars(&v)
    }

    /// The severity word for this entry, exactly `severity_of`.
    pub fn severity(&self) -> (r: &str)
        ensures
            r@ == severity_of(self@.item_type),
    {
        match self.item_type {
            UncoveredType::PublicFunction => "error",
            UncoveredType::Function => "warning",
            UncoveredType::TestFunction => "info",
        }
    }
}

} // verus!
