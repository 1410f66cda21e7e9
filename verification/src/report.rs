//! Rendering of review results as JSON, Markdown or console text.
//!
//! The summary counts files, findings, passed checks, and failures by
//! severity word. The renderers lay the same data out three ways; the JSON
//! shape is the library's own, compact, with the usual escapes.

use vstd::prelude::*;

use crate::quality::{AnalysisResult, AnalysisResultModel, Finding, FindingModel};
use crate::text::{chars_of, chars_eq, dec_repr, push_all, string_from_chars, usize_to_chars};

verus! {

/// The counts of a review.
#[derive(Debug, Clone, Copy, PartialEq, Eq, Structural)]
pub struct Summary {
    pub total_files: usize,
    pub total_findings: usize,
    pub errors: usize,
    pub warnings: usize,
    pub info: usize,
    pub passed_checks: usize,
}

/// A whole report: the counts and the results they count.
#[derive(Debug, Clone)]
pub struct Report {
    pub summary: Summary,
    pub results: Vec<AnalysisResult>,
}

/// A failed finding's class, by its severity word.
pub open spec fn is_error(f: FindingModel) -> bool {
    !f.passed && f.severity == "error"@
}

pub open spec fn is_warning(f: FindingModel) -> bool {
    !f.passed && f.severity == "warning"@
}

pub open spec fn is_info(f: FindingModel) -> bool {
    !f.passed && f.severity != "error"@ && f.severity != "warning"@
}

/// How many findings of one result satisfy each class.
pub open spec fn count_passed(fs: Seq<FindingModel>) -> int
    decreases fs.len(),
{
    if fs.len() == 0 {
        0
    } else {
        (if fs[0].passed {
            1int
        } else {
            0int
        }) + count_passed(fs.drop_first())
    }
}

pub open spec fn count_errors(fs: Seq<FindingModel>) -> int
    decreases fs.len(),
{
    if fs.len() == 0 {
        0
    } else {
        (if is_error(fs[0]) {
            1int
        } else {
            0int
        }) + count_errors(fs.drop_first())
    }
}

pub open spec fn count_warnings(fs: Seq<FindingModel>) -> int
    decreases fs.len(),
{
    if fs.len() == 0 {
        0
    } else {
        (if is_warning(fs[0]) {
            1int
        } else {
            0int
        }) + count_warnings(fs.drop_first())
    }
}

pub open spec fn count_info(fs: Seq<FindingModel>) -> int
    decreases fs.len(),
{
    if fs.len() == 0 {
        0
    } else {
        (if is_info(fs[0]) {
            1int
        } else {
            0int
        }) + count_info(fs.drop_first())
    }
}

/// The total findings of the results from index `i` on.
pub open spec fn total_findings(rs: Seq<AnalysisResultModel>, i: int) -> int
    decreases rs.len() - i when 0 <= i <= rs.len()
{
    if i >= rs.len() {
        0
    } else {
        rs[i].findings.len() + total_findings(rs, i + 1)
    }
}

pub open spec fn total_passed(rs: Seq<AnalysisResultModel>, i: int) -> int
    decreases rs.len() - i when 0 <= i <= rs.len()
{
    if i >= rs.len() {
        0
    } else {
        count_passed(rs[i].findings) + total_passed(rs, i + 1)
    }
}

pub open spec fn total_errors(rs: Seq<AnalysisResultModel>, i: int) -> int
    decreases rs.len() - i when 0 <= i <= rs.len()
{
    if i >= rs.len() {
        0
    } else {
        count_errors(rs[i].findings) + total_errors(rs, i + 1)
    }
}

pub open spec fn total_warnings(rs: Seq<AnalysisResultModel>, i: int) -> int
    decreases rs.len() - i when 0 <= i <= rs.len()
{
    if i >= rs.len() {
        0
    } else {
        count_warnings(rs[i].findings) + total_warnings(rs, i + 1)
    }
}

pub open spec fn total_info(rs: Seq<AnalysisResultModel>, i: int) -> int
    decreases rs.len() - i when 0 <= i <= rs.len()
{
    if i >= rs.len() {
        0
    } else {
        count_info(rs[i].findings) + total_info(rs, i + 1)
    }
}

/// The view of a result list.
pub open spec fn results_view(rs: Seq<AnalysisResult>) -> Seq<AnalysisResultModel> {
    rs.map_values(|r: AnalysisResult| r@)
}

/// Every per-findings count is bounded by the findings.
proof fn lemma_counts_bounded(fs: Seq<FindingModel>)
    ensures
        0 <= count_passed(fs) <= fs.len(),
        0 <= count_errors(fs) <= fs.len(),
        0 <= count_warnings(fs) <= fs.len(),
        0 <= count_info(fs) <= fs.len(),
    decreases fs.len(),
{
    if fs.len() > 0 {
        lemma_counts_bounded(fs.drop_first());
    }
}

/// Every total is bounded by the total findings.
proof fn lemma_totals_bounded(rs: Seq<AnalysisResultModel>, i: int)
    requires
        0 <= i <= rs.len(),
    ensures
        0 <= total_passed(rs, i) <= total_findings(rs, i),
        0 <= total_errors(rs, i) <= total_findings(rs, i),
        0 <= total_warnings(rs, i) <= total_findings(rs, i),
        0 <= total_info(rs, i) <= total_findings(rs, i),
    decreases rs.len() - i,
{
    if i < rs.len() {
        lemma_counts_bounded(rs[i].findings);
        lemma_totals_bounded(rs, i + 1);
    }
}

/// Counts files, findings, passed checks and failures by severity, exactly
/// the `total_…` functions. The caller keeps the counts within machine
/// range.
pub fn calculate_summary(results: &Vec<AnalysisResult>) -> (r: Summary)
    requires
        total_findings(results_view(results@), 0) <= usize::MAX,
    ensures
        r.total_files == results@.len(),
        r.total_findings == total_findings(results_view(results@), 0),
        r.passed_checks == total_passed(results_view(results@), 0),
        r.errors == total_errors(results_view(results@), 0),
        r.warnings == total_warnings(results_view(results@), 0),
        r.info == total_info(results_view(results@), 0),
{
    let ghost rv = results_view(results@);
    let mut total: usize = 0;
    let mut passed: usize = 0;
    let mut errors: usize = 0;
    let mut warnings: usize = 0;
    let mut info: usize = 0;
    let mut i: usize = 0;
    while i < results.len()
        invariant
            i <= results@.len(),
            rv == results_view(results@),
            total_findings(rv, 0) <= usize::MAX,
            total + total_findings(rv, i as int) == total_findings(rv, 0),
            passed + total_passed(rv, i as int) == total_passed(rv, 0),
            errors + total_errors(rv, i as int) == total_errors(rv, 0),
            warnings + total_warnings(rv, i as int) == total_warnings(rv, 0),
            info + total_info(rv, i as int) == total_info(rv, 0),
            passed <= total && errors <= total && warnings <= total && info <= total,
        decreases results@.len() - i,
    {
        let fs = &results[i].findings;
        let ghost fg = rv[i as int].findings;
        proof {
            assert(rv[i as int] == results@[i as int]@);
            lemma_totals_bounded(rv, i as int);
            lemma_counts_bounded(fg);
            assert(fg.skip(0) =~= fg);
        }
        let mut j: usize = 0;
        let ghost t0 = total;
        while j < fs.len()
            invariant
                j <= fs@.len(),
                fg == rv[i as int].findings,
                i < rv.len(),
                rv == results_view(results@),
                rv[i as int] == results@[i as int]@,
                fs == &results@[i as int].findings,
                fg.len() == fs@.len(),
                total_findings(rv, 0) <= usize::MAX,
                total == t0 + j,
                t0 + fg.len() + total_findings(rv, i + 1) <= usize::MAX,
                passed + (count_passed(fg.skip(j as int)) + total_passed(rv, i + 1))
                    == total_passed(rv, 0),
                errors + (count_errors(fg.skip(j as int)) + total_errors(rv, i + 1))
                    == total_errors(rv, 0),
                warnings + (count_warnings(fg.skip(j as int)) + total_warnings(rv, i + 1))
                    == total_warnings(rv, 0),
                info + (count_info(fg.skip(j as int)) + total_info(rv, i + 1)) == total_info(
                    rv,
                    0,
                ),
                passed <= total && errors <= total && warnings <= total && info <= total,
            decreases fs@.len() - j,
        {
            proof {
                assert(fg.skip(j as int)[0] == fg[j as int]);
                assert(fg.skip(j as int).drop_first() =~= fg.skip(j + 1));
                assert(fg[j as int] == fs@[j as int]@);
                lemma_counts_bounded(fg.skip(j + 1));
                lemma_totals_bounded(rv, i + 1);
            }
            let f = &fs[j];
            total = total + 1;
            let cls = classify_finding(f);
            if cls.0 {
                passed = passed + 1;
            } else if cls.1 {
                errors = errors + 1;
            } else if cls.2 {
                warnings = warnings + 1;
            } else {
                info = info + 1;
            }
            j = j + 1;
        }
        proof {
            assert(fg.skip(fg.len() as int) =~= Seq::<FindingModel>::empty());
        }
        i = i + 1;
    }
    Summary {
        total_files: results.len(),
        total_findings: total,
        errors,
        warnings,
        info,
        passed_checks: passed,
    }
}

/// Classifies one finding: whether it passed, and which severity class it
/// fails under.
fn classify_finding(f: &Finding) -> (r: (bool, bool, bool, bool))
    ensures
        r.0 == f@.passed,
        r.1 == is_error(f@),
        r.2 == is_warning(f@),
        r.3 == is_info(f@),
        !r.0 ==> (r.1 || r.2 || r.3),
        r.1 ==> !r.2 && !r.3,
        r.2 ==> !r.3,
{
    if f.passed {
        return (true, false, false, false);
    }
    let sev = chars_of(f.severity.as_str());
    let w_error = chars_of("error");
    let w_warning = chars_of("warning");
    proof {
        reveal_strlit("error");
        reveal_strlit("warning");
        assert("error"@.len() != "warning"@.len());
    }
    if chars_eq(&sev, &w_error) {
        (false, true, false, false)
    } else if chars_eq(&sev, &w_warning) {
        (false, false, true, false)
    } else {
        (false, false, false, true)
    }
}

/// The severity marker used in rendered findings.
pub open spec fn severity_marker(sev: Seq<char>) -> Seq<char> {
    if sev == "error"@ {
        "[ERROR]"@
    } else if sev == "warning"@ {
        "[WARN]"@
    } else {
        "[INFO]"@
    }
}

/// Whether any finding of the list failed.
pub open spec fn has_failure(fs: Seq<FindingModel>) -> bool {
    exists|k: int| 0 <= k < fs.len() && !(#[trigger] fs[k]).passed
}

/// One finding rendered for Markdown.
pub open spec fn md_finding(f: FindingModel) -> Seq<char> {
    severity_marker(f.severity) + " **"@ + f.category + "**: "@ + f.rule + "
"@ + (match f.line_number {
        Some(n) => "   - Line: "@ + dec_repr(n as int) + "
"@,
        None => Seq::empty(),
    }) + "   - "@ + f.message + "

"@
}

/// The Markdown lines of the failing findings from `i` on.
pub open spec fn md_findings_of(fs: Seq<FindingModel>, i: int) -> Seq<char>
    decreases fs.len() - i when 0 <= i <= fs.len()
{
    if i >= fs.len() {
        Seq::empty()
    } else if !fs[i].passed {
        md_finding(fs[i]) + md_findings_of(fs, i + 1)
    } else {
        md_findings_of(fs, i + 1)
    }
}

/// One result's Markdown section: present only when something failed.
pub open spec fn md_result(r: AnalysisResultModel) -> Seq<char> {
    if has_failure(r.findings) {
        "### `"@ + r.file_path + "`

"@ + md_findings_of(r.findings, 0)
    } else {
        Seq::empty()
    }
}

pub open spec fn md_results(rs: Seq<AnalysisResultModel>, i: int) -> Seq<char>
    decreases rs.len() - i when 0 <= i <= rs.len()
{
    if i >= rs.len() {
        Seq::empty()
    } else {
        md_result(rs[i]) + md_results(rs, i + 1)
    }
}

/// The Markdown report: the counted summary, then the failing results, or
/// a clean bill when nothing failed.
pub open spec fn md_spec(rs: Seq<AnalysisResultModel>, s: Summary) -> Seq<char> {
    "# DevOps Agent Analysis Report\n\n## Summary\n\n- **Files Analyzed**: "@ + dec_repr(
        s.total_files as int,
    ) + "\n- **Total Findings**: "@ + dec_repr(s.total_findings as int) + "\n- **Passed Checks**: "@
        + dec_repr(s.passed_checks as int) + "\n- **Errors**: "@ + dec_repr(s.errors as int)
        + "\n- **Warnings**: "@ + dec_repr(s.warnings as int) + "\n- **Info**: "@ + dec_repr(
        s.info as int,
    ) + "\n\n"@ + (if s.errors + s.warnings + s.info > 0 {
        "## Findings\n\n"@ + md_results(rs, 0)
    } else {
        "## All checks passed!\n\nNo issues found in the analyzed files.\n"@
    })
}

/// Renders one finding into the buffer for Markdown.
fn push_md_finding(out: &mut Vec<char>, f: &Finding)
    ensures
        final(out)@ == old(out)@ + md_finding(f@),
{
    let ghost base = out@;
    let sev = chars_of(f.severity.as_str());
    let w_error = chars_of("error");
    let w_warning = chars_of("warning");
    let marker = if chars_eq(&sev, &w_error) {
        chars_of("[ERROR]")
    } else if chars_eq(&sev, &w_warning) {
        chars_of("[WARN]")
    } else {
        chars_of("[INFO]")
    };
    push_all(out, &marker);
    let p1 = chars_of(" **");
    push_all(out, &p1);
    let cat = chars_of(f.category.as_str());
    push_all(out, &cat);
    let p2 = chars_of("**: ");
    push_all(out, &p2);
    let rl = chars_of(f.rule.as_str());
    push_all(out, &rl);
    let nl = chars_of("\n");
    push_all(out, &nl);
    match f.line_number {
        Some(n) => {
            let p3 = chars_of("   - Line: ");
            push_all(out, &p3);
            let num = usize_to_chars(n);
            push_all(out, &num);
            push_all(out, &nl);
        },
        None => {},
    }
    let p4 = chars_of("   - ");
    push_all(out, &p4);
    let msg = chars_of(f.message.as_str());
    push_all(out, &msg);
    let p5 = chars_of("\n\n");
    push_all(out, &p5);
    proof {
        assert(out@ =~= base + md_finding(f@));
    }
}

/// Renders one result's failing findings for Markdown.
fn push_md_result(out: &mut Vec<char>, r: &AnalysisResult)
    ensures
        final(out)@ == old(out)@ + md_result(r@),
{
    let mut any = false;
    let mut j: usize = 0;
    while j < r.findings.len() && !any
        invariant
            j <= r.findings@.len(),
            any ==> j < r.findings@.len() && !r.findings@[j as int]@.passed,
            !any ==> forall|k: int| 0 <= k < j ==> r.findings@[k]@.passed,
        decreases r.findings@.len() - j + (if any {
            0int
        } else {
            1int
        }),
    {
        if !r.findings[j].passed {
            any = true;
        } else {
            j = j + 1;
        }
    }
    if !any {
        proof {
            assert(forall|k: int| 0 <= k < r@.findings.len() ==> (#[trigger] r@.findings[k]).passed);
            assert(!has_failure(r@.findings));
            assert(old(out)@ + md_result(r@) =~= old(out)@);
        }
        return ;
    }
    proof {
        assert(!r@.findings[j as int].passed);
        assert(has_failure(r@.findings));
    }
    let ghost base = out@;
    let h1 = chars_of("### `");
    push_all(out, &h1);
    let path = chars_of(r.file_path.as_str());
    push_all(out, &path);
    let h2 = chars_of("`\n\n");
    push_all(out, &h2);
    let ghost mid = out@;
    proof {
        assert(mid =~= base + ("### `"@ + r@.file_path + "`\n\n"@));
    }
    let ghost fg = r@.findings;
    let mut i: usize = 0;
    while i < r.findings.len()
        invariant
            i <= r.findings@.len(),
            fg == r@.findings,
            fg.len() == r.findings@.len(),
            out@ + md_findings_of(fg, i as int) == mid + md_findings_of(fg, 0),
        decreases r.findings@.len() - i,
    {
        let f = &r.findings[i];
        proof {
            assert(f@ == fg[i as int]);
        }
        if !f.passed {
            let ghost before = out@;
            push_md_finding(out, f);
            proof {
                assert(md_findings_of(fg, i as int) == md_finding(fg[i as int]) + md_findings_of(
                    fg,
                    i + 1,
                ));
                assert((before + md_finding(fg[i as int])) + md_findings_of(fg, i + 1) =~= before
                    + (md_finding(fg[i as int]) + md_findings_of(fg, i + 1)));
            }
        }
        i = i + 1;
    }
    proof {
        assert(md_findings_of(fg, fg.len() as int) =~= Seq::<char>::empty());
        assert(out@ + Seq::<char>::empty() =~= out@);
        assert(out@ =~= old(out)@ + md_result(r@));
    }
}

/// Renders the Markdown report, exactly `md_spec` of the given summary.
pub fn generate_markdown_report(results: &Vec<AnalysisResult>, summary: &Summary) -> (r: String)
    ensures
        r@ == md_spec(results_view(results@), *summary),
{
    let ghost rv = results_view(results@);
    let mut v = chars_of("# DevOps Agent Analysis Report\n\n## Summary\n\n- **Files Analyzed**: ");
    let n1 = usize_to_chars(summary.total_files);
    push_all(&mut v, &n1);
    let s2 = chars_of("\n- **Total Findings**: ");
    push_all(&mut v, &s2);
    let n2 = usize_to_chars(summary.total_findings);
    push_all(&mut v, &n2);
    let s3 = chars_of("\n- **Passed Checks**: ");
    push_all(&mut v, &s3);
    let n3 = usize_to_chars(summary.passed_checks);
    push_all(&mut v, &n3);
    let s4 = chars_of("\n- **Errors**: ");
    push_all(&mut v, &s4);
    let n4 = usize_to_chars(summary.errors);
    push_all(&mut v, &n4);
    let s5 = chars_of("\n- **Warnings**: ");
    push_all(&mut v, &s5);
    let n5 = usize_to_chars(summary.warnings);
    push_all(&mut v, &n5);
    let s6 = chars_of("\n- **Info**: ");
    push_all(&mut v, &s6);
    let n6 = usize_to_chars(summary.info);
    push_all(&mut v, &n6);
    let s7 = chars_of("\n\n");
    push_all(&mut v, &s7);
    let has_failures = summary.errors > 0 || summary.warnings > 0 || summary.info > 0;
    if has_failures {
        let f1 = chars_of("## Findings\n\n");
        push_all(&mut v, &f1);
        let ghost mid = v@;
        let mut i: usize = 0;
        while i < results.len()
            invariant
                i <= results@.len(),
                rv == results_view(results@),
                rv.len() == results@.len(),
                v@ + md_results(rv, i as int) == mid + md_results(rv, 0),
            decreases results@.len() - i,
        {
            proof {
                assert(rv[i as int] == results@[i as int]@);
            }
            let ghost before = v@;
            push_md_result(&mut v, &results[i]);
            proof {
                assert(md_results(rv, i as int) == md_result(rv[i as int]) + md_results(rv, i + 1));
                assert((before + md_result(rv[i as int])) + md_results(rv, i + 1) =~= before + (
                md_result(rv[i as int]) + md_results(rv, i + 1)));
            }
            i = i + 1;
        }
        proof {
            assert(md_results(rv, rv.len() as int) =~= Seq::<char>::empty());
            assert(v@ + Seq::<char>::empty() =~= v@);
            assert(v@ =~= md_spec(rv, *summary));
        }
    } else {
        let ok = chars_of("## All checks passed!\n\nNo issues found in the analyzed files.\n");
        push_all(&mut v, &ok);
        proof {
            assert(v@ =~= md_spec(rv, *summary));
        }
    }
    string_from_chars(&v)
}


/// One finding rendered for the console.
pub open spec fn con_finding(f: FindingModel) -> Seq<char> {
    severity_marker(f.severity) + " ["@ + f.category + "] "@ + f.rule + "\n"@ + (match f.line_number {
        Some(n) => "   Line: "@ + dec_repr(n as int) + "\n"@,
        None => Seq::empty(),
    }) + "   "@ + f.message + "\n\n"@
}

/// The console lines of the failing findings from `i` on.
pub open spec fn con_findings_of(fs: Seq<FindingModel>, i: int) -> Seq<char>
    decreases fs.len() - i when 0 <= i <= fs.len()
{
    if i >= fs.len() {
        Seq::empty()
    } else if !fs[i].passed {
        con_finding(fs[i]) + con_findings_of(fs, i + 1)
    } else {
        con_findings_of(fs, i + 1)
    }
}

/// One result's console section: present only when something failed.
pub open spec fn con_result(r: AnalysisResultModel) -> Seq<char> {
    if has_failure(r.findings) {
        "\nFile: "@ + r.file_path + "\n--------------------------------------------------\n"@
            + con_findings_of(r.findings, 0)
    } else {
        Seq::empty()
    }
}

pub open spec fn con_results(rs: Seq<AnalysisResultModel>, i: int) -> Seq<char>
    decreases rs.len() - i when 0 <= i <= rs.len()
{
    if i >= rs.len() {
        Seq::empty()
    } else {
        con_result(rs[i]) + con_results(rs, i + 1)
    }
}

/// The console report: a banner, the counts, and the failing results or a
/// clean bill, closed by a banner.
pub open spec fn console_spec(rs: Seq<AnalysisResultModel>, s: Summary) -> Seq<char> {
    "\n==================================================\n  DevOps Agent ANALYSIS REPORT\n==================================================\n\nFiles Analyzed: "@
        + dec_repr(s.total_files as int) + "\nPassed Checks:  "@ + dec_repr(s.passed_checks as int)
        + "\nErrors:         "@ + dec_repr(s.errors as int) + "\nWarnings:       "@ + dec_repr(
        s.warnings as int,
    ) + "\nInfo:           "@ + dec_repr(s.info as int) + "\n"@ + (if s.errors + s.warnings + s.info
        > 0 {
        "\n==================================================\n  FINDINGS\n==================================================\n"@
            + con_results(rs, 0)
    } else {
        "\nAll checks passed! No issues found.\n"@
    }) + "\n==================================================\n"@
}

/// Renders one finding into the buffer for the console.
fn push_con_finding(out: &mut Vec<char>, f: &Finding)
    ensures
        final(out)@ == old(out)@ + con_finding(f@),
{
    let ghost base = out@;
    let sev = chars_of(f.severity.as_str());
    let w_error = chars_of("error");
    let w_warning = chars_of("warning");
    let marker = if chars_eq(&sev, &w_error) {
        chars_of("[ERROR]")
    } else if chars_eq(&sev, &w_warning) {
        chars_of("[WARN]")
    } else {
        chars_of("[INFO]")
    };
    push_all(out, &marker);
    let p1 = chars_of(" [");
    push_all(out, &p1);
    let cat = chars_of(f.category.as_str());
    push_all(out, &cat);
    let p2 = chars_of("] ");
    push_all(out, &p2);
    let rl = chars_of(f.rule.as_str());
    push_all(out, &rl);
    let nl = chars_of("\n");
    push_all(out, &nl);
    match f.line_number {
        Some(n) => {
            let p3 = chars_of("   Line: ");
            push_all(out, &p3);
            let num = usize_to_chars(n);
            push_all(out, &num);
            push_all(out, &nl);
        },
        None => {},
    }
    let p4 = chars_of("   ");
    push_all(out, &p4);
    let msg = chars_of(f.message.as_str());
    push_all(out, &msg);
    let p5 = chars_of("\n\n");
    push_all(out, &p5);
    proof {
        assert(out@ =~= base + con_finding(f@));
    }
}

/// Renders one result's failing findings for the console.
fn push_con_result(out: &mut Vec<char>, r: &AnalysisResult)
    ensures
        final(out)@ == old(out)@ + con_result(r@),
{
    let mut any = false;
    let mut j: usize = 0;
    while j < r.findings.len() && !any
        invariant
            j <= r.findings@.len(),
            any ==> j < r.findings@.len() && !r.findings@[j as int]@.passed,
            !any ==> forall|k: int| 0 <= k < j ==> r.findings@[k]@.passed,
        decreases r.findings@.len() - j + (if any {
            0int
        } else {
            1int
        }),
    {
        if !r.findings[j].passed {
            any = true;
        } else {
            j = j + 1;
        }
    }
    if !any {
        proof {
            assert(forall|k: int| 0 <= k < r@.findings.len() ==> (#[trigger] r@.findings[k]).passed);
            assert(!has_failure(r@.findings));
            assert(old(out)@ + con_result(r@) =~= old(out)@);
        }
        return ;
    }
    proof {
        assert(!r@.findings[j as int].passed);
        assert(has_failure(r@.findings));
    }
    let ghost base = out@;
    let h1 = chars_of("\nFile: ");
    push_all(out, &h1);
    let path = chars_of(r.file_path.as_str());
    push_all(out, &path);
    let h2 = chars_of("\n--------------------------------------------------\n");
    push_all(out, &h2);
    let ghost mid = out@;
    proof {
        assert(mid =~= base + ("\nFile: "@ + r@.file_path
            + "\n--------------------------------------------------\n"@));
    }
    let ghost fg = r@.findings;
    let mut i: usize = 0;
    while i < r.findings.len()
        invariant
            i <= r.findings@.len(),
            fg == r@.findings,
            fg.len() == r.findings@.len(),
            out@ + con_findings_of(fg, i as int) == mid + con_findings_of(fg, 0),
        decreases r.findings@.len() - i,
    {
        let f = &r.findings[i];
        proof {
            assert(f@ == fg[i as int]);
        }
        if !f.passed {
            let ghost before = out@;
            push_con_finding(out, f);
            proof {
                assert(con_findings_of(fg, i as int) == con_finding(fg[i as int])
                    + con_findings_of(fg, i + 1));
                assert((before + con_finding(fg[i as int])) + con_findings_of(fg, i + 1) =~= before
                    + (con_finding(fg[i as int]) + con_findings_of(fg, i + 1)));
            }
        }
        i = i + 1;
    }
    proof {
        assert(con_findings_of(fg, fg.len() as int) =~= Seq::<char>::empty());
        assert(out@ + Seq::<char>::empty() =~= out@);
        assert(out@ =~= old(out)@ + con_result(r@));
    }
}

/// Renders the console report, exactly `console_spec`.
pub fn generate_console_report(results: &Vec<AnalysisResult>, summary: &Summary) -> (r: String)
    ensures
        r@ == console_spec(results_view(results@), *summary),
{
    let ghost rv = results_view(results@);
    let mut v = chars_of("\n==================================================\n  DevOps Agent ANALYSIS REPORT\n==================================================\n\nFiles Analyzed: ");
    let n1 = usize_to_chars(summary.total_files);
    push_all(&mut v, &n1);
    let s2 = chars_of("\nPassed Checks:  ");
    push_all(&mut v, &s2);
    let n2 = usize_to_chars(summary.passed_checks);
    push_all(&mut v, &n2);
    let s3 = chars_of("\nErrors:         ");
    push_all(&mut v, &s3);
    let n3 = usize_to_chars(summary.errors);
    push_all(&mut v, &n3);
    let s4 = chars_of("\nWarnings:       ");
    push_all(&mut v, &s4);
    let n4 = usize_to_chars(summary.warnings);
    push_all(&mut v, &n4);
    let s5 = chars_of("\nInfo:           ");
    push_all(&mut v, &s5);
    let n5 = usize_to_chars(summary.info);
    push_all(&mut v, &n5);
    let s6 = chars_of("\n");
    push_all(&mut v, &s6);
    let has_failures = summary.errors > 0 || summary.warnings > 0 || summary.info > 0;
    if has_failures {
        let f1 = chars_of("\n==================================================\n  FINDINGS\n==================================================\n");
        push_all(&mut v, &f1);
        let ghost mid = v@;
        let mut i: usize = 0;
        while i < results.len()
            invariant
                i <= results@.len(),
                rv == results_view(results@),
                rv.len() == results@.len(),
                v@ + con_results(rv, i as int) == mid + con_results(rv, 0),
            decreases results@.len() - i,
        {
            proof {
                assert(rv[i as int] == results@[i as int]@);
            }
            let ghost before = v@;
            push_con_result(&mut v, &results[i]);
            proof {
                assert(con_results(rv, i as int) == con_result(rv[i as int]) + con_results(
                    rv,
                    i + 1,
                ));
                assert((before + con_result(rv[i as int])) + con_results(rv, i + 1) =~= before + (
                con_result(rv[i as int]) + con_results(rv, i + 1)));
            }
            i = i + 1;
        }
        proof {
            assert(con_results(rv, rv.len() as int) =~= Seq::<char>::empty());
            assert(v@ + Seq::<char>::empty() =~= v@);
        }
    } else {
        let ok = chars_of("\nAll checks passed! No issues found.\n");
        push_all(&mut v, &ok);
    }
    let tail = chars_of("\n==================================================\n");
    push_all(&mut v, &tail);
    proof {
        assert(v@ =~= console_spec(rv, *summary));
    }
    string_from_chars(&v)
}

/// The digit of one hex nibble, lowercase.
pub open spec fn hex_digit(d: int) -> char {
    if d < 10 {
        ('0' as int + d) as char
    } else {
        ('a' as int + d - 10) as char
    }
}

/// One character of JSON string content: the usual short escapes, a
/// `\u00..` escape for other control characters, and the character itself
/// otherwise.
pub open spec fn json_esc_char(c: char) -> Seq<char> {
    if c == '"' {
        seq!['\\', '"']
    } else if c == '\\' {
        seq!['\\', '\\']
    } else if c == '\n' {
        seq!['\\', 'n']
    } else if c == '\r' {
        seq!['\\', 'r']
    } else if c == '\t' {
        seq!['\\', 't']
    } else if (c as u32) < 32 {
        seq!['\\', 'u', '0', '0', hex_digit((c as u32) as int / 16), hex_digit(
            (c as u32) as int % 16,
        )]
    } else {
        seq![c]
    }
}

/// JSON string content for a text, from position `i` on.
pub open spec fn json_esc(s: Seq<char>, i: int) -> Seq<char>
    decreases s.len() - i when 0 <= i <= s.len()
{
    if i >= s.len() {
        Seq::empty()
    } else {
        json_esc_char(s[i]) + json_esc(s, i + 1)
    }
}

/// Appends the escaped text to the buffer.
fn push_json_esc(out: &mut Vec<char>, s: &str)
    ensures
        final(out)@ == old(out)@ + json_esc(s@, 0),
{
    let cs = chars_of(s);
    let mut i: usize = 0;
    while i < cs.len()
        invariant
            i <= cs@.len(),
            cs@ == s@,
            out@ + json_esc(s@, i as int) == old(out)@ + json_esc(s@, 0),
        decreases cs@.len() - i,
    {
        let c = cs[i];
        let ghost before = out@;
        if c == '"' {
            out.push('\\');
            out.push('"');
        } else if c == '\\' {
            out.push('\\');
            out.push('\\');
        } else if c == '\n' {
            out.push('\\');
            out.push('n');
        } else if c == '\r' {
            out.push('\\');
            out.push('r');
        } else if c == '\t' {
            out.push('\\');
            out.push('t');
        } else {
            let u: u32 = c as u32;
            if u < 32 {
                out.push('\\');
                out.push('u');
                out.push('0');
                out.push('0');
                let hi = hex_digit_exec(u / 16);
                out.push(hi);
                let lo = hex_digit_exec(u % 16);
                out.push(lo);
            } else {
                out.push(c);
            }
        }
        proof {
            assert(out@ =~= before + json_esc_char(s@[i as int]));
            assert(json_esc(s@, i as int) == json_esc_char(s@[i as int]) + json_esc(s@, i + 1));
            assert((before + json_esc_char(s@[i as int])) + json_esc(s@, i + 1) =~= before + (
            json_esc_char(s@[i as int]) + json_esc(s@, i + 1)));
        }
        i = i + 1;
    }
    proof {
        assert(json_esc(s@, s@.len() as int) =~= Seq::<char>::empty());
        assert(out@ + Seq::<char>::empty() =~= out@);
    }
}

/// One hex digit, executably.
fn hex_digit_exec(d: u32) -> (c: char)
    requires
        d < 16,
    ensures
        c == hex_digit(d as int),
{
    proof {
        assert(vstd::utf8::is_scalar((48 + d) as u32));
        assert(vstd::utf8::is_scalar((97 + d - 10) as u32)) by {
        }
    }
    if d < 10 {
        crate::text::char_from_code_pub(48 + d)
    } else {
        crate::text::char_from_code_pub(97 + (d - 10))
    }
}

/// The JSON word for a truth value.
pub open spec fn json_bool(b: bool) -> Seq<char> {
    if b {
        "true"@
    } else {
        "false"@
    }
}

/// One finding as JSON.
pub open spec fn json_finding(f: FindingModel) -> Seq<char> {
    "{\"category\":\""@ + json_esc(f.category, 0) + "\",\"rule\":\""@ + json_esc(f.rule, 0)
        + "\",\"severity\":\""@ + json_esc(f.severity, 0) + "\",\"passed\":"@ + json_bool(f.passed)
        + ",\"message\":\""@ + json_esc(f.message, 0) + "\",\"line_number\":"@ + (match f.line_number {
        Some(n) => dec_repr(n as int),
        None => "null"@,
    }) + "}"@
}

/// The findings of one result as JSON, comma-separated, from `i` on.
pub open spec fn json_findings(fs: Seq<FindingModel>, i: int) -> Seq<char>
    decreases fs.len() - i when 0 <= i <= fs.len()
{
    if i >= fs.len() {
        Seq::empty()
    } else {
        (if i > 0 {
            ","@
        } else {
            Seq::empty()
        }) + json_finding(fs[i]) + json_findings(fs, i + 1)
    }
}

/// One result as JSON.
pub open spec fn json_result(r: AnalysisResultModel) -> Seq<char> {
    "{\"file_path\":\""@ + json_esc(r.file_path, 0) + "\",\"findings\":["@ + json_findings(
        r.findings,
        0,
    ) + "]}"@
}

/// The results as JSON, comma-separated, from `i` on.
pub open spec fn json_results(rs: Seq<AnalysisResultModel>, i: int) -> Seq<char>
    decreases rs.len() - i when 0 <= i <= rs.len()
{
    if i >= rs.len() {
        Seq::empty()
    } else {
        (if i > 0 {
            ","@
        } else {
            Seq::empty()
        }) + json_result(rs[i]) + json_results(rs, i + 1)
    }
}

/// The whole report as compact JSON: the summary object, then the results.
pub open spec fn json_spec(rs: Seq<AnalysisResultModel>, s: Summary) -> Seq<char> {
    "{\"summary\":{\"total_files\":"@ + dec_repr(s.total_files as int) + ",\"total_findings\":"@
        + dec_repr(s.total_findings as int) + ",\"errors\":"@ + dec_repr(s.errors as int)
        + ",\"warnings\":"@ + dec_repr(s.warnings as int) + ",\"info\":"@ + dec_repr(s.info as int)
        + ",\"passed_checks\":"@ + dec_repr(s.passed_checks as int) + "},\"results\":["@
        + json_results(rs, 0) + "]}"@
}

/// Renders one finding as JSON into the buffer.
fn push_json_finding(out: &mut Vec<char>, f: &Finding)
    ensures
        final(out)@ == old(out)@ + json_finding(f@),
{
    let ghost base = out@;
    let p1 = chars_of("{\"category\":\"");
    push_all(out, &p1);
    push_json_esc(out, f.category.as_str());
    let p2 = chars_of("\",\"rule\":\"");
    push_all(out, &p2);
    push_json_esc(out, f.rule.as_str());
    let p3 = chars_of("\",\"severity\":\"");
    push_all(out, &p3);
    push_json_esc(out, f.severity.as_str());
    let p4 = chars_of("\",\"passed\":");
    push_all(out, &p4);
    let b = if f.passed {
        chars_of("true")
    } else {
        chars_of("false")
    };
    push_all(out, &b);
    let p5 = chars_of(",\"message\":\"");
    push_all(out, &p5);
    push_json_esc(out, f.message.as_str());
    let p6 = chars_of("\",\"line_number\":");
    push_all(out, &p6);
    match f.line_number {
        Some(n) => {
            let num = usize_to_chars(n);
            push_all(out, &num);
        },
        None => {
            let nn = chars_of("null");
            push_all(out, &nn);
        },
    }
    let p7 = chars_of("}");
    push_all(out, &p7);
    proof {
        assert(out@ =~= base + json_finding(f@));
    }
}

/// Renders one result as JSON into the buffer.
fn push_json_result(out: &mut Vec<char>, r: &AnalysisResult)
    ensures
        final(out)@ == old(out)@ + json_result(r@),
{
    let ghost base = out@;
    let p1 = chars_of("{\"file_path\":\"");
    push_all(out, &p1);
    push_json_esc(out, r.file_path.as_str());
    let p2 = chars_of("\",\"findings\":[");
    push_all(out, &p2);
    let ghost mid = out@;
    let ghost fg = r@.findings;
    let mut i: usize = 0;
    while i < r.findings.len()
        invariant
            i <= r.findings@.len(),
            fg == r@.findings,
            fg.len() == r.findings@.len(),
            out@ + json_findings(fg, i as int) == mid + json_findings(fg, 0),
            i > 0 ==> fg.len() > 0,
        decreases r.findings@.len() - i,
    {
        let f = &r.findings[i];
        proof {
            assert(f@ == fg[i as int]);
        }
        let ghost before = out@;
        if i > 0 {
            let comma = chars_of(",");
            push_all(out, &comma);
        }
        push_json_finding(out, f);
        proof {
            assert(json_findings(fg, i as int) == (if i > 0 {
                ","@
            } else {
                Seq::<char>::empty()
            }) + json_finding(fg[i as int]) + json_findings(fg, i + 1));
            assert(out@ =~= before + ((if i > 0 {
                ","@
            } else {
                Seq::<char>::empty()
            }) + json_finding(fg[i as int])));
            assert(out@ + json_findings(fg, i + 1) =~= before + json_findings(fg, i as int));
        }
        i = i + 1;
    }
    proof {
        assert(json_findings(fg, fg.len() as int) =~= Seq::<char>::empty());
        assert(out@ + Seq::<char>::empty() =~= out@);
    }
    let p3 = chars_of("]}");
    push_all(out, &p3);
    proof {
        assert(out@ =~= base + json_result(r@));
    }
}

/// Renders the JSON report, exactly `json_spec`.
pub fn generate_json_report(results: &Vec<AnalysisResult>, summary: &Summary) -> (r: String)
    ensures
        r@ == json_spec(results_view(results@), *summary),
{
    let ghost rv = results_view(results@);
    let mut v = chars_of("{\"summary\":{\"total_files\":");
    let n1 = usize_to_chars(summary.total_files);
    push_all(&mut v, &n1);
    let s2 = chars_of(",\"total_findings\":");
    push_all(&mut v, &s2);
    let n2 = usize_to_chars(summary.total_findings);
    push_all(&mut v, &n2);
    let s3 = chars_of(",\"errors\":");
    push_all(&mut v, &s3);
    let n3 = usize_to_chars(summary.errors);
    push_all(&mut v, &n3);
    let s4 = chars_of(",\"warnings\":");
    push_all(&mut v, &s4);
    let n4 = usize_to_chars(summary.warnings);
    push_all(&mut v, &n4);
    let s5 = chars_of(",\"info\":");
    push_all(&mut v, &s5);
    let n5 = usize_to_chars(summary.info);
    push_all(&mut v, &n5);
    let s6 = chars_of(",\"passed_checks\":");
    push_all(&mut v, &s6);
    let n6 = usize_to_chars(summary.passed_checks);
    push_all(&mut v, &n6);
    let s7 = chars_of("},\"results\":[");
    push_all(&mut v, &s7);
    let ghost mid = v@;
    let mut i: usize = 0;
    while i < results.len()
        invariant
            i <= results@.len(),
            rv == results_view(results@),
            rv.len() == results@.len(),
            v@ + json_results(rv, i as int) == mid + json_results(rv, 0),
        decreases results@.len() - i,
    {
        proof {
            assert(rv[i as int] == results@[i as int]@);
        }
        let ghost before = v@;
        if i > 0 {
            let comma = chars_of(",");
            push_all(&mut v, &comma);
        }
        push_json_result(&mut v, &results[i]);
        proof {
            assert(json_results(rv, i as int) == (if i > 0 {
                ","@
            } else {
                Seq::<char>::empty()
            }) + json_result(rv[i as int]) + json_results(rv, i + 1));
            assert(v@ =~= before + ((if i > 0 {
                ","@
            } else {
                Seq::<char>::empty()
            }) + json_result(rv[i as int])));
            assert(v@ + json_results(rv, i + 1) =~= before + json_results(rv, i as int));
        }
        i = i + 1;
    }
    proof {
        assert(json_results(rv, rv.len() as int) =~= Seq::<char>::empty());
        assert(v@ + Seq::<char>::empty() =~= v@);
    }
    let tail = chars_of("]}");
    push_all(&mut v, &tail);
    proof {
        assert(v@ =~= json_spec(rv, *summary));
    }
    string_from_chars(&v)
}

/// A report that could not be rendered.
#[derive(Debug, Clone, Copy, PartialEq, Eq, Structural)]
pub struct ReportError;

/// What `generate_report` renders for a format word: JSON for `json`,
/// Markdown for `markdown`, console text for anything else.
pub open spec fn report_spec(rs: Seq<AnalysisResultModel>, s: Summary, format: Seq<char>) -> Seq<
    char,
> {
    if format == "json"@ {
        json_spec(rs, s)
    } else if format == "markdown"@ {
        md_spec(rs, s)
    } else {
        console_spec(rs, s)
    }
}

/// Renders the results under their counted summary in the asked-for
/// format, exactly `report_spec`. The caller keeps the counts within
/// machine range.
pub fn generate_report(results: &Vec<AnalysisResult>, format: &str) -> (r: Result<
    String,
    ReportError,
>)
    requires
        total_findings(results_view(results@), 0) <= usize::MAX,
    ensures
        r is Ok,
        r matches Ok(s) ==> {
            let sm = Summary {
                total_files: results@.len() as usize,
                total_findings: total_findings(results_view(results@), 0) as usize,
                errors: total_errors(results_view(results@), 0) as usize,
                warnings: total_warnings(results_view(results@), 0) as usize,
                info: total_info(results_view(results@), 0) as usize,
                passed_checks: total_passed(results_view(results@), 0) as usize,
            };
            s@ == report_spec(results_view(results@), sm, format@)
        },
{
    let summary = calculate_summary(results);
    let fv = chars_of(format);
    let w_json = chars_of("json");
    let w_markdown = chars_of("markdown");
    let rendered = if chars_eq(&fv, &w_json) {
        generate_json_report(results, &summary)
    } else if chars_eq(&fv, &w_markdown) {
        generate_markdown_report(results, &summary)
    } else {
        generate_console_report(results, &summary)
    };
    Ok(rendered)
}

} // verus!
