//! Findings of a checklist review, and the prompt that asks for one.
//!
//! A review of one file yields findings against the checklist's rules. The
//! prompt handed to the reviewing service lists the file, its code and the
//! numbered rules; the project-level guideline check is decided here, from
//! the recorded output of the guideline run.

use vstd::prelude::*;

use crate::checklist::{ChecklistConfig, ChecklistConfigModel, ChecklistItemModel};
use crate::scan::{FileToAnalyze, FileToAnalyzeModel, ProjectContext};
use crate::text::{chars_of, contains_sub, dec_repr, has_sub, push_all, string_from_chars,
    usize_to_chars};

verus! {

/// One finding of a review.
#[derive(Debug, Clone)]
pub struct Finding {
    pub category: String,
    pub rule: String,
    pub severity: String,
    pub passed: bool,
    pub message: String,
    pub line_number: Option<usize>,
}

/// The mathematical shape of a finding.
pub struct FindingModel {
    pub category: Seq<char>,
    pub rule: Seq<char>,
    pub severity: Seq<char>,
    pub passed: bool,
    pub message: Seq<char>,
    pub line_number: Option<usize>,
}

impl View for Finding {
    type V = FindingModel;

    open spec fn view(&self) -> FindingModel {
        FindingModel {
            category: self.category@,
            rule: self.rule@,
            severity: self.severity@,
            passed: self.passed,
            message: self.message@,
            line_number: self.line_number,
        }
    }
}

/// The findings of one file's review.
#[derive(Debug, Clone)]
pub struct AnalysisResult {
    pub file_path: String,
    pub findings: Vec<Finding>,
}

/// The mathematical shape of a review result.
pub struct AnalysisResultModel {
    pub file_path: Seq<char>,
    pub findings: Seq<FindingModel>,
}

impl View for AnalysisResult {
    type V = AnalysisResultModel;

    open spec fn view(&self) -> AnalysisResultModel {
        AnalysisResultModel {
            file_path: self.file_path@,
            findings: self.findings@.map_values(|f: Finding| f@),
        }
    }
}

/// The numbered rule lines of the prompt, from rule `i` on.
pub open spec fn rules_text(items: Seq<ChecklistItemModel>, i: int) -> Seq<char>
    decreases items.len() - i when 0 <= i <= items.len()
{
    if i >= items.len() {
        Seq::empty()
    } else {
        dec_repr(i + 1) + ". ["@ + items[i].category + "] "@ + items[i].rule + " - "@
            + items[i].description + " (severity: "@ + items[i].severity + ")\n"@ + rules_text(
            items,
            i + 1,
        )
    }
}

/// The fixed opening of the prompt.
pub open spec fn prompt_head() -> Seq<char> {
    "You are a code review assistant. Analyze the following code file against a checklist of rules.\n\n"@
}

/// The fixed closing of the prompt: the reviewing instructions and the
/// answer format.
pub open spec fn prompt_tail() -> Seq<char> {
    "\n\nFor each rule, determine if the code passes or fails. \n\nSPECIAL INSTRUCTIONS FOR TEST COVERAGE:\n- Identify all public functions/methods that lack corresponding tests\n- Check if test files exist (files with .test., _test., or in tests/ directory)\n- For functions with complex logic (multiple branches, loops, error handling), verify comprehensive test coverage\n- Flag any exported APIs without basic test coverage as errors\n- Check test functions for conditional logic (if/else/match/for/while). Tests should be simple and procedural\n- Flag tests containing branches or loops as they make tests harder to understand and debug\n\nProvide your analysis in the following JSON format:\n\n[\n  {\n    \"rule_number\": 1,\n    \"passed\": true,\n    \"message\": \"Explanation of why it passed or failed\",\n    \"line_number\": 42\n  }\n]\n\nInclude line_number only if you can identify a specific line. Only include rules that have findings (failures or notable passes). Respond ONLY with the JSON array, no other text."@
}

/// The whole prompt for one file: opening, the file's path and code, the
/// numbered rules, and the closing instructions.
pub open spec fn prompt_spec(file: FileToAnalyzeModel, cfg: ChecklistConfigModel) -> Seq<char> {
    prompt_head() + "File: "@ + file.relative_path + "\n\nCode:\n```\n"@ + file.content
        + "\n```\n\nChecklist Rules:\n"@ + rules_text(cfg.items, 0) + prompt_tail()
}

/// Builds the review prompt for one file, exactly `prompt_spec`.
pub fn build_analysis_prompt(file: &FileToAnalyze, config: &ChecklistConfig) -> (r: String)
    ensures
        r@ == prompt_spec(file@, config@),
{
    let ghost items_g = config@.items;
    let mut rules: Vec<char> = Vec::new();
    let mut i: usize = 0;
    proof {
        assert(rules@ + rules_text(items_g, 0) =~= rules_text(items_g, 0));
    }
    while i < config.items.len()
        invariant
            i <= config.items@.len(),
            items_g == config@.items,
            items_g.len() == config.items@.len(),
            rules_text(items_g, 0) == rules@ + rules_text(items_g, i as int),
        decreases config.items@.len() - i,
    {
        let ghost base = rules@;
        let item = &config.items[i];
        proof {
            assert(items_g[i as int] == config.items@[i as int]@);
        }
        let num = usize_to_chars(i + 1);
        push_all(&mut rules, &num);
        let p1 = chars_of(". [");
        push_all(&mut rules, &p1);
        let cat = chars_of(item.category.as_str());
        push_all(&mut rules, &cat);
        let p2 = chars_of("] ");
        push_all(&mut rules, &p2);
        let rl = chars_of(item.rule.as_str());
        push_all(&mut rules, &rl);
        let p3 = chars_of(" - ");
        push_all(&mut rules, &p3);
        let desc = chars_of(item.description.as_str());
        push_all(&mut rules, &desc);
        let p4 = chars_of(" (severity: ");
        push_all(&mut rules, &p4);
        let sev = chars_of(item.severity.as_str());
        push_all(&mut rules, &sev);
        let p5 = chars_of(")\n");
        push_all(&mut rules, &p5);
        proof {
            assert(rules@ =~= base + (dec_repr(i + 1 as int) + ". ["@ + items_g[i as int].category
                + "] "@ + items_g[i as int].rule + " - "@ + items_g[i as int].description
                + " (severity: "@ + items_g[i as int].severity + ")\n"@));
            assert(rules_text(items_g, 0) =~= rules@ + rules_text(items_g, i + 1));
        }
        i = i + 1;
    }
    proof {
        assert(rules_text(items_g, items_g.len() as int) =~= Seq::<char>::empty());
        assert(rules@ =~= rules_text(items_g, 0));
    }
    let mut v = chars_of(
        "You are a code review assistant. Analyze the following code file against a checklist of rules.\n\n",
    );
    let f1 = chars_of("File: ");
    push_all(&mut v, &f1);
    let path = chars_of(file.relative_path.as_str());
    push_all(&mut v, &path);
    let f2 = chars_of("\n\nCode:\n```\n");
    push_all(&mut v, &f2);
    let code = chars_of(file.content.as_str());
    push_all(&mut v, &code);
    let f3 = chars_of("\n```\n\nChecklist Rules:\n");
    push_all(&mut v, &f3);
    push_all(&mut v, &rules);
    let tail = chars_of(
        "\n\nFor each rule, determine if the code passes or fails. \n\nSPECIAL INSTRUCTIONS FOR TEST COVERAGE:\n- Identify all public functions/methods that lack corresponding tests\n- Check if test files exist (files with .test., _test., or in tests/ directory)\n- For functions with complex logic (multiple branches, loops, error handling), verify comprehensive test coverage\n- Flag any exported APIs without basic test coverage as errors\n- Check test functions for conditional logic (if/else/match/for/while). Tests should be simple and procedural\n- Flag tests containing branches or loops as they make tests harder to understand and debug\n\nProvide your analysis in the following JSON format:\n\n[\n  {\n    \"rule_number\": 1,\n    \"passed\": true,\n    \"message\": \"Explanation of why it passed or failed\",\n    \"line_number\": 42\n  }\n]\n\nInclude line_number only if you can identify a specific line. Only include rules that have findings (failures or notable passes). Respond ONLY with the JSON array, no other text.",
    );
    push_all(&mut v, &tail);
    proof {
        assert(v@ =~= prompt_spec(file@, config@));
    }
    string_from_chars(&v)
}

/// Index of the first rule that speaks of the guideline run.
pub open spec fn guideline_rule_at(items: Seq<ChecklistItemModel>, i: int) -> Option<int>
    decreases items.len() - i when 0 <= i <= items.len()
{
    if i >= items.len() {
        None
    } else if has_sub(items[i].rule, "run-guidelines"@) {
        Some(i)
    } else {
        guideline_rule_at(items, i + 1)
    }
}

/// The message the guideline finding carries.
pub open spec fn guideline_message(passed: bool, output: Seq<char>) -> Seq<char> {
    if passed {
        "make run-guidelines executed successfully"@
    } else {
        "make run-guidelines failed:\n"@ + output
    }
}

/// The findings of the project-level guideline check: one finding when the
/// checklist has a guideline rule and the run's output was recorded — it
/// passed exactly when the output records a zero exit code — and none
/// otherwise.
pub open spec fn guideline_findings(
    ctx: crate::scan::ProjectContextModel,
    cfg: ChecklistConfigModel,
) -> Seq<FindingModel> {
    match guideline_rule_at(cfg.items, 0) {
        Some(idx) => match ctx.run_guidelines_output {
            Some(output) => {
                let passed = has_sub(output, "Exit code: 0"@);
                seq![
                    FindingModel {
                        category: cfg.items[idx].category,
                        rule: cfg.items[idx].rule,
                        severity: cfg.items[idx].severity,
                        passed: passed,
                        message: guideline_message(passed, output),
                        line_number: None,
                    },
                ]
            },
            None => Seq::empty(),
        },
        None => Seq::empty(),
    }
}

/// Decides the project-level guideline check, exactly
/// `guideline_findings`, under the project-root marker path.
pub fn check_run_guidelines(project_context: &ProjectContext, config: &ChecklistConfig) -> (r:
    AnalysisResult)
    ensures
        r@.file_path == "PROJECT_ROOT"@,
        r@.findings == guideline_findings(project_context@, config@),
{
    let ghost items_g = config@.items;
    let mut findings: Vec<Finding> = Vec::new();
    let needle = chars_of("run-guidelines");
    let mut idx: usize = 0;
    let mut found = false;
    while idx < config.items.len() && !found
        invariant
            idx <= config.items@.len(),
            items_g == config@.items,
            items_g.len() == config.items@.len(),
            needle@ == "run-guidelines"@,
            !found ==> guideline_rule_at(items_g, 0) == guideline_rule_at(items_g, idx as int),
            found ==> idx < items_g.len() && guideline_rule_at(items_g, 0) == Some(idx as int),
        decreases config.items@.len() - idx + (if found {
            0int
        } else {
            1int
        }),
    {
        proof {
            assert(items_g[idx as int] == config.items@[idx as int]@);
        }
        let rv = chars_of(config.items[idx].rule.as_str());
        if contains_sub(&rv, &needle) {
            found = true;
        } else {
            idx = idx + 1;
        }
    }
    if found {
        match &project_context.run_guidelines_output {
            Some(output) => {
                let ov = chars_of(output.as_str());
                let exit_ok = chars_of("Exit code: 0");
                let passed = contains_sub(&ov, &exit_ok);
                let item = &config.items[idx];
                proof {
                    assert(items_g[idx as int] == config.items@[idx as int]@);
                }
                let message = if passed {
                    let m = chars_of("make run-guidelines executed successfully");
                    string_from_chars(&m)
                } else {
                    let mut m = chars_of("make run-guidelines failed:\n");
                    push_all(&mut m, &ov);
                    string_from_chars(&m)
                };
                let f = Finding {
                    category: item.category.clone(),
                    rule: item.rule.clone(),
                    severity: item.severity.clone(),
                    passed,
                    message,
                    line_number: None,
                };
                findings.push(f);
                proof {
                    assert(findings@.map_values(|x: Finding| x@) =~= guideline_findings(
                        project_context@,
                        config@,
                    ));
                }
            },
            None => {
                proof {
                    assert(findings@.map_values(|x: Finding| x@) =~= guideline_findings(
                        project_context@,
                        config@,
                    ));
                }
            },
        }
    } else {
        proof {
            assert(guideline_rule_at(items_g, idx as int) is None);
            assert(findings@.map_values(|x: Finding| x@) =~= guideline_findings(
                project_context@,
                config@,
            ));
        }
    }
    let pr = chars_of("PROJECT_ROOT");
    AnalysisResult { file_path: string_from_chars(&pr), findings }
}

} // verus!
