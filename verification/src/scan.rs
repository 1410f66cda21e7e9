//! Selection of repository files against a checklist's glob patterns.
//!
//! The checklist names include and exclude patterns in glob syntax. A file
//! is kept when it matches some valid include pattern — or when no include
//! pattern is valid at all — and matches no valid exclude pattern;
//! patterns that do not compile are passed over. The glob language itself
//! belongs to the `glob` crate, so matching stands behind a trusted
//! wrapper and the contracts speak of its outcome by name.

use vstd::prelude::*;

use crate::checklist::ChecklistConfig;

verus! {

/// One file read for analysis: its text and its path inside the
/// repository.
#[derive(Debug, Clone)]
pub struct FileToAnalyze {
    pub content: String,
    pub relative_path: String,
}

/// The mathematical shape of a file to analyze.
pub struct FileToAnalyzeModel {
    pub content: Seq<char>,
    pub relative_path: Seq<char>,
}

impl View for FileToAnalyze {
    type V = FileToAnalyzeModel;

    open spec fn view(&self) -> FileToAnalyzeModel {
        FileToAnalyzeModel { content: self.content@, relative_path: self.relative_path@ }
    }
}

/// What was learned about the project as a whole before analysis.
#[derive(Debug, Clone)]
pub struct ProjectContext {
    pub has_run_guidelines: bool,
    pub run_guidelines_output: Option<String>,
}

/// The mathematical shape of the project context.
pub struct ProjectContextModel {
    pub has_run_guidelines: bool,
    pub run_guidelines_output: Option<Seq<char>>,
}

impl View for ProjectContext {
    type V = ProjectContextModel;

    open spec fn view(&self) -> ProjectContextModel {
        ProjectContextModel {
            has_run_guidelines: self.has_run_guidelines,
            run_guidelines_output: match self.run_guidelines_output {
                Some(o) => Some(o@),
                None => None,
            },
        }
    }
}

/// Whether a pattern is a well-formed glob: what `glob::Pattern::new`
/// accepts. A function of the pattern alone.
pub uninterp spec fn glob_valid(pattern: Seq<char>) -> bool;

/// Whether a well-formed glob matches a path: what
/// `glob::Pattern::matches` answers. A function of pattern and path alone.
pub uninterp spec fn glob_match(pattern: Seq<char>, path: Seq<char>) -> bool;

/// Relies on `glob::Pattern::new` and `glob::Pattern::matches`: compiling
/// a pattern fails or succeeds by the pattern's text alone, and a compiled
/// pattern answers by the pattern's and the path's text alone.
#[verifier::external_body]
fn glob_matches(pattern: &str, path: &str) -> (r: Option<bool>)
    ensures
        r is Some <==> glob_valid(pattern@),
        r matches Some(b) ==> b == glob_match(pattern@, path@),
{
    match glob::Pattern::new(pattern) {
        Ok(p) => Some(p.matches(path)),
        Err(_) => None,
    }
}

/// Some pattern in the list is a well-formed glob.
pub open spec fn any_valid(ps: Seq<Seq<char>>) -> bool {
    exists|i: int| 0 <= i < ps.len() && glob_valid(#[trigger] ps[i])
}

/// Some well-formed pattern in the list matches the path.
pub open spec fn any_glob_match(ps: Seq<Seq<char>>, path: Seq<char>) -> bool {
    exists|i: int| 0 <= i < ps.len() && glob_valid(#[trigger] ps[i]) && glob_match(ps[i], path)
}

/// Whether the checklist keeps a file: it must match some valid include
/// pattern unless none is valid, and no valid exclude pattern.
pub open spec fn keep_file(cfg: crate::checklist::ChecklistConfigModel, path: Seq<char>) -> bool {
    &&& (!any_valid(cfg.file_patterns) || any_glob_match(cfg.file_patterns, path))
    &&& !any_glob_match(cfg.exclude_patterns, path)
}

/// The files the checklist keeps, in order.
pub open spec fn filtered_files(
    files: Seq<FileToAnalyze>,
    cfg: crate::checklist::ChecklistConfigModel,
) -> Seq<FileToAnalyze>
    decreases files.len(),
{
    if files.len() == 0 {
        Seq::empty()
    } else if keep_file(cfg, files[0].relative_path@) {
        seq![files[0]] + filtered_files(files.drop_first(), cfg)
    } else {
        filtered_files(files.drop_first(), cfg)
    }
}

/// Tests the patterns of one list against a path: whether any is valid,
/// and whether any valid one matches.
fn scan_patterns(patterns: &Vec<String>, path: &str) -> (r: (bool, bool))
    ensures
        r.0 == any_valid(patterns.deep_view()),
        r.1 == any_glob_match(patterns.deep_view(), path@),
{
    let mut has_valid = false;
    let mut matched = false;
    let mut i: usize = 0;
    while i < patterns.len()
        invariant
            i <= patterns@.len(),
            has_valid == exists|k: int|
                0 <= k < i && glob_valid(#[trigger] patterns.deep_view()[k]),
            matched == exists|k: int|
                0 <= k < i && glob_valid(#[trigger] patterns.deep_view()[k]) && glob_match(
                    patterns.deep_view()[k],
                    path@,
                ),
        decreases patterns@.len() - i,
    {
        proof {
            assert(patterns.deep_view()[i as int] == patterns@[i as int]@);
        }
        match glob_matches(patterns[i].as_str(), path) {
            Some(b) => {
                proof {
                    assert(glob_valid(patterns.deep_view()[i as int]));
                }
                has_valid = true;
                if b {
                    matched = true;
                }
            },
            None => {},
        }
        i = i + 1;
    }
    (has_valid, matched)
}

/// Keeps the files the checklist's patterns keep, in their order —
/// exactly `filtered_files`.
pub fn filter_by_patterns(files: Vec<FileToAnalyze>, config: &ChecklistConfig) -> (r: Vec<
    FileToAnalyze,
>)
    ensures
        r@ == filtered_files(files@, config@),
{
    let ghost fv = files@;
    let ghost cfg = config@;
    let mut out: Vec<FileToAnalyze> = Vec::new();
    let mut i: usize = 0;
    proof {
        assert(fv.skip(0) =~= fv);
        assert(out@ + filtered_files(fv, cfg) =~= filtered_files(fv, cfg));
    }
    while i < files.len()
        invariant
            i <= files@.len(),
            fv == files@,
            cfg == config@,
            filtered_files(fv, cfg) == out@ + filtered_files(fv.skip(i as int), cfg),
        decreases files@.len() - i,
    {
        let ghost base = out@;
        proof {
            assert(fv.skip(i as int)[0] == fv[i as int]);
            assert(fv.skip(i as int).drop_first() =~= fv.skip(i + 1));
        }
        let f = &files[i];
        let (inc_valid, inc_match) = scan_patterns(&config.file_patterns, f.relative_path.as_str());
        let (_, exc_match) = scan_patterns(&config.exclude_patterns, f.relative_path.as_str());
        if (!inc_valid || inc_match) && !exc_match {
            let kept = FileToAnalyze {
                content: f.content.clone(),
                relative_path: f.relative_path.clone(),
            };
            proof {
                assert(kept == fv[i as int]);
            }
            out.push(kept);
            proof {
                assert(out@ =~= base.push(fv[i as int]));
                assert(base.push(fv[i as int]) + filtered_files(fv.skip(i + 1), cfg) =~= base + (seq![
                    fv[i as int],
                ] + filtered_files(fv.skip(i + 1), cfg)));
            }
        }
        i = i + 1;
    }
    proof {
        assert(fv.skip(fv.len() as int) =~= Seq::<FileToAnalyze>::empty());
        assert(out@ + Seq::<FileToAnalyze>::empty() =~= out@);
    }
    out
}

} // verus!
