//! Architectural heuristics over a dependency listing.
//!
//! Modules are file paths; each carries the list of names its `use` lines
//! pull in. A two-step cycle (a module depending on something that depends
//! back on it) and a module with too many dependencies are reported as
//! issues; a few naming heuristics flag design patterns.

use vstd::prelude::*;

use crate::text::{
    chars_of, chars_eq, contains_sub, first_at, has_sub, is_ascii_alnum, is_space_char, lower_seq,
    path_has_component, check_path_component, push_all, string_from_chars, to_lower_chars,
    usize_to_chars, dec_repr, split_char_from, split_on_char, copy_range,
};

verus! {

/// How grave an architectural issue is.
#[derive(Debug, Clone, Copy, PartialEq, Eq, Structural)]
pub enum Severity {
    Low,
    Medium,
    High,
}

/// A severity word that names no severity.
#[derive(Debug, Clone, Copy, PartialEq, Eq, Structural)]
pub struct InvalidSeverity;

/// The severity a word names, case-insensitively.
pub open spec fn severity_of_word(s: Seq<char>) -> Result<Severity, InvalidSeverity> {
    let l = lower_seq(s);
    if l == "low"@ {
        Ok(Severity::Low)
    } else if l == "medium"@ {
        Ok(Severity::Medium)
    } else if l == "high"@ {
        Ok(Severity::High)
    } else {
        Err(InvalidSeverity)
    }
}

/// Parses a severity word, exactly `severity_of_word`.
pub fn parse_severity(s: &str) -> (r: Result<Severity, InvalidSeverity>)
    ensures
        r == severity_of_word(s@),
{
    let cs = chars_of(s);
    let l = to_lower_chars(&cs);
    let w_low = chars_of("low");
    let w_medium = chars_of("medium");
    let w_high = chars_of("high");
    if chars_eq(&l, &w_low) {
        Ok(Severity::Low)
    } else if chars_eq(&l, &w_medium) {
        Ok(Severity::Medium)
    } else if chars_eq(&l, &w_high) {
        Ok(Severity::High)
    } else {
        Err(InvalidSeverity)
    }
}

/// A design pattern the heuristics can recognize.
#[derive(Debug, Clone, Copy, PartialEq, Eq, Structural)]
pub enum PatternType {
    Singleton,
    Factory,
    Observer,
    Strategy,
    Repository,
    Service,
    Controller,
    Model,
}

/// A recognized pattern; the confidence is in hundredths, so 80 stands
/// for a confidence of eighty percent.
#[derive(Debug, Clone)]
pub struct Pattern {
    pub pattern_type: PatternType,
    pub location: String,
    pub confidence: u8,
}

/// The mathematical shape of a recognized pattern.
pub struct PatternModel {
    pub pattern_type: PatternType,
    pub location: Seq<char>,
    pub confidence: u8,
}

impl View for Pattern {
    type V = PatternModel;

    open spec fn view(&self) -> PatternModel {
        PatternModel {
            pattern_type: self.pattern_type,
            location: self.location@,
            confidence: self.confidence,
        }
    }
}

/// One architectural issue.
#[derive(Debug, Clone)]
pub struct Issue {
    pub title: String,
    pub description: String,
    pub severity: Severity,
    pub category: String,
    pub locations: Vec<String>,
    pub suggestion: String,
}

/// The mathematical shape of an issue.
pub struct IssueModel {
    pub title: Seq<char>,
    pub description: Seq<char>,
    pub severity: Severity,
    pub category: Seq<char>,
    pub locations: Seq<Seq<char>>,
    pub suggestion: Seq<char>,
}

impl View for Issue {
    type V = IssueModel;

    open spec fn view(&self) -> IssueModel {
        IssueModel {
            title: self.title@,
            description: self.description@,
            severity: self.severity,
            category: self.category@,
            locations: self.locations.deep_view(),
            suggestion: self.suggestion@,
        }
    }
}

/// The directory names never scanned.
pub open spec fn excluded_names() -> Seq<Seq<char>> {
    seq!["target"@, "node_modules"@, ".git"@, "dist"@, "build"@, "vendor"@]
}

/// A path is excluded when any of its `/`-separated components is one of
/// the excluded directory names.
pub open spec fn is_excluded_path(path: Seq<char>) -> bool {
    path_has_component(path, excluded_names())
}

/// Whether a path lies under an excluded directory, exactly
/// `is_excluded_path`.
pub fn is_excluded(path: &str) -> (r: bool)
    ensures
        r == is_excluded_path(path@),
{
    let p = chars_of(path);
    let mut names: Vec<Vec<char>> = Vec::new();
    names.push(chars_of("target"));
    names.push(chars_of("node_modules"));
    names.push(chars_of(".git"));
    names.push(chars_of("dist"));
    names.push(chars_of("build"));
    names.push(chars_of("vendor"));
    proof {
        assert(names.deep_view() =~~= excluded_names());
    }
    check_path_component(&p, &names)
}

/// The `/`-separated components of a path that name something: nonempty
/// and not the current-directory marker.
pub open spec fn named_components(parts: Seq<Seq<char>>) -> Seq<Seq<char>>
    decreases parts.len(),
{
    if parts.len() == 0 {
        Seq::empty()
    } else if parts[0].len() > 0 && parts[0] != "."@ {
        seq![parts[0]] + named_components(parts.drop_first())
    } else {
        named_components(parts.drop_first())
    }
}

/// Index of the last `.` after the first character of a name, or -1.
pub open spec fn last_dot_from(s: Seq<char>, j: int) -> int
    decreases j when j < s.len()
{
    if j < 1 {
        -1
    } else if s[j] == '.' {
        j
    } else {
        last_dot_from(s, j - 1)
    }
}

/// A file name with its extension removed: cut at the last `.` past the
/// first character; names without one, and dot-files, are kept whole.
pub open spec fn stem_of(name: Seq<char>) -> Seq<char> {
    let d = last_dot_from(name, name.len() - 1);
    if d < 0 {
        name
    } else {
        name.take(d)
    }
}

/// The module name a path denotes: the stem of its last named component;
/// a path without one, or ending in the parent-directory marker, has the
/// module name `unknown`.
pub open spec fn module_name_spec(path: Seq<char>) -> Seq<char> {
    let kept = named_components(split_char_from(path, '/', 0));
    if kept.len() == 0 || kept.last() == ".."@ {
        "unknown"@
    } else {
        stem_of(kept.last())
    }
}

/// The module name of a path, exactly `module_name_spec`.
pub fn get_module_name(path: &str) -> (r: String)
    ensures
        r@ == module_name_spec(path@),
{
    let p = chars_of(path);
    let parts = split_on_char(&p, '/');
    let ghost parts_g = split_char_from(path@, '/', 0);
    let dot = chars_of(".");
    let mut kept: Vec<Vec<char>> = Vec::new();
    let mut i: usize = 0;
    proof {
        assert(parts_g.skip(0) =~= parts_g);
        assert(kept.deep_view() + named_components(parts_g) =~~= named_components(parts_g));
    }
    while i < parts.len()
        invariant
            i <= parts@.len(),
            parts.deep_view() == parts_g,
            dot@ == "."@,
            named_components(parts_g) == kept.deep_view() + named_components(
                parts_g.skip(i as int),
            ),
        decreases parts@.len() - i,
    {
        let ghost base = kept.deep_view();
        proof {
            assert(parts_g.skip(i as int)[0] == parts_g[i as int]);
            assert(parts_g.skip(i as int).drop_first() =~= parts_g.skip(i + 1));
            assert(parts.deep_view()[i as int] == parts@[i as int]@);
        }
        if parts[i].len() > 0 && !chars_eq(&parts[i], &dot) {
            let piece = copy_range(&parts[i], 0, parts[i].len());
            proof {
                assert(piece@ =~= parts_g[i as int]);
            }
            kept.push(piece);
            proof {
                assert(kept.deep_view() =~~= base.push(parts_g[i as int]));
                assert(base.push(parts_g[i as int]) + named_components(parts_g.skip(i + 1)) =~~= base
                    + (seq![parts_g[i as int]] + named_components(parts_g.skip(i + 1))));
            }
        }
        i = i + 1;
    }
    proof {
        assert(named_components(parts_g.skip(parts_g.len() as int)) =~~= Seq::<Seq<char>>::empty());
        assert(kept.deep_view() + Seq::<Seq<char>>::empty() =~~= kept.deep_view());
    }
    if kept.len() == 0 {
        let u = chars_of("unknown");
        return string_from_chars(&u);
    }
    let last = &kept[kept.len() - 1];
    proof {
        assert(kept.deep_view().last() == kept@[kept@.len() - 1]@);
    }
    let dotdot = chars_of("..");
    if chars_eq(last, &dotdot) {
        let u = chars_of("unknown");
        return string_from_chars(&u);
    }
    // find the last dot after the first character
    let mut j: usize = last.len();
    while j > 1 && last[j - 1] != '.'
        invariant
            j <= last@.len(),
            forall|k: int| j <= k < last@.len() ==> #[trigger] last@[k] != '.',
        decreases j,
    {
        j = j - 1;
    }
    if j >= 2 && last[j - 1] == '.' {
        proof {
            lemma_last_dot_is(last@, last@.len() - 1, j - 1);
        }
        let head = copy_range(last, 0, j - 1);
        proof {
            assert(head@ =~= stem_of(kept.deep_view().last()));
        }
        string_from_chars(&head)
    } else {
        proof {
            if last@.len() > 0 {
                lemma_last_dot_none(last@, last@.len() - 1);
            }
            assert(stem_of(kept.deep_view().last()) == kept.deep_view().last());
        }
        string_from_chars(last)
    }
}

proof fn lemma_last_dot_is(s: Seq<char>, j: int, d: int)
    requires
        1 <= d <= j < s.len(),
        s[d] == '.',
        forall|k: int| d < k <= j ==> #[trigger] s[k] != '.',
    ensures
        last_dot_from(s, j) == d,
    decreases j,
{
    if j > d {
        lemma_last_dot_is(s, j - 1, d);
    }
}

proof fn lemma_last_dot_none(s: Seq<char>, j: int)
    requires
        j < s.len(),
        forall|k: int| 1 <= k <= j ==> #[trigger] s[k] != '.',
    ensures
        last_dot_from(s, j) == -1,
    decreases j,
{
    if j >= 1 {
        lemma_last_dot_none(s, j - 1);
    }
}

/// The patterns a file's text suggests: a singleton when it mentions
/// statics and `lazy_static`, a factory when it defines creation
/// functions, a repository when it speaks of repositories — in that order,
/// with fixed confidences in hundredths.
pub open spec fn patterns_spec(location: Seq<char>, content: Seq<char>) -> Seq<PatternModel> {
    let singleton: Seq<PatternModel> = if has_sub(content, "static"@) && has_sub(
        content,
        "lazy_static"@,
    ) {
        seq![
            PatternModel { pattern_type: PatternType::Singleton, location: location, confidence: 80 },
        ]
    } else {
        Seq::empty()
    };
    let factory: Seq<PatternModel> = if has_sub(content, "fn create"@) || has_sub(
        content,
        "fn new_"@,
    ) {
        seq![PatternModel { pattern_type: PatternType::Factory, location: location, confidence: 60 }]
    } else {
        Seq::empty()
    };
    let repository: Seq<PatternModel> = if has_sub(content, "Repository"@) || has_sub(
        content,
        "repo"@,
    ) {
        seq![
            PatternModel {
                pattern_type: PatternType::Repository,
                location: location,
                confidence: 70,
            },
        ]
    } else {
        Seq::empty()
    };
    singleton + factory + repository
}

/// Recognizes patterns in one file's text, exactly `patterns_spec`; the
/// location names the file scanned.
pub fn detect_patterns(location: &str, content: &str) -> (r: Vec<Pattern>)
    ensures
        r@.map_values(|p: Pattern| p@) == patterns_spec(location@, content@),
{
    let cv = chars_of(content);
    let mut out: Vec<Pattern> = Vec::new();
    let k_static = chars_of("static");
    let k_lazy = chars_of("lazy_static");
    if contains_sub(&cv, &k_static) && contains_sub(&cv, &k_lazy) {
        let lv = chars_of(location);
        out.push(
            Pattern {
                pattern_type: PatternType::Singleton,
                location: string_from_chars(&lv),
                confidence: 80,
            },
        );
    }
    let k_create = chars_of("fn create");
    let k_new = chars_of("fn new_");
    if contains_sub(&cv, &k_create) || contains_sub(&cv, &k_new) {
        let lv = chars_of(location);
        out.push(
            Pattern {
                pattern_type: PatternType::Factory,
                location: string_from_chars(&lv),
                confidence: 60,
            },
        );
    }
    let k_repository = chars_of("Repository");
    let k_repo = chars_of("repo");
    if contains_sub(&cv, &k_repository) || contains_sub(&cv, &k_repo) {
        let lv = chars_of(location);
        out.push(
            Pattern {
                pattern_type: PatternType::Repository,
                location: string_from_chars(&lv),
                confidence: 70,
            },
        );
    }
    proof {
        assert(out@.map_values(|p: Pattern| p@) =~= patterns_spec(location@, content@));
    }
    out
}

/// A dependency listing: each module (a file path) with the names its
/// `use` lines pull in, in scan order.
pub type DepEntry = (String, Vec<String>);

/// The shape of one listing entry.
pub open spec fn dep_view(e: DepEntry) -> (Seq<char>, Seq<Seq<char>>) {
    (e.0@, e.1.deep_view())
}

/// What the listing holds for a key: the value of the last entry with that
/// key, as a map built by repeated insertion would.
pub open spec fn dep_lookup(entries: Seq<(Seq<char>, Seq<Seq<char>>)>, k: Seq<char>) -> Option<
    Seq<Seq<char>>,
>
    decreases entries.len(),
{
    if entries.len() == 0 {
        None
    } else if entries.last().0 == k {
        Some(entries.last().1)
    } else {
        dep_lookup(entries.drop_last(), k)
    }
}

/// Some name in `ds` contains `m` as a substring.
pub open spec fn any_contains(ds: Seq<Seq<char>>, m: Seq<char>) -> bool {
    exists|i: int| 0 <= i < ds.len() && has_sub(#[trigger] ds[i], m)
}

/// The circular-dependency issue for one module and one of its
/// dependencies.
pub open spec fn circular_issue(m: Seq<char>, d: Seq<char>) -> IssueModel {
    IssueModel {
        title: "Circular dependency detected"@,
        description: "Circular dependency between "@ + m + " and "@ + d,
        severity: Severity::High,
        category: "architecture"@,
        locations: seq![m, d],
        suggestion: "Break the cycle by introducing an interface or abstracting shared logic"@,
    }
}

/// The issues one module's dependency list raises, from position `j` on.
pub open spec fn circular_in_entry(
    entries: Seq<(Seq<char>, Seq<Seq<char>>)>,
    m: Seq<char>,
    ds: Seq<Seq<char>>,
) -> Seq<IssueModel>
    decreases ds.len(),
{
    if ds.len() == 0 {
        Seq::empty()
    } else {
        (match dep_lookup(entries, ds[0]) {
            Some(td) => if any_contains(td, m) {
                seq![circular_issue(m, ds[0])]
            } else {
                Seq::empty()
            },
            None => Seq::empty(),
        }) + circular_in_entry(entries, m, ds.drop_first())
    }
}

/// Every two-step cycle in the listing: a module whose dependency's own
/// listed names mention the module back, reported in listing order.
pub open spec fn circular_spec(
    entries: Seq<(Seq<char>, Seq<Seq<char>>)>,
    i: int,
) -> Seq<IssueModel>
    decreases entries.len() - i when 0 <= i <= entries.len()
{
    if i >= entries.len() {
        Seq::empty()
    } else {
        circular_in_entry(entries, entries[i].0, entries[i].1) + circular_spec(entries, i + 1)
    }
}

/// The deep view of a dependency listing.
pub open spec fn deps_view(entries: Seq<DepEntry>) -> Seq<(Seq<char>, Seq<Seq<char>>)> {
    entries.map_values(|e: DepEntry| dep_view(e))
}

/// Finds every two-step cycle, exactly `circular_spec` over the listing.
/// Unlike a hash map, the listing keeps its order, so the issues come out
/// in the order the modules were listed.
pub fn detect_circular_dependencies(dependencies: &Vec<DepEntry>) -> (r: Vec<Issue>)
    ensures
        r@.map_values(|x: Issue| x@) == circular_spec(deps_view(dependencies@), 0),
{
    let ghost ev = deps_view(dependencies@);
    let mut out: Vec<Issue> = Vec::new();
    let mut i: usize = 0;
    proof {
        assert(out@.map_values(|x: Issue| x@) + circular_spec(ev, 0) =~= circular_spec(ev, 0));
    }
    while i < dependencies.len()
        invariant
            i <= dependencies@.len(),
            ev == deps_view(dependencies@),
            circular_spec(ev, 0) == out@.map_values(|x: Issue| x@) + circular_spec(ev, i as int),
        decreases dependencies@.len() - i,
    {
        let entry = &dependencies[i];
        let ghost m = ev[i as int].0;
        let ghost ds = ev[i as int].1;
        proof {
            assert(ev[i as int] == dep_view(dependencies@[i as int]));
            assert(circular_spec(ev, i as int) == circular_in_entry(ev, m, ds) + circular_spec(
                ev,
                i + 1,
            ));
        }
        let mut j: usize = 0;
        let ghost mid0 = out@.map_values(|x: Issue| x@);
        proof {
            assert(ds.skip(0) =~= ds);
            assert(mid0 + (circular_in_entry(ev, m, ds) + circular_spec(ev, i + 1)) =~= (mid0
                + circular_in_entry(ev, m, ds)) + circular_spec(ev, i + 1));
        }
        while j < entry.1.len()
            invariant
                j <= entry.1@.len(),
                ev == deps_view(dependencies@),
                i < dependencies@.len(),
                entry == dependencies@[i as int],
                m == ev[i as int].0,
                ds == ev[i as int].1,
                ds == entry.1.deep_view(),
                m == entry.0@,
                out@.map_values(|x: Issue| x@) + circular_in_entry(ev, m, ds.skip(j as int))
                    == mid0 + circular_in_entry(ev, m, ds),
            decreases entry.1@.len() - j,
        {
            let ghost base = out@.map_values(|x: Issue| x@);
            proof {
                assert(ds.skip(j as int)[0] == ds[j as int]);
                assert(ds.skip(j as int).drop_first() =~= ds.skip(j + 1));
                assert(ds[j as int] == entry.1@[j as int]@);
            }
            let d = &entry.1[j];
            match lookup_deps(dependencies, d) {
                Some(ti) => {
                    let target = &dependencies[ti];
                    let mv = chars_of(entry.0.as_str());
                    if any_name_contains(&target.1, &mv) {
                        let dv = chars_of(d.as_str());
                        let mut desc = chars_of("Circular dependency between ");
                        push_all(&mut desc, &mv);
                        let and = chars_of(" and ");
                        push_all(&mut desc, &and);
                        push_all(&mut desc, &dv);
                        let title = chars_of("Circular dependency detected");
                        let cat = chars_of("architecture");
                        let sugg = chars_of(
                            "Break the cycle by introducing an interface or abstracting shared logic",
                        );
                        let mut locations: Vec<String> = Vec::new();
                        locations.push(string_from_chars(&mv));
                        locations.push(string_from_chars(&dv));
                        let issue = Issue {
                            title: string_from_chars(&title),
                            description: string_from_chars(&desc),
                            severity: Severity::High,
                            category: string_from_chars(&cat),
                            locations,
                            suggestion: string_from_chars(&sugg),
                        };
                        proof {
                            assert(issue@.locations =~= seq![m, ds[j as int]]);
                            assert(issue@.description =~= circular_issue(m, ds[j as int]).description);
                            assert(issue@ == circular_issue(m, ds[j as int]));
                        }
                        out.push(issue);
                        proof {
                            assert(out@.map_values(|x: Issue| x@) =~= base.push(
                                circular_issue(m, ds[j as int]),
                            ));
                            assert(base.push(circular_issue(m, ds[j as int])) + circular_in_entry(
                                ev,
                                m,
                                ds.skip(j + 1),
                            ) =~= base + (seq![circular_issue(m, ds[j as int])] + circular_in_entry(
                                ev,
                                m,
                                ds.skip(j + 1),
                            )));
                        }
                    }
                },
                None => {},
            }
            j = j + 1;
        }
        proof {
            assert(ds.skip(ds.len() as int) =~= Seq::<Seq<char>>::empty());
            assert(out@.map_values(|x: Issue| x@) + Seq::<IssueModel>::empty() =~= out@.map_values(
                |x: Issue| x@,
            ));
        }
        i = i + 1;
    }
    proof {
        assert(out@.map_values(|x: Issue| x@) + Seq::<IssueModel>::empty() =~= out@.map_values(
            |x: Issue| x@,
        ));
    }
    out
}

/// Index of the last listing entry with the given key, the one a map
/// built by repeated insertion would hold.
fn lookup_deps(dependencies: &Vec<DepEntry>, k: &String) -> (r: Option<usize>)
    ensures
        match r {
            Some(ti) => ti < dependencies@.len() && dep_lookup(deps_view(dependencies@), k@)
                == Some(dependencies@[ti as int].1.deep_view()),
            None => dep_lookup(deps_view(dependencies@), k@) is None,
        },
{
    let ghost ev = deps_view(dependencies@);
    let mut i: usize = dependencies.len();
    proof {
        assert(ev.take(ev.len() as int) =~= ev);
    }
    while i > 0
        invariant
            i <= dependencies@.len(),
            ev == deps_view(dependencies@),
            dep_lookup(ev, k@) == dep_lookup(ev.take(i as int), k@),
        decreases i,
    {
        let kv = chars_of(k.as_str());
        let ev_name = chars_of(dependencies[i - 1].0.as_str());
        proof {
            assert(ev.take(i as int).last() == ev[i - 1]);
            assert(ev[i - 1] == dep_view(dependencies@[i - 1]));
            assert(ev.take(i as int).drop_last() =~= ev.take(i - 1));
        }
        if chars_eq(&ev_name, &kv) {
            return Some(i - 1);
        }
        i = i - 1;
    }
    proof {
        assert(ev.take(0) =~= Seq::<(Seq<char>, Seq<Seq<char>>)>::empty());
    }
    None
}

/// Whether any name in the list contains `m`, exactly `any_contains`.
fn any_name_contains(names: &Vec<String>, m: &Vec<char>) -> (r: bool)
    ensures
        r == any_contains(names.deep_view(), m@),
{
    let mut i: usize = 0;
    while i < names.len()
        invariant
            i <= names@.len(),
            forall|b: int| 0 <= b < i ==> !has_sub(#[trigger] names.deep_view()[b], m@),
        decreases names@.len() - i,
    {
        let nv = chars_of(names[i].as_str());
        if contains_sub(&nv, m) {
            proof {
                assert(names.deep_view()[i as int] == names@[i as int]@);
            }
            return true;
        }
        proof {
            assert(names.deep_view()[i as int] == names@[i as int]@);
        }
        i = i + 1;
    }
    false
}

/// The tight-coupling issue for one module with its dependency count.
pub open spec fn coupling_issue(m: Seq<char>, count: int) -> IssueModel {
    IssueModel {
        title: "Tight coupling detected"@,
        description: m + " depends on "@ + dec_repr(count) + " modules"@,
        severity: Severity::Medium,
        category: "coupling"@,
        locations: seq![m],
        suggestion: "Reduce dependencies by using interfaces and dependency injection"@,
    }
}

/// The coupling issues of a listing from position `i` on: one per module
/// with more than fifteen dependencies, in listing order.
pub open spec fn coupling_spec(
    entries: Seq<(Seq<char>, Seq<Seq<char>>)>,
    i: int,
) -> Seq<IssueModel>
    decreases entries.len() - i when 0 <= i <= entries.len()
{
    if i >= entries.len() {
        Seq::empty()
    } else {
        (if entries[i].1.len() > 15 {
            seq![coupling_issue(entries[i].0, entries[i].1.len() as int)]
        } else {
            Seq::empty()
        }) + coupling_spec(entries, i + 1)
    }
}

/// Flags every module with more than fifteen dependencies, exactly
/// `coupling_spec`; the module listing alone decides, so the known module
/// names play no part.
pub fn detect_tight_coupling(dependencies: &Vec<DepEntry>, _all_modules: &Vec<String>) -> (r: Vec<
    Issue,
>)
    ensures
        r@.map_values(|x: Issue| x@) == coupling_spec(deps_view(dependencies@), 0),
{
    let ghost ev = deps_view(dependencies@);
    let mut out: Vec<Issue> = Vec::new();
    let mut i: usize = 0;
    proof {
        assert(out@.map_values(|x: Issue| x@) + coupling_spec(ev, 0) =~= coupling_spec(ev, 0));
    }
    while i < dependencies.len()
        invariant
            i <= dependencies@.len(),
            ev == deps_view(dependencies@),
            coupling_spec(ev, 0) == out@.map_values(|x: Issue| x@) + coupling_spec(ev, i as int),
        decreases dependencies@.len() - i,
    {
        let ghost base = out@.map_values(|x: Issue| x@);
        let entry = &dependencies[i];
        proof {
            assert(ev[i as int] == dep_view(dependencies@[i as int]));
            assert(ev[i as int].1.len() == entry.1@.len());
        }
        if entry.1.len() > 15 {
            let mv = chars_of(entry.0.as_str());
            let mut desc = copy_range(&mv, 0, mv.len());
            let dep_on = chars_of(" depends on ");
            push_all(&mut desc, &dep_on);
            let count = crate::text::usize_to_chars(entry.1.len());
            push_all(&mut desc, &count);
            let mods = chars_of(" modules");
            push_all(&mut desc, &mods);
            let title = chars_of("Tight coupling detected");
            let cat = chars_of("coupling");
            let sugg = chars_of("Reduce dependencies by using interfaces and dependency injection");
            let mut locations: Vec<String> = Vec::new();
            locations.push(string_from_chars(&mv));
            let issue = Issue {
                title: string_from_chars(&title),
                description: string_from_chars(&desc),
                severity: Severity::Medium,
                category: string_from_chars(&cat),
                locations,
                suggestion: string_from_chars(&sugg),
            };
            proof {
                assert(issue@.locations =~= seq![ev[i as int].0]);
                assert(issue@.description =~= coupling_issue(
                    ev[i as int].0,
                    ev[i as int].1.len() as int,
                ).description);
                assert(issue@ == coupling_issue(ev[i as int].0, ev[i as int].1.len() as int));
            }
            out.push(issue);
            proof {
                assert(out@.map_values(|x: Issue| x@) =~= base.push(
                    coupling_issue(ev[i as int].0, ev[i as int].1.len() as int),
                ));
                assert(base.push(coupling_issue(ev[i as int].0, ev[i as int].1.len() as int))
                    + coupling_spec(ev, i + 1) =~= base + (seq![
                    coupling_issue(ev[i as int].0, ev[i as int].1.len() as int),
                ] + coupling_spec(ev, i + 1)));
            }
        }
        i = i + 1;
    }
    proof {
        assert(out@.map_values(|x: Issue| x@) + Seq::<IssueModel>::empty() =~= out@.map_values(
            |x: Issue| x@,
        ));
    }
    out
}


/// A character of a dependency name: an ASCII word character or a colon.
pub open spec fn is_dep_char(c: char) -> bool {
    is_ascii_alnum(c) || c == '_' || c == ':'
}

fn check_dep_char(c: char) -> (r: bool)
    ensures
        r == is_dep_char(c),
{
    crate::text::check_alnum(c) || c == '_' || c == ':'
}

/// A `use` line's shape matches at `j`: the word `use`, at least one
/// space, and a dependency name.
pub open spec fn use_at(s: Seq<char>, j: int) -> bool {
    let b = first_at(s, |c: char| !is_space_char(c), j + 3);
    &&& 0 <= j
    &&& j + 3 < s.len()
    &&& crate::text::match_at(s, seq!['u', 's', 'e'], j)
    &&& is_space_char(s[j + 3])
    &&& b < s.len()
    &&& is_dep_char(s[b])
}

/// Where the dependency name of a `use` match at `j` starts.
pub open spec fn dep_start(s: Seq<char>, j: int) -> int {
    first_at(s, |c: char| !is_space_char(c), j + 3)
}

/// Where a dependency name starting at `b` ends.
pub open spec fn dep_end(s: Seq<char>, b: int) -> int {
    first_at(s, |c: char| !is_dep_char(c), b)
}

/// The first `use` match at or after `i`.
pub open spec fn use_pos(s: Seq<char>, i: int) -> Option<int>
    decreases s.len() - i when 0 <= i <= s.len()
{
    if i >= s.len() {
        None
    } else if use_at(s, i) {
        Some(i)
    } else {
        use_pos(s, i + 1)
    }
}

proof fn lemma_use_pos_bounds(s: Seq<char>, i: int)
    requires
        0 <= i <= s.len(),
    ensures
        use_pos(s, i) matches Some(j) ==> i <= j && use_at(s, j),
    decreases s.len() - i,
{
    if i < s.len() && !use_at(s, i) {
        lemma_use_pos_bounds(s, i + 1);
    }
}

proof fn lemma_use_pos_skip(s: Seq<char>, i: int, j: int)
    requires
        0 <= i <= j <= s.len(),
        forall|k: int| i <= k < j ==> !use_at(s, k),
    ensures
        use_pos(s, i) == use_pos(s, j),
    decreases j - i,
{
    if i < j {
        lemma_use_pos_skip(s, i + 1, j);
    }
}

/// The dependency names the text's `use` lines pull in, scanning from `i`:
/// each match contributes the name after its `use`, and scanning resumes
/// past that name. Names are runs of ASCII word characters and colons.
pub open spec fn deps_spec(s: Seq<char>, i: int) -> Seq<Seq<char>>
    decreases s.len() - i when 0 <= i <= s.len() via deps_spec_dec
{
    match use_pos(s, i) {
        None => Seq::empty(),
        Some(j) => {
            let b = dep_start(s, j);
            let c = dep_end(s, b);
            seq![s.subrange(b, c)] + deps_spec(s, c)
        },
    }
}

#[via_fn]
proof fn deps_spec_dec(s: Seq<char>, i: int) {
    if 0 <= i <= s.len() {
        lemma_use_pos_bounds(s, i);
        match use_pos(s, i) {
            Some(j) => {
                crate::text::lemma_first_at(s, |c: char| !is_space_char(c), j + 3);
                let b = dep_start(s, j);
                crate::text::lemma_first_at(s, |c: char| !is_dep_char(c), b);
            },
            None => {},
        }
    }
}

/// Collects the names the text's `use` lines pull in, exactly `deps_spec`.
pub fn extract_dependencies(content: &str) -> (r: Vec<String>)
    ensures
        r@.map_values(|d: String| d@) == deps_spec(content@, 0),
{
    let cs = chars_of(content);
    let mut out: Vec<String> = Vec::new();
    let mut i: usize = 0;
    proof {
        assert(out@.map_values(|d: String| d@) + deps_spec(content@, 0) =~= deps_spec(
            content@,
            0,
        ));
    }
    loop
        invariant
            i <= cs@.len(),
            cs@ == content@,
            cs@.len() == cs.len(),
            deps_spec(content@, 0) == out@.map_values(|d: String| d@) + deps_spec(
                content@,
                i as int,
            ),
        decreases cs@.len() - i,
    {
        // find the next use match
        let mut j: usize = i;
        let mut found = false;
        while j < cs.len() && !found
            invariant
                i <= j <= cs@.len(),
                cs@ == content@,
                cs@.len() == cs.len(),
                forall|k: int| i <= k < j ==> !use_at(content@, k),
                found ==> j < cs@.len() && use_at(content@, j as int),
            decreases cs@.len() - j + (if found {
                0int
            } else {
                1int
            }),
        {
            if check_use_at(&cs, j) {
                found = true;
            } else {
                j = j + 1;
            }
        }
        if !found {
            proof {
                lemma_use_pos_skip(content@, i as int, cs@.len() as int);
                assert(use_pos(content@, i as int) is None);
                assert(deps_spec(content@, i as int) =~= Seq::<Seq<char>>::empty());
                assert(out@.map_values(|d: String| d@) + Seq::<Seq<char>>::empty()
                    =~= out@.map_values(|d: String| d@));
            }
            return out;
        }
        proof {
            lemma_use_pos_skip(content@, i as int, j as int);
        }
        let ghost base = out@.map_values(|d: String| d@);
        let mut b: usize = j + 3;
        while b < cs.len() && crate::text::check_space(cs[b])
            invariant
                j + 3 <= b <= cs@.len(),
                cs@ == content@,
                forall|k: int| j + 3 <= k < b ==> is_space_char(#[trigger] content@[k]),
            decreases cs@.len() - b,
        {
            b = b + 1;
        }
        proof {
            crate::text::lemma_first_at_is(
                content@,
                |c: char| !is_space_char(c),
                j + 3 as int,
                b as int,
            );
        }
        let mut c: usize = b;
        while c < cs.len() && check_dep_char(cs[c])
            invariant
                b <= c <= cs@.len(),
                cs@ == content@,
                forall|k: int| b <= k < c ==> is_dep_char(#[trigger] content@[k]),
            decreases cs@.len() - c,
        {
            c = c + 1;
        }
        proof {
            crate::text::lemma_first_at_is(content@, |c: char| !is_dep_char(c), b as int, c as int);
        }
        let name = copy_range(&cs, b, c);
        out.push(string_from_chars(&name));
        proof {
            assert(deps_spec(content@, i as int) == seq![content@.subrange(b as int, c as int)]
                + deps_spec(content@, c as int));
            assert(out@.map_values(|d: String| d@) =~= base.push(
                content@.subrange(b as int, c as int),
            ));
            assert(base.push(content@.subrange(b as int, c as int)) + deps_spec(
                content@,
                c as int,
            ) =~= base + (seq![content@.subrange(b as int, c as int)] + deps_spec(
                content@,
                c as int,
            )));
            assert(c > i) by {
                crate::text::lemma_first_at(content@, |x: char| !is_space_char(x), j + 3 as int);
            }
        }
        i = c;
    }
}

/// Tests one position for a `use` match, executably.
fn check_use_at(s: &Vec<char>, j: usize) -> (r: bool)
    requires
        j <= s@.len(),
    ensures
        r == use_at(s@, j as int),
{
    let needle: Vec<char> = vec!['u', 's', 'e'];
    proof {
        assert(needle@ =~= seq!['u', 's', 'e']);
    }
    if s.len() - j < 4 {
        return false;
    }
    if !crate::text::check_match_at(s, &needle, j) {
        return false;
    }
    if !crate::text::check_space(s[j + 3]) {
        return false;
    }
    let mut b: usize = j + 3;
    while b < s.len() && crate::text::check_space(s[b])
        invariant
            j + 3 <= b <= s@.len(),
            forall|k: int| j + 3 <= k < b ==> is_space_char(#[trigger] s@[k]),
        decreases s@.len() - b,
    {
        b = b + 1;
    }
    proof {
        crate::text::lemma_first_at_is(s@, |c: char| !is_space_char(c), j + 3 as int, b as int);
    }
    if b >= s.len() {
        return false;
    }
    check_dep_char(s[b])
}

} // verus!
