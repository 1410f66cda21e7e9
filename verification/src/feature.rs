//! Classification of feature requests.
//!
//! A request is either an issue number or a prose description. A
//! description's wording decides what kind of feature it asks for and how
//! involved it is; bullet and numbered lines become acceptance criteria,
//! and file-like tokens in the text name the files likely to be touched —
//! whether those files exist is for the caller to check.

use vstd::prelude::*;

use crate::text::{
    all_digits, chars_of, check_alnum, check_digit, contains_sub, copy_range, dec_value, has_sub,
    is_ascii_alnum, is_digit_char, lemma_first_at_is, lines_of, lower_seq, parse_u32_digits,
    push_all, seq_any_in, split_lines, split_words, string_from_chars, check_any_in, to_lower_chars,
    trim_chars, trim_seq, words_of, leading_char_count, lemma_leading_char_count,
};

verus! {

/// What kind of work a feature request asks for.
#[derive(Debug, Clone, Copy, PartialEq, Eq, Structural)]
pub enum FeatureType {
    NewFunction,
    NewModule,
    ApiEndpoint,
    UiComponent,
    DataModel,
    Integration,
    Enhancement,
}

/// How involved the work is.
#[derive(Debug, Clone, Copy, PartialEq, Eq, Structural)]
pub enum Complexity {
    Simple,
    Moderate,
    Complex,
}

/// A request that could not be analyzed.
#[derive(Debug, Clone, Copy, PartialEq, Eq, Structural)]
pub struct FeatureRequestError;

/// What an analysis of a feature request concludes.
#[derive(Debug, Clone)]
pub struct FeatureSpec {
    pub description: String,
    pub feature_type: FeatureType,
    pub complexity: Complexity,
    pub affected_files: Vec<String>,
    pub dependencies: Vec<String>,
    pub acceptance_criteria: Vec<String>,
}

/// The mathematical shape of an analysis.
pub struct FeatureSpecModel {
    pub description: Seq<char>,
    pub feature_type: FeatureType,
    pub complexity: Complexity,
    pub affected_files: Seq<Seq<char>>,
    pub dependencies: Seq<Seq<char>>,
    pub acceptance_criteria: Seq<Seq<char>>,
}

impl View for FeatureSpec {
    type V = FeatureSpecModel;

    open spec fn view(&self) -> FeatureSpecModel {
        FeatureSpecModel {
            description: self.description@,
            feature_type: self.feature_type,
            complexity: self.complexity,
            affected_files: self.affected_files.deep_view(),
            dependencies: self.dependencies.deep_view(),
            acceptance_criteria: self.acceptance_criteria.deep_view(),
        }
    }
}

/// An issue reference: an optional `#`, then one or more digits denoting a
/// number that fits.
pub open spec fn issue_number_spec(s: Seq<char>) -> Option<u32> {
    let t = if s.len() > 0 && s[0] == '#' {
        s.drop_first()
    } else {
        s
    };
    if t.len() > 0 && all_digits(t) && dec_value(t) <= u32::MAX {
        Some(dec_value(t) as u32)
    } else {
        None
    }
}

/// Reads an issue reference, exactly `issue_number_spec`.
pub fn parse_issue_number(s: &str) -> (r: Option<u32>)
    ensures
        r == issue_number_spec(s@),
{
    let cs = chars_of(s);
    if cs.len() > 0 && cs[0] == '#' {
        let rest = copy_range(&cs, 1, cs.len());
        proof {
            assert(rest@ =~= s@.drop_first());
        }
        parse_u32_digits(&rest)
    } else {
        parse_u32_digits(&cs)
    }
}

/// The kind of feature a description asks for: decided by the first group
/// of keywords its lowercased text contains.
pub open spec fn feature_type_spec(description: Seq<char>) -> FeatureType {
    let l = lower_seq(description);
    if has_sub(l, "function"@) || has_sub(l, "method"@) {
        FeatureType::NewFunction
    } else if has_sub(l, "module"@) || has_sub(l, "package"@) {
        FeatureType::NewModule
    } else if has_sub(l, "api"@) || has_sub(l, "endpoint"@) || has_sub(l, "route"@) {
        FeatureType::ApiEndpoint
    } else if has_sub(l, "ui"@) || has_sub(l, "component"@) || has_sub(l, "view"@) {
        FeatureType::UiComponent
    } else if has_sub(l, "model"@) || has_sub(l, "schema"@) || has_sub(l, "database"@) {
        FeatureType::DataModel
    } else if has_sub(l, "integration"@) || has_sub(l, "connect"@) {
        FeatureType::Integration
    } else {
        FeatureType::Enhancement
    }
}

/// The kind of feature, exactly `feature_type_spec`.
pub fn determine_feature_type(description: &str) -> (r: FeatureType)
    ensures
        r == feature_type_spec(description@),
{
    let cv = chars_of(description);
    let l = to_lower_chars(&cv);
    let k_function = chars_of("function");
    let k_method = chars_of("method");
    if contains_sub(&l, &k_function) || contains_sub(&l, &k_method) {
        return FeatureType::NewFunction;
    }
    let k_module = chars_of("module");
    let k_package = chars_of("package");
    if contains_sub(&l, &k_module) || contains_sub(&l, &k_package) {
        return FeatureType::NewModule;
    }
    let k_api = chars_of("api");
    let k_endpoint = chars_of("endpoint");
    let k_route = chars_of("route");
    if contains_sub(&l, &k_api) || contains_sub(&l, &k_endpoint) || contains_sub(&l, &k_route) {
        return FeatureType::ApiEndpoint;
    }
    let k_ui = chars_of("ui");
    let k_component = chars_of("component");
    let k_view = chars_of("view");
    if contains_sub(&l, &k_ui) || contains_sub(&l, &k_component) || contains_sub(&l, &k_view) {
        return FeatureType::UiComponent;
    }
    let k_model = chars_of("model");
    let k_schema = chars_of("schema");
    let k_database = chars_of("database");
    if contains_sub(&l, &k_model) || contains_sub(&l, &k_schema) || contains_sub(&l, &k_database) {
        return FeatureType::DataModel;
    }
    let k_integration = chars_of("integration");
    let k_connect = chars_of("connect");
    if contains_sub(&l, &k_integration) || contains_sub(&l, &k_connect) {
        return FeatureType::Integration;
    }
    FeatureType::Enhancement
}

/// The words that mark a request as complex on their own.
pub open spec fn complex_keywords() -> Seq<Seq<char>> {
    seq!["complex"@, "multiple"@, "integration"@, "system"@, "architecture"@]
}

/// How involved a description sounds: complex past fifty words or when a
/// whole lowercased word is one of the complexity keywords, moderate past
/// twenty words, simple otherwise.
pub open spec fn complexity_of_description(description: Seq<char>) -> Complexity {
    let wc = words_of(description).len();
    let kw = seq_any_in(words_of(lower_seq(description)), complex_keywords());
    if wc > 50 || kw {
        Complexity::Complex
    } else if wc > 20 {
        Complexity::Moderate
    } else {
        Complexity::Simple
    }
}

/// How involved the work is, exactly `complexity_of_description`; the
/// repository path plays no part in the estimate.
pub fn determine_complexity(description: &str, _repo_path: &str) -> (r: Result<
    Complexity,
    FeatureRequestError,
>)
    ensures
        r == Ok::<Complexity, FeatureRequestError>(complexity_of_description(description@)),
{
    let cv = chars_of(description);
    let raw_words = split_words(&cv);
    let wc = raw_words.len();
    proof {
        assert(raw_words.deep_view().len() == words_of(description@).len());
    }
    let l = to_lower_chars(&cv);
    let low_words = split_words(&l);
    let mut keys: Vec<Vec<char>> = Vec::new();
    keys.push(chars_of("complex"));
    keys.push(chars_of("multiple"));
    keys.push(chars_of("integration"));
    keys.push(chars_of("system"));
    keys.push(chars_of("architecture"));
    proof {
        assert(keys.deep_view() =~~= complex_keywords());
    }
    let kw = check_any_in(&low_words, &keys);
    if wc > 50 || kw {
        Ok(Complexity::Complex)
    } else if wc > 20 {
        Ok(Complexity::Moderate)
    } else {
        Ok(Complexity::Simple)
    }
}

/// The criterion one line contributes: after trimming, a line opening with
/// a dash or an asterisk yields its text with every leading dash removed
/// and trimmed again; a line opening with a single digit followed by `.` or
/// `)` yields the text after that pair, trimmed. The asterisk itself is not
/// removed, and only one leading digit is recognized.
pub open spec fn criterion_of_line(l: Seq<char>) -> Option<Seq<char>> {
    let t = trim_seq(l);
    if t.len() > 0 && (t[0] == '-' || t[0] == '*') {
        Some(trim_seq(t.skip(leading_char_count(t, '-'))))
    } else if t.len() >= 2 && is_digit_char(t[0]) && (t[1] == '.' || t[1] == ')') {
        Some(trim_seq(t.skip(2)))
    } else {
        None
    }
}

/// The criteria of a sequence of lines, in order.
pub open spec fn criteria_of_lines(ls: Seq<Seq<char>>) -> Seq<Seq<char>>
    decreases ls.len(),
{
    if ls.len() == 0 {
        Seq::empty()
    } else {
        match criterion_of_line(ls[0]) {
            Some(c) => seq![c] + criteria_of_lines(ls.drop_first()),
            None => criteria_of_lines(ls.drop_first()),
        }
    }
}

/// The acceptance criteria of a description: its bullet and single-digit
/// numbered lines.
pub open spec fn criteria_spec(description: Seq<char>) -> Seq<Seq<char>> {
    criteria_of_lines(lines_of(description))
}

/// Collects the acceptance criteria, exactly `criteria_spec`.
pub fn extract_acceptance_criteria(description: &str) -> (r: Vec<String>)
    ensures
        r@.map_values(|c: String| c@) == criteria_spec(description@),
{
    let cv = chars_of(description);
    let ls = split_lines(&cv);
    let ghost lines_g = lines_of(description@);
    let mut out: Vec<String> = Vec::new();
    let mut i: usize = 0;
    proof {
        assert(lines_g.skip(0) =~= lines_g);
        assert(out@.map_values(|c: String| c@) + criteria_of_lines(lines_g) =~= criteria_of_lines(
            lines_g,
        ));
    }
    while i < ls.len()
        invariant
            i <= ls@.len(),
            ls.deep_view() == lines_g,
            lines_g == lines_of(description@),
            criteria_of_lines(lines_g) == out@.map_values(|c: String| c@) + criteria_of_lines(
                lines_g.skip(i as int),
            ),
        decreases ls@.len() - i,
    {
        let ghost base = out@.map_values(|c: String| c@);
        proof {
            assert(lines_g.skip(i as int)[0] == lines_g[i as int]);
            assert(lines_g.skip(i as int).drop_first() =~= lines_g.skip(i + 1));
            assert(ls.deep_view()[i as int] == ls@[i as int]@);
        }
        let t = trim_chars(&ls[i]);
        if t.len() > 0 && (t[0] == '-' || t[0] == '*') {
            let mut d: usize = 0;
            while d < t.len() && t[d] == '-'
                invariant
                    d <= t@.len(),
                    forall|j: int| 0 <= j < d ==> #[trigger] t@[j] == '-',
                decreases t@.len() - d,
            {
                d = d + 1;
            }
            proof {
                lemma_leading_char_count(t@, '-', d as int);
            }
            let rest = copy_range(&t, d, t.len());
            proof {
                assert(rest@ =~= t@.skip(d as int));
            }
            let c = trim_chars(&rest);
            out.push(string_from_chars(&c));
            proof {
                assert(out@.map_values(|x: String| x@) =~= base.push(c@));
                assert(base.push(c@) + criteria_of_lines(lines_g.skip(i + 1)) =~= base + (seq![c@]
                    + criteria_of_lines(lines_g.skip(i + 1))));
            }
        } else if t.len() >= 2 && check_digit(t[0]) && (t[1] == '.' || t[1] == ')') {
            let rest = copy_range(&t, 2, t.len());
            proof {
                assert(rest@ =~= t@.skip(2));
            }
            let c = trim_chars(&rest);
            out.push(string_from_chars(&c));
            proof {
                assert(out@.map_values(|x: String| x@) =~= base.push(c@));
                assert(base.push(c@) + criteria_of_lines(lines_g.skip(i + 1)) =~= base + (seq![c@]
                    + criteria_of_lines(lines_g.skip(i + 1))));
            }
        }
        i = i + 1;
    }
    proof {
        assert(lines_g.skip(lines_g.len() as int) =~= Seq::<Seq<char>>::empty());
        assert(out@.map_values(|c: String| c@) + Seq::<Seq<char>>::empty() =~= out@.map_values(
            |c: String| c@,
        ));
    }
    out
}

/// The analysis of a bare issue reference: an enhancement of moderate
/// complexity, described by its number, with nothing else known yet.
pub fn analyze_from_issue(issue_num: u32) -> (r: FeatureSpec)
    ensures
        r@.description == "Feature from issue #"@ + crate::text::dec_repr(issue_num as int),
        r@.feature_type == FeatureType::Enhancement,
        r@.complexity == Complexity::Moderate,
        r@.affected_files.len() == 0,
        r@.dependencies.len() == 0,
        r@.acceptance_criteria.len() == 0,
{
    let mut v = chars_of("Feature from issue #");
    let num = crate::text::usize_to_chars(issue_num as usize);
    push_all(&mut v, &num);
    let spec_out = FeatureSpec {
        description: string_from_chars(&v),
        feature_type: FeatureType::Enhancement,
        complexity: Complexity::Moderate,
        affected_files: Vec::new(),
        dependencies: Vec::new(),
        acceptance_criteria: Vec::new(),
    };
    proof {
        assert(spec_out@.affected_files =~~= Seq::<Seq<char>>::empty());
        assert(spec_out@.dependencies =~~= Seq::<Seq<char>>::empty());
        assert(spec_out@.acceptance_criteria =~~= Seq::<Seq<char>>::empty());
    }
    spec_out
}

/// The analysis of a prose description. The files it will touch are handed
/// in by the caller, which knows which of the description's file mentions
/// exist.
pub fn analyze_from_description(description: &str, affected_files: Vec<String>) -> (r: FeatureSpec)
    ensures
        r@.description == description@,
        r@.feature_type == feature_type_spec(description@),
        r@.complexity == complexity_of_description(description@),
        r@.affected_files == affected_files.deep_view(),
        r@.dependencies.len() == 0,
        r@.acceptance_criteria == criteria_spec(description@),
{
    let feature_type = determine_feature_type(description);
    let complexity = match determine_complexity(description, "") {
        Ok(c) => c,
        Err(_) => Complexity::Simple,
    };
    let acceptance_criteria = extract_acceptance_criteria(description);
    let cv = chars_of(description);
    let r = FeatureSpec {
        description: string_from_chars(&cv),
        feature_type,
        complexity,
        affected_files,
        dependencies: Vec::new(),
        acceptance_criteria,
    };
    proof {
        assert(r@.dependencies =~~= Seq::<Seq<char>>::empty());
        assert(r@.acceptance_criteria =~~= criteria_spec(description@));
    }
    r
}

/// Analyzes a feature request: an issue reference is read as such, and
/// anything else as a prose description, with the caller supplying the
/// existing files the description mentions.
pub fn analyze_feature(feature: &str, affected_files: Vec<String>) -> (r: Result<
    FeatureSpec,
    FeatureRequestError,
>)
    ensures
        r is Ok,
        r matches Ok(fs) ==> match issue_number_spec(feature@) {
            Some(n) => {
                &&& fs@.description == "Feature from issue #"@ + crate::text::dec_repr(n as int)
                &&& fs@.feature_type == FeatureType::Enhancement
                &&& fs@.complexity == Complexity::Moderate
            },
            None => {
                &&& fs@.description == feature@
                &&& fs@.feature_type == feature_type_spec(feature@)
                &&& fs@.complexity == complexity_of_description(feature@)
                &&& fs@.affected_files == affected_files.deep_view()
                &&& fs@.acceptance_criteria == criteria_spec(feature@)
            },
        },
{
    match parse_issue_number(feature) {
        Some(n) => Ok(analyze_from_issue(n)),
        None => Ok(analyze_from_description(feature, affected_files)),
    }
}


/// A character of a file mention's body: an ASCII word character or a
/// path separator.
pub open spec fn is_path_char(c: char) -> bool {
    is_ascii_alnum(c) || c == '_' || c == '/'
}

fn check_path_char(c: char) -> (r: bool)
    ensures
        r == is_path_char(c),
{
    check_alnum(c) || c == '_' || c == '/'
}

/// A character of an extension: an ASCII word character.
pub open spec fn is_ext_char(c: char) -> bool {
    is_ascii_alnum(c) || c == '_'
}

fn check_ext_char(c: char) -> (r: bool)
    ensures
        r == is_ext_char(c),
{
    check_alnum(c) || c == '_'
}

/// A file mention matches at `j`: a run of path characters, a dot, and at
/// least one extension character.
pub open spec fn mention_at(s: Seq<char>, j: int) -> bool {
    let e = crate::text::first_at(s, |c: char| !is_path_char(c), j);
    &&& 0 <= j
    &&& j < s.len()
    &&& is_path_char(s[j])
    &&& e < s.len()
    &&& s[e] == '.'
    &&& e + 1 < s.len()
    &&& is_ext_char(s[e + 1])
}

/// Where a mention that matches at `j` ends: past its dot and the run of
/// extension characters.
pub open spec fn mention_end(s: Seq<char>, j: int) -> int {
    let e = crate::text::first_at(s, |c: char| !is_path_char(c), j);
    crate::text::first_at(s, |c: char| !is_ext_char(c), e + 1)
}

/// The first mention at or after `i`.
pub open spec fn mention_pos(s: Seq<char>, i: int) -> Option<int>
    decreases s.len() - i when 0 <= i <= s.len()
{
    if i >= s.len() {
        None
    } else if mention_at(s, i) {
        Some(i)
    } else {
        mention_pos(s, i + 1)
    }
}

proof fn lemma_mention_pos_bounds(s: Seq<char>, i: int)
    requires
        0 <= i <= s.len(),
    ensures
        mention_pos(s, i) matches Some(j) ==> i <= j && mention_at(s, j),
    decreases s.len() - i,
{
    if i < s.len() && !mention_at(s, i) {
        lemma_mention_pos_bounds(s, i + 1);
    }
}

proof fn lemma_mention_pos_skip(s: Seq<char>, i: int, j: int)
    requires
        0 <= i <= j <= s.len(),
        forall|k: int| i <= k < j ==> !mention_at(s, k),
    ensures
        mention_pos(s, i) == mention_pos(s, j),
    decreases j - i,
{
    if i < j {
        lemma_mention_pos_skip(s, i + 1, j);
    }
}

/// The file-like tokens of a description, scanning from `i`: each mention
/// contributes its text, and scanning resumes past it.
pub open spec fn mentions_spec(s: Seq<char>, i: int) -> Seq<Seq<char>>
    decreases s.len() - i when 0 <= i <= s.len() via mentions_spec_dec
{
    match mention_pos(s, i) {
        None => Seq::empty(),
        Some(j) => seq![s.subrange(j, mention_end(s, j))] + mentions_spec(s, mention_end(s, j)),
    }
}

#[via_fn]
proof fn mentions_spec_dec(s: Seq<char>, i: int) {
    if 0 <= i <= s.len() {
        lemma_mention_pos_bounds(s, i);
        match mention_pos(s, i) {
            Some(j) => {
                crate::text::lemma_first_at(s, |c: char| !is_path_char(c), j);
                let e = crate::text::first_at(s, |c: char| !is_path_char(c), j);
                crate::text::lemma_first_at(s, |c: char| !is_ext_char(c), e + 1);
            },
            None => {},
        }
    }
}

/// Collects the file-like tokens a description mentions, exactly
/// `mentions_spec`. Which of them exist as files is for the caller to
/// check.
pub fn extract_file_mentions(description: &str) -> (r: Vec<String>)
    ensures
        r@.map_values(|m: String| m@) == mentions_spec(description@, 0),
{
    let cs = chars_of(description);
    let mut out: Vec<String> = Vec::new();
    let mut i: usize = 0;
    proof {
        assert(out@.map_values(|m: String| m@) + mentions_spec(description@, 0) =~= mentions_spec(
            description@,
            0,
        ));
    }
    loop
        invariant
            i <= cs@.len(),
            cs@ == description@,
            cs@.len() == cs.len(),
            mentions_spec(description@, 0) == out@.map_values(|m: String| m@) + mentions_spec(
                description@,
                i as int,
            ),
        decreases cs@.len() - i,
    {
        let mut j: usize = i;
        let mut found = false;
        while j < cs.len() && !found
            invariant
                i <= j <= cs@.len(),
                cs@ == description@,
                cs@.len() == cs.len(),
                forall|k: int| i <= k < j ==> !mention_at(description@, k),
                found ==> j < cs@.len() && mention_at(description@, j as int),
            decreases cs@.len() - j + (if found {
                0int
            } else {
                1int
            }),
        {
            if check_mention_at(&cs, j) {
                found = true;
            } else {
                j = j + 1;
            }
        }
        if !found {
            proof {
                lemma_mention_pos_skip(description@, i as int, cs@.len() as int);
                assert(mentions_spec(description@, i as int) =~= Seq::<Seq<char>>::empty());
                assert(out@.map_values(|m: String| m@) + Seq::<Seq<char>>::empty()
                    =~= out@.map_values(|m: String| m@));
            }
            return out;
        }
        proof {
            lemma_mention_pos_skip(description@, i as int, j as int);
        }
        let ghost base = out@.map_values(|m: String| m@);
        let mut e: usize = j;
        while e < cs.len() && check_path_char(cs[e])
            invariant
                j <= e <= cs@.len(),
                cs@ == description@,
                forall|k: int| j <= k < e ==> is_path_char(#[trigger] description@[k]),
            decreases cs@.len() - e,
        {
            e = e + 1;
        }
        proof {
            crate::text::lemma_first_at_is(
                description@,
                |c: char| !is_path_char(c),
                j as int,
                e as int,
            );
        }
        let mut w: usize = e + 1;
        while w < cs.len() && check_ext_char(cs[w])
            invariant
                e + 1 <= w <= cs@.len(),
                cs@ == description@,
                forall|k: int| e + 1 <= k < w ==> is_ext_char(#[trigger] description@[k]),
            decreases cs@.len() - w,
        {
            w = w + 1;
        }
        proof {
            crate::text::lemma_first_at_is(
                description@,
                |c: char| !is_ext_char(c),
                e + 1 as int,
                w as int,
            );
        }
        let token = copy_range(&cs, j, w);
        out.push(string_from_chars(&token));
        proof {
            assert(mention_end(description@, j as int) == w as int);
            assert(mentions_spec(description@, i as int) == seq![
                description@.subrange(j as int, w as int),
            ] + mentions_spec(description@, w as int));
            assert(out@.map_values(|m: String| m@) =~= base.push(
                description@.subrange(j as int, w as int),
            ));
            assert(base.push(description@.subrange(j as int, w as int)) + mentions_spec(
                description@,
                w as int,
            ) =~= base + (seq![description@.subrange(j as int, w as int)] + mentions_spec(
                description@,
                w as int,
            )));
        }
        i = w;
    }
}

/// Tests one position for a file mention, executably.
fn check_mention_at(s: &Vec<char>, j: usize) -> (r: bool)
    requires
        j <= s@.len(),
    ensures
        r == mention_at(s@, j as int),
{
    if j >= s.len() || !check_path_char(s[j]) {
        return false;
    }
    let mut e: usize = j;
    while e < s.len() && check_path_char(s[e])
        invariant
            j <= e <= s@.len(),
            forall|k: int| j <= k < e ==> is_path_char(#[trigger] s@[k]),
        decreases s@.len() - e,
    {
        e = e + 1;
    }
    proof {
        crate::text::lemma_first_at_is(s@, |c: char| !is_path_char(c), j as int, e as int);
    }
    if e >= s.len() || s[e] != '.' {
        return false;
    }
    if s.len() - e < 2 {
        return false;
    }
    check_ext_char(s[e + 1])
}

} // verus!
