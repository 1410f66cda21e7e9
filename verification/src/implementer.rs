//! Scaffolding generated for a feature request.
//!
//! Every acceptance criterion of an analyzed request becomes one test case,
//! named in order and placed in a test file derived from the description;
//! a request without criteria gets one basic test. The generated code is
//! scaffolding for a person to fill in, and says so in its body.

use vstd::prelude::*;

use crate::feature::{Complexity, FeatureSpec, FeatureSpecModel, FeatureType};
use crate::text::{
    chars_of, check_alnum, dec_repr, is_ascii_alnum, lower_seq, push_all, string_from_chars,
    to_lower_chars, trim_char, trim_char_seq, usize_to_chars,
};

verus! {

/// One generated test case.
#[derive(Debug, Clone)]
pub struct TestCase {
    pub name: String,
    pub test_file: String,
    pub test_code: String,
}

/// The mathematical shape of a test case.
pub struct TestCaseModel {
    pub name: Seq<char>,
    pub test_file: Seq<char>,
    pub test_code: Seq<char>,
}

impl View for TestCase {
    type V = TestCaseModel;

    open spec fn view(&self) -> TestCaseModel {
        TestCaseModel { name: self.name@, test_file: self.test_file@, test_code: self.test_code@ }
    }
}

/// What applying generated changes reports.
#[derive(Debug, Clone)]
pub struct Implementation {
    pub files_modified: Vec<String>,
    pub lines_added: usize,
}

/// A request for which nothing could be generated.
#[derive(Debug, Clone, Copy, PartialEq, Eq, Structural)]
pub struct GenerationError;

/// A name made safe for identifiers and file names: lowercased, every
/// character that is not an ASCII letter or digit replaced by an
/// underscore, and underscores stripped from both ends.
pub open spec fn sanitize_spec(s: Seq<char>) -> Seq<char> {
    trim_char_seq(
        lower_seq(s).map_values(
            |c: char|
                if is_ascii_alnum(c) {
                    c
                } else {
                    '_'
                },
        ),
        '_',
    )
}

/// Sanitizes a name, exactly `sanitize_spec`.
pub fn sanitize_name(s: &str) -> (r: String)
    ensures
        r@ == sanitize_spec(s@),
{
    let cs = chars_of(s);
    let l = to_lower_chars(&cs);
    let mut mapped: Vec<char> = Vec::new();
    let mut i: usize = 0;
    while i < l.len()
        invariant
            i <= l@.len(),
            mapped@.len() == i,
            forall|j: int|
                0 <= j < i ==> #[trigger] mapped@[j] == (if is_ascii_alnum(l@[j]) {
                    l@[j]
                } else {
                    '_'
                }),
        decreases l@.len() - i,
    {
        let c = l[i];
        if check_alnum(c) {
            mapped.push(c);
        } else {
            mapped.push('_');
        }
        i = i + 1;
    }
    proof {
        assert(mapped@ =~= l@.map_values(
            |c: char|
                if is_ascii_alnum(c) {
                    c
                } else {
                    '_'
                },
        ));
    }
    let t = trim_char(&mapped, '_');
    string_from_chars(&t)
}

/// The test file that a description's tests are written to.
pub open spec fn test_file_spec(description: Seq<char>) -> Seq<char> {
    "tests/"@ + sanitize_spec(description) + "_test.rs"@
}

/// The code of the test generated for one criterion.
pub open spec fn test_code_spec(criterion: Seq<char>) -> Seq<char> {
    "    #[test]\n    fn test_"@ + sanitize_spec(criterion) + "() {\n        // Test: "@ + criterion
        + "\n        todo!(\"Implement test\");\n    }\n"@
}

/// Generates the test for one criterion, exactly `test_code_spec`.
pub fn generate_test_code(criterion: &str) -> (r: String)
    ensures
        r@ == test_code_spec(criterion@),
{
    let mut v = chars_of("    #[test]\n    fn test_");
    let sanitized = sanitize_name(criterion);
    let sv = chars_of(sanitized.as_str());
    push_all(&mut v, &sv);
    let mid = chars_of("() {\n        // Test: ");
    push_all(&mut v, &mid);
    let cv = chars_of(criterion);
    push_all(&mut v, &cv);
    let tail = chars_of("\n        todo!(\"Implement test\");\n    }\n");
    push_all(&mut v, &tail);
    proof {
        assert(v@ =~= test_code_spec(criterion@));
    }
    string_from_chars(&v)
}

/// The code of the basic test used when a request lists no criteria.
pub open spec fn basic_test_spec(description: Seq<char>) -> Seq<char> {
    "    #[test]\n    fn test_basic_functionality() {\n        // Test: "@ + description
        + "\n        todo!(\"Implement test\");\n    }\n"@
}

/// Generates the basic test, exactly `basic_test_spec`.
pub fn generate_basic_test(description: &str) -> (r: String)
    ensures
        r@ == basic_test_spec(description@),
{
    let mut v = chars_of("    #[test]\n    fn test_basic_functionality() {\n        // Test: ");
    let dv = chars_of(description);
    push_all(&mut v, &dv);
    let tail = chars_of("\n        todo!(\"Implement test\");\n    }\n");
    push_all(&mut v, &tail);
    proof {
        assert(v@ =~= basic_test_spec(description@));
    }
    string_from_chars(&v)
}

/// The debug name of a feature kind.
pub open spec fn feature_type_name(t: FeatureType) -> Seq<char> {
    match t {
        FeatureType::NewFunction => "NewFunction"@,
        FeatureType::NewModule => "NewModule"@,
        FeatureType::ApiEndpoint => "ApiEndpoint"@,
        FeatureType::UiComponent => "UiComponent"@,
        FeatureType::DataModel => "DataModel"@,
        FeatureType::Integration => "Integration"@,
        FeatureType::Enhancement => "Enhancement"@,
    }
}

/// The debug name of a complexity.
pub open spec fn complexity_name(c: Complexity) -> Seq<char> {
    match c {
        Complexity::Simple => "Simple"@,
        Complexity::Moderate => "Moderate"@,
        Complexity::Complex => "Complex"@,
    }
}

/// The placeholder implementation file generated for a request.
pub open spec fn impl_code_spec(fs: FeatureSpecModel) -> Seq<char> {
    "// Feature: "@ + fs.description + "\n// Type: "@ + feature_type_name(fs.feature_type)
        + "\n// Complexity: "@ + complexity_name(fs.complexity)
        + "\n\npub fn placeholder() {\n    todo!(\"Implement feature\")\n}\n"@
}

/// Generates the placeholder implementation, exactly `impl_code_spec`.
pub fn generate_implementation_code(feature: &FeatureSpec) -> (r: String)
    ensures
        r@ == impl_code_spec(feature@),
{
    let mut v = chars_of("// Feature: ");
    let dv = chars_of(feature.description.as_str());
    push_all(&mut v, &dv);
    let t1 = chars_of("\n// Type: ");
    push_all(&mut v, &t1);
    let tn = match feature.feature_type {
        FeatureType::NewFunction => chars_of("NewFunction"),
        FeatureType::NewModule => chars_of("NewModule"),
        FeatureType::ApiEndpoint => chars_of("ApiEndpoint"),
        FeatureType::UiComponent => chars_of("UiComponent"),
        FeatureType::DataModel => chars_of("DataModel"),
        FeatureType::Integration => chars_of("Integration"),
        FeatureType::Enhancement => chars_of("Enhancement"),
    };
    push_all(&mut v, &tn);
    let t2 = chars_of("\n// Complexity: ");
    push_all(&mut v, &t2);
    let cn = match feature.complexity {
        Complexity::Simple => chars_of("Simple"),
        Complexity::Moderate => chars_of("Moderate"),
        Complexity::Complex => chars_of("Complex"),
    };
    push_all(&mut v, &cn);
    let tail = chars_of("\n\npub fn placeholder() {\n    todo!(\"Implement feature\")\n}\n");
    push_all(&mut v, &tail);
    proof {
        assert(v@ =~= impl_code_spec(feature@));
    }
    string_from_chars(&v)
}

/// The test cases a request generates: one per criterion, in order, named
/// by position; one basic test when there are no criteria.
pub open spec fn gen_tests_spec(fs: FeatureSpecModel) -> Seq<TestCaseModel> {
    if fs.acceptance_criteria.len() == 0 {
        seq![
            TestCaseModel {
                name: "test_basic_functionality"@,
                test_file: test_file_spec(fs.description),
                test_code: basic_test_spec(fs.description),
            },
        ]
    } else {
        Seq::new(
            fs.acceptance_criteria.len(),
            |i: int|
                TestCaseModel {
                    name: "test_criterion_"@ + dec_repr(i + 1),
                    test_file: test_file_spec(fs.description),
                    test_code: test_code_spec(fs.acceptance_criteria[i]),
                },
        )
    }
}

/// Generates the test cases for a request, exactly `gen_tests_spec`.
pub fn generate_tests(feature: &FeatureSpec) -> (r: Result<Vec<TestCase>, GenerationError>)
    ensures
        r is Ok,
        r matches Ok(ts) ==> ts@.map_values(|t: TestCase| t@) == gen_tests_spec(feature@),
{
    let mut out: Vec<TestCase> = Vec::new();
    let sanitized = sanitize_name(feature.description.as_str());
    let mut fname = chars_of("tests/");
    let sv = chars_of(sanitized.as_str());
    push_all(&mut fname, &sv);
    let fsuffix = chars_of("_test.rs");
    push_all(&mut fname, &fsuffix);
    proof {
        assert(fname@ =~= test_file_spec(feature@.description));
    }
    let n = feature.acceptance_criteria.len();
    let mut i: usize = 0;
    while i < n
        invariant
            i <= n,
            n == feature.acceptance_criteria@.len(),
            fname@ == test_file_spec(feature@.description),
            out@.len() == i,
            n > 0 ==> forall|j: int|
                0 <= j < i ==> #[trigger] out@[j]@ == gen_tests_spec(feature@)[j],
        decreases n - i,
    {
        let mut nm = chars_of("test_criterion_");
        let num = usize_to_chars(i + 1);
        push_all(&mut nm, &num);
        let criterion = chars_of(feature.acceptance_criteria[i].as_str());
        let code = generate_test_code(string_from_chars(&criterion).as_str());
        let tc = TestCase {
            name: string_from_chars(&nm),
            test_file: string_from_chars(&fname),
            test_code: code,
        };
        proof {
            assert(feature@.acceptance_criteria[i as int] == feature.acceptance_criteria@[
                i as int
            ]@);
            assert(tc@.name =~= "test_criterion_"@ + dec_repr(i + 1 as int));
            assert(tc@ == gen_tests_spec(feature@)[i as int]);
        }
        out.push(tc);
        i = i + 1;
    }
    if n == 0 {
        let tc = TestCase {
            name: {
                let v = chars_of("test_basic_functionality");
                string_from_chars(&v)
            },
            test_file: string_from_chars(&fname),
            test_code: generate_basic_test(feature.description.as_str()),
        };
        out.push(tc);
        proof {
            assert(out@.map_values(|t: TestCase| t@) =~= gen_tests_spec(feature@));
        }
        return Ok(out);
    }
    proof {
        assert(out@.map_values(|t: TestCase| t@) =~= gen_tests_spec(feature@));
    }
    Ok(out)
}

} // verus!
