//! Issue requests and the rules they must meet before they are filed.
//!
//! A request carries a title, an optional body, and optional labels,
//! assignees, milestone and priority. Validation checks the title; the
//! effective labels add a priority label for a recognized priority word.

use vstd::prelude::*;

use vstd::string::StringSliceAdditionalSpecFns;

use crate::text::{chars_of, chars_eq, lower_seq, string_from_chars, to_lower_chars};

verus! {

/// A request to open one issue.
#[derive(Debug, Clone)]
pub struct IssueRequest {
    pub title: String,
    pub body: Option<String>,
    pub labels: Option<Vec<String>>,
    pub assignees: Option<Vec<String>>,
    pub milestone: Option<String>,
    pub priority: Option<String>,
}

/// The mathematical shape of a request.
pub struct IssueRequestModel {
    pub title: Seq<char>,
    pub body: Option<Seq<char>>,
    pub labels: Option<Seq<Seq<char>>>,
    pub assignees: Option<Seq<Seq<char>>>,
    pub milestone: Option<Seq<char>>,
    pub priority: Option<Seq<char>>,
}

impl View for IssueRequest {
    type V = IssueRequestModel;

    open spec fn view(&self) -> IssueRequestModel {
        IssueRequestModel {
            title: self.title@,
            body: match self.body {
                Some(b) => Some(b@),
                None => None,
            },
            labels: match self.labels {
                Some(l) => Some(l.deep_view()),
                None => None,
            },
            assignees: match self.assignees {
                Some(a) => Some(a.deep_view()),
                None => None,
            },
            milestone: match self.milestone {
                Some(m) => Some(m@),
                None => None,
            },
            priority: match self.priority {
                Some(p) => Some(p@),
                None => None,
            },
        }
    }
}

/// Why a request is rejected.
#[derive(Debug, Clone, Copy, PartialEq, Eq, Structural)]
pub enum IssueError {
    /// The title is empty.
    EmptyTitle,
    /// The title is over 256 bytes.
    TitleTooLong,
}

/// The byte length of a title, as `str::len` reports it.
pub open spec fn title_len(title: Seq<char>) -> int {
    vstd::utf8::encode_utf8(title).len() as usize as int
}

/// Validation: an empty title is rejected, a title over 256 bytes is
/// rejected, and everything else is accepted.
pub open spec fn validate_spec(m: IssueRequestModel) -> Result<(), IssueError> {
    if title_len(m.title) == 0 {
        Err(IssueError::EmptyTitle)
    } else if title_len(m.title) > 256 {
        Err(IssueError::TitleTooLong)
    } else {
        Ok(())
    }
}

/// The label a priority word adds, case-insensitively: `low`, `medium`,
/// `high` and `critical` add their priority label; anything else adds
/// nothing.
pub open spec fn priority_label(p: Seq<char>) -> Seq<Seq<char>> {
    let l = lower_seq(p);
    if l == "low"@ {
        seq!["priority-low"@]
    } else if l == "medium"@ {
        seq!["priority-medium"@]
    } else if l == "high"@ {
        seq!["priority-high"@]
    } else if l == "critical"@ {
        seq!["priority-critical"@]
    } else {
        Seq::empty()
    }
}

/// The effective labels of a request: the given labels, or none, followed
/// by the priority label its priority word adds.
pub open spec fn enhanced_labels_spec(m: IssueRequestModel) -> Seq<Seq<char>> {
    let base = match m.labels {
        Some(l) => l,
        None => Seq::empty(),
    };
    let extra = match m.priority {
        Some(p) => priority_label(p),
        None => Seq::empty(),
    };
    base + extra
}

impl IssueRequest {
    /// Checks the request, exactly `validate_spec`.
    pub fn validate(&self) -> (r: Result<(), IssueError>)
        ensures
            r == validate_spec(self@),
    {
        let t = self.title.as_str();
        proof {
            assert(t.spec_bytes() =~= vstd::utf8::encode_utf8(self.title@));
        }
        if t.len() == 0 {
            Err(IssueError::EmptyTitle)
        } else if t.len() > 256 {
            Err(IssueError::TitleTooLong)
        } else {
            Ok(())
        }
    }

    /// The effective labels, exactly `enhanced_labels_spec`.
    pub fn enhanced_labels(&self) -> (r: Vec<String>)
        ensures
            r@.map_values(|l: String| l@) == enhanced_labels_spec(self@),
    {
        let ghost base_g = match self@.labels {
            Some(l) => l,
            None => Seq::<Seq<char>>::empty(),
        };
        let mut out: Vec<String> = Vec::new();
        match &self.labels {
            Some(ls) => {
                let mut i: usize = 0;
                while i < ls.len()
                    invariant
                        i <= ls@.len(),
                        self.labels matches Some(l) && l == *ls,
                        out@.map_values(|l: String| l@) =~= ls.deep_view().take(i as int),
                    decreases ls@.len() - i,
                {
                    out.push(ls[i].clone());
                    proof {
                        assert(ls.deep_view()[i as int] == ls@[i as int]@);
                        assert(ls.deep_view().take(i + 1 as int) =~= ls.deep_view().take(
                            i as int,
                        ).push(ls.deep_view()[i as int]));
                    }
                    i = i + 1;
                }
                proof {
                    assert(ls.deep_view().take(ls.deep_view().len() as int) =~= ls.deep_view());
                    assert(out@.map_values(|l: String| l@) =~= base_g);
                }
            },
            None => {
                proof {
                    assert(out@.map_values(|l: String| l@) =~= base_g);
                }
            },
        }
        let ghost with_base = out@.map_values(|l: String| l@);
        match &self.priority {
            Some(p) => {
                let pv = chars_of(p.as_str());
                let l = to_lower_chars(&pv);
                let w_low = chars_of("low");
                let w_medium = chars_of("medium");
                let w_high = chars_of("high");
                let w_critical = chars_of("critical");
                if chars_eq(&l, &w_low) {
                    let lab = chars_of("priority-low");
                    out.push(string_from_chars(&lab));
                    proof {
                        assert(out@.map_values(|x: String| x@) =~= with_base + priority_label(p@));
                    }
                } else if chars_eq(&l, &w_medium) {
                    let lab = chars_of("priority-medium");
                    out.push(string_from_chars(&lab));
                    proof {
                        assert(out@.map_values(|x: String| x@) =~= with_base + priority_label(p@));
                    }
                } else if chars_eq(&l, &w_high) {
                    let lab = chars_of("priority-high");
                    out.push(string_from_chars(&lab));
                    proof {
                        assert(out@.map_values(|x: String| x@) =~= with_base + priority_label(p@));
                    }
                } else if chars_eq(&l, &w_critical) {
                    let lab = chars_of("priority-critical");
                    out.push(string_from_chars(&lab));
                    proof {
                        assert(out@.map_values(|x: String| x@) =~= with_base + priority_label(p@));
                    }
                } else {
                    proof {
                        assert(out@.map_values(|x: String| x@) =~= with_base + priority_label(p@));
                    }
                }
            },
            None => {
                proof {
                    assert(out@.map_values(|x: String| x@) =~= with_base + Seq::<Seq<char>>::empty());
                }
            },
        }
        out
    }
}

} // verus!
