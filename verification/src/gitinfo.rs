//! Decisions read from git's own output.
//!
//! The branch listing and the remote URL come from git; which branch is the
//! main one, and which owner and repository a remote URL names, are decided
//! here.

use vstd::prelude::*;

use crate::text::{
    chars_of, contains_sub, find_from, has_sub, split_char_from, split_on_char, string_from_chars,
};

verus! {

/// The main branch named by a remote branch listing: `main` when the
/// listing mentions `origin/main`, `master` otherwise.
pub open spec fn main_branch_spec(branches: Seq<char>) -> Seq<char> {
    if has_sub(branches, "origin/main"@) {
        "main"@
    } else {
        "master"@
    }
}

/// Picks the main branch from a branch listing, exactly `main_branch_spec`.
pub fn main_branch_name(branches: &str) -> (r: String)
    ensures
        r@ == main_branch_spec(branches@),
{
    let bv = chars_of(branches);
    let needle = chars_of("origin/main");
    if contains_sub(&bv, &needle) {
        let m = chars_of("main");
        string_from_chars(&m)
    } else {
        let m = chars_of("master");
        string_from_chars(&m)
    }
}

/// A remote URL could not be read as owner and repository.
#[derive(Debug, Clone, Copy, PartialEq, Eq, Structural)]
pub struct BadRemoteUrl;

/// The trailing `.git` markers of a repository part, all removed.
pub open spec fn strip_git_suffix(s: Seq<char>) -> Seq<char>
    decreases s.len(),
{
    if s.len() >= 4 && s.skip(s.len() - 4) == ".git"@ {
        strip_git_suffix(s.take(s.len() - 4))
    } else {
        s
    }
}

/// The text between the first host marker and the next one, if any: what
/// splitting the URL at the marker leaves in second position.
pub open spec fn after_marker(url: Seq<char>, marker: Seq<char>) -> Option<Seq<char>> {
    match find_from(url, marker, 0) {
        None => None,
        Some(p) => {
            let rest = url.skip(p + marker.len());
            match find_from(rest, marker, 0) {
                Some(q) => Some(rest.take(q)),
                None => Some(rest),
            }
        },
    }
}

/// The owner and repository a remote URL names: the part after
/// `github.com:` when the URL has it, else after `github.com/`, with any
/// trailing `.git` removed, split at slashes into owner and repository.
/// URLs without the host marker or without both pieces name none.
pub open spec fn repository_info_spec(url: Seq<char>) -> Result<
    (Seq<char>, Seq<char>),
    BadRemoteUrl,
> {
    let marker = if has_sub(url, "github.com:"@) {
        "github.com:"@
    } else {
        "github.com/"@
    };
    match after_marker(url, marker) {
        None => Err(BadRemoteUrl),
        Some(part) => {
            let pieces = split_char_from(strip_git_suffix(part), '/', 0);
            if pieces.len() >= 2 {
                Ok((pieces[0], pieces[1]))
            } else {
                Err(BadRemoteUrl)
            }
        },
    }
}

/// Reads owner and repository from a remote URL, exactly
/// `repository_info_spec`.
pub fn parse_repository_info(url: &str) -> (r: Result<(String, String), BadRemoteUrl>)
    ensures
        match r {
            Ok(p) => repository_info_spec(url@) == Ok::<(Seq<char>, Seq<char>), BadRemoteUrl>(
                (p.0@, p.1@),
            ),
            Err(e) => repository_info_spec(url@) == Err::<(Seq<char>, Seq<char>), BadRemoteUrl>(e),
        },
{
    let uv = chars_of(url);
    let m_colon = chars_of("github.com:");
    let m_slash = chars_of("github.com/");
    let marker = if contains_sub(&uv, &m_colon) {
        m_colon
    } else {
        m_slash
    };
    proof {
        assert(marker@ == (if has_sub(url@, "github.com:"@) {
            "github.com:"@
        } else {
            "github.com/"@
        }));
    }
    let un: usize = uv.len();
    let part: Vec<char>;
    match crate::text::find_sub(&uv, &marker) {
        None => {
            return Err(BadRemoteUrl);
        },
        Some(p) => {
            proof {
                crate::text::lemma_find_from_some(url@, marker@, 0);
            }
            let rest = crate::text::copy_range(&uv, p + marker.len(), un);
            proof {
                assert(rest@ =~= url@.skip(p + marker@.len()));
            }
            match crate::text::find_sub(&rest, &marker) {
                Some(q) => {
                    proof {
                        crate::text::lemma_find_from_some(rest@, marker@, 0);
                    }
                    part = crate::text::copy_range(&rest, 0, q);
                    proof {
                        assert(part@ =~= rest@.take(q as int));
                    }
                },
                None => {
                    part = rest;
                },
            }
        },
    }
    proof {
        assert(repository_info_spec_part(url@) == Some(part@));
    }
    // remove every trailing .git marker, then split what is left
    let mut bare = part;
    let git_tail = chars_of(".git");
    loop
        invariant
            git_tail@ == ".git"@,
            strip_git_suffix_rel(url@, bare@),
        decreases bare@.len(),
    {
        let n = bare.len();
        if n >= 4 {
            let tail = crate::text::copy_range(&bare, n - 4, n);
            proof {
                assert(tail@ =~= bare@.skip(bare@.len() - 4));
            }
            if crate::text::chars_eq(&tail, &git_tail) {
                let shorter = crate::text::copy_range(&bare, 0, n - 4);
                proof {
                    assert(shorter@ =~= bare@.take(bare@.len() - 4));
                }
                bare = shorter;
                continue ;
            }
        }
        proof {
            assert(strip_git_suffix(bare@) == bare@);
        }
        let pieces = split_on_char(&bare, '/');
        if pieces.len() >= 2 {
            proof {
                assert(pieces.deep_view()[0] == pieces@[0]@);
                assert(pieces.deep_view()[1] == pieces@[1]@);
                assert(pieces.deep_view() == split_char_from(bare@, '/', 0));
            }
            let owner = string_from_chars(&pieces[0]);
            let name = string_from_chars(&pieces[1]);
            return Ok((owner, name));
        } else {
            return Err(BadRemoteUrl);
        }
    }
}

/// The part the marker selects, when the URL has one.
pub open spec fn repository_info_spec_part(url: Seq<char>) -> Option<Seq<char>> {
    let marker = if has_sub(url, "github.com:"@) {
        "github.com:"@
    } else {
        "github.com/"@
    };
    after_marker(url, marker)
}

/// The running value of the suffix-stripping loop stays related to the
/// URL's selected part by further stripping.
pub open spec fn strip_git_suffix_rel(url: Seq<char>, bare: Seq<char>) -> bool {
    match repository_info_spec_part(url) {
        Some(s) => strip_git_suffix(s) == strip_git_suffix(bare),
        None => false,
    }
}

} // verus!
