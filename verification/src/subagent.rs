//! Batching of issues by the module their titles name.
//!
//! An issue title that mentions a Rust path (`foo::bar::baz`) is filed
//! under a module name made of the path's last two segments; titles
//! without one fall under `misc`. Batches keep first-seen order while they
//! are gathered and are then stably sorted, largest first, so the biggest
//! batches are worked first.

use vstd::prelude::*;

use crate::text::{
    chars_of, chars_eq, copy_range, is_ascii_alnum, lower_seq, push_all, string_from_chars,
    to_lower_chars,
};

verus! {

/// What spawning one agent task reports.
#[derive(Debug, Clone)]
pub struct AgentTaskResult {
    pub success: bool,
    pub message: String,
}

/// A character of a Rust path segment.
pub open spec fn is_word_char(c: char) -> bool {
    is_ascii_alnum(c) || c == '_'
}

/// Executable test for `is_word_char`.
fn check_word_char(c: char) -> (r: bool)
    ensures
        r == is_word_char(c),
{
    crate::text::check_alnum(c) || c == '_'
}

/// End of the run of word characters starting at `j`.
pub open spec fn word_end(s: Seq<char>, j: int) -> int
    decreases s.len() - j when 0 <= j <= s.len()
{
    if j >= s.len() {
        j
    } else if is_word_char(s[j]) {
        word_end(s, j + 1)
    } else {
        j
    }
}

proof fn lemma_word_end(s: Seq<char>, j: int)
    requires
        0 <= j <= s.len(),
    ensures
        j <= word_end(s, j) <= s.len(),
        word_end(s, j) < s.len() ==> !is_word_char(s[word_end(s, j)]),
        forall|k: int| j <= k < word_end(s, j) ==> is_word_char(#[trigger] s[k]),
    decreases s.len() - j,
{
    if j < s.len() && is_word_char(s[j]) {
        lemma_word_end(s, j + 1);
    }
}

proof fn lemma_word_end_is(s: Seq<char>, j: int, e: int)
    requires
        0 <= j <= e <= s.len(),
        forall|k: int| j <= k < e ==> is_word_char(#[trigger] s[k]),
        e == s.len() || !is_word_char(s[e]),
    ensures
        word_end(s, j) == e,
    decreases e - j,
{
    if j < e {
        lemma_word_end_is(s, j + 1, e);
    }
}

/// Where a Rust path that starts at `j` ends, if one does: at least one
/// segment, a double colon, and a final segment, extending as far as
/// segments joined by double colons reach. `have` records whether a
/// segment and its double colon have been passed already.
pub open spec fn path_end_from(s: Seq<char>, j: int, have: bool) -> Option<int>
    decreases s.len() - j when 0 <= j <= s.len() via path_end_from_dec
{
    let e = word_end(s, j);
    if e == j {
        None
    } else if e + 2 <= s.len() && s[e] == ':' && s[e + 1] == ':' {
        match path_end_from(s, e + 2, true) {
            Some(end) => Some(end),
            None => if have {
                Some(e)
            } else {
                None
            },
        }
    } else {
        if have {
            Some(e)
        } else {
            None
        }
    }
}

#[via_fn]
proof fn path_end_from_dec(s: Seq<char>, j: int, have: bool) {
    if 0 <= j <= s.len() {
        lemma_word_end(s, j);
    }
}

/// The first position at or after `i` where a path match begins, with its
/// end.
pub open spec fn first_path_at(s: Seq<char>, i: int) -> Option<(int, int)>
    decreases s.len() - i when 0 <= i <= s.len()
{
    if i >= s.len() {
        None
    } else {
        match path_end_from(s, i, false) {
            Some(e) => Some((i, e)),
            None => first_path_at(s, i + 1),
        }
    }
}

/// Index just past the last double colon of a path text, if any.
pub open spec fn last_sep_end(p: Seq<char>, j: int) -> Option<int>
    decreases j when j <= p.len()
{
    if j < 2 {
        None
    } else if p[j - 1] == ':' && p[j - 2] == ':' {
        Some(j)
    } else {
        last_sep_end(p, j - 1)
    }
}

proof fn lemma_last_sep_end_is(p: Seq<char>, j: int, e: int)
    requires
        2 <= e <= j <= p.len(),
        p[e - 1] == ':' && p[e - 2] == ':',
        forall|k: int| e < k <= j ==> !(#[trigger] p[k - 1] == ':' && p[k - 2] == ':'),
    ensures
        last_sep_end(p, j) == Some(e),
    decreases j,
{
    if j > e {
        lemma_last_sep_end_is(p, j - 1, e);
    }
}

proof fn lemma_last_sep_end_none(p: Seq<char>, j: int)
    requires
        0 <= j <= p.len(),
        forall|k: int| 2 <= k <= j ==> !(#[trigger] p[k - 1] == ':' && p[k - 2] == ':'),
    ensures
        last_sep_end(p, j) is None,
    decreases j,
{
    if j >= 2 {
        lemma_last_sep_end_none(p, j - 1);
    }
}

/// Lowercasing with underscores turned into dashes, as module names are
/// written.
pub open spec fn dashed_lower(s: Seq<char>) -> Seq<char> {
    lower_seq(s).map_values(
        |c: char|
            if c == '_' {
                '-'
            } else {
                c
            },
    )
}

/// The module name an issue title files under: the last two `::`-joined
/// segments of the first Rust path in the title, joined by a dash — or the
/// last segment alone, or `misc` when the title names no path — lowercased
/// with underscores dashed.
pub open spec fn category_spec(title: Seq<char>) -> Seq<char> {
    match first_path_at(title, 0) {
        None => "misc"@,
        Some((st, end)) => {
            let path = title.subrange(st, end);
            match last_sep_end(path, path.len() as int) {
                Some(le) => {
                    let last = path.skip(le);
                    let prev_begin = match last_sep_end(path, le - 2) {
                        Some(pe) => pe,
                        None => 0,
                    };
                    dashed_lower(path.subrange(prev_begin, le - 2) + "-"@ + last)
                },
                None => dashed_lower(path),
            }
        },
    }
}

/// Finds where the path starting at `j` ends, executably.
fn scan_path_end(s: &Vec<char>, j: usize, have: bool) -> (r: Option<usize>)
    requires
        j <= s@.len(),
    ensures
        match r {
            Some(e) => path_end_from(s@, j as int, have) == Some(e as int) && j < e <= s@.len(),
            None => path_end_from(s@, j as int, have) is None,
        },
    decreases s@.len() - j,
{
    let mut e: usize = j;
    while e < s.len() && check_word_char(s[e])
        invariant
            j <= e <= s@.len(),
            forall|k: int| j <= k < e ==> is_word_char(#[trigger] s@[k]),
        decreases s@.len() - e,
    {
        e = e + 1;
    }
    proof {
        lemma_word_end_is(s@, j as int, e as int);
    }
    if e == j {
        return None;
    }
    if s.len() - e >= 2 && s[e] == ':' && s[e + 1] == ':' {
        match scan_path_end(s, e + 2, true) {
            Some(end) => Some(end),
            None => if have {
                Some(e)
            } else {
                None
            },
        }
    } else {
        if have {
            Some(e)
        } else {
            None
        }
    }
}

/// The module name an issue title files under, exactly `category_spec`.
pub fn categorize_by_path(title: &str) -> (r: String)
    ensures
        r@ == category_spec(title@),
{
    let cs = chars_of(title);
    let mut i: usize = 0;
    let mut found: Option<(usize, usize)> = None;
    while i < cs.len() && found.is_none()
        invariant
            i <= cs@.len(),
            cs@ == title@,
            match found {
                Some((st, e)) => i < cs@.len() && first_path_at(title@, 0) == Some(
                    (st as int, e as int),
                ) && st < e <= cs@.len(),
                None => first_path_at(title@, 0) == first_path_at(title@, i as int),
            },
        decreases cs@.len() - i + (if found is None {
            1int
        } else {
            0int
        }),
    {
        match scan_path_end(&cs, i, false) {
            Some(e) => {
                found = Some((i, e));
            },
            None => {
                i = i + 1;
            },
        }
    }
    match found {
        None => {
            proof {
                assert(first_path_at(title@, cs@.len() as int) is None);
            }
            let m = chars_of("misc");
            string_from_chars(&m)
        },
        Some((st, end)) => {
            let path = copy_range(&cs, st, end);
            let ghost pg = title@.subrange(st as int, end as int);
            proof {
                assert(path@ =~= pg);
            }
            // find the end of the last double colon
            let mut j: usize = path.len();
            while j >= 2 && !(path[j - 1] == ':' && path[j - 2] == ':')
                invariant
                    j <= path@.len(),
                    forall|k: int|
                        j < k <= path@.len() ==> !(#[trigger] path@[k - 1] == ':' && path@[k - 2]
                            == ':'),
                decreases j,
            {
                j = j - 1;
            }
            let raw: Vec<char>;
            if j >= 2 {
                proof {
                    lemma_last_sep_end_is(pg, pg.len() as int, j as int);
                }
                let last = copy_range(&path, j, path.len());
                // find the previous double colon before this one
                let mut j2: usize = j - 2;
                while j2 >= 2 && !(path[j2 - 1] == ':' && path[j2 - 2] == ':')
                    invariant
                        j2 <= j - 2 <= path@.len(),
                        forall|k: int|
                            j2 < k <= j - 2 ==> !(#[trigger] path@[k - 1] == ':' && path@[k - 2]
                                == ':'),
                    decreases j2,
                {
                    j2 = j2 - 1;
                }
                let prev_begin: usize;
                if j2 >= 2 {
                    proof {
                        lemma_last_sep_end_is(pg, j - 2, j2 as int);
                    }
                    prev_begin = j2;
                } else {
                    proof {
                        lemma_last_sep_end_none(pg, j - 2);
                    }
                    prev_begin = 0;
                }
                let mut joined = copy_range(&path, prev_begin, j - 2);
                let dash = chars_of("-");
                push_all(&mut joined, &dash);
                push_all(&mut joined, &last);
                proof {
                    assert(joined@ =~= pg.subrange(prev_begin as int, j - 2) + "-"@ + pg.skip(
                        j as int,
                    ));
                }
                raw = joined;
            } else {
                proof {
                    lemma_last_sep_end_none(pg, pg.len() as int);
                }
                raw = path;
            }
            let lowered = to_lower_chars(&raw);
            let mut dashed: Vec<char> = Vec::new();
            let mut k: usize = 0;
            while k < lowered.len()
                invariant
                    k <= lowered@.len(),
                    dashed@.len() == k,
                    forall|b: int|
                        0 <= b < k ==> #[trigger] dashed@[b] == (if lowered@[b] == '_' {
                            '-'
                        } else {
                            lowered@[b]
                        }),
                decreases lowered@.len() - k,
            {
                let c = lowered[k];
                if c == '_' {
                    dashed.push('-');
                } else {
                    dashed.push(c);
                }
                k = k + 1;
            }
            proof {
                assert(dashed@ =~= lowered@.map_values(
                    |c: char|
                        if c == '_' {
                            '-'
                        } else {
                            c
                        },
                ));
            }
            string_from_chars(&dashed)
        },
    }
}

/// One gathered batch: a module name and its issues in arrival order.
pub type IssueBatch = (String, Vec<(u32, String)>);

/// The shape of one batch.
pub open spec fn batch_view(b: IssueBatch) -> (Seq<char>, Seq<(u32, Seq<char>)>) {
    (b.0@, b.1@.map_values(|p: (u32, String)| (p.0, p.1@)))
}

/// The shape of a batch list.
pub open spec fn batches_view(bs: Seq<IssueBatch>) -> Seq<(Seq<char>, Seq<(u32, Seq<char>)>)> {
    bs.map_values(|b: IssueBatch| batch_view(b))
}

/// The shape of the issue list.
pub open spec fn issues_view(ps: Seq<(u32, String)>) -> Seq<(u32, Seq<char>)> {
    ps.map_values(|p: (u32, String)| (p.0, p.1@))
}

/// First batch with the given module name, if any.
pub open spec fn find_batch(
    acc: Seq<(Seq<char>, Seq<(u32, Seq<char>)>)>,
    key: Seq<char>,
    i: int,
) -> Option<int>
    decreases acc.len() - i when 0 <= i <= acc.len()
{
    if i >= acc.len() {
        None
    } else if acc[i].0 == key {
        Some(i)
    } else {
        find_batch(acc, key, i + 1)
    }
}

/// The batches after filing the issues from `i` on into `acc`: each issue
/// joins the batch its title's module names, or opens a new batch at the
/// end.
pub open spec fn gather_batches(
    ps: Seq<(u32, Seq<char>)>,
    i: int,
    acc: Seq<(Seq<char>, Seq<(u32, Seq<char>)>)>,
) -> Seq<(Seq<char>, Seq<(u32, Seq<char>)>)>
    decreases ps.len() - i when 0 <= i <= ps.len()
{
    if i >= ps.len() {
        acc
    } else {
        let m = category_spec(ps[i].1);
        let acc2 = match find_batch(acc, m, 0) {
            Some(idx) => acc.update(idx, (acc[idx].0, acc[idx].1.push(ps[i]))),
            None => acc.push((m, seq![ps[i]])),
        };
        gather_batches(ps, i + 1, acc2)
    }
}

/// A batch inserted into a list that is sorted largest-first: it goes
/// before the first strictly smaller batch, after every batch at least as
/// large — a stable descending insertion.
pub open spec fn insert_batch(
    g: (Seq<char>, Seq<(u32, Seq<char>)>),
    s: Seq<(Seq<char>, Seq<(u32, Seq<char>)>)>,
) -> Seq<(Seq<char>, Seq<(u32, Seq<char>)>)>
    decreases s.len(),
{
    if s.len() == 0 {
        seq![g]
    } else if g.1.len() > s[0].1.len() {
        seq![g] + s
    } else {
        seq![s[0]] + insert_batch(g, s.drop_first())
    }
}

/// The stable descending sort of the first `i` batches, by insertion.
pub open spec fn sort_batches(
    s: Seq<(Seq<char>, Seq<(u32, Seq<char>)>)>,
    i: int,
) -> Seq<(Seq<char>, Seq<(u32, Seq<char>)>)>
    decreases i,
{
    if i <= 0 {
        Seq::empty()
    } else {
        insert_batch(s[i - 1], sort_batches(s, i - 1))
    }
}

proof fn lemma_insert_batch_at(
    g: (Seq<char>, Seq<(u32, Seq<char>)>),
    s: Seq<(Seq<char>, Seq<(u32, Seq<char>)>)>,
    p: int,
)
    requires
        0 <= p <= s.len(),
        forall|k: int| 0 <= k < p ==> !(g.1.len() > #[trigger] s[k].1.len()),
        p == s.len() || g.1.len() > s[p].1.len(),
    ensures
        insert_batch(g, s) == s.take(p) + seq![g] + s.skip(p),
    decreases s.len(),
{
    if s.len() == 0 {
        assert(insert_batch(g, s) =~= s.take(0) + seq![g] + s.skip(0));
    } else if g.1.len() > s[0].1.len() {
        assert(p == 0);
        assert(insert_batch(g, s) =~= s.take(0) + seq![g] + s.skip(0));
    } else {
        lemma_insert_batch_at(g, s.drop_first(), p - 1);
        assert(s.drop_first().take(p - 1) =~= s.take(p).drop_first());
        assert(s.drop_first().skip(p - 1) =~= s.skip(p));
        assert(seq![s[0]] + (s.drop_first().take(p - 1) + seq![g] + s.drop_first().skip(p - 1))
            =~= s.take(p) + seq![g] + s.skip(p));
    }
}

/// Files each issue under its title's module and sorts the batches
/// largest-first, stably — exactly `sort_batches` of `gather_batches`.
pub fn group_by_module(issues: &Vec<(u32, String)>) -> (r: Vec<IssueBatch>)
    ensures
        batches_view(r@) == sort_batches(
            gather_batches(issues_view(issues@), 0, Seq::empty()),
            gather_batches(issues_view(issues@), 0, Seq::empty()).len() as int,
        ),
{
    let ghost pv = issues_view(issues@);
    let mut groups: Vec<IssueBatch> = Vec::new();
    let mut i: usize = 0;
    proof {
        assert(batches_view(groups@) =~~= Seq::<(Seq<char>, Seq<(u32, Seq<char>)>)>::empty());
    }
    while i < issues.len()
        invariant
            i <= issues@.len(),
            pv == issues_view(issues@),
            pv.len() == issues@.len(),
            gather_batches(pv, 0, Seq::empty()) == gather_batches(
                pv,
                i as int,
                batches_view(groups@),
            ),
        decreases issues@.len() - i,
    {
        let ghost acc = batches_view(groups@);
        proof {
            assert(pv[i as int] == (issues@[i as int].0, issues@[i as int].1@));
        }
        let pair = &issues[i];
        let module = categorize_by_path(pair.1.as_str());
        let ghost m = category_spec(pv[i as int].1);
        proof {
            assert(module@ == m);
        }
        // find the batch this module already has
        let mut idx: usize = 0;
        let mut found = false;
        let mv = chars_of(module.as_str());
        while idx < groups.len() && !found
            invariant
                idx <= groups@.len(),
                acc == batches_view(groups@),
                acc.len() == groups@.len(),
                mv@ == m,
                !found ==> find_batch(acc, m, 0) == find_batch(acc, m, idx as int),
                found ==> idx < acc.len() && find_batch(acc, m, 0) == Some(idx as int),
            decreases groups@.len() - idx + (if found {
                0int
            } else {
                1int
            }),
        {
            let gv = chars_of(groups[idx].0.as_str());
            proof {
                assert(acc[idx as int].0 == groups@[idx as int].0@);
            }
            if chars_eq(&gv, &mv) {
                found = true;
            } else {
                idx = idx + 1;
            }
        }
        let item = (pair.0, pair.1.clone());
        proof {
            assert((item.0, item.1@) == pv[i as int]);
        }
        if found {
            let mut entry = groups.remove(idx);
            entry.1.push(item);
            groups.insert(idx, entry);
            proof {
                assert(batches_view(groups@) =~~= acc.update(
                    idx as int,
                    (acc[idx as int].0, acc[idx as int].1.push(pv[i as int])),
                ));
            }
        } else {
            proof {
                assert(find_batch(acc, m, acc.len() as int) is None);
            }
            groups.push((module, vec![item]));
            proof {
                assert(batches_view(groups@) =~~= acc.push((m, seq![pv[i as int]])));
            }
        }
        i = i + 1;
    }
    proof {
        assert(gather_batches(pv, pv.len() as int, batches_view(groups@)) == batches_view(
            groups@,
        ));
    }
    // sort the batches largest-first, stably
    let ghost gathered = batches_view(groups@);
    let mut sorted: Vec<IssueBatch> = Vec::new();
    let mut k: usize = 0;
    proof {
        assert(batches_view(sorted@) =~~= sort_batches(gathered, 0));
    }
    while k < groups.len()
        invariant
            k <= groups@.len(),
            gathered == batches_view(groups@),
            gathered.len() == groups@.len(),
            batches_view(sorted@) == sort_batches(gathered, k as int),
        decreases groups@.len() - k,
    {
        let ghost sv = batches_view(sorted@);
        let g = &groups[k];
        proof {
            assert(batch_view(groups@[k as int]) == gathered[k as int]);
        }
        // find the insertion point: before the first strictly smaller batch
        let mut p: usize = 0;
        while p < sorted.len() && g.1.len() <= sorted[p].1.len()
            invariant
                p <= sorted@.len(),
                sv == batches_view(sorted@),
                sv.len() == sorted@.len(),
                k < groups@.len(),
                g == groups@[k as int],
                forall|b: int|
                    0 <= b < p ==> !(groups@[k as int].1@.len() > #[trigger] sv[b].1.len()),
            decreases sorted@.len() - p,
        {
            proof {
                assert(sv[p as int].1.len() == sorted@[p as int].1@.len());
            }
            p = p + 1;
        }
        proof {
            if p < sorted@.len() {
                assert(sv[p as int].1.len() == sorted@[p as int].1@.len());
            }
            lemma_insert_batch_at(gathered[k as int], sv, p as int);
        }
        let mut copied_items: Vec<(u32, String)> = Vec::new();
        let mut q: usize = 0;
        while q < g.1.len()
            invariant
                q <= g.1@.len(),
                k < groups@.len(),
                g == groups@[k as int],
                copied_items@.len() == q,
                forall|b: int| 0 <= b < q ==> #[trigger] copied_items@[b] == g.1@[b],
            decreases g.1@.len() - q,
        {
            let it = &g.1[q];
            copied_items.push((it.0, it.1.clone()));
            q = q + 1;
        }
        let copied = (g.0.clone(), copied_items);
        proof {
            assert(copied.1@ =~= groups@[k as int].1@);
            assert(batch_view(copied) == gathered[k as int]) by {
                assert(copied.1@.map_values(|w: (u32, String)| (w.0, w.1@))
                    =~= groups@[k as int].1@.map_values(|w: (u32, String)| (w.0, w.1@)));
            }
        }
        sorted.insert(p, copied);
        proof {
            assert(batches_view(sorted@) =~~= sv.take(p as int) + seq![gathered[k as int]]
                + sv.skip(p as int));
        }
        k = k + 1;
    }
    proof {
        assert(batches_view(sorted@) == sort_batches(gathered, gathered.len() as int));
    }
    sorted
}

} // verus!
