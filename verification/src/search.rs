//! The two search modes over the lines of a body.

use crate::lines::lines_of;
use crate::lines::split_lines;
use crate::matching::contains_seq;
use crate::matching::contains_substring;
use crate::matching::lemma_empty_needle_contained;
use crate::matching::lower_of;
use crate::matching::to_lowercase;
use vstd::prelude::*;

verus! {

broadcast use vstd::seq_lib::group_filter_ensures;

/// Selects the comparison semantics of a search.
#[derive(Clone, Copy, Debug, PartialEq, Eq)]
pub enum CaseMode {
    Sensitive,
    Insensitive,
}

/// A line is kept by the case-sensitive search when it contains the query
/// exactly.
pub open spec fn sensitive_pred(q: Seq<char>) -> spec_fn(Seq<char>) -> bool {
    |l: Seq<char>| contains_seq(l, q)
}

/// A line is kept by the case-insensitive search when its lowercase form
/// contains the lowercase form of the query.
pub open spec fn insensitive_pred(q: Seq<char>) -> spec_fn(Seq<char>) -> bool {
    |l: Seq<char>| contains_seq(lower_of(l), lower_of(q))
}

/// The lines of `b`, in order, that contain `q` exactly.
pub open spec fn search_matches(q: Seq<char>, b: Seq<char>) -> Seq<Seq<char>> {
    lines_of(b).filter(sensitive_pred(q))
}

/// The lines of `b`, in order, whose lowercase form contains the
/// lowercase form of `q`.
pub open spec fn search_insensitive_matches(q: Seq<char>, b: Seq<char>) -> Seq<Seq<char>> {
    lines_of(b).filter(insensitive_pred(q))
}

/// What a search under `mode` returns.
pub open spec fn mode_matches(mode: CaseMode, q: Seq<char>, b: Seq<char>) -> Seq<Seq<char>> {
    match mode {
        CaseMode::Sensitive => search_matches(q, b),
        CaseMode::Insensitive => search_insensitive_matches(q, b),
    }
}

proof fn lemma_filter_push(s: Seq<Seq<char>>, pred: spec_fn(Seq<char>) -> bool, x: Seq<char>)
    ensures
        s.push(x).filter(pred) == (if pred(x) {
            s.filter(pred).push(x)
        } else {
            s.filter(pred)
        }),
{
    reveal(Seq::filter);
    assert(s.push(x).drop_last() =~= s);
    assert(s.push(x).last() == x);
}

proof fn lemma_filter_all(s: Seq<Seq<char>>, pred: spec_fn(Seq<char>) -> bool)
    requires
        forall|i: int| 0 <= i < s.len() ==> pred(#[trigger] s[i]),
    ensures
        s.filter(pred) == s,
    decreases s.len(),
{
    reveal(Seq::filter);
    if s.len() == 0 {
        assert(s.filter(pred) =~= s);
    } else {
        assert forall|i: int| 0 <= i < s.drop_last().len() implies pred(#[trigger] s.drop_last()[i]) by {
            assert(s.drop_last()[i] == s[i]);
        }
        lemma_filter_all(s.drop_last(), pred);
        assert(pred(s[s.len() - 1]));
        assert(s.drop_last().push(s.last()) =~= s);
    }
}

proof fn lemma_filter_elem_of(s: Seq<Seq<char>>, pred: spec_fn(Seq<char>) -> bool, i: int)
    requires
        0 <= i < s.filter(pred).len(),
    ensures
        s.contains(s.filter(pred)[i]),
    decreases s.len(),
{
    reveal(Seq::filter);
    if s.len() == 0 {
    } else {
        let fd = s.drop_last().filter(pred);
        if pred(s.last()) && i == fd.len() {
            assert(s.filter(pred)[i] == s.last());
            assert(s[s.len() - 1] == s.last());
        } else {
            lemma_filter_elem_of(s.drop_last(), pred, i);
            let x = s.drop_last().filter(pred)[i];
            let j = choose|j: int| 0 <= j < s.drop_last().len() && s.drop_last()[j] == x;
            assert(s[j] == x);
        }
    }
}

/// Returns the lines of `contents` that contain `query` exactly, in the
/// order they occur. Each returned `&str` borrows from `contents`,
/// unmodified.
pub fn search<'a>(query: &str, contents: &'a str) -> (r: Vec<&'a str>)
    ensures
        r.deep_view() == search_matches(query@, contents@),
{
    let ghost pred = sensitive_pred(query@);
    let lines = split_lines(contents);
    let ghost all = lines.deep_view();
    let mut results: Vec<&'a str> = Vec::new();
    let mut idx: usize = 0;
    proof {
        reveal(Seq::filter);
        assert(all.take(0) =~= Seq::<Seq<char>>::empty());
        assert(results.deep_view() =~= all.take(0).filter(pred));
    }
    while idx < lines.len()
        invariant
            idx <= lines.len(),
            all == lines.deep_view(),
            all == lines_of(contents@),
            pred == sensitive_pred(query@),
            results.deep_view() == all.take(idx as int).filter(pred),
        decreases lines.len() - idx,
    {
        let line = lines[idx];
        proof {
            assert(all[idx as int] == line@);
        }
        let ghost old_views = results.deep_view();
        if contains_substring(line, query) {
            results.push(line);
            proof {
                assert(pred(line@));
                assert(results.deep_view() =~= old_views.push(line@));
            }
        } else {
            proof {
                assert(!pred(line@));
            }
        }
        proof {
            assert(all.take(idx + 1) =~= all.take(idx as int).push(all[idx as int]));
            lemma_filter_push(all.take(idx as int), pred, all[idx as int]);
        }
        idx += 1;
    }
    proof {
        assert(all.take(lines.len() as int) =~= all);
    }
    results
}

/// Returns the lines of `contents` whose lowercase form contains the
/// lowercase form of `query`, in the order they occur. The returned lines
/// are the original text, not the folded form.
pub fn search_case_insensitive<'a>(query: &str, contents: &'a str) -> (r: Vec<&'a str>)
    ensures
        r.deep_view() == search_insensitive_matches(query@, contents@),
        query@.len() == 0 ==> r.deep_view() == lines_of(contents@),
{
    let ghost pred = insensitive_pred(query@);
    let folded_query = to_lowercase(query);
    let lines = split_lines(contents);
    let ghost all = lines.deep_view();
    let mut results: Vec<&'a str> = Vec::new();
    let mut idx: usize = 0;
    proof {
        reveal(Seq::filter);
        assert(all.take(0) =~= Seq::<Seq<char>>::empty());
        assert(results.deep_view() =~= all.take(0).filter(pred));
    }
    while idx < lines.len()
        invariant
            idx <= lines.len(),
            all == lines.deep_view(),
            all == lines_of(contents@),
            pred == insensitive_pred(query@),
            folded_query@ == lower_of(query@),
            results.deep_view() == all.take(idx as int).filter(pred),
        decreases lines.len() - idx,
    {
        let line = lines[idx];
        proof {
            assert(all[idx as int] == line@);
        }
        let folded_line = to_lowercase(line);
        let ghost old_views = results.deep_view();
        if contains_substring(folded_line.as_str(), folded_query.as_str()) {
            results.push(line);
            proof {
                assert(pred(line@));
                assert(results.deep_view() =~= old_views.push(line@));
            }
        } else {
            proof {
                assert(!pred(line@));
            }
        }
        proof {
            assert(all.take(idx + 1) =~= all.take(idx as int).push(all[idx as int]));
            lemma_filter_push(all.take(idx as int), pred, all[idx as int]);
        }
        idx += 1;
    }
    proof {
        assert(all.take(lines.len() as int) =~= all);
        if query@.len() == 0 {
            assert(lower_of(query@) =~= Seq::<char>::empty());
            assert forall|i: int| 0 <= i < all.len() implies pred(#[trigger] all[i]) by {
                lemma_empty_needle_contained(lower_of(all[i]));
            }
            lemma_filter_all(all, pred);
        }
    }
    results
}

/// Runs the search selected by `mode` on `query` and `contents`.
pub fn search_mode<'a>(query: &str, contents: &'a str, mode: CaseMode) -> (r: Vec<&'a str>)
    ensures
        r.deep_view() == mode_matches(mode, query@, contents@),
{
    match mode {
        CaseMode::Sensitive => search(query, contents),
        CaseMode::Insensitive => search_case_insensitive(query, contents),
    }
}

/// Every returned line contains the query; every line of the body that
/// contains the query is returned.
pub proof fn lemma_search_sound_and_complete(q: Seq<char>, b: Seq<char>)
    ensures
        forall|i: int| 0 <= i < search_matches(q, b).len() ==> contains_seq(
            #[trigger] search_matches(q, b)[i],
            q,
        ),
        forall|i: int| 0 <= i < search_matches(q, b).len() ==> lines_of(b).contains(
            #[trigger] search_matches(q, b)[i],
        ),
        forall|i: int| 0 <= i < lines_of(b).len() && contains_seq(#[trigger] lines_of(b)[i], q)
            ==> search_matches(q, b).contains(lines_of(b)[i]),
{
    let pred = sensitive_pred(q);
    assert forall|i: int| 0 <= i < search_matches(q, b).len() implies contains_seq(
        #[trigger] search_matches(q, b)[i],
        q,
    ) && lines_of(b).contains(search_matches(q, b)[i]) by {
        lines_of(b).lemma_filter_pred(pred, i);
        lemma_filter_elem_of(lines_of(b), pred, i);
    }
    assert forall|i: int|
        0 <= i < lines_of(b).len() && contains_seq(
            #[trigger] lines_of(b)[i],
            q,
        ) implies search_matches(q, b).contains(lines_of(b)[i]) by {
        lines_of(b).lemma_filter_contains(pred, i);
    }
}

/// The result keeps the order of the body: the matches among the first
/// `k` lines are exactly the first entries of the full result.
pub proof fn lemma_search_preserves_order(q: Seq<char>, b: Seq<char>, k: int)
    requires
        0 <= k <= lines_of(b).len(),
    ensures
        lines_of(b).take(k).filter(sensitive_pred(q)).is_prefix_of(search_matches(q, b)),
        lines_of(b).take(k).filter(insensitive_pred(q)).is_prefix_of(
            search_insensitive_matches(q, b),
        ),
{
    assert(lines_of(b).take(k).is_prefix_of(lines_of(b)));
    lines_of(b).take(k).lemma_filter_monotone(lines_of(b), sensitive_pred(q));
    lines_of(b).take(k).lemma_filter_monotone(lines_of(b), insensitive_pred(q));
}

/// A line is in the case-insensitive result exactly when it is a line of
/// the body whose lowercase form contains the lowercase query.
pub proof fn lemma_search_insensitive_membership(q: Seq<char>, b: Seq<char>, l: Seq<char>)
    ensures
        search_insensitive_matches(q, b).contains(l) <==> (lines_of(b).contains(l) && contains_seq(
            lower_of(l),
            lower_of(q),
        )),
{
    let pred = insensitive_pred(q);
    let f = search_insensitive_matches(q, b);
    if f.contains(l) {
        let i = choose|i: int| 0 <= i < f.len() && f[i] == l;
        lines_of(b).lemma_filter_pred(pred, i);
        lemma_filter_elem_of(lines_of(b), pred, i);
    }
    if lines_of(b).contains(l) && contains_seq(lower_of(l), lower_of(q)) {
        let i = choose|i: int| 0 <= i < lines_of(b).len() && lines_of(b)[i] == l;
        lines_of(b).lemma_filter_contains(pred, i);
    }
}

/// Either search run twice on the same query and body yields identical
/// ordered results: the contracts pin each result to a function of the
/// inputs alone, so any two values meeting them are equal.
pub proof fn lemma_search_idempotent(
    mode: CaseMode,
    q: Seq<char>,
    b: Seq<char>,
    r1: Seq<Seq<char>>,
    r2: Seq<Seq<char>>,
)
    requires
        r1 == mode_matches(mode, q, b),
        r2 == mode_matches(mode, q, b),
    ensures
        r1 == r2,
{
}

/// An empty query matches every line of the body.
pub proof fn lemma_empty_query_matches_every_line(b: Seq<char>)
    ensures
        search_matches(Seq::<char>::empty(), b) == lines_of(b),
{
    let q = Seq::<char>::empty();
    assert forall|i: int| 0 <= i < lines_of(b).len() implies sensitive_pred(q)(
        #[trigger] lines_of(b)[i],
    ) by {
        lemma_empty_needle_contained(lines_of(b)[i]);
    }
    lemma_filter_all(lines_of(b), sensitive_pred(q));
}

/// An empty body yields an empty result in both modes, for every query.
pub proof fn lemma_empty_body_matches_nothing(mode: CaseMode, q: Seq<char>)
    ensures
        mode_matches(mode, q, Seq::<char>::empty()) == Seq::<Seq<char>>::empty(),
{
    reveal(Seq::filter);
    assert(lines_of(Seq::<char>::empty()) == Seq::<Seq<char>>::empty());
}

/// A body none of whose lines contains the query yields an empty result,
/// not an error.
pub proof fn lemma_no_matching_line_empty_result(q: Seq<char>, b: Seq<char>)
    requires
        forall|i: int| 0 <= i < lines_of(b).len() ==> !contains_seq(#[trigger] lines_of(b)[i], q),
    ensures
        search_matches(q, b) == Seq::<Seq<char>>::empty(),
{
    let pred = sensitive_pred(q);
    let f = search_matches(q, b);
    if f.len() > 0 {
        lines_of(b).lemma_filter_pred(pred, 0);
        lemma_filter_elem_of(lines_of(b), pred, 0);
        let x = f[0];
        let j = choose|j: int| 0 <= j < lines_of(b).len() && lines_of(b)[j] == x;
        assert(!contains_seq(lines_of(b)[j], q));
    }
    assert(f =~= Seq::<Seq<char>>::empty());
}

} // verus!
