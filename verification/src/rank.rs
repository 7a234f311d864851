//! Fuzzy ranking of the snapshot against a query: scoring through the
//! subsequence matcher, filtering out non-matches, and a stable descending
//! sort of what is left.

use vstd::prelude::*;
use crate::client::WindowClient;
use fuzzy_matcher::FuzzyMatcher;

verus! {

/// What the skim fuzzy matcher (smart case) returns for a choice string and
/// a pattern: no value when the pattern is no subsequence of the choice,
/// else a score.
pub uninterp spec fn skim_score(choice: Seq<char>, pattern: Seq<char>) -> Option<i64>;

/// Relies on fuzzy_matcher's SkimMatcherV2 in its smart-case configuration:
/// the score is a function of the two strings alone.
#[verifier::external_body]
fn fuzzy_match_score(choice: &String, pattern: &str) -> (r: Option<i64>)
    ensures
        r == skim_score(choice@, pattern@),
{
    fuzzy_matcher::skim::SkimMatcherV2::default().smart_case().fuzzy_match(
        choice.as_str(),
        pattern,
    )
}

/// The score of one window against a query: the matcher's score for its
/// initial title, or zero where the matcher returns none.
pub open spec fn spec_score(c: WindowClient, pattern: Seq<char>) -> i64 {
    match skim_score(c.initial_title@, pattern) {
        Some(s) => s,
        None => 0,
    }
}

/// One ranking candidate: the position of its window in the snapshot, and
/// its score against the query.
#[derive(Clone, Copy)]
pub struct Cand {
    pub idx: usize,
    pub score: i64,
}

/// The ranking order: higher scores first, and among equal scores the
/// earlier snapshot position first.
pub open spec fn precedes(a: Cand, b: Cand) -> bool {
    a.score > b.score || (a.score == b.score && a.idx < b.idx)
}

/// The candidates among the first `n` snapshot entries: every entry whose
/// score against the query is strictly positive, in snapshot order.
pub open spec fn spec_candidates_upto(
    snapshot: Seq<(u64, WindowClient)>,
    pattern: Seq<char>,
    n: int,
) -> Seq<Cand>
    decreases n,
{
    if n <= 0 {
        Seq::empty()
    } else if spec_score(snapshot[n - 1].1, pattern) > 0 {
        spec_candidates_upto(snapshot, pattern, n - 1).push(
            Cand { idx: (n - 1) as usize, score: spec_score(snapshot[n - 1].1, pattern) },
        )
    } else {
        spec_candidates_upto(snapshot, pattern, n - 1)
    }
}

/// The candidates of a whole snapshot.
pub open spec fn spec_candidates(snapshot: Seq<(u64, WindowClient)>, pattern: Seq<char>) -> Seq<
    Cand,
> {
    spec_candidates_upto(snapshot, pattern, snapshot.len() as int)
}

/// A sequence already ranked, with `c` placed before the first element it
/// precedes: scores stay descending, and an equal score lands after the
/// earlier-position entries, which keeps the sort stable.
pub open spec fn spec_insert(s: Seq<Cand>, c: Cand) -> Seq<Cand>
    decreases s.len(),
{
    if s.len() == 0 {
        seq![c]
    } else if precedes(c, s[0]) {
        seq![c] + s
    } else {
        seq![s[0]] + spec_insert(s.drop_first(), c)
    }
}

/// The stable descending sort of a candidate sequence, built by inserting
/// each element in turn.
pub open spec fn spec_rank(s: Seq<Cand>) -> Seq<Cand>
    decreases s.len(),
{
    if s.len() == 0 {
        Seq::empty()
    } else {
        spec_insert(spec_rank(s.drop_last()), s.last())
    }
}

/// A sequence is in ranking order: no later element precedes an earlier
/// one, so scores are non-increasing and equal scores keep their snapshot
/// order.
pub open spec fn is_ranked(r: Seq<Cand>) -> bool {
    forall|i: int, j: int| 0 <= i < j < r.len() ==> !precedes(#[trigger] r[j], #[trigger] r[i])
}

/// Inserting adds one element and otherwise keeps the collection.
proof fn lemma_insert_multiset(s: Seq<Cand>, c: Cand)
    ensures
        spec_insert(s, c).len() == s.len() + 1,
        spec_insert(s, c).to_multiset() == s.to_multiset().insert(c),
    decreases s.len(),
{
    broadcast use vstd::seq_lib::group_to_multiset_ensures;
    broadcast use vstd::multiset::group_multiset_axioms;

    if s.len() == 0 {
        assert(seq![c] =~= Seq::empty().push(c));
        assert(spec_insert(s, c).to_multiset() =~= s.to_multiset().insert(c));
    } else if precedes(c, s[0]) {
        vstd::seq_lib::lemma_multiset_commutative(seq![c], s);
        assert(seq![c] =~= Seq::empty().push(c));
        assert(spec_insert(s, c).to_multiset() =~= s.to_multiset().insert(c));
    } else {
        lemma_insert_multiset(s.drop_first(), c);
        vstd::seq_lib::lemma_multiset_commutative(seq![s[0]], spec_insert(s.drop_first(), c));
        assert(s =~= seq![s[0]] + s.drop_first());
        vstd::seq_lib::lemma_multiset_commutative(seq![s[0]], s.drop_first());
        assert(spec_insert(s, c).to_multiset() =~= s.to_multiset().insert(c));
    }
}

/// Inserting into a ranked sequence keeps it ranked.
proof fn lemma_insert_sorted(s: Seq<Cand>, c: Cand)
    requires
        is_ranked(s),
    ensures
        is_ranked(spec_insert(s, c)),
    decreases s.len(),
{
    broadcast use vstd::seq_lib::group_to_multiset_ensures;

    let r = spec_insert(s, c);
    if s.len() == 0 {
    } else if precedes(c, s[0]) {
        assert forall|i: int, j: int| 0 <= i < j < r.len() implies !precedes(
            #[trigger] r[j],
            #[trigger] r[i],
        ) by {
            assert(r[j] == s[j - 1]);
            if i > 0 {
                assert(r[i] == s[i - 1]);
            } else {
                assert(r[i] == c);
                if j > 1 {
                    assert(!precedes(s[j - 1], s[0]));
                }
            }
        }
    } else {
        assert(is_ranked(s.drop_first())) by {
            assert(forall|i: int, j: int|
                0 <= i < j < s.drop_first().len() ==> !precedes(
                    #[trigger] s.drop_first()[j],
                    #[trigger] s.drop_first()[i],
                ));
        }
        lemma_insert_sorted(s.drop_first(), c);
        lemma_insert_multiset(s.drop_first(), c);
        let ins = spec_insert(s.drop_first(), c);
        assert forall|i: int, j: int| 0 <= i < j < r.len() implies !precedes(
            #[trigger] r[j],
            #[trigger] r[i],
        ) by {
            if i > 0 {
                assert(r[i] == ins[i - 1] && r[j] == ins[j - 1]);
            } else {
                assert(r[i] == s[0]);
                let x = ins[j - 1];
                assert(ins.contains(x));
                assert(ins.to_multiset().count(x) > 0);
                if x == c {
                    assert(!precedes(c, s[0]));
                } else {
                    assert(s.drop_first().to_multiset().count(x) > 0);
                    assert(s.drop_first().contains(x));
                    let k = choose|k: int|
                        0 <= k < s.drop_first().len() && s.drop_first()[k] == x;
                    assert(s[k + 1] == x);
                    assert(!precedes(s[k + 1], s[0]));
                }
            }
        }
    }
}

/// The ranked sequence is a reordering of the candidates, and it is in
/// ranking order: scores non-increasing, equal scores in snapshot order.
pub proof fn lemma_rank_props(s: Seq<Cand>)
    ensures
        spec_rank(s).len() == s.len(),
        spec_rank(s).to_multiset() == s.to_multiset(),
        is_ranked(spec_rank(s)),
    decreases s.len(),
{
    broadcast use vstd::seq_lib::group_to_multiset_ensures;

    if s.len() > 0 {
        lemma_rank_props(s.drop_last());
        lemma_insert_multiset(spec_rank(s.drop_last()), s.last());
        lemma_insert_sorted(spec_rank(s.drop_last()), s.last());
        assert(s =~= s.drop_last().push(s.last()));
        assert(spec_rank(s).to_multiset() =~= s.to_multiset());
    }
}

/// Every candidate points into the snapshot, carries the positive score of
/// its window, and candidates come in snapshot order; every window with a
/// positive score is a candidate.
pub proof fn lemma_candidates_props(snapshot: Seq<(u64, WindowClient)>, pattern: Seq<char>, n: int)
    requires
        0 <= n <= snapshot.len(),
        n <= usize::MAX,
    ensures
        forall|k: int|
            0 <= k < spec_candidates_upto(snapshot, pattern, n).len() ==> {
                &&& 0 <= (#[trigger] spec_candidates_upto(snapshot, pattern, n)[k]).idx < n
                &&& spec_candidates_upto(snapshot, pattern, n)[k].score == spec_score(
                    snapshot[spec_candidates_upto(snapshot, pattern, n)[k].idx as int].1,
                    pattern,
                )
                &&& spec_candidates_upto(snapshot, pattern, n)[k].score > 0
            },
        forall|k1: int, k2: int|
            0 <= k1 < k2 < spec_candidates_upto(snapshot, pattern, n).len()
                ==> (#[trigger] spec_candidates_upto(snapshot, pattern, n)[k1]).idx < (
            #[trigger] spec_candidates_upto(snapshot, pattern, n)[k2]).idx,
        forall|i: int|
            0 <= i < n && spec_score(snapshot[i].1, pattern) > 0 ==> spec_candidates_upto(
                snapshot,
                pattern,
                n,
            ).contains(
                Cand { idx: i as usize, score: spec_score(snapshot[i].1, pattern) },
            ),
    decreases n,
{
    if n > 0 {
        lemma_candidates_props(snapshot, pattern, n - 1);
        let prev = spec_candidates_upto(snapshot, pattern, n - 1);
        let cur = spec_candidates_upto(snapshot, pattern, n);
        if spec_score(snapshot[n - 1].1, pattern) > 0 {
            let c = Cand { idx: (n - 1) as usize, score: spec_score(snapshot[n - 1].1, pattern) };
            assert(cur == prev.push(c));
            assert(cur[cur.len() - 1] == c);
            assert(forall|k: int| 0 <= k < prev.len() ==> cur[k] == prev[k]);
            assert forall|i: int|
                0 <= i < n && spec_score(snapshot[i].1, pattern) > 0 implies cur.contains(
                Cand { idx: i as usize, score: spec_score(snapshot[i].1, pattern) },
            ) by {
                if i < n - 1 {
                    let x = Cand { idx: i as usize, score: spec_score(snapshot[i].1, pattern) };
                    assert(prev.contains(x));
                    let k = choose|k: int| 0 <= k < prev.len() && prev[k] == x;
                    assert(cur[k] == x);
                }
            }
        } else {
            assert(cur == prev);
        }
    }
}

/// Every element of the ranked candidate sequence is a candidate of the
/// snapshot: it points into the snapshot and carries a positive score.
pub proof fn lemma_ranked_elements(snapshot: Seq<(u64, WindowClient)>, pattern: Seq<char>)
    requires
        snapshot.len() <= usize::MAX,
    ensures
        forall|k: int|
            0 <= k < spec_rank(spec_candidates(snapshot, pattern)).len() ==> {
                &&& 0 <= (#[trigger] spec_rank(spec_candidates(snapshot, pattern))[k]).idx
                    < snapshot.len()
                &&& spec_rank(spec_candidates(snapshot, pattern))[k].score == spec_score(
                    snapshot[spec_rank(spec_candidates(snapshot, pattern))[k].idx as int].1,
                    pattern,
                )
                &&& spec_rank(spec_candidates(snapshot, pattern))[k].score > 0
            },
{
    broadcast use vstd::seq_lib::group_to_multiset_ensures;

    let cands = spec_candidates(snapshot, pattern);
    let ranked = spec_rank(cands);
    lemma_rank_props(cands);
    lemma_candidates_props(snapshot, pattern, snapshot.len() as int);
    assert forall|k: int| 0 <= k < ranked.len() implies {
        &&& 0 <= (#[trigger] ranked[k]).idx < snapshot.len()
        &&& ranked[k].score == spec_score(snapshot[ranked[k].idx as int].1, pattern)
        &&& ranked[k].score > 0
    } by {
        let x = ranked[k];
        assert(ranked.contains(x));
        assert(ranked.to_multiset().count(x) > 0);
        assert(cands.to_multiset().count(x) > 0);
        assert(cands.contains(x));
        let j = choose|j: int| 0 <= j < cands.len() && cands[j] == x;
    }
}

/// Law: the ranked candidates of a snapshot come in strictly descending
/// ranking order: scores non-increasing, and among equal scores the
/// snapshot positions strictly ascending, so relative snapshot order is
/// preserved.
pub proof fn lemma_ranking_sorted_stable(snapshot: Seq<(u64, WindowClient)>, pattern: Seq<char>)
    requires
        snapshot.len() <= usize::MAX,
    ensures
        forall|i: int, j: int|
            0 <= i < j < spec_rank(spec_candidates(snapshot, pattern)).len() ==> {
                let a = #[trigger] spec_rank(spec_candidates(snapshot, pattern))[i];
                let b = #[trigger] spec_rank(spec_candidates(snapshot, pattern))[j];
                a.score > b.score || (a.score == b.score && a.idx < b.idx)
            },
{
    broadcast use vstd::seq_lib::group_to_multiset_ensures;

    let cands = spec_candidates(snapshot, pattern);
    let ranked = spec_rank(cands);
    lemma_candidates_props(snapshot, pattern, snapshot.len() as int);
    lemma_rank_props(cands);
    assert(cands.no_duplicates()) by {
        assert forall|a: int, b: int|
            0 <= a < cands.len() && 0 <= b < cands.len() && a != b implies cands[a]
            != cands[b] by {
            if a < b {
                assert(cands[a].idx < cands[b].idx);
            } else {
                assert(cands[b].idx < cands[a].idx);
            }
        }
    }
    cands.lemma_multiset_has_no_duplicates();
    ranked.lemma_multiset_has_no_duplicates_conv();
    assert forall|i: int, j: int| 0 <= i < j < ranked.len() implies {
        let a = #[trigger] ranked[i];
        let b = #[trigger] ranked[j];
        a.score > b.score || (a.score == b.score && a.idx < b.idx)
    } by {
        assert(!precedes(ranked[j], ranked[i]));
        assert(ranked[i] != ranked[j]);
    }
}

/// Law: a window stands among the ranked candidates of a query exactly
/// when its fuzzy score against the query is strictly positive. This
/// speaks of the ranking before the result cap; a query's result is its
/// first `max_entries` rows.
pub proof fn lemma_ranking_membership(
    snapshot: Seq<(u64, WindowClient)>,
    pattern: Seq<char>,
    i: int,
)
    requires
        snapshot.len() <= usize::MAX,
        0 <= i < snapshot.len(),
    ensures
        (exists|k: int|
            0 <= k < spec_rank(spec_candidates(snapshot, pattern)).len()
                && (#[trigger] spec_rank(spec_candidates(snapshot, pattern))[k]).idx == i)
            <==> spec_score(snapshot[i].1, pattern) > 0,
{
    broadcast use vstd::seq_lib::group_to_multiset_ensures;

    let cands = spec_candidates(snapshot, pattern);
    let ranked = spec_rank(cands);
    lemma_candidates_props(snapshot, pattern, snapshot.len() as int);
    lemma_rank_props(cands);
    lemma_ranked_elements(snapshot, pattern);
    if spec_score(snapshot[i].1, pattern) > 0 {
        let c = Cand { idx: i as usize, score: spec_score(snapshot[i].1, pattern) };
        assert(cands.contains(c));
        assert(cands.to_multiset().count(c) > 0);
        assert(ranked.to_multiset().count(c) > 0);
        assert(ranked.contains(c));
        let k = choose|k: int| 0 <= k < ranked.len() && ranked[k] == c;
        assert(ranked[k].idx == i);
    }
}

/// Filters the snapshot down to the entries that score strictly positively
/// against the query, in snapshot order.
pub fn filter_candidates(snapshot: &Vec<(u64, WindowClient)>, pattern: &str) -> (r: Vec<Cand>)
    ensures
        r@ == spec_candidates(snapshot@, pattern@),
{
    let mut r: Vec<Cand> = Vec::new();
    let mut i: usize = 0;
    while i < snapshot.len()
        invariant
            i <= snapshot@.len(),
            r@ == spec_candidates_upto(snapshot@, pattern@, i as int),
        decreases snapshot@.len() - i,
    {
        let score = match fuzzy_match_score(&snapshot[i].1.initial_title, pattern) {
            Some(s) => s,
            None => 0,
        };
        if score > 0 {
            r.push(Cand { idx: i, score });
        }
        i = i + 1;
    }
    r
}

/// `spec_insert` places `c` exactly at the first position whose element it
/// precedes.
proof fn lemma_insert_at(s: Seq<Cand>, c: Cand, p: int)
    requires
        0 <= p <= s.len(),
        forall|j: int| 0 <= j < p ==> !precedes(c, #[trigger] s[j]),
        p < s.len() ==> precedes(c, s[p]),
    ensures
        spec_insert(s, c) =~= s.take(p) + seq![c] + s.skip(p),
    decreases p,
{
    if p == 0 {
        if s.len() == 0 {
            assert(spec_insert(s, c) == seq![c]);
        }
    } else {
        assert(!precedes(c, s[0]));
        lemma_insert_at(s.drop_first(), c, p - 1);
        assert(spec_insert(s, c) == seq![s[0]] + spec_insert(s.drop_first(), c));
    }
}

/// Inserts a candidate into an already ranked vector, keeping the ranking
/// order and the stability of equal scores.
fn insert_ranked(v: &mut Vec<Cand>, c: Cand)
    ensures
        final(v)@ == spec_insert(old(v)@, c),
{
    let mut p: usize = 0;
    while p < v.len() && !(c.score > v[p].score || (c.score == v[p].score && c.idx < v[p].idx))
        invariant
            p <= v@.len(),
            v == old(v),
            forall|j: int| 0 <= j < p ==> !precedes(c, #[trigger] v@[j]),
        decreases v@.len() - p,
    {
        p = p + 1;
    }
    proof {
        lemma_insert_at(v@, c, p as int);
        assert(v@.insert(p as int, c) =~= v@.take(p as int) + seq![c] + v@.skip(p as int));
    }
    v.insert(p, c);
}

/// Sorts the candidates into ranking order with a stable insertion sort.
pub fn sort_candidates(cands: Vec<Cand>) -> (r: Vec<Cand>)
    ensures
        r@ == spec_rank(cands@),
{
    let mut r: Vec<Cand> = Vec::new();
    let mut i: usize = 0;
    while i < cands.len()
        invariant
            i <= cands@.len(),
            r@ == spec_rank(cands@.take(i as int)),
        decreases cands@.len() - i,
    {
        proof {
            assert(cands@.take(i + 1).drop_last() =~= cands@.take(i as int));
            assert(cands@.take(i + 1).last() == cands@[i as int]);
        }
        insert_ranked(&mut r, cands[i]);
        i = i + 1;
    }
    proof {
        assert(cands@.take(cands@.len() as int) =~= cands@);
    }
    r
}

} // verus!
