//! Merging the outputs of the result sources: one result per path, best
//! score first, cut to the requested count.
use vstd::prelude::*;
use vstd::multiset::Multiset;
use crate::model::at_most;
use crate::search::SearchResult;

verus! {

broadcast use vstd::seq_lib::group_to_multiset_ensures;

/// Keeps the first result of each path, in order.
pub open spec fn first_of_paths(s: Seq<SearchResult>) -> Seq<SearchResult>
    decreases s.len(),
{
    if s.len() == 0 {
        s
    } else {
        let rest = first_of_paths(s.drop_last());
        if exists|i: int| 0 <= i < s.len() - 1 && (#[trigger] s[i]).path@ == s.last().path@ {
            rest
        } else {
            rest.push(s.last())
        }
    }
}

/// Scores never increase along `s`.
pub open spec fn sorted_by_score(s: Seq<SearchResult>) -> bool {
    forall|i: int, j: int|
        0 <= i < j < s.len() ==> (#[trigger] s[i]).relevance_score >= (#[trigger] s[j]).relevance_score
}

/// No two results of `s` share a path.
pub open spec fn paths_distinct(s: Seq<SearchResult>) -> bool {
    forall|i: int, j: int| 0 <= i < s.len() && 0 <= j < s.len() && i != j ==> (#[trigger] s[i]).path@ != (#[trigger] s[j]).path@
}

/// What the fuser returns for `results` and `max`: some ordering `p` of the
/// first result of each path, by score from best to worst, cut to `max`.
pub open spec fn fused(results: Seq<SearchResult>, max: nat, r: Seq<SearchResult>) -> bool {
    exists|p: Seq<SearchResult>|
        p.to_multiset() == first_of_paths(results).to_multiset() && sorted_by_score(p) && r == at_most(p, max)
}

fn has_path(v: &Vec<SearchResult>, path: &String) -> (r: bool)
    ensures
        r == exists|i: int| 0 <= i < v@.len() && (#[trigger] v@[i]).path@ == path@,
{
    let mut i: usize = 0;
    while i < v.len()
        invariant
            i <= v@.len(),
            forall|k: int| 0 <= k < i ==> (#[trigger] v@[k]).path@ != path@,
        decreases v@.len() - i,
    {
        if v[i].path == *path {
            assert(v@[i as int].path@ == path@);
            return true;
        }
        i = i + 1;
    }
    false
}

/// Position after every result of `out` that scores at least `score`.
fn insert_position(out: &Vec<SearchResult>, score: u64) -> (p: usize)
    requires
        sorted_by_score(out@),
    ensures
        p <= out@.len(),
        forall|i: int| 0 <= i < p ==> (#[trigger] out@[i]).relevance_score >= score,
        forall|i: int| p <= i < out@.len() ==> (#[trigger] out@[i]).relevance_score < score,
{
    let mut p: usize = 0;
    while p < out.len() && out[p].relevance_score >= score
        invariant
            p <= out@.len(),
            forall|i: int| 0 <= i < p ==> (#[trigger] out@[i]).relevance_score >= score,
        decreases out@.len() - p,
    {
        p = p + 1;
    }
    if p < out.len() {
        assert forall|i: int| p <= i < out@.len() implies (#[trigger] out@[i]).relevance_score < score by {
            if i > p {
                assert(out@[p as int].relevance_score >= out@[i].relevance_score);
            }
        }
    }
    p
}

/// Merges results: keeps the first result of each path (one arbitrary
/// survivor, not the best-scoring one), orders by score from best to worst,
/// and keeps at most `max_results`.
pub fn deduplicate_and_rank(results: Vec<SearchResult>, max_results: usize) -> (r: Vec<SearchResult>)
    ensures
        fused(results@, max_results as nat, r@),
        paths_distinct(r@),
        r@.len() <= max_results,
        sorted_by_score(r@),
{
    let ghost orig = results@;
    let mut input = results;
    let mut out: Vec<SearchResult> = Vec::new();
    assert(orig.take(orig.len() as int) =~= orig);
    assert(out@.to_multiset() =~= Multiset::empty());
    assert(first_of_paths(orig).to_multiset() =~= first_of_paths(input@).to_multiset().add(out@.to_multiset()));
    while input.len() > 0
        invariant
            input@ == orig.take(input@.len() as int),
            input@.len() <= orig.len(),
            first_of_paths(orig).to_multiset() == first_of_paths(input@).to_multiset().add(
                out@.to_multiset(),
            ),
            sorted_by_score(out@),
            paths_distinct(out@),
            forall|a: int, b: int|
                0 <= a < out@.len() && 0 <= b < input@.len() ==> (#[trigger] out@[a]).path@
                    != (#[trigger] input@[b]).path@,
        decreases input@.len(),
    {
        let ghost before = input@;
        let ghost out0 = out@;
        let x = input.pop().unwrap();
        assert(before.drop_last() == input@);
        assert(before.last() == x);
        assert(input@ =~= orig.take(input@.len() as int));
        let dup = has_path(&input, &x.path);
        if !dup {
            let p = insert_position(&out, x.relevance_score);
            out.insert(p, x);
            proof {
                assert(first_of_paths(before) == first_of_paths(input@).push(x));
                assert(out@.to_multiset() == out0.to_multiset().insert(x));
                assert(first_of_paths(before).to_multiset() == first_of_paths(input@).to_multiset().insert(x));
                assert(first_of_paths(orig).to_multiset() =~= first_of_paths(input@).to_multiset().add(
                    out@.to_multiset(),
                ));
                assert forall|i: int, j: int| 0 <= i < j < out@.len() implies (#[trigger] out@[i]).relevance_score
                    >= (#[trigger] out@[j]).relevance_score by {
                    if i < p && j < p {
                        assert(out@[i] == out0[i] && out@[j] == out0[j]);
                    } else if i < p && j == p {
                        assert(out@[i] == out0[i]);
                    } else if i < p {
                        assert(out@[i] == out0[i] && out@[j] == out0[j - 1]);
                    } else if i == p {
                        assert(out@[j] == out0[j - 1]);
                    } else {
                        assert(out@[i] == out0[i - 1] && out@[j] == out0[j - 1]);
                    }
                }
                assert forall|i: int, j: int|
                    0 <= i < out@.len() && 0 <= j < out@.len() && i != j implies (#[trigger] out@[i]).path@
                    != (#[trigger] out@[j]).path@ by {
                    let oi = if i < p { i } else if i == p { -1 } else { i - 1 };
                    let oj = if j < p { j } else if j == p { -1 } else { j - 1 };
                    if oi >= 0 {
                        assert(out@[i] == out0[oi]);
                        assert(out0[oi].path@ != before[before.len() - 1].path@);
                    }
                    if oj >= 0 {
                        assert(out@[j] == out0[oj]);
                        assert(out0[oj].path@ != before[before.len() - 1].path@);
                    }
                }
                assert forall|a: int, b: int|
                    0 <= a < out@.len() && 0 <= b < input@.len() implies (#[trigger] out@[a]).path@
                    != (#[trigger] input@[b]).path@ by {
                    assert(input@[b] == before[b]);
                    if a != p {
                        let oa = if a < p { a } else { a - 1 };
                        assert(out@[a] == out0[oa]);
                    }
                }
            }
        } else {
            proof {
                let i = choose|i: int| 0 <= i < input@.len() && (#[trigger] input@[i]).path@ == x.path@;
                assert(before[i] == input@[i]);
                assert(first_of_paths(before) == first_of_paths(input@));
                assert forall|a: int, b: int|
                    0 <= a < out@.len() && 0 <= b < input@.len() implies (#[trigger] out@[a]).path@
                    != (#[trigger] input@[b]).path@ by {
                    assert(input@[b] == before[b]);
                }
            }
        }
    }
    proof {
        assert(first_of_paths(input@) =~= Seq::<SearchResult>::empty());
        assert(first_of_paths(orig).to_multiset() =~= out@.to_multiset());
    }
    let ghost sorted = out@;
    out.truncate(max_results);
    proof {
        assert(out@ =~= at_most(sorted, max_results as nat));
        assert(fused(orig, max_results as nat, out@));
        assert forall|i: int, j: int| 0 <= i < j < out@.len() implies (#[trigger] out@[i]).relevance_score
            >= (#[trigger] out@[j]).relevance_score by {
            assert(out@[i] == sorted[i] && out@[j] == sorted[j]);
        }
        assert forall|i: int, j: int|
            0 <= i < out@.len() && 0 <= j < out@.len() && i != j implies (#[trigger] out@[i]).path@
            != (#[trigger] out@[j]).path@ by {
            assert(out@[i] == sorted[i] && out@[j] == sorted[j]);
        }
    }
    out
}

} // verus!
