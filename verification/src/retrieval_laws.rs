//! What holds of every hierarchical search and of every ranking of
//! matches.

use vstd::prelude::*;

use crate::node::NodeView;
use crate::pathway::PathwayView;
use crate::ranking::{is_ranking, precedes, Score};
use crate::retrieval::{direct_hit, direct_matches, expansion, is_top, lesser, match_scores};
use crate::MatchedNodeView;

verus! {

/// Every direct match stems from a candidate, and the direct matches
/// follow the order of the candidates.
pub proof fn lemma_direct_origin(
    nodes: Map<Seq<char>, NodeView>,
    candidates: Seq<(PathwayView, Score)>,
    threshold: Score,
) -> (origin: Seq<int>)
    ensures
        origin.len() == direct_matches(nodes, candidates, threshold).len(),
        forall|i: int|
            0 <= i < origin.len() ==> 0 <= #[trigger] origin[i] < candidates.len() && direct_matches(
                nodes,
                candidates,
                threshold,
            )[i].pathway == candidates[origin[i]].0,
        forall|i: int, j: int| 0 <= i < j < origin.len() ==> #[trigger] origin[i] < #[trigger] origin[j],
    decreases candidates.len(),
{
    if candidates.len() == 0 {
        Seq::empty()
    } else {
        let head = candidates.drop_last();
        let before = lemma_direct_origin(nodes, head, threshold);
        if direct_hit(nodes, candidates.last(), threshold) {
            let origin = before.push(candidates.len() - 1);
            assert forall|i: int| 0 <= i < origin.len() implies 0 <= #[trigger] origin[i]
                < candidates.len() && direct_matches(nodes, candidates, threshold)[i].pathway
                == candidates[origin[i]].0 by {
                if i < before.len() {
                    assert(candidates[before[i]] == head[before[i]]);
                }
            }
            origin
        } else {
            assert forall|i: int| 0 <= i < before.len() implies 0 <= #[trigger] before[i]
                < candidates.len() && direct_matches(nodes, candidates, threshold)[i].pathway
                == candidates[before[i]].0 by {
                assert(candidates[before[i]] == head[before[i]]);
            }
            before
        }
    }
}

/// Hierarchical search deduplicates: where no two candidates have the
/// same pathway text, no two matches of the result have.
pub proof fn law_hierarchical_distinct<F: Fn(&Vec<u32>) -> Score>(
    score_of: F,
    nodes: Map<Seq<char>, NodeView>,
    candidates: Seq<(PathwayView, Score)>,
    dirs: Seq<PathwayView>,
    max_depth: int,
    threshold: Score,
    out: Seq<MatchedNodeView>,
)
    requires
        forall|i: int, j: int|
            0 <= i < j < candidates.len() ==> (#[trigger] candidates[i]).0.text() != (
            #[trigger] candidates[j]).0.text(),
        expansion(
            score_of,
            nodes,
            dirs,
            max_depth,
            threshold,
            direct_matches(nodes, candidates, threshold),
            out,
        ),
    ensures
        forall|i: int, j: int|
            0 <= i < j < out.len() ==> (#[trigger] out[i]).pathway.text() != (#[trigger] out[j]).pathway.text(),
{
    let base = direct_matches(nodes, candidates, threshold);
    let origin = lemma_direct_origin(nodes, candidates, threshold);
    assert forall|i: int, j: int| 0 <= i < j < out.len() implies (#[trigger] out[i]).pathway.text() != (
    #[trigger] out[j]).pathway.text() by {
        if j < base.len() {
            assert(out[i] == base[i]);
            assert(out[j] == base[j]);
            assert(origin[i] < origin[j]);
            assert(candidates[origin[i]].0.text() != candidates[origin[j]].0.text());
        }
    }
}

/// The best matches are at most `limit`, each is a match of the pool,
/// and their scores never rise from one to the next.
pub proof fn law_top_sorted(pool: Seq<MatchedNodeView>, limit: int, out: Seq<MatchedNodeView>)
    requires
        is_top(pool, limit, out),
        0 <= limit,
    ensures
        out.len() <= limit,
        out.len() <= pool.len(),
        forall|i: int| 0 <= i < out.len() ==> pool.contains(#[trigger] out[i]),
        forall|i: int, j: int| 0 <= i < j < out.len() ==> (#[trigger] out[i]).score >= (#[trigger] out[j]).score,
{
    let scores = match_scores(pool);
    let order = choose|order: Seq<usize>| #[trigger]
        is_ranking(order, scores, Seq::empty()) && out.len() == lesser(limit, pool.len() as int)
            && forall|i: int| 0 <= i < out.len() ==> #[trigger] out[i] == pool[order[i] as int];
    assert forall|i: int| 0 <= i < out.len() implies pool.contains(#[trigger] out[i]) by {
        assert(order[i] < pool.len());
        assert(pool[order[i] as int] == out[i]);
    }
    assert forall|i: int, j: int| 0 <= i < j < out.len() implies (#[trigger] out[i]).score >= (
    #[trigger] out[j]).score by {
        let x = order[i] as int;
        let y = order[j] as int;
        assert(order[i] < pool.len() && order[j] < pool.len());
        assert(precedes(scores, Seq::empty(), x, y));
        assert(out[i] == pool[x] && out[j] == pool[y]);
        crate::ranking::lemma_text_before_irreflexive(Seq::empty());
    }
}

} // verus!
