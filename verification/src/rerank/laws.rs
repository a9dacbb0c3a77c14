//! What holds of every reranking.

use vstd::prelude::*;

use crate::ranking::{is_ranking, lemma_text_before_irreflexive, precedes};
use crate::rerank::{is_best, result_scores, RerankResultView};

verus! {

/// The reranker contract: the result holds at most `top_n` results, no
/// result but of the pool, the scores never rise from one to the next,
/// and an empty pool gives an empty result.
pub proof fn law_rerank_contract(pool: Seq<RerankResultView>, top_n: int, out: Seq<RerankResultView>)
    requires
        is_best(pool, top_n, out),
        0 <= top_n,
    ensures
        out.len() <= top_n,
        pool.len() == 0 ==> out.len() == 0,
        forall|i: int| 0 <= i < out.len() ==> pool.contains(#[trigger] out[i]),
        forall|i: int, j: int| 0 <= i < j < out.len() ==> (#[trigger] out[i]).score >= (#[trigger] out[j]).score,
{
    let scores = result_scores(pool);
    let order = choose|order: Seq<usize>| #[trigger]
        is_ranking(order, scores, Seq::empty()) && out.len() == (if top_n < pool.len() {
            top_n
        } else {
            pool.len() as int
        }) && forall|i: int| 0 <= i < out.len() ==> #[trigger] out[i] == pool[order[i] as int];
    assert forall|i: int| 0 <= i < out.len() implies pool.contains(#[trigger] out[i]) by {
        assert(order[i] < pool.len());
        assert(pool[order[i] as int] == out[i]);
    }
    assert forall|i: int, j: int| 0 <= i < j < out.len() implies (#[trigger] out[i]).score >= (
    #[trigger] out[j]).score by {
        let x = order[i] as int;
        let y = order[j] as int;
        assert(order[i] < pool.len() && order[j] < pool.len());
        assert(precedes(scores, Seq::empty(), x, y));
        assert(out[i] == pool[x] && out[j] == pool[y]);
        lemma_text_before_irreflexive(Seq::empty());
    }
}

} // verus!
