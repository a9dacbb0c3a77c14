//! A deterministic reranker that needs no service.

use vstd::prelude::*;

use crate::error::Result;
use crate::ranking::Score;
use crate::rerank::{
    is_best, rank_results, result_views, RerankDocument, RerankResult, RerankResultView,
};
use crate::text::{byte_sum, utf8_bytes, wrapped_sum};

verus! {

/// Reranker that scores a document by its text alone.
#[derive(Debug, Clone, Copy)]
pub struct MockReranker;

/// The score that the mock gives to a text, in hundredths: the wrapped
/// sum of its bytes, modulo one hundred.
pub open spec fn mock_score(text: Seq<char>) -> Score {
    (wrapped_sum(utf8_bytes(text)) % 100) as Score
}

/// The results that the mock gives before ranking: one for each
/// document, in order.
pub open spec fn mock_results(documents: Seq<RerankDocument>) -> Seq<RerankResultView> {
    Seq::new(
        documents.len(),
        |i: int|
            RerankResultView {
                id: documents[i].id@,
                index: i as usize,
                score: mock_score(documents[i].text@),
            },
    )
}

impl MockReranker {
    /// The mock reranker.
    pub fn new() -> (r: MockReranker) {
        MockReranker
    }

    /// Scores each document by its text and returns the best `top_n`,
    /// highest score first. No service is called; the same input gives
    /// the same output.
    pub fn rerank(&self, _query: &str, documents: Vec<RerankDocument>, top_n: usize) -> (r: Result<
        Vec<RerankResult>,
    >)
        ensures
            r is Ok,
            is_best(mock_results(documents@), top_n as int, result_views(r->Ok_0@)),
    {
        let mut results: Vec<RerankResult> = Vec::new();
        let mut i: usize = 0;
        while i < documents.len()
            invariant
                i <= documents.len(),
                results.len() == i,
                forall|x: int| 0 <= x < i ==> (#[trigger] results@[x])@ == mock_results(documents@)[x],
            decreases documents.len() - i,
        {
            let hash = byte_sum(documents[i].text.as_str());
            let score: Score = (hash % 100) as i64;
            results.push(RerankResult { id: documents[i].id.clone(), index: i, score });
            i += 1;
        }
        assert(result_views(results@) =~= mock_results(documents@));
        Ok(rank_results(&results, top_n))
    }
}

impl Default for MockReranker {
    fn default() -> (r: MockReranker) {
        MockReranker::new()
    }
}

} // verus!
