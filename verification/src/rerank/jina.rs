//! The Jina rerank service: its settings, and what is made of its
//! answer.

use vstd::prelude::*;
use vstd::string::*;

use crate::config::RerankConfig;
use crate::error::Result;
use crate::ranking::Score;
use crate::rerank::{
    is_best, rank_results, resolve_settings, resolved_key, result_views, text_or, RerankDocument,
    RerankResult, RerankResultView,
};

verus! {

/// Reranker that asks the Jina rerank service.
#[derive(Debug)]
pub struct JinaReranker {
    api_base: String,
    api_key: String,
    model: String,
}

/// The results that an answer of the service stands for: for each scored
/// position the identifier of the document at that position, or the
/// empty identifier where the position names no document.
pub open spec fn answered(documents: Seq<RerankDocument>, scored: Seq<(usize, Score)>) -> Seq<
    RerankResultView,
> {
    Seq::new(
        scored.len(),
        |i: int|
            RerankResultView {
                id: if scored[i].0 < documents.len() {
                    documents[scored[i].0 as int].id@
                } else {
                    Seq::empty()
                },
                index: scored[i].0,
                score: scored[i].1,
            },
    )
}

impl JinaReranker {
    /// The base address that is used where the configuration names none.
    pub const DEFAULT_API_BASE: &'static str = "https://api.jina.ai/v1";

    /// The model that is used where the configuration names none.
    pub const DEFAULT_MODEL: &'static str = "jina-reranker-v2-base-multilingual";

    /// The address of the service.
    pub closed spec fn base_text(&self) -> Seq<char> {
        self.api_base@
    }

    /// The credential sent with each request.
    pub closed spec fn key_text(&self) -> Seq<char> {
        self.api_key@
    }

    /// The model asked for.
    pub closed spec fn model_text(&self) -> Seq<char> {
        self.model@
    }

    /// A reranker for the settings of `config`. The key is that of the
    /// configuration, else `env_key`, the value of `JINA_API_KEY`;
    /// without either, a configuration error.
    pub fn new(config: &RerankConfig, env_key: Option<String>) -> (r: Result<JinaReranker>)
        ensures
            match r {
                Ok(s) => resolved_key(*config, env_key) == Some(s.key_text()) && s.base_text()
                    == text_or(config.api_base, "https://api.jina.ai/v1"@) && s.model_text()
                    == text_or(config.model, "jina-reranker-v2-base-multilingual"@),
                Err(e) => resolved_key(*config, env_key).is_none() && e is Config && e.detail()
                    == "Jina API key not provided"@,
            },
    {
        match resolve_settings(
            config,
            env_key,
            Self::DEFAULT_API_BASE,
            Self::DEFAULT_MODEL,
            "Jina API key not provided",
        ) {
            Ok(s) => Ok(JinaReranker { api_base: s.api_base, api_key: s.api_key, model: s.model }),
            Err(e) => Err(e),
        }
    }

    /// The address of the service.
    pub fn api_base(&self) -> (r: &str)
        ensures
            r@ == self.base_text(),
    {
        self.api_base.as_str()
    }

    /// The credential sent with each request.
    pub fn api_key(&self) -> (r: &str)
        ensures
            r@ == self.key_text(),
    {
        self.api_key.as_str()
    }

    /// The model asked for.
    pub fn model(&self) -> (r: &str)
        ensures
            r@ == self.model_text(),
    {
        self.model.as_str()
    }

    /// The results that an answer of the service gives: each scored
    /// position with the identifier of its document, the best `top_n` of
    /// them, highest score first.
    pub fn collect(documents: &Vec<RerankDocument>, scored: &Vec<(usize, Score)>, top_n: usize) -> (out:
        Vec<RerankResult>)
        ensures
            is_best(answered(documents@, scored@), top_n as int, result_views(out@)),
    {
        let mut results: Vec<RerankResult> = Vec::new();
        let mut i: usize = 0;
        while i < scored.len()
            invariant
                i <= scored.len(),
                results.len() == i,
                forall|x: int|
                    0 <= x < i ==> (#[trigger] results@[x])@ == answered(documents@, scored@)[x],
            decreases scored.len() - i,
        {
            let (index, score) = scored[i];
            let id = if index < documents.len() {
                documents[index].id.clone()
            } else {
                String::new()
            };
            results.push(RerankResult { id, index, score });
            i += 1;
        }
        assert(result_views(results@) =~= answered(documents@, scored@));
        rank_results(&results, top_n)
    }
}

} // verus!
