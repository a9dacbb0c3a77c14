//! Pointwise reranking through a chat completion service: its settings,
//! and what is made of the scores it gives.

use vstd::prelude::*;
use vstd::string::*;

use crate::config::RerankConfig;
use crate::error::Result;
use crate::ranking::Score;
use crate::rerank::{
    is_best, rank_results, resolve_settings, resolved_key, result_views, text_or, RerankDocument,
    RerankResult, RerankResultView,
};

verus! {

/// Reranker that has a chat model score each document.
#[derive(Debug)]
pub struct OpenAIReranker {
    api_base: String,
    api_key: String,
    model: String,
}

/// The results that a list of scores stands for: one for each document
/// that has a score, in order.
pub open spec fn scored_documents(documents: Seq<RerankDocument>, scores: Seq<Score>) -> Seq<
    RerankResultView,
> {
    Seq::new(
        if scores.len() < documents.len() {
            scores.len()
        } else {
            documents.len()
        },
        |i: int| RerankResultView { id: documents[i].id@, index: i as usize, score: scores[i] },
    )
}

/// The prompt that asks the chat model to rate a document against a
/// query.
pub open spec fn score_prompt_text(query: Seq<char>, document: Seq<char>) -> Seq<char> {
    "Rate the relevance of the following document to the query on a scale of 0 to 10.\n\nQuery: "@
        + query + "\n\nDocument: "@ + document
        + "\n\nRespond with ONLY a number between 0 and 10, nothing else."@
}

impl OpenAIReranker {
    /// The prompt that asks the chat model to rate `document` against
    /// `query` on a scale of 0 to 10.
    pub fn score_prompt(query: &str, document: &str) -> (r: String)
        ensures
            r@ == score_prompt_text(query@, document@),
    {
        String::from_str(
            "Rate the relevance of the following document to the query on a scale of 0 to 10.\n\nQuery: ",
        ).concat(query).concat("\n\nDocument: ").concat(document).concat(
            "\n\nRespond with ONLY a number between 0 and 10, nothing else.",
        )
    }

    /// The base address that is used where the configuration names none.
    pub const DEFAULT_API_BASE: &'static str = "https://api.openai.com/v1";

    /// The model that is used where the configuration names none.
    pub const DEFAULT_MODEL: &'static str = "gpt-4o-mini";

    /// The address of the service.
    pub closed spec fn base_text(&self) -> Seq<char> {
        self.api_base@
    }

    /// The credential sent with each request.
    pub closed spec fn key_text(&self) -> Seq<char> {
        self.api_key@
    }

    /// The model asked for.
    pub closed spec fn model_text(&self) -> Seq<char> {
        self.model@
    }

    /// A reranker for the settings of `config`. The key is that of the
    /// configuration, else `env_key`, the value of `OPENAI_API_KEY`;
    /// without either, a configuration error.
    pub fn new(config: &RerankConfig, env_key: Option<String>) -> (r: Result<OpenAIReranker>)
        ensures
            match r {
                Ok(s) => resolved_key(*config, env_key) == Some(s.key_text()) && s.base_text()
                    == text_or(config.api_base, "https://api.openai.com/v1"@) && s.model_text()
                    == text_or(config.model, "gpt-4o-mini"@),
                Err(e) => resolved_key(*config, env_key).is_none() && e is Config && e.detail()
                    == "OpenAI API key not provided"@,
            },
    {
        match resolve_settings(
            config,
            env_key,
            Self::DEFAULT_API_BASE,
            Self::DEFAULT_MODEL,
            "OpenAI API key not provided",
        ) {
            Ok(s) => Ok(OpenAIReranker { api_base: s.api_base, api_key: s.api_key, model: s.model }),
            Err(e) => Err(e),
        }
    }

    /// The address of the service.
    pub fn api_base(&self) -> (r: &str)
        ensures
            r@ == self.base_text(),
    {
        self.api_base.as_str()
    }

    /// The credential sent with each request.
    pub fn api_key(&self) -> (r: &str)
        ensures
            r@ == self.key_text(),
    {
        self.api_key.as_str()
    }

    /// The model asked for.
    pub fn model(&self) -> (r: &str)
        ensures
            r@ == self.model_text(),
    {
        self.model.as_str()
    }

    /// The results that the scores of the documents give: the best
    /// `top_n`, highest score first. `scores` holds the score of each
    /// document, in order.
    pub fn collect(documents: &Vec<RerankDocument>, scores: &Vec<Score>, top_n: usize) -> (out: Vec<
        RerankResult,
    >)
        ensures
            is_best(scored_documents(documents@, scores@), top_n as int, result_views(out@)),
    {
        let n = if scores.len() < documents.len() {
            scores.len()
        } else {
            documents.len()
        };
        let mut results: Vec<RerankResult> = Vec::new();
        let mut i: usize = 0;
        while i < n
            invariant
                i <= n,
                n <= scores.len(),
                n <= documents.len(),
                results.len() == i,
                forall|x: int|
                    0 <= x < i ==> (#[trigger] results@[x])@ == (RerankResultView {
                        id: documents@[x].id@,
                        index: x as usize,
                        score: scores@[x],
                    }),
            decreases n - i,
        {
            results.push(RerankResult { id: documents[i].id.clone(), index: i, score: scores[i] });
            i += 1;
        }
        assert(result_views(results@) =~= scored_documents(documents@, scores@));
        rank_results(&results, top_n)
    }
}

} // verus!
