//! Reranking: the reordering of a candidate set by an outside scoring
//! capability, and what the library does with the scores it gets back.

pub mod jina;
pub mod laws;
pub mod mock;
pub mod openai;

pub use jina::JinaReranker;
pub use mock::MockReranker;
pub use openai::OpenAIReranker;

use vstd::prelude::*;
use vstd::string::*;

use crate::config::{optional_text, RerankConfig};
use crate::error::{A3SError, Result};
use crate::ranking::{is_ranking, ranking, Score};
use crate::text::str_equal;

verus! {

/// Document to be reranked.
#[derive(Debug, Clone)]
pub struct RerankDocument {
    /// Unique identifier of the document.
    pub id: String,
    /// Text to be scored against the query.
    pub text: String,
}

/// Result of reranking a document.
#[derive(Debug)]
pub struct RerankResult {
    /// Document identifier.
    pub id: String,
    /// Position of the document in the input list.
    pub index: usize,
    /// Relevance score; higher is more relevant.
    pub score: Score,
}

/// What a rerank result holds.
pub struct RerankResultView {
    pub id: Seq<char>,
    pub index: usize,
    pub score: Score,
}

impl View for RerankResult {
    type V = RerankResultView;

    open spec fn view(&self) -> RerankResultView {
        RerankResultView { id: self.id@, index: self.index, score: self.score }
    }
}

impl Clone for RerankResult {
    fn clone(&self) -> (r: RerankResult)
        ensures
            r@ == self@,
    {
        RerankResult { id: self.id.clone(), index: self.index, score: self.score }
    }
}

/// What each result of `v` holds.
pub open spec fn result_views(v: Seq<RerankResult>) -> Seq<RerankResultView> {
    Seq::new(v.len(), |i: int| v[i]@)
}

/// The scores of a list of results.
pub open spec fn result_scores(pool: Seq<RerankResultView>) -> Seq<Score> {
    Seq::new(pool.len(), |i: int| pool[i].score)
}

/// `out` holds the best `top_n` results of `pool`: highest score first,
/// equal scores in the order of `pool`.
pub open spec fn is_best(pool: Seq<RerankResultView>, top_n: int, out: Seq<RerankResultView>) -> bool {
    exists|order: Seq<usize>| #[trigger]
        is_ranking(order, result_scores(pool), Seq::empty()) && out.len() == (if top_n < pool.len() {
            top_n
        } else {
            pool.len() as int
        }) && forall|i: int| 0 <= i < out.len() ==> #[trigger] out[i] == pool[order[i] as int]
}

/// The best `top_n` results of `results`, highest score first; results
/// of equal score keep their order.
pub fn rank_results(results: &Vec<RerankResult>, top_n: usize) -> (out: Vec<RerankResult>)
    ensures
        is_best(result_views(results@), top_n as int, result_views(out@)),
{
    let mut scores: Vec<Score> = Vec::new();
    let mut i: usize = 0;
    while i < results.len()
        invariant
            i <= results.len(),
            scores.len() == i,
            forall|x: int| 0 <= x < i ==> #[trigger] scores@[x] == results@[x].score,
        decreases results.len() - i,
    {
        scores.push(results[i].score);
        i += 1;
    }
    let texts: Vec<Vec<char>> = Vec::new();
    let order = ranking(&scores, &texts);
    let take = if top_n < results.len() {
        top_n
    } else {
        results.len()
    };
    let mut out: Vec<RerankResult> = Vec::new();
    let mut x: usize = 0;
    while x < take
        invariant
            x <= take <= results.len(),
            order.len() == results.len(),
            forall|y: int| 0 <= y < order.len() ==> (#[trigger] order@[y]) < results.len(),
            out.len() == x,
            forall|y: int| 0 <= y < x ==> (#[trigger] out@[y])@ == results@[order@[y] as int]@,
        decreases take - x,
    {
        out.push(results[order[x]].clone());
        x += 1;
    }
    proof {
        assert(scores@ =~= result_scores(result_views(results@)));
        assert(crate::ranking::text_views(texts@) =~= Seq::<Seq<char>>::empty());
        assert(is_ranking(order@, result_scores(result_views(results@)), Seq::empty()));
    }
    out
}

/// The scoring strategies that a configuration can name.
#[derive(Debug, Clone, Copy, PartialEq, Eq, Structural)]
pub enum RerankerKind {
    Mock,
    Cohere,
    Jina,
    OpenAI,
}

/// The strategy that a provider name stands for, if any.
pub open spec fn kind_of_provider(provider: Seq<char>) -> Option<RerankerKind> {
    if provider == "mock"@ {
        Some(RerankerKind::Mock)
    } else if provider == "cohere"@ {
        Some(RerankerKind::Cohere)
    } else if provider == "jina"@ {
        Some(RerankerKind::Jina)
    } else if provider == "openai"@ {
        Some(RerankerKind::OpenAI)
    } else {
        None
    }
}

/// Chooses the reranker that `config` asks for; a configuration error
/// for a provider that is not known. Building the reranker of that kind
/// is left to the caller.
pub fn create_reranker(config: &RerankConfig) -> (r: Result<RerankerKind>)
    ensures
        match r {
            Ok(kind) => kind_of_provider(config.provider@) == Some(kind),
            Err(e) => kind_of_provider(config.provider@).is_none() && e is Config && e.detail()
                == "Unknown rerank provider: "@ + config.provider@,
        },
{
    let provider = config.provider.as_str();
    if str_equal(provider, "mock") {
        Ok(RerankerKind::Mock)
    } else if str_equal(provider, "cohere") {
        Ok(RerankerKind::Cohere)
    } else if str_equal(provider, "jina") {
        Ok(RerankerKind::Jina)
    } else if str_equal(provider, "openai") {
        Ok(RerankerKind::OpenAI)
    } else {
        Err(A3SError::Config(String::from_str("Unknown rerank provider: ").concat(provider)))
    }
}

/// Connection settings of a rerank service, as a configuration and the
/// environment give them.
pub struct ServiceSettings {
    pub api_base: String,
    pub api_key: String,
    pub model: String,
}

/// The text of `own` where it is given, else `fallback`.
pub open spec fn text_or(own: Option<String>, fallback: Seq<char>) -> Seq<char> {
    match own {
        Some(s) => s@,
        None => fallback,
    }
}

/// The key that a service is called with: that of the configuration,
/// else that of the environment.
pub open spec fn resolved_key(config: RerankConfig, env_key: Option<String>) -> Option<Seq<char>> {
    match config.api_key {
        Some(k) => Some(k@),
        None => optional_text(env_key),
    }
}

/// The settings of a rerank service: base address and model from the
/// configuration, else the given defaults; the key from the
/// configuration, else from the environment. Without a key, a
/// configuration error with the text `missing`.
pub fn resolve_settings(
    config: &RerankConfig,
    env_key: Option<String>,
    default_base: &str,
    default_model: &str,
    missing: &str,
) -> (r: Result<ServiceSettings>)
    ensures
        match r {
            Ok(s) => resolved_key(*config, env_key) == Some(s.api_key@) && s.api_base@ == text_or(
                config.api_base,
                default_base@,
            ) && s.model@ == text_or(config.model, default_model@),
            Err(e) => resolved_key(*config, env_key).is_none() && e is Config && e.detail()
                == missing@,
        },
{
    let api_base = match &config.api_base {
        Some(base) => base.clone(),
        None => String::from_str(default_base),
    };
    let api_key = match &config.api_key {
        Some(key) => key.clone(),
        None => match env_key {
            Some(key) => key,
            None => {
                return Err(A3SError::Config(String::from_str(missing)));
            },
        },
    };
    let model = match &config.model {
        Some(model) => model.clone(),
        None => String::from_str(default_model),
    };
    Ok(ServiceSettings { api_base, api_key, model })
}

} // verus!
