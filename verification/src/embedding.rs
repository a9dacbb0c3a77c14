//! Embedders: the settings of the services that turn text into vectors,
//! and the part of the mock embedder that is plain counting.

use vstd::prelude::*;
use vstd::string::*;

use crate::config::{optional_text, EmbeddingConfig};
use crate::error::{A3SError, Result};
use crate::text::{byte_sum, str_equal, utf8_bytes, wrapped_sum};

verus! {

/// The embedders that a configuration can name.
#[derive(Debug, Clone, Copy, PartialEq, Eq, Structural)]
pub enum EmbedderKind {
    OpenAI,
    Mock,
}

/// The embedder that a provider name stands for, if any.
pub open spec fn kind_of_provider(provider: Seq<char>) -> Option<EmbedderKind> {
    if provider == "openai"@ {
        Some(EmbedderKind::OpenAI)
    } else if provider == "mock"@ {
        Some(EmbedderKind::Mock)
    } else {
        None
    }
}

/// Chooses the embedder that `config` asks for; a configuration error
/// for a provider that is not known. Building the embedder of that kind
/// is left to the caller.
pub fn create_embedder(config: &EmbeddingConfig) -> (r: Result<EmbedderKind>)
    ensures
        match r {
            Ok(kind) => kind_of_provider(config.provider@) == Some(kind),
            Err(e) => kind_of_provider(config.provider@).is_none() && e is Config && e.detail()
                == "Unknown embedding provider: "@ + config.provider@,
        },
{
    let provider = config.provider.as_str();
    if str_equal(provider, "openai") {
        Ok(EmbedderKind::OpenAI)
    } else if str_equal(provider, "mock") {
        Ok(EmbedderKind::Mock)
    } else {
        Err(A3SError::Config(String::from_str("Unknown embedding provider: ").concat(provider)))
    }
}

/// Settings of the OpenAI embedding service.
#[derive(Debug)]
pub struct OpenAIEmbedder {
    api_base: String,
    api_key: String,
    model: String,
    dimension: usize,
    batch_size: usize,
}

/// The key that the service is called with: that of the configuration,
/// else that of the environment.
pub open spec fn resolved_key(config: EmbeddingConfig, env_key: Option<String>) -> Option<Seq<char>> {
    match config.api_key {
        Some(k) => Some(k@),
        None => optional_text(env_key),
    }
}

impl OpenAIEmbedder {
    /// The base address that is used where the configuration names none.
    pub const DEFAULT_API_BASE: &'static str = "https://api.openai.com/v1";

    /// The address of the service.
    pub closed spec fn base_text(&self) -> Seq<char> {
        self.api_base@
    }

    /// The credential sent with each request.
    pub closed spec fn key_text(&self) -> Seq<char> {
        self.api_key@
    }

    /// The model asked for.
    pub closed spec fn model_text(&self) -> Seq<char> {
        self.model@
    }

    /// Number of components of an embedding.
    pub closed spec fn dimension_spec(&self) -> usize {
        self.dimension
    }

    /// Number of texts sent in one request.
    pub closed spec fn batch_size_spec(&self) -> usize {
        self.batch_size
    }

    /// An embedder for the settings of `config`. The key is that of the
    /// configuration, else `env_key`, the value of `OPENAI_API_KEY`;
    /// without either, a configuration error.
    pub fn new(config: &EmbeddingConfig, env_key: Option<String>) -> (r: Result<OpenAIEmbedder>)
        ensures
            match r {
                Ok(s) => resolved_key(*config, env_key) == Some(s.key_text()) && s.base_text() == (
                match config.api_base {
                    Some(b) => b@,
                    None => "https://api.openai.com/v1"@,
                }) && s.model_text() == config.model@ && s.dimension_spec() == config.dimension
                    && s.batch_size_spec() == config.batch_size,
                Err(e) => resolved_key(*config, env_key).is_none() && e is Config && e.detail()
                    == "No API key provided"@,
            },
    {
        let api_base = match &config.api_base {
            Some(base) => base.clone(),
            None => String::from_str(Self::DEFAULT_API_BASE),
        };
        let api_key = match &config.api_key {
            Some(key) => key.clone(),
            None => match env_key {
                Some(key) => key,
                None => {
                    return Err(A3SError::Config(String::from_str("No API key provided")));
                },
            },
        };
        Ok(
            OpenAIEmbedder {
                api_base,
                api_key,
                model: config.model.clone(),
                dimension: config.dimension,
                batch_size: config.batch_size,
            },
        )
    }

    /// The address of the service.
    pub fn api_base(&self) -> (r: &str)
        ensures
            r@ == self.base_text(),
    {
        self.api_base.as_str()
    }

    /// The credential sent with each request.
    pub fn api_key(&self) -> (r: &str)
        ensures
            r@ == self.key_text(),
    {
        self.api_key.as_str()
    }

    /// The model asked for.
    pub fn model(&self) -> (r: &str)
        ensures
            r@ == self.model_text(),
    {
        self.model.as_str()
    }

    /// Number of components of an embedding.
    pub fn dimension(&self) -> (r: usize)
        ensures
            r == self.dimension_spec(),
    {
        self.dimension
    }

    /// Number of texts sent in one request.
    pub fn batch_size(&self) -> (r: usize)
        ensures
            r == self.batch_size_spec(),
    {
        self.batch_size
    }
}

/// Embedder that needs no service: it derives its vectors from the bytes
/// of the text.
#[derive(Debug, Clone, Copy)]
pub struct MockEmbedder {
    dimension: usize,
}

/// The level of component `i` of the mock embedding of a text: the
/// wrapped sum of the bytes of the text, plus `i` with wrapping, modulo
/// one thousand.
pub open spec fn mock_level(text: Seq<char>, i: nat) -> nat {
    ((wrapped_sum(utf8_bytes(text)) + i) % 0x1_0000_0000_0000_0000) % 1000
}

impl MockEmbedder {
    /// A mock embedder for vectors of `dimension` components.
    pub fn new(dimension: usize) -> (e: MockEmbedder)
        ensures
            e.dimension_spec() == dimension,
    {
        MockEmbedder { dimension }
    }

    /// Number of components of an embedding.
    pub closed spec fn dimension_spec(&self) -> usize {
        self.dimension
    }

    /// Number of components of an embedding.
    pub fn dimension(&self) -> (r: usize)
        ensures
            r == self.dimension_spec(),
    {
        self.dimension
    }

    /// The levels of the mock embedding of `text`: one for each
    /// component, each below one thousand. The embedding itself is the
    /// levels, scaled and centred, brought to unit length.
    pub fn levels(&self, text: &str) -> (out: Vec<u16>)
        ensures
            out.len() == self.dimension_spec(),
            forall|i: int| 0 <= i < out.len() ==> #[trigger] out@[i] == mock_level(text@, i as nat),
    {
        let hash = byte_sum(text);
        let mut out: Vec<u16> = Vec::new();
        let mut i: usize = 0;
        while i < self.dimension
            invariant
                i <= self.dimension,
                hash == wrapped_sum(utf8_bytes(text@)),
                out.len() == i,
                forall|x: int| 0 <= x < i ==> #[trigger] out@[x] == mock_level(text@, x as nat),
            decreases self.dimension - i,
        {
            let step: u64 = i as u64;
            let sum: u64 = if step > u64::MAX - hash {
                step - (u64::MAX - hash) - 1
            } else {
                hash + step
            };
            out.push((sum % 1000) as u16);
            i += 1;
        }
        out
    }
}

} // verus!
