//! Configuration of the context store and of what is built around it.

use vstd::prelude::*;
use vstd::string::*;

use crate::text::{copy_string_list, string_views};
use crate::ranking::{Score, SCORE_HALF};
use crate::text::{ends_with, str_equal};

verus! {

/// Storage backend type.
#[derive(Debug, Clone, Copy, PartialEq, Eq, Structural)]
pub enum StorageBackend {
    /// Local file-based storage.
    Local,
    /// Remote storage service.
    Remote,
    /// In-memory storage.
    Memory,
}

/// Vector index configuration.
#[derive(Debug, Clone)]
pub struct VectorIndexConfig {
    /// Index type.
    pub index_type: String,
    /// Number of neighbours per node of the index graph.
    pub hnsw_m: usize,
    /// Construction parameter of the index graph.
    pub hnsw_ef_construction: usize,
}

/// Storage backend configuration.
#[derive(Debug, Clone)]
pub struct StorageConfig {
    /// Backend type.
    pub backend: StorageBackend,
    /// Local storage path.
    pub path: String,
    /// Remote storage URL, for the remote backend.
    pub url: Option<String>,
    /// Vector index configuration.
    pub vector_index: VectorIndexConfig,
}

/// Embedding model configuration.
#[derive(Debug, Clone)]
pub struct EmbeddingConfig {
    /// Provider type.
    pub provider: String,
    /// API base URL.
    pub api_base: Option<String>,
    /// API key.
    pub api_key: Option<String>,
    /// Model name.
    pub model: String,
    /// Embedding dimension.
    pub dimension: usize,
    /// Batch size for embedding.
    pub batch_size: usize,
}

/// Configuration of the summarization service.
#[derive(Debug)]
pub struct LLMConfig {
    /// Provider type.
    pub provider: String,
    /// API base URL.
    pub api_base: Option<String>,
    /// API key.
    pub api_key: Option<String>,
    /// Model name.
    pub model: Option<String>,
    /// Sampling temperature, as the bit pattern of a single-precision
    /// number.
    pub temperature: u32,
    /// Whether to generate digests on ingestion.
    pub auto_digest: bool,
}

/// Configuration of the reranking stage.
#[derive(Debug)]
pub struct RerankConfig {
    /// Provider type.
    pub provider: String,
    /// API base URL.
    pub api_base: Option<String>,
    /// API key.
    pub api_key: Option<String>,
    /// Model name.
    pub model: Option<String>,
    /// Number of results to keep.
    pub top_n: Option<usize>,
}

/// Retrieval configuration.
#[derive(Debug)]
pub struct RetrievalConfig {
    /// Default result limit.
    pub default_limit: usize,
    /// Score threshold.
    pub score_threshold: Score,
    /// Whether retrieval expands directories.
    pub hierarchical: bool,
    /// Maximum depth of a directory expansion.
    pub max_depth: usize,
    /// Whether results are reranked.
    pub rerank: bool,
    /// Rerank model.
    pub rerank_model: Option<String>,
    /// Configuration of the reranking stage.
    pub rerank_config: RerankConfig,
}

/// Ingest configuration.
#[derive(Debug)]
pub struct IngestConfig {
    /// Supported file extensions.
    pub extensions: Vec<String>,
    /// Maximum file size in bytes.
    pub max_file_size: u64,
    /// Chunk size for large documents.
    pub chunk_size: usize,
    /// Chunk overlap.
    pub chunk_overlap: usize,
    /// Ignore patterns.
    pub ignore_patterns: Vec<String>,
}

/// Main configuration.
#[derive(Debug)]
pub struct Config {
    /// Storage configuration.
    pub storage: StorageConfig,
    /// Embedding configuration.
    pub embedding: EmbeddingConfig,
    /// Configuration of the summarization service.
    pub llm: LLMConfig,
    /// Retrieval configuration.
    pub retrieval: RetrievalConfig,
    /// Ingest configuration.
    pub ingest: IngestConfig,
    /// Logging level.
    pub log_level: String,
}

/// The text of an optional string.
pub open spec fn optional_text(s: Option<String>) -> Option<Seq<char>> {
    match s {
        Some(t) => Some(t@),
        None => None,
    }
}

/// A copy of an optional string.
pub fn copy_optional(s: &Option<String>) -> (r: Option<String>)
    ensures
        optional_text(r) == optional_text(*s),
{
    match s {
        Some(t) => Some(t.clone()),
        None => None,
    }
}

// ---------------------------------------------------------------------
// Default values
// ---------------------------------------------------------------------

impl VectorIndexConfig {
    /// Every field holds its default.
    pub open spec fn is_default(&self) -> bool {
        self.index_type@ == "hnsw"@ && self.hnsw_m == 16 && self.hnsw_ef_construction == 200
    }
}

impl StorageConfig {
    /// Every field but the path holds its default.
    pub open spec fn is_default_but_path(&self) -> bool {
        self.backend == StorageBackend::Local && self.url.is_none() && self.vector_index.is_default()
    }

    /// Every field holds its default.
    pub open spec fn is_default(&self) -> bool {
        self.is_default_but_path() && self.path@ == "./a3s_data"@
    }
}

impl EmbeddingConfig {
    /// Provider, dimension and batch size hold their defaults.
    pub open spec fn is_default_but_service(&self) -> bool {
        self.provider@ == "openai"@ && self.dimension == 1536 && self.batch_size == 32
    }

    /// Every field holds its default.
    pub open spec fn is_default(&self) -> bool {
        self.is_default_but_service() && self.api_base.is_none() && self.api_key.is_none()
            && self.model@ == "text-embedding-3-small"@
    }
}

impl LLMConfig {
    /// Provider, temperature and the digest switch hold their defaults.
    pub open spec fn is_default_but_service(&self) -> bool {
        self.provider@ == "openai"@ && self.temperature == 0 && self.auto_digest
    }

    /// Every field holds its default.
    pub open spec fn is_default(&self) -> bool {
        self.is_default_but_service() && self.api_base.is_none() && self.api_key.is_none()
            && self.model.is_none()
    }
}

impl RerankConfig {
    /// Every field holds its default.
    pub open spec fn is_default(&self) -> bool {
        self.provider@ == "mock"@ && self.api_base.is_none() && self.api_key.is_none()
            && self.model.is_none() && self.top_n.is_none()
    }
}

impl RetrievalConfig {
    /// Every field holds its default.
    pub open spec fn is_default(&self) -> bool {
        self.default_limit == 10 && self.score_threshold == SCORE_HALF && self.hierarchical
            && self.max_depth == 3 && !self.rerank && self.rerank_model.is_none()
            && self.rerank_config.is_default()
    }
}

impl IngestConfig {
    /// Every field holds its default.
    pub open spec fn is_default(&self) -> bool {
        string_views(self.extensions@) == extension_texts() && self.max_file_size == 10 * 1024
            * 1024 && self.chunk_size == 1000 && self.chunk_overlap == 200 && string_views(
            self.ignore_patterns@,
        ) == ignore_texts()
    }
}

impl Config {
    /// Every field holds its default.
    pub open spec fn is_default(&self) -> bool {
        self.storage.is_default() && self.embedding.is_default() && self.llm.is_default()
            && self.retrieval.is_default() && self.ingest.is_default() && self.log_level@
            == "info"@
    }
}

pub fn default_log_level() -> (r: String)
    ensures
        r@ == "info"@,
{
    String::from_str("info")
}

pub fn default_storage_backend() -> (r: StorageBackend)
    ensures
        r == StorageBackend::Local,
{
    StorageBackend::Local
}

pub fn default_storage_path() -> (r: String)
    ensures
        r@ == "./a3s_data"@,
{
    String::from_str("./a3s_data")
}

pub fn default_index_type() -> (r: String)
    ensures
        r@ == "hnsw"@,
{
    String::from_str("hnsw")
}

pub fn default_hnsw_m() -> (r: usize)
    ensures
        r == 16,
{
    16
}

pub fn default_hnsw_ef_construction() -> (r: usize)
    ensures
        r == 200,
{
    200
}

pub fn default_embedding_provider() -> (r: String)
    ensures
        r@ == "openai"@,
{
    String::from_str("openai")
}

pub fn default_embedding_model() -> (r: String)
    ensures
        r@ == "text-embedding-3-small"@,
{
    String::from_str("text-embedding-3-small")
}

pub fn default_embedding_dimension() -> (r: usize)
    ensures
        r == 1536,
{
    1536
}

pub fn default_batch_size() -> (r: usize)
    ensures
        r == 32,
{
    32
}

pub fn default_llm_provider() -> (r: String)
    ensures
        r@ == "openai"@,
{
    String::from_str("openai")
}

pub fn default_auto_digest() -> (r: bool)
    ensures
        r,
{
    true
}

pub fn default_limit() -> (r: usize)
    ensures
        r == 10,
{
    10
}

/// The default score threshold: one half.
pub fn default_threshold() -> (r: Score)
    ensures
        r == SCORE_HALF,
{
    SCORE_HALF
}

pub fn default_hierarchical() -> (r: bool)
    ensures
        r,
{
    true
}

pub fn default_max_depth() -> (r: usize)
    ensures
        r == 3,
{
    3
}

/// The file extensions that ingestion takes by default.
pub open spec fn extension_texts() -> Seq<Seq<char>> {
    seq![
        "md"@,
        "txt"@,
        "rs"@,
        "py"@,
        "js"@,
        "ts"@,
        "go"@,
        "java"@,
        "c"@,
        "cpp"@,
        "h"@,
        "json"@,
        "yaml"@,
        "toml"@,
    ]
}

pub fn default_extensions() -> (r: Vec<String>)
    ensures
        string_views(r@) == extension_texts(),
{
    let mut v: Vec<String> = Vec::new();
    v.push(String::from_str("md"));
    v.push(String::from_str("txt"));
    v.push(String::from_str("rs"));
    v.push(String::from_str("py"));
    v.push(String::from_str("js"));
    v.push(String::from_str("ts"));
    v.push(String::from_str("go"));
    v.push(String::from_str("java"));
    v.push(String::from_str("c"));
    v.push(String::from_str("cpp"));
    v.push(String::from_str("h"));
    v.push(String::from_str("json"));
    v.push(String::from_str("yaml"));
    v.push(String::from_str("toml"));
    assert(string_views(v@) =~= extension_texts());
    v
}

pub fn default_max_file_size() -> (r: u64)
    ensures
        r == 10 * 1024 * 1024,
{
    10 * 1024 * 1024
}

pub fn default_chunk_size() -> (r: usize)
    ensures
        r == 1000,
{
    1000
}

pub fn default_chunk_overlap() -> (r: usize)
    ensures
        r == 200,
{
    200
}

/// The path patterns that ingestion passes over by default.
pub open spec fn ignore_texts() -> Seq<Seq<char>> {
    seq![
        ".git"@,
        "node_modules"@,
        "target"@,
        "__pycache__"@,
        ".venv"@,
        "*.pyc"@,
        "*.pyo"@,
        ".DS_Store"@,
    ]
}

pub fn default_ignore_patterns() -> (r: Vec<String>)
    ensures
        string_views(r@) == ignore_texts(),
{
    let mut v: Vec<String> = Vec::new();
    v.push(String::from_str(".git"));
    v.push(String::from_str("node_modules"));
    v.push(String::from_str("target"));
    v.push(String::from_str("__pycache__"));
    v.push(String::from_str(".venv"));
    v.push(String::from_str("*.pyc"));
    v.push(String::from_str("*.pyo"));
    v.push(String::from_str(".DS_Store"));
    assert(string_views(v@) =~= ignore_texts());
    v
}

impl Default for VectorIndexConfig {
    fn default() -> (c: VectorIndexConfig)
        ensures
            c.is_default(),
    {
        VectorIndexConfig {
            index_type: default_index_type(),
            hnsw_m: default_hnsw_m(),
            hnsw_ef_construction: default_hnsw_ef_construction(),
        }
    }
}

impl Default for StorageConfig {
    fn default() -> (c: StorageConfig)
        ensures
            c.is_default(),
    {
        StorageConfig {
            backend: default_storage_backend(),
            path: default_storage_path(),
            url: None,
            vector_index: VectorIndexConfig::default(),
        }
    }
}

impl Default for EmbeddingConfig {
    fn default() -> (c: EmbeddingConfig)
        ensures
            c.is_default(),
    {
        EmbeddingConfig {
            provider: default_embedding_provider(),
            api_base: None,
            api_key: None,
            model: default_embedding_model(),
            dimension: default_embedding_dimension(),
            batch_size: default_batch_size(),
        }
    }
}

impl Default for LLMConfig {
    fn default() -> (c: LLMConfig)
        ensures
            c.is_default(),
    {
        LLMConfig {
            provider: default_llm_provider(),
            api_base: None,
            api_key: None,
            model: None,
            temperature: 0,
            auto_digest: default_auto_digest(),
        }
    }
}

impl Clone for LLMConfig {
    fn clone(&self) -> (c: LLMConfig)
        ensures
            c.provider@ == self.provider@,
            optional_text(c.api_base) == optional_text(self.api_base),
            optional_text(c.api_key) == optional_text(self.api_key),
            optional_text(c.model) == optional_text(self.model),
            c.temperature == self.temperature,
            c.auto_digest == self.auto_digest,
    {
        LLMConfig {
            provider: self.provider.clone(),
            api_base: copy_optional(&self.api_base),
            api_key: copy_optional(&self.api_key),
            model: copy_optional(&self.model),
            temperature: self.temperature,
            auto_digest: self.auto_digest,
        }
    }
}

impl Clone for IngestConfig {
    fn clone(&self) -> (c: IngestConfig)
        ensures
            string_views(c.extensions@) == string_views(self.extensions@),
            c.max_file_size == self.max_file_size,
            c.chunk_size == self.chunk_size,
            c.chunk_overlap == self.chunk_overlap,
            string_views(c.ignore_patterns@) == string_views(self.ignore_patterns@),
    {
        IngestConfig {
            extensions: copy_string_list(&self.extensions),
            max_file_size: self.max_file_size,
            chunk_size: self.chunk_size,
            chunk_overlap: self.chunk_overlap,
            ignore_patterns: copy_string_list(&self.ignore_patterns),
        }
    }
}

impl Default for RerankConfig {
    fn default() -> (c: RerankConfig)
        ensures
            c.is_default(),
    {
        RerankConfig {
            provider: String::from_str("mock"),
            api_base: None,
            api_key: None,
            model: None,
            top_n: None,
        }
    }
}

impl Clone for RerankConfig {
    fn clone(&self) -> (c: RerankConfig)
        ensures
            c.provider@ == self.provider@,
            optional_text(c.api_base) == optional_text(self.api_base),
            optional_text(c.api_key) == optional_text(self.api_key),
            optional_text(c.model) == optional_text(self.model),
            c.top_n == self.top_n,
    {
        RerankConfig {
            provider: self.provider.clone(),
            api_base: copy_optional(&self.api_base),
            api_key: copy_optional(&self.api_key),
            model: copy_optional(&self.model),
            top_n: self.top_n,
        }
    }
}

impl Default for RetrievalConfig {
    fn default() -> (c: RetrievalConfig)
        ensures
            c.is_default(),
    {
        RetrievalConfig {
            default_limit: default_limit(),
            score_threshold: default_threshold(),
            hierarchical: default_hierarchical(),
            max_depth: default_max_depth(),
            rerank: false,
            rerank_model: None,
            rerank_config: RerankConfig::default(),
        }
    }
}

impl Clone for RetrievalConfig {
    fn clone(&self) -> (c: RetrievalConfig)
        ensures
            c.default_limit == self.default_limit,
            c.score_threshold == self.score_threshold,
            c.hierarchical == self.hierarchical,
            c.max_depth == self.max_depth,
            c.rerank == self.rerank,
            optional_text(c.rerank_model) == optional_text(self.rerank_model),
            c.rerank_config.provider@ == self.rerank_config.provider@,
            c.rerank_config.top_n == self.rerank_config.top_n,
    {
        RetrievalConfig {
            default_limit: self.default_limit,
            score_threshold: self.score_threshold,
            hierarchical: self.hierarchical,
            max_depth: self.max_depth,
            rerank: self.rerank,
            rerank_model: copy_optional(&self.rerank_model),
            rerank_config: self.rerank_config.clone(),
        }
    }
}

impl Default for IngestConfig {
    fn default() -> (c: IngestConfig)
        ensures
            c.is_default(),
    {
        IngestConfig {
            extensions: default_extensions(),
            max_file_size: default_max_file_size(),
            chunk_size: default_chunk_size(),
            chunk_overlap: default_chunk_overlap(),
            ignore_patterns: default_ignore_patterns(),
        }
    }
}

impl Default for Config {
    fn default() -> (c: Config)
        ensures
            c.is_default(),
    {
        Config {
            storage: StorageConfig::default(),
            embedding: EmbeddingConfig::default(),
            llm: LLMConfig::default(),
            retrieval: RetrievalConfig::default(),
            ingest: IngestConfig::default(),
            log_level: default_log_level(),
        }
    }
}

impl Clone for Config {
    fn clone(&self) -> (c: Config)
        ensures
            c.log_level@ == self.log_level@,
            c.retrieval.default_limit == self.retrieval.default_limit,
            c.retrieval.score_threshold == self.retrieval.score_threshold,
            c.retrieval.hierarchical == self.retrieval.hierarchical,
            c.retrieval.max_depth == self.retrieval.max_depth,
            c.retrieval.rerank == self.retrieval.rerank,
            optional_text(c.llm.api_base) == optional_text(self.llm.api_base),
            optional_text(c.llm.api_key) == optional_text(self.llm.api_key),
            optional_text(c.llm.model) == optional_text(self.llm.model),
            c.llm.auto_digest == self.llm.auto_digest,
            c.ingest.max_file_size == self.ingest.max_file_size,
            string_views(c.ingest.ignore_patterns@) == string_views(self.ingest.ignore_patterns@),
    {
        Config {
            storage: self.storage.clone(),
            embedding: self.embedding.clone(),
            llm: self.llm.clone(),
            retrieval: self.retrieval.clone(),
            ingest: self.ingest.clone(),
            log_level: self.log_level.clone(),
        }
    }
}

/// The format in which a configuration file is written.
#[derive(Debug, Clone, Copy, PartialEq, Eq, Structural)]
pub enum ConfigFormat {
    Yaml,
    Toml,
    Json,
}

/// The format that the name of a configuration file announces: YAML for
/// `.yaml` and `.yml`, TOML for `.toml`, JSON for every other name.
pub open spec fn format_of(path: Seq<char>) -> ConfigFormat {
    if ".yaml"@.is_suffix_of(path) || ".yml"@.is_suffix_of(path) {
        ConfigFormat::Yaml
    } else if ".toml"@.is_suffix_of(path) {
        ConfigFormat::Toml
    } else {
        ConfigFormat::Json
    }
}

/// Values that the environment sets; each one that is present replaces
/// the default.
#[derive(Debug)]
pub struct EnvOverrides {
    pub storage_path: Option<String>,
    pub embedding_api_base: Option<String>,
    pub embedding_api_key: Option<String>,
    pub embedding_model: Option<String>,
    pub llm_api_base: Option<String>,
    pub llm_api_key: Option<String>,
    pub llm_model: Option<String>,
    pub log_level: Option<String>,
}

impl Config {
    /// The format in which the file at `path` is read.
    pub fn format_for(path: &str) -> (r: ConfigFormat)
        ensures
            r == format_of(path@),
    {
        if ends_with(path, ".yaml") || ends_with(path, ".yml") {
            ConfigFormat::Yaml
        } else if ends_with(path, ".toml") {
            ConfigFormat::Toml
        } else {
            ConfigFormat::Json
        }
    }

    /// The default configuration with the values of the environment put
    /// over it. A value that is absent leaves the default in place.
    /// Reading the environment is left to the caller.
    pub fn from_env(env: EnvOverrides) -> (c: Config)
        ensures
            c.storage.path@ == (match env.storage_path {
                Some(p) => p@,
                None => "./a3s_data"@,
            }),
            optional_text(c.embedding.api_base) == optional_text(env.embedding_api_base),
            optional_text(c.embedding.api_key) == optional_text(env.embedding_api_key),
            c.embedding.model@ == (match env.embedding_model {
                Some(m) => m@,
                None => "text-embedding-3-small"@,
            }),
            optional_text(c.llm.api_base) == optional_text(env.llm_api_base),
            optional_text(c.llm.api_key) == optional_text(env.llm_api_key),
            optional_text(c.llm.model) == optional_text(env.llm_model),
            c.log_level@ == (match env.log_level {
                Some(l) => l@,
                None => "info"@,
            }),
            c.storage.is_default_but_path(),
            c.embedding.is_default_but_service(),
            c.llm.is_default_but_service(),
            c.retrieval.is_default(),
            c.ingest.is_default(),
    {
        let mut config = Config::default();
        if let Some(path) = env.storage_path {
            config.storage.path = path;
        }
        if let Some(api_base) = env.embedding_api_base {
            config.embedding.api_base = Some(api_base);
        }
        if let Some(api_key) = env.embedding_api_key {
            config.embedding.api_key = Some(api_key);
        }
        if let Some(model) = env.embedding_model {
            config.embedding.model = model;
        }
        if let Some(api_base) = env.llm_api_base {
            config.llm.api_base = Some(api_base);
        }
        if let Some(api_key) = env.llm_api_key {
            config.llm.api_key = Some(api_key);
        }
        if let Some(model) = env.llm_model {
            config.llm.model = Some(model);
        }
        if let Some(level) = env.log_level {
            config.log_level = level;
        }
        config
    }

    /// This configuration with `other` put over it. Of `other`, the
    /// storage part counts when its path is not the default path, the
    /// embedding and summarization parts when they name an API base, the
    /// log level when it is not `info`; its retrieval and ingest parts
    /// always count.
    pub fn merge(self, other: Config) -> (c: Config)
        ensures
            c.storage == (if other.storage.path@ != "./a3s_data"@ {
                other.storage
            } else {
                self.storage
            }),
            c.embedding == (if other.embedding.api_base.is_some() {
                other.embedding
            } else {
                self.embedding
            }),
            c.llm == (if other.llm.api_base.is_some() {
                other.llm
            } else {
                self.llm
            }),
            c.retrieval == other.retrieval,
            c.ingest == other.ingest,
            c.log_level == (if other.log_level@ != "info"@ {
                other.log_level
            } else {
                self.log_level
            }),
    {
        let mut merged = self;
        if !str_equal(other.storage.path.as_str(), "./a3s_data") {
            merged.storage = other.storage;
        }
        if other.embedding.api_base.is_some() {
            merged.embedding = other.embedding;
        }
        if other.llm.api_base.is_some() {
            merged.llm = other.llm;
        }
        merged.retrieval = other.retrieval;
        merged.ingest = other.ingest;
        if !str_equal(other.log_level.as_str(), "info") {
            merged.log_level = other.log_level;
        }
        merged
    }
}

} // verus!
