use a3s_context::config::{
    default_auto_digest, default_batch_size, default_chunk_overlap, default_chunk_size,
    default_embedding_dimension, default_embedding_model, default_embedding_provider,
    default_hierarchical, default_hnsw_m, default_index_type, default_limit, default_log_level,
    default_max_depth, default_max_file_size, default_storage_backend, default_threshold,
    ConfigFormat, EmbeddingConfig, EnvOverrides, IngestConfig, LLMConfig, RerankConfig,
    RetrievalConfig, StorageBackend, StorageConfig, VectorIndexConfig,
};
use a3s_context::ranking::score_from_bits;
use a3s_context::Config;

#[test]
fn config_test_config_default() {
    let config = Config::default();
    assert_eq!(config.log_level, "info");
    assert_eq!(config.storage.backend, StorageBackend::Local);
    assert_eq!(config.embedding.provider, "openai");
    assert!(config.llm.auto_digest);
    assert_eq!(config.retrieval.default_limit, 10);
}

#[test]
fn test_storage_backend() {
    assert_eq!(StorageBackend::Local, StorageBackend::Local);
    assert_ne!(StorageBackend::Local, StorageBackend::Memory);
}

#[test]
fn test_storage_config_default() {
    let config = StorageConfig::default();
    assert_eq!(config.backend, StorageBackend::Local);
    assert_eq!(config.path, "./a3s_data");
    assert!(config.url.is_none());
}

#[test]
fn test_vector_index_config_default() {
    let config = VectorIndexConfig::default();
    assert_eq!(config.index_type, "hnsw");
    assert_eq!(config.hnsw_m, 16);
    assert_eq!(config.hnsw_ef_construction, 200);
}

#[test]
fn test_embedding_config_default() {
    let config = EmbeddingConfig::default();
    assert_eq!(config.provider, "openai");
    assert_eq!(config.model, "text-embedding-3-small");
    assert_eq!(config.dimension, 1536);
    assert_eq!(config.batch_size, 32);
}

#[test]
fn test_llm_config_default() {
    let config = LLMConfig::default();
    assert_eq!(config.provider, "openai");
    assert_eq!(f32::from_bits(config.temperature), 0.0);
    assert!(config.auto_digest);
}

#[test]
fn test_retrieval_config_default() {
    let config = RetrievalConfig::default();
    assert_eq!(config.default_limit, 10);
    assert_eq!(Some(config.score_threshold), score_from_bits(0.5f32.to_bits()));
    assert!(config.hierarchical);
    assert_eq!(config.max_depth, 3);
    assert!(!config.rerank);
}

#[test]
fn test_ingest_config_default() {
    let config = IngestConfig::default();
    assert!(!config.extensions.is_empty());
    assert!(config.extensions.contains(&"rs".to_string()));
    assert!(config.extensions.contains(&"md".to_string()));
    assert_eq!(config.max_file_size, 10 * 1024 * 1024);
    assert_eq!(config.chunk_size, 1000);
    assert_eq!(config.chunk_overlap, 200);
    assert!(!config.ignore_patterns.is_empty());
}

fn no_overrides() -> EnvOverrides {
    EnvOverrides {
        storage_path: None,
        embedding_api_base: None,
        embedding_api_key: None,
        embedding_model: None,
        llm_api_base: None,
        llm_api_key: None,
        llm_model: None,
        log_level: None,
    }
}

#[test]
fn config_test_config_from_env() {
    let mut env = no_overrides();
    env.log_level = Some("debug".to_string());
    env.storage_path = Some("/tmp/test".to_string());

    let config = Config::from_env(env);

    assert_eq!(config.log_level, "debug");
    assert_eq!(config.storage.path, "/tmp/test");
}

#[test]
fn integration_test_test_config_from_env() {
    let mut env = no_overrides();
    env.log_level = Some("debug".to_string());
    let config = Config::from_env(env);
    assert_eq!(config.log_level, "debug");
}

#[test]
fn test_config_merge() {
    let mut config1 = Config::default();
    config1.log_level = "info".to_string();

    let mut config2 = Config::default();
    config2.log_level = "debug".to_string();

    let merged = config1.merge(config2);
    assert_eq!(merged.log_level, "debug");
}

#[test]
fn test_default_functions() {
    assert_eq!(default_log_level(), "info");
    assert_eq!(default_storage_backend(), StorageBackend::Local);
    assert_eq!(default_index_type(), "hnsw");
    assert_eq!(default_hnsw_m(), 16);
    assert_eq!(default_embedding_provider(), "openai");
    assert_eq!(default_embedding_model(), "text-embedding-3-small");
    assert_eq!(default_embedding_dimension(), 1536);
    assert_eq!(default_batch_size(), 32);
    assert!(default_auto_digest());
    assert_eq!(default_limit(), 10);
    assert_eq!(Some(default_threshold()), score_from_bits(0.5f32.to_bits()));
    assert!(default_hierarchical());
    assert_eq!(default_max_depth(), 3);
    assert_eq!(default_max_file_size(), 10 * 1024 * 1024);
    assert_eq!(default_chunk_size(), 1000);
    assert_eq!(default_chunk_overlap(), 200);
}

#[test]
fn integration_test_test_config_default() {
    let config = Config::default();
    assert_eq!(config.log_level, "info");
    assert!(config.llm.auto_digest);
    assert_eq!(config.retrieval.default_limit, 10);
}

#[test]
fn test_rerank_config_default() {
    let config = RerankConfig::default();
    assert_eq!(config.provider, "mock");
    assert!(config.api_base.is_none());
    assert!(config.api_key.is_none());
    assert!(config.model.is_none());
    assert!(config.top_n.is_none());
}

#[test]
fn test_rerank_config_custom() {
    let config = RerankConfig {
        provider: "cohere".to_string(),
        api_base: Some("https://custom.api".to_string()),
        api_key: Some("test-key".to_string()),
        model: Some("rerank-english-v3.0".to_string()),
        top_n: Some(10),
    };

    assert_eq!(config.provider, "cohere");
    assert_eq!(config.api_base, Some("https://custom.api".to_string()));
    assert_eq!(config.api_key, Some("test-key".to_string()));
    assert_eq!(config.model, Some("rerank-english-v3.0".to_string()));
    assert_eq!(config.top_n, Some(10));
}

#[test]
fn overrides_replace_only_what_is_present() {
    let mut env = no_overrides();
    env.embedding_api_base = Some("eb".to_string());
    env.embedding_api_key = Some("ek".to_string());
    env.embedding_model = Some("em".to_string());
    env.llm_api_base = Some("lb".to_string());
    env.llm_api_key = Some("lk".to_string());
    env.llm_model = Some("lm".to_string());
    let config = Config::from_env(env);
    assert_eq!(config.embedding.api_base.as_deref(), Some("eb"));
    assert_eq!(config.embedding.api_key.as_deref(), Some("ek"));
    assert_eq!(config.embedding.model, "em");
    assert_eq!(config.llm.api_base.as_deref(), Some("lb"));
    assert_eq!(config.llm.api_key.as_deref(), Some("lk"));
    assert_eq!(config.llm.model.as_deref(), Some("lm"));
    assert_eq!(config.log_level, "info");
    assert_eq!(config.storage.path, "./a3s_data");

    let plain = Config::from_env(no_overrides());
    assert!(plain.embedding.api_base.is_none());
    assert_eq!(plain.embedding.model, "text-embedding-3-small");
    assert!(plain.llm.model.is_none());
}

#[test]
fn merge_takes_parts_by_their_markers() {
    let mut base = Config::default();
    base.storage.path = "/base".to_string();
    base.embedding.model = "base-model".to_string();
    base.llm.provider = "base-llm".to_string();
    base.retrieval.default_limit = 1;
    base.ingest.chunk_size = 1;
    base.log_level = "warn".to_string();

    let mut other = Config::default();
    other.embedding.model = "other-model".to_string();
    other.retrieval.default_limit = 2;
    other.ingest.chunk_size = 2;

    let merged = base.merge(other);
    assert_eq!(merged.storage.path, "/base");
    assert_eq!(merged.embedding.model, "base-model");
    assert_eq!(merged.llm.provider, "base-llm");
    assert_eq!(merged.retrieval.default_limit, 2);
    assert_eq!(merged.ingest.chunk_size, 2);
    assert_eq!(merged.log_level, "warn");

    let mut base = Config::default();
    base.embedding.model = "base-model".to_string();
    let mut other = Config::default();
    other.storage.path = "/other".to_string();
    other.storage.backend = StorageBackend::Memory;
    other.embedding.api_base = Some("b".to_string());
    other.embedding.model = "other-model".to_string();
    other.llm.api_base = Some("l".to_string());
    other.llm.auto_digest = false;
    let merged = base.merge(other);
    assert_eq!(merged.storage.path, "/other");
    assert_eq!(merged.storage.backend, StorageBackend::Memory);
    assert_eq!(merged.embedding.model, "other-model");
    assert!(!merged.llm.auto_digest);
}

#[test]
fn format_follows_the_file_name() {
    assert_eq!(Config::format_for("a.yaml"), ConfigFormat::Yaml);
    assert_eq!(Config::format_for("a.yml"), ConfigFormat::Yaml);
    assert_eq!(Config::format_for("dir/a.toml"), ConfigFormat::Toml);
    assert_eq!(Config::format_for("a.json"), ConfigFormat::Json);
    assert_eq!(Config::format_for("a"), ConfigFormat::Json);
    assert_eq!(Config::format_for(""), ConfigFormat::Json);
    assert_eq!(Config::format_for("yaml"), ConfigFormat::Json);
}

#[test]
fn clone_keeps_retrieval_settings() {
    let mut config = Config::default();
    config.retrieval.default_limit = 7;
    config.retrieval.rerank = true;
    config.retrieval.rerank_model = Some("m".to_string());
    config.retrieval.rerank_config.top_n = Some(3);
    let copy = config.clone();
    assert_eq!(copy.retrieval.default_limit, 7);
    assert!(copy.retrieval.rerank);
    assert_eq!(copy.retrieval.rerank_model.as_deref(), Some("m"));
    assert_eq!(copy.retrieval.rerank_config.top_n, Some(3));
    assert_eq!(copy.retrieval.score_threshold, config.retrieval.score_threshold);
}
