use a3s_context::config::RerankConfig;
use a3s_context::rerank::{
    create_reranker, rank_results, JinaReranker, MockReranker, OpenAIReranker, RerankDocument,
    RerankResult, RerankerKind,
};

fn document(id: &str, text: &str) -> RerankDocument {
    RerankDocument { id: id.to_string(), text: text.to_string() }
}

#[test]
fn test_rerank_document() {
    let doc = RerankDocument {
        id: "doc1".to_string(),
        text: "test content".to_string(),
    };
    assert_eq!(doc.id, "doc1");
    assert_eq!(doc.text, "test content");
}

#[test]
fn test_rerank_result() {
    let result = RerankResult {
        id: "doc1".to_string(),
        index: 0,
        score: 95,
    };
    assert_eq!(result.id, "doc1");
    assert_eq!(result.index, 0);
    assert!((result.score as f32 / 100.0 - 0.95).abs() < 0.001);
}

#[test]
fn test_create_mock_reranker() {
    let config = RerankConfig::default();
    let reranker = create_reranker(&config);
    assert!(reranker.is_ok());
}

#[test]
fn test_create_unknown_reranker() {
    let config = RerankConfig {
        provider: "unknown".to_string(),
        ..Default::default()
    };
    let result = create_reranker(&config);
    assert!(result.is_err());
}

#[test]
fn test_mock_reranker_default() {
    let reranker = MockReranker::default();
    let _ = reranker;
}

#[test]
fn test_mock_reranker_basic() {
    let reranker = MockReranker::new();
    let documents = vec![
        document("doc1", "first document"),
        document("doc2", "second document"),
    ];

    let results = reranker.rerank("test query", documents, 2).unwrap();

    assert_eq!(results.len(), 2);
    for result in &results {
        let score = result.score as f32 / 100.0;
        assert!(score >= 0.0 && score <= 1.0);
    }
}

#[test]
fn test_mock_reranker_top_n() {
    let reranker = MockReranker::new();
    let documents = vec![
        document("doc1", "first"),
        document("doc2", "second"),
        document("doc3", "third"),
    ];

    let results = reranker.rerank("query", documents, 2).unwrap();

    assert_eq!(results.len(), 2);
}

#[test]
fn test_mock_reranker_empty() {
    let reranker = MockReranker::new();
    let documents: Vec<RerankDocument> = vec![];

    let results = reranker.rerank("query", documents, 5).unwrap();

    assert!(results.is_empty());
}

#[test]
fn test_mock_reranker_sorted() {
    let reranker = MockReranker::new();
    let documents = vec![document("doc1", "aaa"), document("doc2", "zzz")];

    let results = reranker.rerank("query", documents, 2).unwrap();

    if results.len() >= 2 {
        assert!(results[0].score >= results[1].score);
    }
}

#[test]
fn test_mock_reranker_integration() {
    let reranker = MockReranker::new();
    let documents = vec![
        document("doc1", "The capital of France is Paris."),
        document("doc2", "Python is a programming language."),
        document("doc3", "Paris is known for the Eiffel Tower."),
    ];

    let results = reranker
        .rerank("What is the capital of France?", documents, 2)
        .unwrap();

    assert_eq!(results.len(), 2);
    assert!(results[0].score >= results[1].score);
}

#[test]
fn mock_scores_are_byte_sums_modulo_one_hundred() {
    let reranker = MockReranker::new();
    let documents = vec![
        document("a", "aaa"),
        document("z", "zzz"),
        document("e", ""),
        document("d", "d"),
        document("same", "aaa"),
    ];
    let results = reranker.rerank("q", documents, 10).unwrap();
    let seen: Vec<(&str, usize, i64)> = results
        .iter()
        .map(|r| (r.id.as_str(), r.index, r.score))
        .collect();
    assert_eq!(
        seen,
        vec![("a", 0, 91), ("same", 4, 91), ("z", 1, 66), ("e", 2, 0), ("d", 3, 0)]
    );
}

#[test]
fn mock_reranker_gives_the_same_answer_twice() {
    let reranker = MockReranker::new();
    let make = || {
        vec![
            document("doc1", "The capital of France is Paris."),
            document("doc2", "Python is a programming language."),
            document("doc3", "Paris is known for the Eiffel Tower."),
        ]
    };
    let one = reranker.rerank("a", make(), 3).unwrap();
    let two = reranker.rerank("b", make(), 3).unwrap();
    let key = |v: &Vec<RerankResult>| -> Vec<(String, usize, i64)> {
        v.iter().map(|r| (r.id.clone(), r.index, r.score)).collect()
    };
    assert_eq!(key(&one), key(&two));
    assert!(reranker.rerank("a", make(), 0).unwrap().is_empty());
}

#[test]
fn rank_results_sorts_and_cuts() {
    let results = vec![
        RerankResult { id: "a".to_string(), index: 0, score: 1 },
        RerankResult { id: "b".to_string(), index: 1, score: 3 },
        RerankResult { id: "c".to_string(), index: 2, score: 2 },
        RerankResult { id: "d".to_string(), index: 3, score: 3 },
        RerankResult { id: "e".to_string(), index: 4, score: -5 },
    ];
    let ids = |v: Vec<RerankResult>| -> Vec<String> { v.into_iter().map(|r| r.id).collect() };
    assert_eq!(ids(rank_results(&results, 9)), vec!["b", "d", "c", "a", "e"]);
    assert_eq!(ids(rank_results(&results, 2)), vec!["b", "d"]);
    assert!(rank_results(&results, 0).is_empty());
    assert!(rank_results(&Vec::new(), 4).is_empty());
}

#[test]
fn rerankers_follow_the_provider() {
    let kind = |provider: &str| {
        create_reranker(&RerankConfig { provider: provider.to_string(), ..Default::default() })
    };
    assert_eq!(kind("mock").unwrap(), RerankerKind::Mock);
    assert_eq!(kind("cohere").unwrap(), RerankerKind::Cohere);
    assert_eq!(kind("jina").unwrap(), RerankerKind::Jina);
    assert_eq!(kind("openai").unwrap(), RerankerKind::OpenAI);
    assert_eq!(
        kind("nope").unwrap_err().to_string(),
        "Configuration error: Unknown rerank provider: nope"
    );
}

fn service_config(provider: &str) -> RerankConfig {
    RerankConfig {
        provider: provider.to_string(),
        api_base: None,
        api_key: None,
        model: None,
        top_n: None,
    }
}

#[test]
fn test_jina_reranker_new_without_key() {
    let config = service_config("jina");
    let result = JinaReranker::new(&config, None);
    assert!(result.is_err());
}

#[test]
fn test_jina_reranker_new_with_config_key() {
    let config = RerankConfig {
        provider: "jina".to_string(),
        api_base: Some("https://custom.api".to_string()),
        api_key: Some("test-key".to_string()),
        model: Some("custom-model".to_string()),
        top_n: Some(5),
    };
    let reranker = JinaReranker::new(&config, None).unwrap();
    assert_eq!(reranker.api_base(), "https://custom.api");
    assert_eq!(reranker.api_key(), "test-key");
    assert_eq!(reranker.model(), "custom-model");
}

#[test]
fn test_jina_reranker_new_with_env_key() {
    let config = service_config("jina");
    let reranker = JinaReranker::new(&config, Some("env-test-key".to_string())).unwrap();
    assert_eq!(reranker.api_key(), "env-test-key");
    assert_eq!(reranker.model(), JinaReranker::DEFAULT_MODEL);
}

#[test]
fn test_jina_reranker_empty_documents() {
    let results = JinaReranker::collect(&vec![], &vec![], 5);
    assert!(results.is_empty());
}

#[test]
fn test_openai_reranker_new_without_key() {
    let config = service_config("openai");
    let result = OpenAIReranker::new(&config, None);
    assert!(result.is_err());
}

#[test]
fn test_openai_reranker_new_with_config_key() {
    let config = RerankConfig {
        provider: "openai".to_string(),
        api_base: Some("https://custom.api".to_string()),
        api_key: Some("test-key".to_string()),
        model: Some("gpt-4".to_string()),
        top_n: Some(5),
    };
    let reranker = OpenAIReranker::new(&config, None).unwrap();
    assert_eq!(reranker.api_base(), "https://custom.api");
    assert_eq!(reranker.api_key(), "test-key");
    assert_eq!(reranker.model(), "gpt-4");
}

#[test]
fn test_openai_reranker_new_with_env_key() {
    let config = service_config("openai");
    let reranker = OpenAIReranker::new(&config, Some("env-test-key".to_string())).unwrap();
    assert_eq!(reranker.api_key(), "env-test-key");
    assert_eq!(reranker.model(), OpenAIReranker::DEFAULT_MODEL);
}

#[test]
fn test_openai_reranker_empty_documents() {
    let results = OpenAIReranker::collect(&vec![], &vec![], 5);
    assert!(results.is_empty());
}

#[test]
fn service_settings_prefer_the_configuration() {
    let mut config = service_config("jina");
    config.api_key = Some("own".to_string());
    let reranker = JinaReranker::new(&config, Some("env".to_string())).unwrap();
    assert_eq!(reranker.api_key(), "own");
    assert_eq!(reranker.api_base(), "https://api.jina.ai/v1");
    assert_eq!(reranker.model(), "jina-reranker-v2-base-multilingual");
    assert_eq!(
        JinaReranker::new(&service_config("jina"), None).unwrap_err().to_string(),
        "Configuration error: Jina API key not provided"
    );

    let reranker = OpenAIReranker::new(&config, None).unwrap();
    assert_eq!(reranker.api_base(), "https://api.openai.com/v1");
    assert_eq!(reranker.model(), "gpt-4o-mini");
    assert_eq!(
        OpenAIReranker::new(&service_config("openai"), None).unwrap_err().to_string(),
        "Configuration error: OpenAI API key not provided"
    );
}

#[test]
fn jina_answer_is_mapped_ranked_and_cut() {
    let documents = vec![document("d0", "x"), document("d1", "y"), document("d2", "z")];
    let scored = vec![(1usize, 10i64), (0, 30), (9, 20), (2, 30)];
    let out = JinaReranker::collect(&documents, &scored, 3);
    let seen: Vec<(&str, usize, i64)> =
        out.iter().map(|r| (r.id.as_str(), r.index, r.score)).collect();
    assert_eq!(seen, vec![("d0", 0, 30), ("d2", 2, 30), ("", 9, 20)]);
}

#[test]
fn openai_scores_are_paired_ranked_and_cut() {
    let documents = vec![document("d0", "x"), document("d1", "y"), document("d2", "z")];
    let out = OpenAIReranker::collect(&documents, &vec![2, 8, 5], 2);
    let seen: Vec<(&str, usize, i64)> =
        out.iter().map(|r| (r.id.as_str(), r.index, r.score)).collect();
    assert_eq!(seen, vec![("d1", 1, 8), ("d2", 2, 5)]);
    assert_eq!(OpenAIReranker::collect(&documents, &vec![2], 5).len(), 1);
}

#[test]
fn openai_prompt_names_query_and_document() {
    assert_eq!(
        OpenAIReranker::score_prompt("q?", "the doc"),
        "Rate the relevance of the following document to the query on a scale of 0 to 10.\n\n\
         Query: q?\n\n\
         Document: the doc\n\n\
         Respond with ONLY a number between 0 and 10, nothing else."
    );
}
