use a3s_context::config::{RetrievalConfig, VectorIndexConfig};
use a3s_context::ranking::score_from_bits;
use a3s_context::rerank::RerankResult;
use a3s_context::retrieval::{apply_rerank, rerank_documents, top_matches, Retriever};
use a3s_context::storage::MemoryStorage;
use a3s_context::{MatchedNode, Namespace, Node, NodeKind, Pathway, QueryOptions};

fn dot(a: &[f32], b: &[f32]) -> f32 {
    a.iter().zip(b.iter()).map(|(x, y)| x * y).sum()
}

fn cosine_similarity(a: &[f32], b: &[f32]) -> f32 {
    if a.len() != b.len() || a.is_empty() {
        return 0.0;
    }
    let norm_a = dot(a, a).sqrt();
    let norm_b = dot(b, b).sqrt();
    if norm_a == 0.0 || norm_b == 0.0 {
        return 0.0;
    }
    dot(a, b) / (norm_a * norm_b)
}

fn bits(v: &[f32]) -> Vec<u32> {
    v.iter().map(|x| x.to_bits()).collect()
}

fn score(x: f32) -> i64 {
    score_from_bits(x.to_bits()).unwrap()
}

fn scorer(query: Vec<f32>) -> impl Fn(&Vec<u32>) -> i64 {
    move |v: &Vec<u32>| {
        let stored: Vec<f32> = v.iter().map(|b| f32::from_bits(*b)).collect();
        score(cosine_similarity(&query, &stored))
    }
}

fn store() -> MemoryStorage {
    MemoryStorage::new(&VectorIndexConfig {
        index_type: "hnsw".to_string(),
        hnsw_m: 16,
        hnsw_ef_construction: 200,
    })
}

fn leaf(text: &str, content: &str, embedding: &[f32]) -> Node {
    let mut node = Node::new(
        Pathway::parse(text).unwrap(),
        NodeKind::Document,
        content.to_string(),
    );
    node.digest = a3s_context::digest::Digest::with_content(
        format!("brief of {}", content),
        format!("summary of {}", content),
    );
    node.embedding = bits(embedding);
    node
}

fn directory(text: &str, embedding: &[f32]) -> Node {
    let mut node = Node::directory(Pathway::parse(text).unwrap());
    node.embedding = bits(embedding);
    node
}

fn names(matches: &[MatchedNode]) -> Vec<String> {
    matches.iter().map(|m| m.pathway.to_string()).collect()
}

fn sorted(mut v: Vec<String>) -> Vec<String> {
    v.sort();
    v
}

fn config(hierarchical: bool) -> RetrievalConfig {
    let mut c = RetrievalConfig::default();
    c.hierarchical = hierarchical;
    c
}

fn a_match(text: &str, score: i64) -> MatchedNode {
    MatchedNode {
        pathway: Pathway::parse(text).unwrap(),
        node_kind: NodeKind::Document,
        score,
        brief: format!("brief {}", text),
        summary: None,
        content: None,
        highlights: Vec::new(),
    }
}

#[test]
fn flat_search_carries_the_digest_of_each_candidate() {
    let mut storage = store();
    storage.put(&leaf("a3s://knowledge/a", "a", &[1.0])).unwrap();
    storage.put(&leaf("a3s://knowledge/b", "b", &[1.0])).unwrap();
    let retriever = Retriever::new(&config(false));
    let candidates = vec![
        (Pathway::parse("a3s://knowledge/b").unwrap(), 9),
        (Pathway::parse("a3s://knowledge/a").unwrap(), 4),
    ];
    let found = retriever.flat_search(&storage, &candidates, 10).unwrap();
    assert_eq!(names(&found), vec!["a3s://knowledge/b", "a3s://knowledge/a"]);
    assert_eq!(found[0].score, 9);
    assert_eq!(found[0].brief, "brief of b");
    assert_eq!(found[0].summary.as_deref(), Some("summary of b"));
    assert!(found[0].content.is_none());
    assert!(found[0].highlights.is_empty());
    assert_eq!(found[0].node_kind, NodeKind::Document);

    let one = retriever.flat_search(&storage, &candidates, 1).unwrap();
    assert_eq!(names(&one), vec!["a3s://knowledge/b"]);
    assert!(retriever.flat_search(&storage, &candidates, 0).unwrap().is_empty());
}

#[test]
fn flat_search_fails_on_the_first_missing_node() {
    let mut storage = store();
    storage.put(&leaf("a3s://knowledge/a", "a", &[1.0])).unwrap();
    let retriever = Retriever::new(&config(false));
    let candidates = vec![
        (Pathway::parse("a3s://knowledge/a").unwrap(), 9),
        (Pathway::parse("a3s://knowledge/gone").unwrap(), 4),
        (Pathway::parse("a3s://knowledge/gone2").unwrap(), 3),
    ];
    let e = retriever.flat_search(&storage, &candidates, 10).unwrap_err();
    assert_eq!(e.to_string(), "Node not found: a3s://knowledge/gone");
    assert!(retriever.flat_search(&storage, &candidates, 1).is_ok());
}

#[test]
fn hierarchical_search_expands_the_parent_of_a_leaf() {
    let mut storage = store();
    storage.put(&leaf("a3s://knowledge/docs/a", "a", &[1.0, 0.0])).unwrap();
    storage.put(&leaf("a3s://knowledge/docs/b", "b", &[0.8, 0.6])).unwrap();
    storage.put(&leaf("a3s://knowledge/docs/c", "c", &[0.0, 1.0])).unwrap();
    storage.put(&leaf("a3s://knowledge/docs/plain", "p", &[])).unwrap();
    storage.put(&leaf("a3s://knowledge/other/d", "d", &[1.0, 0.0])).unwrap();
    let retriever = Retriever::new(&config(true));
    let candidates = vec![(Pathway::parse("a3s://knowledge/docs/a").unwrap(), score(1.0))];
    let found = retriever
        .hierarchical_search(&storage, &scorer(vec![1.0, 0.0]), &candidates, score(0.5))
        .unwrap();
    assert_eq!(found[0].pathway.to_string(), "a3s://knowledge/docs/a");
    assert_eq!(
        sorted(names(&found)),
        vec!["a3s://knowledge/docs/a", "a3s://knowledge/docs/b"]
    );
    let b = found.iter().find(|m| m.pathway.name() == Some("b")).unwrap();
    assert_eq!(b.score, score(0.8));
    assert_eq!(b.brief, "brief of b");
}

#[test]
fn hierarchical_search_lists_a_leaf_once() {
    let mut storage = store();
    storage.put(&directory("a3s://knowledge/docs", &[1.0, 0.0])).unwrap();
    storage.put(&leaf("a3s://knowledge/docs/a", "a", &[1.0, 0.0])).unwrap();
    storage.put(&leaf("a3s://knowledge/docs/b", "b", &[1.0, 0.0])).unwrap();
    let retriever = Retriever::new(&config(true));
    let candidates = vec![
        (Pathway::parse("a3s://knowledge/docs").unwrap(), score(1.0)),
        (Pathway::parse("a3s://knowledge/docs/a").unwrap(), score(1.0)),
        (Pathway::parse("a3s://knowledge/docs/b").unwrap(), score(1.0)),
    ];
    let found = retriever
        .hierarchical_search(&storage, &scorer(vec![1.0, 0.0]), &candidates, score(0.5))
        .unwrap();
    assert_eq!(names(&found), vec!["a3s://knowledge/docs/a", "a3s://knowledge/docs/b"]);
}

#[test]
fn hierarchical_search_expands_a_directory_hit_itself() {
    let mut storage = store();
    storage.put(&directory("a3s://knowledge/docs", &[1.0, 0.0])).unwrap();
    storage.put(&directory("a3s://knowledge/docs/sub", &[1.0, 0.0])).unwrap();
    storage.put(&leaf("a3s://knowledge/docs/a", "a", &[1.0, 0.0])).unwrap();
    storage.put(&leaf("a3s://knowledge/docs/sub/deep", "deep", &[1.0, 0.0])).unwrap();
    storage.put(&leaf("a3s://knowledge/docs/sub/x/y/z", "far", &[1.0, 0.0])).unwrap();
    storage.put(&leaf("a3s://knowledge/sibling", "s", &[1.0, 0.0])).unwrap();
    let mut c = config(true);
    c.max_depth = 2;
    let retriever = Retriever::new(&c);
    let candidates = vec![(Pathway::parse("a3s://knowledge/docs").unwrap(), score(1.0))];
    let found = retriever
        .hierarchical_search(&storage, &scorer(vec![1.0, 0.0]), &candidates, score(0.5))
        .unwrap();
    assert_eq!(
        sorted(names(&found)),
        vec!["a3s://knowledge/docs/a", "a3s://knowledge/docs/sub/deep"]
    );
}

#[test]
fn hierarchical_search_passes_over_low_candidates() {
    let mut storage = store();
    storage.put(&leaf("a3s://knowledge/docs/a", "a", &[1.0, 0.0])).unwrap();
    storage.put(&leaf("a3s://knowledge/low/b", "b", &[1.0, 0.0])).unwrap();
    storage.put(&leaf("a3s://knowledge/low/c", "c", &[1.0, 0.0])).unwrap();
    let retriever = Retriever::new(&config(true));
    let candidates = vec![
        (Pathway::parse("a3s://knowledge/docs/a").unwrap(), score(0.9)),
        (Pathway::parse("a3s://knowledge/low/b").unwrap(), score(0.1)),
        (Pathway::parse("a3s://knowledge/gone").unwrap(), score(0.2)),
    ];
    let found = retriever
        .hierarchical_search(&storage, &scorer(vec![1.0, 0.0]), &candidates, score(0.5))
        .unwrap();
    assert_eq!(names(&found), vec!["a3s://knowledge/docs/a"]);
    assert_eq!(found[0].score, score(0.9));
}

#[test]
fn hierarchical_search_fails_on_a_missing_candidate() {
    let storage = store();
    let retriever = Retriever::new(&config(true));
    let candidates = vec![(Pathway::parse("a3s://knowledge/gone").unwrap(), score(0.9))];
    let e = retriever
        .hierarchical_search(&storage, &scorer(vec![1.0]), &candidates, score(0.5))
        .unwrap_err();
    assert_eq!(e.to_string(), "Node not found: a3s://knowledge/gone");
}

#[test]
fn hierarchical_search_finds_nested_files_once() {
    let mut storage = store();
    let target = Pathway::parse("a3s://knowledge/docs").unwrap();
    let mut nested = Node::new(target.join("sub/file.md"), NodeKind::Markdown, "n".to_string());
    nested.embedding = bits(&[1.0, 0.0]);
    storage.put(&nested).unwrap();
    let mut near = Node::new(target.join("sub/other.md"), NodeKind::Markdown, "o".to_string());
    near.embedding = bits(&[1.0, 0.0]);
    storage.put(&near).unwrap();
    let retriever = Retriever::new(&config(true));
    let result = retriever
        .search(&storage, &scorer(vec![1.0, 0.0]), None, 0)
        .unwrap();
    assert_eq!(
        sorted(names(&result.matches)),
        vec!["a3s://knowledge/docs/sub/file.md", "a3s://knowledge/docs/sub/other.md"]
    );
}

#[test]
fn search_returns_the_best_matches_in_order() {
    let mut storage = store();
    storage.put(&leaf("a3s://knowledge/docs/a", "a", &[1.0, 0.0])).unwrap();
    storage.put(&leaf("a3s://knowledge/docs/b", "b", &[0.8, 0.6])).unwrap();
    storage.put(&leaf("a3s://knowledge/docs/c", "c", &[0.6, 0.8])).unwrap();
    storage.put(&leaf("a3s://knowledge/docs/d", "d", &[0.0, 1.0])).unwrap();
    storage.put(&leaf("a3s://memory/m", "m", &[1.0, 0.0])).unwrap();
    for hierarchical in [true, false] {
        let retriever = Retriever::new(&config(hierarchical));
        let result = retriever
            .search(&storage, &scorer(vec![1.0, 0.0]), None, 17)
            .unwrap();
        assert_eq!(result.query_embedding_time_ms, 17);
        assert_eq!(result.total_searched, 4);
        assert_eq!(result.matches.len(), 4);
        let scores: Vec<i64> = result.matches.iter().map(|m| m.score).collect();
        assert_eq!(scores, vec![score(1.0), score(1.0), score(0.8), score(0.6)]);
        assert_eq!(result.matches[2].pathway.to_string(), "a3s://knowledge/docs/b");
        assert_eq!(result.matches[3].pathway.to_string(), "a3s://knowledge/docs/c");

        let options = QueryOptions {
            namespace: Some(Namespace::Knowledge),
            limit: Some(2),
            threshold: Some(score(0.7)),
            include_content: false,
            pathway_filter: None,
        };
        let result = retriever
            .search(&storage, &scorer(vec![1.0, 0.0]), Some(options), 0)
            .unwrap();
        assert_eq!(
            names(&result.matches),
            vec!["a3s://knowledge/docs/a", "a3s://knowledge/docs/b"]
        );
        assert_eq!(result.total_searched, 2);
    }
}

#[test]
fn search_never_exceeds_limit_or_goes_below_threshold() {
    let mut storage = store();
    for i in 0..30 {
        let angle = i as f32 * 0.05;
        storage
            .put(&leaf(
                &format!("a3s://knowledge/group{}/n{}", i % 3, i),
                "c",
                &[angle.cos(), angle.sin()],
            ))
            .unwrap();
    }
    let retriever = Retriever::new(&config(true));
    for limit in [0usize, 1, 4, 50] {
        let options = QueryOptions {
            namespace: None,
            limit: Some(limit),
            threshold: Some(score(0.6)),
            include_content: false,
            pathway_filter: None,
        };
        let result = retriever
            .search(&storage, &scorer(vec![1.0, 0.0]), Some(options), 0)
            .unwrap();
        assert!(result.matches.len() <= limit);
        assert!(result.matches.iter().all(|m| m.score >= score(0.6)));
        assert!(result.matches.windows(2).all(|w| w[0].score >= w[1].score));
        let mut seen = names(&result.matches);
        seen.sort();
        seen.dedup();
        assert_eq!(seen.len(), result.matches.len());
    }
}

#[test]
fn search_fails_when_the_store_lacks_a_candidate() {
    let mut storage = store();
    storage.put(&leaf("a3s://knowledge/a", "a", &[1.0])).unwrap();
    storage
        .remove(&Pathway::parse("a3s://knowledge/a").unwrap(), false)
        .unwrap();
    let retriever = Retriever::new(&config(true));
    assert!(retriever
        .search(&storage, &scorer(vec![1.0]), None, 0)
        .unwrap()
        .matches
        .is_empty());
}

#[test]
fn top_matches_keep_the_order_of_equal_scores() {
    let pool = vec![
        a_match("a3s://knowledge/a", 5),
        a_match("a3s://knowledge/b", 9),
        a_match("a3s://knowledge/c", 5),
        a_match("a3s://knowledge/d", 9),
        a_match("a3s://knowledge/e", 1),
    ];
    assert_eq!(
        names(&top_matches(&pool, 10)),
        vec![
            "a3s://knowledge/b",
            "a3s://knowledge/d",
            "a3s://knowledge/a",
            "a3s://knowledge/c",
            "a3s://knowledge/e"
        ]
    );
    assert_eq!(
        names(&top_matches(&pool, 3)),
        vec!["a3s://knowledge/b", "a3s://knowledge/d", "a3s://knowledge/a"]
    );
    assert!(top_matches(&pool, 0).is_empty());
    assert!(top_matches(&Vec::new(), 3).is_empty());
}

fn ranked(index: usize, score: i64) -> RerankResult {
    RerankResult { id: String::new(), index, score }
}

#[test]
fn rerank_changes_order_and_number_only() {
    let matches = vec![
        a_match("a3s://knowledge/a", 5),
        a_match("a3s://knowledge/b", 4),
        a_match("a3s://knowledge/c", 3),
    ];
    let answer = vec![ranked(2, 90), ranked(0, 80), ranked(7, 70), ranked(2, 60), ranked(1, 50)];
    let out = apply_rerank(&matches, &answer, 10);
    assert_eq!(
        names(&out),
        vec!["a3s://knowledge/c", "a3s://knowledge/a", "a3s://knowledge/b"]
    );
    assert_eq!(out.iter().map(|m| m.score).collect::<Vec<i64>>(), vec![3, 5, 4]);
    assert_eq!(out[0].brief, "brief a3s://knowledge/c");
    assert_eq!(
        names(&apply_rerank(&matches, &answer, 2)),
        vec!["a3s://knowledge/c", "a3s://knowledge/a"]
    );
    assert!(apply_rerank(&matches, &answer, 0).is_empty());
    assert!(apply_rerank(&matches, &Vec::new(), 5).is_empty());
    assert!(apply_rerank(&Vec::new(), &answer, 5).is_empty());
}

#[test]
fn rerank_documents_stand_for_the_matches() {
    let mut with_summary = a_match("a3s://knowledge/a", 5);
    with_summary.summary = Some("the summary".to_string());
    let matches = vec![with_summary, a_match("a3s://knowledge/b", 4)];
    let documents = rerank_documents(&matches);
    assert_eq!(documents.len(), 2);
    assert_eq!(documents[0].id, "a3s://knowledge/a");
    assert_eq!(documents[0].text, "the summary");
    assert_eq!(documents[1].id, "a3s://knowledge/b");
    assert_eq!(documents[1].text, "brief a3s://knowledge/b");
}
