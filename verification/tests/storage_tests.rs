use a3s_context::config::VectorIndexConfig;
use a3s_context::digest::Digest;
use a3s_context::ranking::score_from_bits;
use a3s_context::storage::{MemoryStorage, VectorIndex};
use a3s_context::{A3SError, Namespace, Node, NodeKind, Pathway};

fn index_config() -> VectorIndexConfig {
    VectorIndexConfig {
        index_type: "hnsw".to_string(),
        hnsw_m: 16,
        hnsw_ef_construction: 200,
    }
}

fn cosine_similarity(a: &[f32], b: &[f32]) -> f32 {
    if a.len() != b.len() || a.is_empty() {
        return 0.0;
    }
    let dot: f32 = a.iter().zip(b.iter()).map(|(x, y)| x * y).sum();
    let norm_a: f32 = a.iter().map(|x| x * x).sum::<f32>().sqrt();
    let norm_b: f32 = b.iter().map(|x| x * x).sum::<f32>().sqrt();
    if norm_a == 0.0 || norm_b == 0.0 {
        return 0.0;
    }
    dot / (norm_a * norm_b)
}

fn bits(v: &[f32]) -> Vec<u32> {
    v.iter().map(|x| x.to_bits()).collect()
}

fn score(x: f32) -> i64 {
    score_from_bits(x.to_bits()).unwrap()
}

fn scorer(query: Vec<f32>) -> impl Fn(&Vec<u32>) -> i64 {
    move |v: &Vec<u32>| {
        let stored: Vec<f32> = v.iter().map(|b| f32::from_bits(*b)).collect();
        score(cosine_similarity(&query, &stored))
    }
}

fn texts(found: &[(Pathway, i64)]) -> Vec<String> {
    found.iter().map(|(p, _)| p.to_string()).collect()
}

#[test]
fn test_vector_index_add_and_search() {
    let mut index = VectorIndex::new(&index_config());

    let p1 = Pathway::parse("a3s://knowledge/doc1").unwrap();
    let v1 = bits(&[1.0, 0.0, 0.0]);
    index.add(&p1, &v1).unwrap();

    let p2 = Pathway::parse("a3s://knowledge/doc2").unwrap();
    let v2 = bits(&[0.0, 1.0, 0.0]);
    index.add(&p2, &v2).unwrap();

    assert_eq!(index.size(), 2);

    let query = vec![0.9, 0.1, 0.0];
    let results = index.search(&scorer(query), None, 10, score(0.5)).unwrap();

    assert!(!results.is_empty());
    assert_eq!(results[0].0, p1);
}

#[test]
fn test_vector_index_remove() {
    let mut index = VectorIndex::new(&index_config());

    let p1 = Pathway::parse("a3s://knowledge/doc1").unwrap();
    let v1 = bits(&[1.0, 0.0, 0.0]);
    index.add(&p1, &v1).unwrap();

    assert_eq!(index.size(), 1);

    index.remove(&p1).unwrap();
    assert_eq!(index.size(), 0);
}

#[test]
fn test_vector_index_namespace_filter() {
    let mut index = VectorIndex::new(&index_config());

    let p1 = Pathway::parse("a3s://knowledge/doc1").unwrap();
    let v1 = bits(&[1.0, 0.0, 0.0]);
    index.add(&p1, &v1).unwrap();

    let p2 = Pathway::parse("a3s://memory/mem1").unwrap();
    let v2 = bits(&[1.0, 0.0, 0.0]);
    index.add(&p2, &v2).unwrap();

    let query = vec![1.0, 0.0, 0.0];
    let results = index
        .search(&scorer(query), Some(Namespace::Knowledge), 10, score(0.5))
        .unwrap();

    assert_eq!(results.len(), 1);
    assert_eq!(results[0].0, p1);
}

#[test]
fn test_vector_index_threshold() {
    let mut index = VectorIndex::new(&index_config());

    let p1 = Pathway::parse("a3s://knowledge/doc1").unwrap();
    let v1 = bits(&[1.0, 0.0, 0.0]);
    index.add(&p1, &v1).unwrap();

    let query = vec![0.5, 0.5, 0.0];
    let results = index.search(&scorer(query), None, 10, score(0.9)).unwrap();

    assert!(results.is_empty());
}

#[test]
fn search_orders_by_score_then_by_pathway_text() {
    let mut index = VectorIndex::new(&index_config());
    let names = ["a", "b", "c", "d", "e"];
    let scores = [3i64, 9, 3, 7, 1];
    for (i, name) in names.iter().enumerate() {
        let p = Pathway::knowledge(name).unwrap();
        index.add(&p, &[scores[i] as u32]).unwrap();
    }
    let by_component = |v: &Vec<u32>| v[0] as i64;

    let all = index.search(&by_component, None, 10, 0).unwrap();
    assert_eq!(
        texts(&all),
        vec![
            "a3s://knowledge/b",
            "a3s://knowledge/d",
            "a3s://knowledge/c",
            "a3s://knowledge/a",
            "a3s://knowledge/e"
        ]
    );
    assert_eq!(all.iter().map(|x| x.1).collect::<Vec<i64>>(), vec![9, 7, 3, 3, 1]);

    let top = index.search(&by_component, None, 3, 0).unwrap();
    assert_eq!(texts(&top), texts(&all[..3]));

    let above = index.search(&by_component, None, 10, 3).unwrap();
    assert_eq!(above.len(), 4);
    assert!(above.iter().all(|x| x.1 >= 3));

    let strict = index.search(&by_component, None, 10, 4).unwrap();
    assert_eq!(texts(&strict), vec!["a3s://knowledge/b", "a3s://knowledge/d"]);

    assert!(index.search(&by_component, None, 0, 0).unwrap().is_empty());
    assert!(index.search(&by_component, None, 10, 10).unwrap().is_empty());
}

#[test]
fn search_is_the_same_on_every_run() {
    let mut index = VectorIndex::new(&index_config());
    for i in 0..40u32 {
        let p = Pathway::memory(&format!("m/{}", i)).unwrap();
        index.add(&p, &[i % 5]).unwrap();
    }
    let by_component = |v: &Vec<u32>| v[0] as i64;
    let first = texts(&index.search(&by_component, None, 12, 1).unwrap());
    for _ in 0..5 {
        assert_eq!(texts(&index.search(&by_component, None, 12, 1).unwrap()), first);
    }
    assert_eq!(first.len(), 12);
}

#[test]
fn add_replaces_the_vector_of_a_pathway() {
    let mut index = VectorIndex::new(&index_config());
    let p = Pathway::knowledge("x").unwrap();
    index.add(&p, &[1]).unwrap();
    index.add(&p, &[5]).unwrap();
    assert_eq!(index.size(), 1);
    let found = index.search(&|v: &Vec<u32>| v[0] as i64, None, 10, 0).unwrap();
    assert_eq!(found.len(), 1);
    assert_eq!(found[0].1, 5);
    index.remove(&Pathway::knowledge("absent").unwrap()).unwrap();
    assert_eq!(index.size(), 1);
}

#[test]
fn search_fails_on_a_key_that_is_no_pathway() {
    let mut index = VectorIndex::new(&index_config());
    let bad = Pathway::new(Namespace::Knowledge, vec!["a\0".to_string()]);
    index.add(&bad, &[1]).unwrap();
    let r = index.search(&|_: &Vec<u32>| 1, None, 10, 0);
    match r {
        Err(A3SError::InvalidPathway(m)) => assert!(m.starts_with("Invalid segment: ")),
        _ => panic!("search took a key that is no pathway"),
    }
}

#[test]
fn search_reads_pathways_back_from_their_text() {
    let mut index = VectorIndex::new(&index_config());
    let nested = Pathway::knowledge("docs").unwrap().join("sub/file.md");
    assert_eq!(nested.depth(), 2);
    index.add(&nested, &[1]).unwrap();
    let found = index.search(&|_: &Vec<u32>| 1, None, 10, 0).unwrap();
    assert_eq!(found.len(), 1);
    assert_eq!(found[0].0.segments(), &["docs", "sub", "file.md"]);
    assert_eq!(found[0].0.to_string(), nested.to_string());
}

#[test]
fn test_memory_storage_put_and_get() {
    let mut storage = MemoryStorage::new(&index_config());

    let pathway = Pathway::parse("a3s://knowledge/test").unwrap();
    let node = Node::new(pathway.clone(), NodeKind::Document, "Test content".to_string());

    storage.put(&node).unwrap();

    let retrieved = storage.get(&pathway).unwrap();
    assert_eq!(retrieved.content, "Test content");
    assert_eq!(retrieved.pathway, pathway);
}

#[test]
fn test_memory_storage_exists() {
    let mut storage = MemoryStorage::new(&index_config());

    let pathway = Pathway::parse("a3s://knowledge/test").unwrap();
    assert!(!storage.contains(&pathway).unwrap());

    let node = Node::new(pathway.clone(), NodeKind::Document, "Test".to_string());
    storage.put(&node).unwrap();

    assert!(storage.contains(&pathway).unwrap());
}

#[test]
fn test_memory_storage_remove() {
    let mut storage = MemoryStorage::new(&index_config());

    let pathway = Pathway::parse("a3s://knowledge/test").unwrap();
    let node = Node::new(pathway.clone(), NodeKind::Document, "Test".to_string());
    storage.put(&node).unwrap();

    assert!(storage.contains(&pathway).unwrap());

    storage.remove(&pathway, false).unwrap();

    assert!(!storage.contains(&pathway).unwrap());
}

#[test]
fn test_memory_storage_list() {
    let mut storage = MemoryStorage::new(&index_config());

    let parent = Pathway::parse("a3s://knowledge/docs").unwrap();
    let child1 = Pathway::parse("a3s://knowledge/docs/file1").unwrap();
    let child2 = Pathway::parse("a3s://knowledge/docs/file2").unwrap();

    let node1 = Node::new(child1, NodeKind::Document, "Content 1".to_string());
    let node2 = Node::new(child2, NodeKind::Document, "Content 2".to_string());

    storage.put(&node1).unwrap();
    storage.put(&node2).unwrap();

    let list = storage.list(&parent).unwrap();
    assert_eq!(list.len(), 2);
}

#[test]
fn test_memory_storage_stats() {
    let mut storage = MemoryStorage::new(&index_config());

    let pathway = Pathway::parse("a3s://knowledge/test").unwrap();
    let node = Node::new(pathway, NodeKind::Document, "Test content".to_string());
    storage.put(&node).unwrap();

    let stats = storage.stats().unwrap();
    assert_eq!(stats.total_nodes, 1);
    assert!(stats.total_size_bytes > 0);
}

#[test]
fn test_memory_storage_update_embedding() {
    let mut storage = MemoryStorage::new(&index_config());

    let pathway = Pathway::parse("a3s://knowledge/test").unwrap();
    let node = Node::new(pathway.clone(), NodeKind::Document, "Test".to_string());
    storage.put(&node).unwrap();

    let embedding = bits(&[0.1, 0.2, 0.3]);
    storage.update_embedding(&pathway, embedding.clone()).unwrap();

    let retrieved = storage.get(&pathway).unwrap();
    assert_eq!(retrieved.embedding, embedding);
}

fn leaf(text: &str, content: &str, embedding: &[f32]) -> Node {
    let mut node = Node::new(
        Pathway::parse(text).unwrap(),
        NodeKind::Document,
        content.to_string(),
    );
    node.embedding = bits(embedding);
    node
}

fn sorted(mut v: Vec<String>) -> Vec<String> {
    v.sort();
    v
}

#[test]
fn get_reports_a_missing_node() {
    let storage = MemoryStorage::new(&index_config());
    storage.initialize().unwrap();
    storage.flush().unwrap();
    let p = Pathway::knowledge("absent").unwrap();
    match storage.get(&p) {
        Err(e) => assert_eq!(e.to_string(), "Node not found: a3s://knowledge/absent"),
        Ok(_) => panic!("found a node in an empty store"),
    }
}

#[test]
fn put_replaces_the_node_of_a_pathway() {
    let mut storage = MemoryStorage::new(&index_config());
    storage.put(&leaf("a3s://knowledge/x", "one", &[1.0])).unwrap();
    storage.put(&leaf("a3s://knowledge/x", "two", &[0.5])).unwrap();
    assert_eq!(storage.stats().unwrap().total_nodes, 1);
    let p = Pathway::knowledge("x").unwrap();
    assert_eq!(storage.get(&p).unwrap().content, "two");
    let found = storage
        .search_vector(&|v: &Vec<u32>| v[0] as i64, None, 10, 0)
        .unwrap();
    assert_eq!(found.len(), 1);
    assert_eq!(found[0].1, 0.5f32.to_bits() as i64);
}

#[test]
fn put_indexes_only_embedded_nodes() {
    let mut storage = MemoryStorage::new(&index_config());
    storage.put(&leaf("a3s://knowledge/with", "a", &[1.0])).unwrap();
    storage.put(&leaf("a3s://knowledge/without", "b", &[])).unwrap();
    let found = storage.search_vector(&|_: &Vec<u32>| 1, None, 10, 0).unwrap();
    assert_eq!(texts(&found), vec!["a3s://knowledge/with"]);
}

#[test]
fn recursive_remove_takes_the_subtree_and_its_vectors() {
    let mut storage = MemoryStorage::new(&index_config());
    storage.put(&leaf("a3s://knowledge/docs/api", "api", &[1.0, 0.0])).unwrap();
    storage.put(&leaf("a3s://knowledge/docs/api/v1", "v1", &[1.0, 0.0])).unwrap();
    storage.put(&leaf("a3s://knowledge/docs", "docs", &[1.0, 0.0])).unwrap();
    storage.put(&leaf("a3s://knowledge/docsx", "near", &[1.0, 0.0])).unwrap();
    storage.put(&leaf("a3s://memory/docs/api", "other", &[1.0, 0.0])).unwrap();

    storage
        .remove(&Pathway::parse("a3s://knowledge/docs").unwrap(), true)
        .unwrap();

    assert!(!storage
        .contains(&Pathway::parse("a3s://knowledge/docs/api").unwrap())
        .unwrap());
    assert!(!storage
        .contains(&Pathway::parse("a3s://knowledge/docs/api/v1").unwrap())
        .unwrap());
    assert!(!storage.contains(&Pathway::parse("a3s://knowledge/docs").unwrap()).unwrap());
    assert!(storage.contains(&Pathway::parse("a3s://knowledge/docsx").unwrap()).unwrap());
    assert!(storage.contains(&Pathway::parse("a3s://memory/docs/api").unwrap()).unwrap());

    let found = storage.search_vector(&|_: &Vec<u32>| 1, None, 10, 0).unwrap();
    assert_eq!(
        sorted(texts(&found)),
        vec!["a3s://knowledge/docsx", "a3s://memory/docs/api"]
    );
}

#[test]
fn scenario_put_then_recursive_remove() {
    let mut storage = MemoryStorage::new(&index_config());
    storage.put(&leaf("a3s://knowledge/docs/api", "api", &[0.3, 0.4])).unwrap();
    storage
        .remove(&Pathway::parse("a3s://knowledge/docs").unwrap(), true)
        .unwrap();
    assert!(!storage
        .contains(&Pathway::parse("a3s://knowledge/docs/api").unwrap())
        .unwrap());
    assert!(storage
        .search_vector(&|_: &Vec<u32>| 1, None, 10, 0)
        .unwrap()
        .is_empty());
}

#[test]
fn plain_remove_takes_one_node_only() {
    let mut storage = MemoryStorage::new(&index_config());
    storage.put(&leaf("a3s://knowledge/docs", "docs", &[1.0])).unwrap();
    storage.put(&leaf("a3s://knowledge/docs/api", "api", &[1.0])).unwrap();
    storage
        .remove(&Pathway::parse("a3s://knowledge/docs").unwrap(), false)
        .unwrap();
    assert!(!storage.contains(&Pathway::parse("a3s://knowledge/docs").unwrap()).unwrap());
    assert!(storage
        .contains(&Pathway::parse("a3s://knowledge/docs/api").unwrap())
        .unwrap());
    let found = storage.search_vector(&|_: &Vec<u32>| 1, None, 10, 0).unwrap();
    assert_eq!(texts(&found), vec!["a3s://knowledge/docs/api"]);
    storage
        .remove(&Pathway::parse("a3s://knowledge/absent").unwrap(), false)
        .unwrap();
    assert_eq!(storage.stats().unwrap().total_nodes, 1);
}

#[test]
fn list_shows_direct_children_only() {
    let mut storage = MemoryStorage::new(&index_config());
    storage.put(&Node::directory(Pathway::parse("a3s://knowledge/docs").unwrap())).unwrap();
    storage.put(&Node::directory(Pathway::parse("a3s://knowledge/docs/sub").unwrap())).unwrap();
    storage.put(&leaf("a3s://knowledge/docs/a", "12345", &[])).unwrap();
    storage.put(&leaf("a3s://knowledge/docs/sub/b", "b", &[])).unwrap();
    storage.put(&leaf("a3s://memory/docs/c", "c", &[])).unwrap();

    let list = storage.list(&Pathway::parse("a3s://knowledge/docs").unwrap()).unwrap();
    let names = sorted(list.iter().map(|i| i.pathway.to_string()).collect());
    assert_eq!(names, vec!["a3s://knowledge/docs/a", "a3s://knowledge/docs/sub"]);
    for info in &list {
        if info.pathway.name() == Some("a") {
            assert_eq!(info.size, 5);
            assert!(!info.is_directory);
            assert_eq!(info.kind, NodeKind::Document);
        } else {
            assert!(info.is_directory);
            assert_eq!(info.kind, NodeKind::Directory);
            assert_eq!(info.size, 0);
        }
    }
    let roots = storage.list(&Pathway::root(Namespace::Knowledge)).unwrap();
    assert_eq!(roots.len(), 1);
    assert!(storage.list(&Pathway::root(Namespace::Session)).unwrap().is_empty());
}

#[test]
fn children_are_bounded_by_depth() {
    let mut storage = MemoryStorage::new(&index_config());
    for text in [
        "a3s://knowledge/d",
        "a3s://knowledge/d/1",
        "a3s://knowledge/d/1/2",
        "a3s://knowledge/d/1/2/3",
        "a3s://knowledge/e/1",
    ] {
        storage.put(&leaf(text, "c", &[])).unwrap();
    }
    let root = Pathway::parse("a3s://knowledge/d").unwrap();
    let names = |depth: usize, storage: &MemoryStorage| {
        sorted(
            storage
                .get_children(&root, depth)
                .unwrap()
                .iter()
                .map(|n| n.pathway.to_string())
                .collect(),
        )
    };
    assert!(names(0, &storage).is_empty());
    assert_eq!(names(1, &storage), vec!["a3s://knowledge/d/1"]);
    assert_eq!(names(2, &storage), vec!["a3s://knowledge/d/1", "a3s://knowledge/d/1/2"]);
    assert_eq!(names(9, &storage).len(), 3);
}

#[test]
fn text_search_is_literal_and_confined_to_the_subtree() {
    let mut storage = MemoryStorage::new(&index_config());
    storage.put(&leaf("a3s://knowledge/docs/a", "Hello World", &[])).unwrap();
    storage.put(&leaf("a3s://knowledge/docs/b", "hello there", &[])).unwrap();
    storage.put(&leaf("a3s://knowledge/other/c", "hello again", &[])).unwrap();
    storage.put(&leaf("a3s://knowledge/docs/d", "a.c", &[])).unwrap();
    let docs = Pathway::parse("a3s://knowledge/docs").unwrap();
    let find = |pattern: &str, fold: bool| {
        sorted(
            storage
                .search_text(pattern, &docs, fold)
                .unwrap()
                .iter()
                .map(|p| p.to_string())
                .collect(),
        )
    };
    assert_eq!(find("hello", false), vec!["a3s://knowledge/docs/b"]);
    assert_eq!(
        find("hello", true),
        vec!["a3s://knowledge/docs/a", "a3s://knowledge/docs/b"]
    );
    assert_eq!(
        find("HELLO", true),
        vec!["a3s://knowledge/docs/a", "a3s://knowledge/docs/b"]
    );
    assert!(find("HELLO", false).is_empty());
    assert_eq!(find("a.c", false), vec!["a3s://knowledge/docs/d"]);
    assert!(find("abc", false).is_empty());
    assert_eq!(find("", false).len(), 3);
}

#[test]
fn stats_count_nodes_directories_and_bytes() {
    let mut storage = MemoryStorage::new(&index_config());
    let empty = storage.stats().unwrap();
    assert_eq!(empty.total_nodes, 0);
    assert_eq!(empty.total_directories, 0);
    assert_eq!(empty.total_size_bytes, 0);
    storage.put(&Node::directory(Pathway::parse("a3s://knowledge/d").unwrap())).unwrap();
    storage.put(&leaf("a3s://knowledge/d/a", "12345", &[])).unwrap();
    storage.put(&leaf("a3s://knowledge/d/b", "\u{e9}", &[])).unwrap();
    let stats = storage.stats().unwrap();
    assert_eq!(stats.total_nodes, 3);
    assert_eq!(stats.total_directories, 1);
    assert_eq!(stats.total_size_bytes, 7);
    assert!(stats.namespaces.is_empty());
}

#[test]
fn updates_leave_the_other_parts_alone() {
    let mut storage = MemoryStorage::new(&index_config());
    let p = Pathway::parse("a3s://knowledge/x").unwrap();
    storage.put(&leaf("a3s://knowledge/x", "content", &[1.0])).unwrap();

    storage
        .update_digest(&p, Digest::with_content("b".to_string(), "s".to_string()))
        .unwrap();
    let node = storage.get(&p).unwrap();
    assert_eq!(node.digest.brief, "b");
    assert_eq!(node.digest.summary, "s");
    assert!(node.digest.is_generated());
    assert_eq!(node.content, "content");
    assert_eq!(node.embedding, bits(&[1.0]));

    storage.update_embedding(&p, bits(&[0.25])).unwrap();
    let node = storage.get(&p).unwrap();
    assert_eq!(node.embedding, bits(&[0.25]));
    assert_eq!(node.digest.brief, "b");
    assert_eq!(node.content, "content");
    let found = storage
        .search_vector(&|v: &Vec<u32>| v[0] as i64, None, 10, 0)
        .unwrap();
    assert_eq!(found[0].1, 0.25f32.to_bits() as i64);

    let absent = Pathway::parse("a3s://knowledge/absent").unwrap();
    storage.update_embedding(&absent, bits(&[1.0])).unwrap();
    storage.update_digest(&absent, Digest::new()).unwrap();
    assert!(!storage.contains(&absent).unwrap());
    assert_eq!(storage.search_vector(&|_: &Vec<u32>| 1, None, 10, 0).unwrap().len(), 1);
}

#[test]
fn batch_put_stores_every_node_in_order() {
    let mut storage = MemoryStorage::new(&index_config());
    let batch = vec![
        leaf("a3s://knowledge/a", "first", &[1.0]),
        leaf("a3s://knowledge/b", "b", &[]),
        leaf("a3s://knowledge/a", "second", &[0.5]),
    ];
    storage.put_batch(&batch).unwrap();
    assert_eq!(storage.stats().unwrap().total_nodes, 2);
    assert_eq!(
        storage.get(&Pathway::parse("a3s://knowledge/a").unwrap()).unwrap().content,
        "second"
    );
    storage.put_batch(&[]).unwrap();
    assert_eq!(storage.stats().unwrap().total_nodes, 2);
}

#[test]
fn scenario_nearest_of_three_nodes_is_the_top_match() {
    let mut storage = MemoryStorage::new(&index_config());
    storage.put(&leaf("a3s://knowledge/x", "x", &[1.0, 0.0, 0.0])).unwrap();
    storage.put(&leaf("a3s://knowledge/y", "y", &[0.0, 1.0, 0.0])).unwrap();
    storage.put(&leaf("a3s://knowledge/z", "z", &[0.6, 0.0, 0.8])).unwrap();
    let query = vec![1.0, 0.0, 0.0];
    let found = storage
        .search_vector(&scorer(query), None, 10, score(0.5))
        .unwrap();
    assert_eq!(found[0].0.to_string(), "a3s://knowledge/x");
    assert_eq!(found[0].1, score(1.0));
    assert!(found.iter().all(|(_, s)| *s >= score(0.5)));
    assert_eq!(texts(&found), vec!["a3s://knowledge/x", "a3s://knowledge/z"]);
}
