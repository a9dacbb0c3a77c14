use a3s_context::node::{Metadata, RelationKind};
use a3s_context::{A3SError, Namespace, Node, NodeKind, Pathway};

#[test]
fn test_namespace_as_str() {
    assert_eq!(Namespace::Knowledge.as_str(), "knowledge");
    assert_eq!(Namespace::Memory.as_str(), "memory");
    assert_eq!(Namespace::Capability.as_str(), "capability");
    assert_eq!(Namespace::Session.as_str(), "session");
}

#[test]
fn test_namespace_from_str() {
    assert_eq!(Namespace::parse("knowledge"), Some(Namespace::Knowledge));
    assert_eq!(Namespace::parse("memory"), Some(Namespace::Memory));
    assert_eq!(Namespace::parse("capability"), Some(Namespace::Capability));
    assert_eq!(Namespace::parse("session"), Some(Namespace::Session));
    assert_eq!(Namespace::parse("invalid"), None);
}

#[test]
fn test_node_new() {
    let pathway = Pathway::parse("a3s://knowledge/docs/test").unwrap();
    let node = Node::new(pathway.clone(), NodeKind::Document, "Test content".to_string());

    assert_eq!(node.pathway, pathway);
    assert_eq!(node.kind, NodeKind::Document);
    assert_eq!(node.content, "Test content");
    assert!(!node.is_directory);
    assert!(!node.is_embedded());
}

#[test]
fn test_node_directory() {
    let pathway = Pathway::parse("a3s://knowledge/docs").unwrap();
    let node = Node::directory(pathway.clone());

    assert_eq!(node.pathway, pathway);
    assert_eq!(node.kind, NodeKind::Directory);
    assert!(node.is_directory);
    assert!(node.content.is_empty());
}

#[test]
fn test_node_namespace() {
    let pathway = Pathway::parse("a3s://memory/user/prefs").unwrap();
    let node = Node::new(pathway, NodeKind::Memory, "prefs".to_string());

    assert_eq!(node.namespace(), Namespace::Memory);
}

#[test]
fn test_node_size() {
    let pathway = Pathway::parse("a3s://knowledge/test").unwrap();
    let node = Node::new(pathway, NodeKind::Document, "Hello".to_string());

    assert_eq!(node.size(), 5);
}

#[test]
fn test_node_is_embedded() {
    let pathway = Pathway::parse("a3s://knowledge/test").unwrap();
    let mut node = Node::new(pathway, NodeKind::Document, "Test".to_string());

    assert!(!node.is_embedded());

    node.embedding = vec![0.1f32.to_bits(), 0.2f32.to_bits(), 0.3f32.to_bits()];
    assert!(node.is_embedded());
}

#[test]
fn test_node_update_content() {
    let pathway = Pathway::parse("a3s://knowledge/test").unwrap();
    let mut node = Node::new(pathway, NodeKind::Document, "Old content".to_string());
    let original_updated = node.updated_at;

    let mut spin = 0u64;
    while node.updated_at <= original_updated && spin < 50_000_000 {
        node.update_content("New content".to_string());
        spin += 1;
    }

    assert_eq!(node.content, "New content");
    assert!(node.updated_at > original_updated);
}

#[test]
fn test_node_add_relation() {
    let pathway = Pathway::parse("a3s://knowledge/test").unwrap();
    let target = Pathway::parse("a3s://knowledge/related").unwrap();
    let mut node = Node::new(pathway, NodeKind::Document, "Test".to_string());

    assert!(node.relations.is_empty());

    node.add_relation(target.clone(), RelationKind::References, "Test relation".to_string());

    assert_eq!(node.relations.len(), 1);
    assert_eq!(node.relations[0].target, target);
    assert_eq!(node.relations[0].kind, RelationKind::References);
    assert_eq!(node.relations[0].reason, "Test relation");
}

#[test]
fn test_metadata_default() {
    let metadata = Metadata::default();

    assert!(metadata.custom.is_empty());
    assert!(metadata.source.is_none());
    assert_eq!(metadata.access_count, 0);
    assert!(metadata.last_accessed.is_none());
    assert!(metadata.tags.is_empty());
}

#[test]
fn update_content_resets_digest_and_keeps_the_rest() {
    let pathway = Pathway::parse("a3s://knowledge/test").unwrap();
    let mut node = Node::new(pathway.clone(), NodeKind::Code, "old".to_string());
    node.digest = a3s_context::digest::Digest::with_content("b".to_string(), "s".to_string());
    node.embedding = vec![1, 2, 3];
    node.metadata.tags.push("t".to_string());
    let id = node.id;
    let created = node.created_at;

    node.update_content("new".to_string());

    assert_eq!(node.content, "new");
    assert!(!node.digest.is_generated());
    assert!(node.digest.brief.is_empty());
    assert!(node.digest.summary.is_empty());
    assert_eq!(node.embedding, vec![1, 2, 3]);
    assert_eq!(node.metadata.tags, vec!["t".to_string()]);
    assert_eq!(node.id, id);
    assert_eq!(node.created_at, created);
    assert_eq!(node.pathway, pathway);
    assert_eq!(node.kind, NodeKind::Code);
}

#[test]
fn clone_copies_every_field() {
    let pathway = Pathway::parse("a3s://memory/a/b").unwrap();
    let mut node = Node::new(pathway, NodeKind::Memory, "content".to_string());
    node.embedding = vec![7, 8];
    node.metadata.access_count = 4;
    node.metadata.last_accessed = Some(12);
    node.metadata.tags.push("x".to_string());
    node.metadata
        .custom
        .insert("k".to_string(), serde_json::Value::Bool(true));
    node.add_relation(
        Pathway::root(Namespace::Memory),
        RelationKind::DependsOn,
        "why".to_string(),
    );
    let copy = node.clone();
    assert_eq!(copy.id, node.id);
    assert_eq!(copy.pathway, node.pathway);
    assert_eq!(copy.kind, node.kind);
    assert_eq!(copy.content, node.content);
    assert_eq!(copy.embedding, node.embedding);
    assert_eq!(copy.metadata.access_count, 4);
    assert_eq!(copy.metadata.last_accessed, Some(12));
    assert_eq!(copy.metadata.tags, node.metadata.tags);
    assert_eq!(copy.metadata.custom, node.metadata.custom);
    assert_eq!(copy.created_at, node.created_at);
    assert_eq!(copy.updated_at, node.updated_at);
    assert_eq!(copy.relations.len(), 1);
    assert_eq!(copy.relations[0].target, node.relations[0].target);
    assert_eq!(copy.relations[0].reason, "why");
    assert_eq!(copy.relations[0].created_at, node.relations[0].created_at);
}

#[test]
fn fresh_nodes_get_distinct_ids() {
    let a = Node::new(Pathway::root(Namespace::Knowledge), NodeKind::Data, String::new());
    let b = Node::directory(Pathway::root(Namespace::Knowledge));
    assert!(a.id != b.id);
    assert_eq!(a.created_at, a.updated_at);
    assert!(a.created_at > 1_600_000_000_000_000);
}

#[test]
fn size_counts_bytes_not_characters() {
    let node = Node::new(
        Pathway::root(Namespace::Knowledge),
        NodeKind::Document,
        "\u{e9}t\u{e9}".to_string(),
    );
    assert_eq!(node.size(), 5);
}

#[test]
fn test_error_display() {
    let err = A3SError::InvalidPathway("test".to_string());
    assert_eq!(err.to_string(), "Invalid pathway: test");

    let err = A3SError::NodeNotFound("a3s://knowledge/test".to_string());
    assert_eq!(err.to_string(), "Node not found: a3s://knowledge/test");

    let err = A3SError::NotInitialized;
    assert_eq!(err.to_string(), "Not initialized");
}

#[test]
fn test_error_from_string() {
    let err: A3SError = "test error".into();
    assert!(matches!(err, A3SError::Internal(_)));
    assert_eq!(err.to_string(), "Internal error: test error");
}

#[test]
fn test_error_from_owned_string() {
    let err: A3SError = String::from("owned error").into();
    assert!(matches!(err, A3SError::Internal(_)));
    assert_eq!(err.to_string(), "Internal error: owned error");
}

#[test]
fn test_error_variants() {
    let _ = A3SError::InvalidPathway("test".to_string());
    let _ = A3SError::NodeNotFound("test".to_string());
    let _ = A3SError::DirectoryNotEmpty("test".to_string());
    let _ = A3SError::AlreadyExists("test".to_string());
    let _ = A3SError::Storage("test".to_string());
    let _ = A3SError::Embedding("test".to_string());
    let _ = A3SError::DigestGeneration("test".to_string());
    let _ = A3SError::Ingest("test".to_string());
    let _ = A3SError::Retrieval("test".to_string());
    let _ = A3SError::Session("test".to_string());
    let _ = A3SError::Config("test".to_string());
    let _ = A3SError::NotInitialized;
    let _ = A3SError::Internal("test".to_string());
}

fn returns_ok() -> a3s_context::Result<i32> {
    Ok(42)
}

fn returns_err() -> a3s_context::Result<i32> {
    Err(A3SError::Internal("test".to_string()))
}

#[test]
fn test_result_type() {
    assert!(returns_ok().is_ok());
    assert!(returns_err().is_err());
}

#[test]
fn every_error_variant_has_its_heading() {
    let s = || "x".to_string();
    assert_eq!(A3SError::DirectoryNotEmpty(s()).to_string(), "Directory not empty: x");
    assert_eq!(A3SError::AlreadyExists(s()).to_string(), "Already exists: x");
    assert_eq!(A3SError::Storage(s()).to_string(), "Storage error: x");
    assert_eq!(A3SError::Embedding(s()).to_string(), "Embedding error: x");
    assert_eq!(A3SError::DigestGeneration(s()).to_string(), "Digest generation error: x");
    assert_eq!(A3SError::Ingest(s()).to_string(), "Ingest error: x");
    assert_eq!(A3SError::Retrieval(s()).to_string(), "Retrieval error: x");
    assert_eq!(A3SError::Session(s()).to_string(), "Session error: x");
    assert_eq!(A3SError::Config(s()).to_string(), "Configuration error: x");
    assert_eq!(A3SError::Internal(s()).to_string(), "Internal error: x");
}
