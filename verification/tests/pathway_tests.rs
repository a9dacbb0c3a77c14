use a3s_context::{A3SError, Namespace, Pathway};

#[test]
fn test_parse_pathway() {
    let p = Pathway::parse("a3s://knowledge/docs/api").unwrap();
    assert_eq!(p.namespace(), Namespace::Knowledge);
    assert_eq!(p.segments(), &["docs", "api"]);
    assert_eq!(p.name(), Some("api"));
}

#[test]
fn test_parse_pathway_without_protocol() {
    let p = Pathway::parse("knowledge/docs/api").unwrap();
    assert_eq!(p.namespace(), Namespace::Knowledge);
    assert_eq!(p.segments(), &["docs", "api"]);
}

#[test]
fn test_parse_pathway_root() {
    let p = Pathway::parse("a3s://knowledge").unwrap();
    assert_eq!(p.namespace(), Namespace::Knowledge);
    assert!(p.segments().is_empty());
    assert!(p.is_root());
}

#[test]
fn test_parse_invalid_pathway() {
    assert!(Pathway::parse("").is_err());
    assert!(Pathway::parse("a3s://").is_err());
    assert!(Pathway::parse("a3s://invalid_namespace").is_err());
}

#[test]
fn test_pathway_parent() {
    let p = Pathway::parse("a3s://knowledge/docs/api").unwrap();
    let parent = p.parent().unwrap();
    assert_eq!(parent.segments(), &["docs"]);

    let root = Pathway::parse("a3s://knowledge").unwrap();
    assert!(root.parent().is_none());
}

#[test]
fn test_pathway_join() {
    let p = Pathway::parse("a3s://knowledge/docs").unwrap();
    let child = p.join("api");
    assert_eq!(child.segments(), &["docs", "api"]);
}

#[test]
fn test_pathway_display() {
    let p = Pathway::parse("a3s://memory/user/prefs").unwrap();
    assert_eq!(p.to_string(), "a3s://memory/user/prefs");
}

#[test]
fn test_pathway_is_prefix_of() {
    let parent = Pathway::parse("a3s://knowledge/docs").unwrap();
    let child = Pathway::parse("a3s://knowledge/docs/api").unwrap();
    let other = Pathway::parse("a3s://memory/user").unwrap();

    assert!(parent.is_prefix_of(&child));
    assert!(!child.is_prefix_of(&parent));
    assert!(!parent.is_prefix_of(&other));
}

#[test]
fn test_pathway_depth() {
    let root = Pathway::parse("a3s://knowledge").unwrap();
    let level1 = Pathway::parse("a3s://knowledge/docs").unwrap();
    let level2 = Pathway::parse("a3s://knowledge/docs/api").unwrap();

    assert_eq!(root.depth(), 0);
    assert_eq!(level1.depth(), 1);
    assert_eq!(level2.depth(), 2);
}

#[test]
fn test_pathway_constructors() {
    let k = Pathway::knowledge("docs/api").unwrap();
    assert_eq!(k.namespace(), Namespace::Knowledge);
    assert_eq!(k.segments(), &["docs", "api"]);

    let m = Pathway::memory("user/prefs").unwrap();
    assert_eq!(m.namespace(), Namespace::Memory);

    let c = Pathway::capability("tools/search").unwrap();
    assert_eq!(c.namespace(), Namespace::Capability);
}

#[test]
fn test_pathway_root_constructor() {
    let root = Pathway::root(Namespace::Knowledge);
    assert_eq!(root.namespace(), Namespace::Knowledge);
    assert!(root.is_root());
    assert_eq!(root.depth(), 0);
}

#[test]
fn test_pathway_operations() {
    let p = Pathway::parse("a3s://knowledge/docs/api").unwrap();
    assert_eq!(p.namespace(), Namespace::Knowledge);
    assert_eq!(p.segments(), &["docs", "api"]);

    let parent = p.parent().unwrap();
    assert_eq!(parent.segments(), &["docs"]);

    let child = parent.join("test");
    assert_eq!(child.segments(), &["docs", "test"]);
}

#[test]
fn test_namespace_operations() {
    assert_eq!(Namespace::Knowledge.as_str(), "knowledge");
    assert_eq!(Namespace::parse("knowledge"), Some(Namespace::Knowledge));
    assert_eq!(Namespace::parse("invalid"), None);
}

fn message_of(r: Result<Pathway, A3SError>) -> String {
    match r {
        Ok(p) => panic!("parsed as {}", p.to_string()),
        Err(e) => e.to_string(),
    }
}

#[test]
fn parse_reports_each_failure() {
    assert_eq!(message_of(Pathway::parse("")), "Invalid pathway: Empty pathway");
    assert_eq!(message_of(Pathway::parse("   ")), "Invalid pathway: Empty pathway");
    assert_eq!(message_of(Pathway::parse("a3s://")), "Invalid pathway: Empty pathway");
    assert_eq!(message_of(Pathway::parse("/")), "Invalid pathway: Empty pathway");
    assert_eq!(message_of(Pathway::parse("//")), "Invalid pathway: No namespace specified");
    assert_eq!(
        message_of(Pathway::parse("a3s://nowhere/x")),
        "Invalid pathway: Invalid namespace: nowhere"
    );
    assert_eq!(
        message_of(Pathway::parse("knowledge/a\0b")),
        "Invalid pathway: Invalid segment: \"a\\0b\""
    );
}

#[test]
fn parse_rejects_null_byte_anywhere() {
    assert!(Pathway::parse("a3s://knowledge/docs/a\0").is_err());
    assert!(Pathway::parse("a3s://know\0ledge/docs").is_err());
    assert!(Pathway::parse("\0").is_err());
}

#[test]
fn parse_accepts_shorthand_forms() {
    let full = Pathway::parse("a3s://memory/user/prefs").unwrap();
    assert_eq!(Pathway::parse("/memory/user/prefs").unwrap(), full);
    assert_eq!(Pathway::parse("memory/user/prefs").unwrap(), full);
    assert_eq!(Pathway::parse("  a3s://memory/user/prefs \n").unwrap(), full);
    assert_eq!(Pathway::parse("a3s://memory//user///prefs/").unwrap(), full);
    assert_eq!(Pathway::parse("a3s://session").unwrap(), Pathway::root(Namespace::Session));
}

#[test]
fn parse_round_trips_through_text() {
    for text in [
        "a3s://knowledge",
        "a3s://knowledge/docs/api",
        "memory/a b/c",
        "/capability/tools/search",
        "session/\u{e9}t\u{e9}/x",
    ] {
        let p = Pathway::parse(text).unwrap();
        let again = Pathway::parse(&p.to_string()).unwrap();
        assert_eq!(again, p);
        assert_eq!(again.to_string(), p.to_string());
    }
}

#[test]
fn round_trip_needs_no_trailing_white_space() {
    let p = Pathway::parse("knowledge/x /").unwrap();
    assert_eq!(p.segments(), &["x "]);
    let again = Pathway::parse(&p.to_string()).unwrap();
    assert_eq!(again.segments(), &["x"]);
}

#[test]
fn prefix_is_reflexive_and_follows_parent() {
    let c = Pathway::parse("a3s://knowledge/a/b/c").unwrap();
    assert!(c.is_prefix_of(&c));
    let p = c.parent().unwrap();
    assert!(p.is_prefix_of(&c));
    assert!(!c.is_prefix_of(&p));
    assert!(p != c);
    assert!(Pathway::root(Namespace::Knowledge).is_prefix_of(&c));
    assert!(!Pathway::root(Namespace::Memory).is_prefix_of(&c));
    assert_eq!(p.join("c"), c);
}

#[test]
fn relative_form_drops_the_protocol() {
    let p = Pathway::parse("a3s://knowledge/docs/api").unwrap();
    assert_eq!(p.to_relative(), "knowledge/docs/api");
    assert_eq!(Pathway::root(Namespace::Capability).to_relative(), "capability");
    assert_eq!(Pathway::PROTOCOL, "a3s://");
}

#[test]
fn new_keeps_segments_as_given() {
    let p = Pathway::new(Namespace::Memory, vec!["a".to_string(), "b/c".to_string()]);
    assert_eq!(p.depth(), 2);
    assert_eq!(p.name(), Some("b/c"));
    assert_eq!(p.to_string(), "a3s://memory/a/b/c");
    assert_eq!(p.clone(), p);
}

#[test]
fn pathways_are_ordered_by_namespace_then_segments() {
    let texts = [
        "a3s://knowledge",
        "a3s://knowledge/a",
        "a3s://knowledge/a/b",
        "a3s://knowledge/a-b",
        "a3s://knowledge/b",
        "a3s://memory",
        "a3s://memory/a",
        "a3s://capability/zzz",
        "a3s://session/\u{e9}",
        "a3s://session/\u{e9}/x",
    ];
    let pathways: Vec<Pathway> = texts.iter().map(|t| Pathway::parse(t).unwrap()).collect();
    for (i, a) in pathways.iter().enumerate() {
        for (j, b) in pathways.iter().enumerate() {
            assert_eq!(a.precedes(b), i < j, "{} before {}", texts[i], texts[j]);
            assert_eq!(a.precedes(b), a < b);
        }
    }
}

#[test]
fn pathways_convert_from_text() {
    let p: Pathway = Pathway::try_from("a3s://knowledge/docs").unwrap();
    assert_eq!(p.segments(), &["docs"]);
    let q: Pathway = Pathway::try_from("knowledge/docs".to_string()).unwrap();
    assert_eq!(q, p);
    assert!(Pathway::try_from("nowhere/docs").is_err());
}
