//! The data model: namespaces, node kinds, nodes and what hangs off them.

use std::collections::HashMap;
use vstd::prelude::*;
use vstd::string::*;

use crate::digest::{Digest, DigestView};
use crate::pathway::{Pathway, PathwayView};
use crate::text::{copy_string_list, is_white_space, str_equal, string_views};

verus! {

/// Top-level partition of the address space.
#[derive(Debug, Clone, Copy, PartialEq, Eq, Structural, Hash, PartialOrd, Ord)]
pub enum Namespace {
    /// Knowledge base (documents, code, and the like).
    Knowledge,
    /// Agent and user memories.
    Memory,
    /// Agent capabilities and tools.
    Capability,
    /// Active sessions.
    Session,
}

/// Kind of content that a node holds.
#[derive(Debug, Clone, Copy, PartialEq, Eq, Structural)]
pub enum NodeKind {
    /// Directory node (container).
    Directory,
    /// Text document.
    Document,
    /// Source code.
    Code,
    /// Markdown content.
    Markdown,
    /// Memory entry.
    Memory,
    /// Capability definition.
    Capability,
    /// Session message.
    Message,
    /// Generic data.
    Data,
}

/// Kind of relation between two nodes.
#[derive(Debug, Clone, Copy, PartialEq, Eq, Structural)]
pub enum RelationKind {
    /// References another node.
    References,
    /// Derived from another node.
    DerivedFrom,
    /// Related to another node.
    RelatedTo,
    /// Depends on another node.
    DependsOn,
    /// Custom relation.
    Custom,
}

impl Namespace {
    /// The lower-case name under which a namespace is written.
    pub open spec fn text(self) -> Seq<char> {
        match self {
            Namespace::Knowledge => "knowledge"@,
            Namespace::Memory => "memory"@,
            Namespace::Capability => "capability"@,
            Namespace::Session => "session"@,
        }
    }

    /// Position in the order of namespaces: the order of declaration.
    pub open spec fn rank(self) -> int {
        match self {
            Namespace::Knowledge => 0,
            Namespace::Memory => 1,
            Namespace::Capability => 2,
            Namespace::Session => 3,
        }
    }

    /// The namespace that a name denotes, if any.
    pub open spec fn from_text(s: Seq<char>) -> Option<Namespace> {
        if s == "knowledge"@ {
            Some(Namespace::Knowledge)
        } else if s == "memory"@ {
            Some(Namespace::Memory)
        } else if s == "capability"@ {
            Some(Namespace::Capability)
        } else if s == "session"@ {
            Some(Namespace::Session)
        } else {
            None
        }
    }

    /// The name of this namespace.
    pub fn as_str(&self) -> (r: &'static str)
        ensures
            r@ == self.text(),
    {
        match self {
            Namespace::Knowledge => "knowledge",
            Namespace::Memory => "memory",
            Namespace::Capability => "capability",
            Namespace::Session => "session",
        }
    }

    /// The namespace named by `s`; `None` when `s` names none.
    pub fn parse(s: &str) -> (r: Option<Namespace>)
        ensures
            r == Namespace::from_text(s@),
    {
        if str_equal(s, "knowledge") {
            Some(Namespace::Knowledge)
        } else if str_equal(s, "memory") {
            Some(Namespace::Memory)
        } else if str_equal(s, "capability") {
            Some(Namespace::Capability)
        } else if str_equal(s, "session") {
            Some(Namespace::Session)
        } else {
            None
        }
    }

    /// Position of this namespace in the order of namespaces.
    pub fn index(&self) -> (r: u8)
        ensures
            r == self.rank(),
    {
        match self {
            Namespace::Knowledge => 0,
            Namespace::Memory => 1,
            Namespace::Capability => 2,
            Namespace::Session => 3,
        }
    }
}

/// A character that may stand inside a namespace name: neither a
/// separator, nor white space, nor the null character.
pub open spec fn plain_char(c: char) -> bool {
    c != '/' && c != '\0' && !is_white_space(c)
}

/// Every namespace name is non-empty, made of plain characters, and read
/// back as the namespace it names.
pub proof fn lemma_namespace_text(ns: Namespace)
    ensures
        ns.text().len() > 0,
        forall|i: int| 0 <= i < ns.text().len() ==> plain_char(#[trigger] ns.text()[i]),
        Namespace::from_text(ns.text()) == Some(ns),
{
    reveal_strlit("knowledge");
    reveal_strlit("memory");
    reveal_strlit("capability");
    reveal_strlit("session");
    assert("knowledge"@.len() == 9);
    assert("memory"@.len() == 6);
    assert("capability"@.len() == 10);
    assert("session"@.len() == 7);
}

/// `uuid::Uuid`: an opaque identifier, carried through and never read.
#[verifier::external_type_specification]
#[verifier::external_body]
pub struct ExUuid(uuid::Uuid);

/// `serde_json::Value`: a free-form value, carried through and never read.
#[verifier::external_type_specification]
#[verifier::external_body]
pub struct ExJsonValue(serde_json::Value);

/// A point in time: microseconds since the Unix epoch, in UTC.
pub type Timestamp = i64;

/// `uuid::Uuid::new_v4`: a random identifier. Nothing is claimed of it.
#[verifier::external_body]
pub(crate) fn fresh_id() -> (id: uuid::Uuid) {
    uuid::Uuid::new_v4()
}

/// `chrono::Utc::now` read through `DateTime::timestamp_micros`: the
/// current time. Nothing is claimed of it.
#[verifier::external_body]
pub(crate) fn now() -> (t: Timestamp) {
    chrono::Utc::now().timestamp_micros()
}

/// A copy of an embedding.
pub fn copy_embedding(v: &Vec<u32>) -> (out: Vec<u32>)
    ensures
        out@ == v@,
{
    let mut out: Vec<u32> = Vec::new();
    let mut i: usize = 0;
    while i < v.len()
        invariant
            i <= v.len(),
            out@ == v@.take(i as int),
        decreases v.len() - i,
    {
        out.push(v[i]);
        assert(v@.take(i + 1) == v@.take(i as int).push(v@[i as int]));
        i += 1;
    }
    assert(v@.take(v.len() as int) == v@);
    out
}

/// Where ingested content came from.
#[derive(Debug)]
pub struct SourceInfo {
    /// Original path or URL.
    pub origin: String,
    /// Content type.
    pub content_type: Option<String>,
    /// File size.
    pub size: u64,
    /// Hash of the original content.
    pub hash: String,
}

/// What a source record holds.
pub struct SourceInfoView {
    pub origin: Seq<char>,
    pub content_type: Option<Seq<char>>,
    pub size: u64,
    pub hash: Seq<char>,
}

impl View for SourceInfo {
    type V = SourceInfoView;

    open spec fn view(&self) -> SourceInfoView {
        SourceInfoView {
            origin: self.origin@,
            content_type: match self.content_type {
                Some(t) => Some(t@),
                None => None,
            },
            size: self.size,
            hash: self.hash@,
        }
    }
}

impl Clone for SourceInfo {
    fn clone(&self) -> (r: SourceInfo)
        ensures
            r@ == self@,
    {
        let content_type = match &self.content_type {
            Some(t) => Some(t.clone()),
            None => None,
        };
        SourceInfo {
            origin: self.origin.clone(),
            content_type,
            size: self.size,
            hash: self.hash.clone(),
        }
    }
}

/// Metadata associated with a node.
#[derive(Debug)]
pub struct Metadata {
    /// Custom key-value pairs.
    pub custom: HashMap<String, serde_json::Value>,
    /// Source information.
    pub source: Option<SourceInfo>,
    /// Access count.
    pub access_count: u64,
    /// Last accessed time.
    pub last_accessed: Option<Timestamp>,
    /// Tags.
    pub tags: Vec<String>,
}

/// What a metadata record holds.
pub struct MetadataView {
    pub custom: Map<String, serde_json::Value>,
    pub source: Option<SourceInfoView>,
    pub access_count: u64,
    pub last_accessed: Option<Timestamp>,
    pub tags: Seq<Seq<char>>,
}

impl MetadataView {
    /// The metadata of a fresh node: nothing recorded.
    pub open spec fn empty() -> MetadataView {
        MetadataView {
            custom: Map::empty(),
            source: None,
            access_count: 0,
            last_accessed: None,
            tags: Seq::empty(),
        }
    }
}

impl View for Metadata {
    type V = MetadataView;

    open spec fn view(&self) -> MetadataView {
        MetadataView {
            custom: self.custom@,
            source: match self.source {
                Some(s) => Some(s@),
                None => None,
            },
            access_count: self.access_count,
            last_accessed: self.last_accessed,
            tags: string_views(self.tags@),
        }
    }
}

impl Default for Metadata {
    fn default() -> (m: Metadata)
        ensures
            m@ == MetadataView::empty(),
    {
        let m = Metadata {
            custom: HashMap::new(),
            source: None,
            access_count: 0,
            last_accessed: None,
            tags: Vec::new(),
        };
        assert(string_views(m.tags@) == Seq::<Seq<char>>::empty());
        m
    }
}

impl Clone for Metadata {
    fn clone(&self) -> (r: Metadata)
        ensures
            r@ == self@,
    {
        let source = match &self.source {
            Some(s) => Some(s.clone()),
            None => None,
        };
        Metadata {
            custom: self.custom.clone(),
            source,
            access_count: self.access_count,
            last_accessed: self.last_accessed,
            tags: copy_string_list(&self.tags),
        }
    }
}

/// A typed link from a node to another pathway.
#[derive(Debug)]
pub struct Relation {
    /// Target pathway.
    pub target: Pathway,
    /// Type of relation.
    pub kind: RelationKind,
    /// Reason for the relation.
    pub reason: String,
    /// When the relation was created.
    pub created_at: Timestamp,
}

/// What a relation holds.
pub struct RelationView {
    pub target: PathwayView,
    pub kind: RelationKind,
    pub reason: Seq<char>,
    pub created_at: Timestamp,
}

impl View for Relation {
    type V = RelationView;

    open spec fn view(&self) -> RelationView {
        RelationView {
            target: self.target@,
            kind: self.kind,
            reason: self.reason@,
            created_at: self.created_at,
        }
    }
}

impl Clone for Relation {
    fn clone(&self) -> (r: Relation)
        ensures
            r@ == self@,
    {
        Relation {
            target: self.target.clone(),
            kind: self.kind,
            reason: self.reason.clone(),
            created_at: self.created_at,
        }
    }
}

/// What each relation of `v` holds.
pub open spec fn relation_views(v: Seq<Relation>) -> Seq<RelationView> {
    Seq::new(v.len(), |i: int| v[i]@)
}

/// A stored, addressable content item or directory marker.
#[derive(Debug)]
pub struct Node {
    /// Unique identifier.
    pub id: uuid::Uuid,
    /// Full pathway to this node.
    pub pathway: Pathway,
    /// Type of node.
    pub kind: NodeKind,
    /// Whether this is a directory.
    pub is_directory: bool,
    /// Layered summary.
    pub digest: Digest,
    /// Full content; empty for directories.
    pub content: String,
    /// Embedding vector: the bit pattern of each single-precision
    /// component. Empty while the node is not embedded.
    pub embedding: Vec<u32>,
    /// Metadata.
    pub metadata: Metadata,
    /// Creation time.
    pub created_at: Timestamp,
    /// Time of the last update.
    pub updated_at: Timestamp,
    /// Links to other pathways.
    pub relations: Vec<Relation>,
}

/// What a node holds.
pub struct NodeView {
    pub id: uuid::Uuid,
    pub pathway: PathwayView,
    pub kind: NodeKind,
    pub is_directory: bool,
    pub digest: DigestView,
    pub content: Seq<char>,
    pub embedding: Seq<u32>,
    pub metadata: MetadataView,
    pub created_at: Timestamp,
    pub updated_at: Timestamp,
    pub relations: Seq<RelationView>,
}

impl View for Node {
    type V = NodeView;

    open spec fn view(&self) -> NodeView {
        NodeView {
            id: self.id,
            pathway: self.pathway@,
            kind: self.kind,
            is_directory: self.is_directory,
            digest: self.digest@,
            content: self.content@,
            embedding: self.embedding@,
            metadata: self.metadata@,
            created_at: self.created_at,
            updated_at: self.updated_at,
            relations: relation_views(self.relations@),
        }
    }
}

impl NodeView {
    /// Whether the node carries an embedding.
    pub open spec fn is_embedded(self) -> bool {
        self.embedding.len() > 0
    }

    /// Number of bytes of the content in UTF-8.
    pub open spec fn size(self) -> nat {
        vstd::utf8::encode_utf8(self.content).len()
    }

    /// The text under which the node is stored.
    pub open spec fn key(self) -> Seq<char> {
        self.pathway.text()
    }
}

impl Clone for Node {
    fn clone(&self) -> (r: Node)
        ensures
            r@ == self@,
    {
        let mut relations: Vec<Relation> = Vec::new();
        let mut i: usize = 0;
        while i < self.relations.len()
            invariant
                i <= self.relations.len(),
                relations.len() == i,
                forall|k: int| 0 <= k < i ==> (#[trigger] relations@[k])@ == self.relations@[k]@,
            decreases self.relations.len() - i,
        {
            relations.push(self.relations[i].clone());
            i += 1;
        }
        assert(relation_views(relations@) =~= relation_views(self.relations@));
        Node {
            id: self.id,
            pathway: self.pathway.clone(),
            kind: self.kind,
            is_directory: self.is_directory,
            digest: self.digest.clone(),
            content: self.content.clone(),
            embedding: copy_embedding(&self.embedding),
            metadata: self.metadata.clone(),
            created_at: self.created_at,
            updated_at: self.updated_at,
            relations,
        }
    }
}

impl Node {
    /// A fresh node for `content` at `pathway`: no digest, no embedding,
    /// no metadata, no relations.
    pub fn new(pathway: Pathway, kind: NodeKind, content: String) -> (node: Node)
        ensures
            node@.pathway == pathway@,
            node@.kind == kind,
            node@.content == content@,
            !node@.is_directory,
            node@.digest == DigestView::ungenerated(),
            node@.embedding.len() == 0,
            node@.metadata == MetadataView::empty(),
            node@.relations.len() == 0,
            node@.created_at == node@.updated_at,
    {
        let at = now();
        Node {
            id: fresh_id(),
            pathway,
            kind,
            is_directory: false,
            digest: Digest::default(),
            content,
            embedding: Vec::new(),
            metadata: Metadata::default(),
            created_at: at,
            updated_at: at,
            relations: Vec::new(),
        }
    }

    /// A directory marker at `pathway`: a node without content.
    pub fn directory(pathway: Pathway) -> (node: Node)
        ensures
            node@.pathway == pathway@,
            node@.kind == NodeKind::Directory,
            node@.content.len() == 0,
            node@.is_directory,
            node@.digest == DigestView::ungenerated(),
            node@.embedding.len() == 0,
            node@.metadata == MetadataView::empty(),
            node@.relations.len() == 0,
            node@.created_at == node@.updated_at,
    {
        let at = now();
        Node {
            id: fresh_id(),
            pathway,
            kind: NodeKind::Directory,
            is_directory: true,
            digest: Digest::default(),
            content: String::new(),
            embedding: Vec::new(),
            metadata: Metadata::default(),
            created_at: at,
            updated_at: at,
            relations: Vec::new(),
        }
    }

    /// The namespace of this node.
    pub fn namespace(&self) -> (r: Namespace)
        ensures
            r == self@.pathway.namespace,
    {
        self.pathway.namespace()
    }

    /// Size of the content in bytes.
    pub fn size(&self) -> (r: u64)
        ensures
            r == self@.size(),
    {
        self.content.as_str().as_bytes().len() as u64
    }

    /// Whether this node has been embedded.
    pub fn is_embedded(&self) -> (r: bool)
        ensures
            r == self@.is_embedded(),
    {
        self.embedding.len() > 0
    }

    /// Replaces the content. The digest goes back to ungenerated and the
    /// update time is read anew; everything else stays.
    pub fn update_content(&mut self, content: String)
        ensures
            final(self)@ == (NodeView {
                content: content@,
                digest: DigestView::ungenerated(),
                updated_at: final(self)@.updated_at,
                ..old(self)@
            }),
    {
        self.content = content;
        self.updated_at = now();
        self.digest = Digest::default();
    }

    /// Appends a relation to `target`, stamped with the current time.
    pub fn add_relation(&mut self, target: Pathway, kind: RelationKind, reason: String)
        ensures
            final(self)@.relations.len() == old(self)@.relations.len() + 1,
            final(self)@.relations.drop_last() == old(self)@.relations,
            final(self)@.relations.last().target == target@,
            final(self)@.relations.last().kind == kind,
            final(self)@.relations.last().reason == reason@,
            final(self)@ == (NodeView { relations: final(self)@.relations, ..old(self)@ }),
    {
        let ghost before = relation_views(self.relations@);
        let relation = Relation { target, kind, reason, created_at: now() };
        self.relations.push(relation);
        assert(relation_views(self.relations@).drop_last() == before);
    }
}

} // verus!
