//! Hierarchically addressed context store with similarity-ranked retrieval.
//!
//! Nodes are addressed by pathways (`a3s://namespace/seg/seg`), kept in a
//! storage backend beside a similarity index, and found again by
//! hierarchical search: a flat search over the index, widened by the
//! directories around its hits.

pub mod config;
pub mod digest;
pub mod embedding;
pub mod error;
pub mod ingest;
pub mod node;
pub mod pathway;
pub mod pathway_laws;
pub mod pathway_order;
pub mod ranking;
pub mod rerank;
pub mod retrieval;
pub mod retrieval_laws;
pub mod session;
pub mod storage;
pub mod text;

pub use crate::config::Config;
pub use crate::error::{A3SError, Result};
pub use crate::node::{Namespace, Node, NodeKind};
pub use crate::pathway::Pathway;

use crate::node::{NodeView, Timestamp};
use crate::text::{copy_string_list, string_views};
use crate::pathway::PathwayView;
use crate::ranking::Score;
use vstd::prelude::*;

verus! {

/// Result of an ingest operation.
#[derive(Debug, Clone)]
pub struct IngestResult {
    pub pathway: Pathway,
    pub nodes_created: usize,
    pub nodes_updated: usize,
    pub errors: Vec<String>,
}

/// Options for query operations.
#[derive(Debug, Clone)]
pub struct QueryOptions {
    pub namespace: Option<Namespace>,
    pub limit: Option<usize>,
    pub threshold: Option<Score>,
    pub include_content: bool,
    pub pathway_filter: Option<String>,
}

impl Default for QueryOptions {
    fn default() -> (o: QueryOptions)
        ensures
            o.namespace.is_none(),
            o.limit.is_none(),
            o.threshold.is_none(),
            !o.include_content,
            o.pathway_filter.is_none(),
    {
        QueryOptions {
            namespace: None,
            limit: None,
            threshold: None,
            include_content: false,
            pathway_filter: None,
        }
    }
}

/// A matched node from a query.
#[derive(Debug)]
pub struct MatchedNode {
    pub pathway: Pathway,
    pub node_kind: NodeKind,
    pub score: Score,
    pub brief: String,
    pub summary: Option<String>,
    pub content: Option<String>,
    pub highlights: Vec<String>,
}

/// What a match holds.
pub struct MatchedNodeView {
    pub pathway: PathwayView,
    pub node_kind: NodeKind,
    pub score: Score,
    pub brief: Seq<char>,
    pub summary: Option<Seq<char>>,
    pub content: Option<Seq<char>>,
    pub highlights: Seq<Seq<char>>,
}

impl View for MatchedNode {
    type V = MatchedNodeView;

    open spec fn view(&self) -> MatchedNodeView {
        MatchedNodeView {
            pathway: self.pathway@,
            node_kind: self.node_kind,
            score: self.score,
            brief: self.brief@,
            summary: match self.summary {
                Some(s) => Some(s@),
                None => None,
            },
            content: match self.content {
                Some(s) => Some(s@),
                None => None,
            },
            highlights: string_views(self.highlights@),
        }
    }
}

impl MatchedNodeView {
    /// The match that a node gives at a score: its pathway, kind and
    /// digest, without content or highlights.
    pub open spec fn of(pathway: PathwayView, node: NodeView, score: Score) -> MatchedNodeView {
        MatchedNodeView {
            pathway,
            node_kind: node.kind,
            score,
            brief: node.digest.brief,
            summary: Some(node.digest.summary),
            content: None,
            highlights: Seq::empty(),
        }
    }
}

impl Clone for MatchedNode {
    fn clone(&self) -> (r: MatchedNode)
        ensures
            r@ == self@,
    {
        let summary = match &self.summary {
            Some(s) => Some(s.clone()),
            None => None,
        };
        let content = match &self.content {
            Some(s) => Some(s.clone()),
            None => None,
        };
        MatchedNode {
            pathway: self.pathway.clone(),
            node_kind: self.node_kind,
            score: self.score,
            brief: self.brief.clone(),
            summary,
            content,
            highlights: copy_string_list(&self.highlights),
        }
    }
}

/// What each match of `v` holds.
pub open spec fn match_views(v: Seq<MatchedNode>) -> Seq<MatchedNodeView> {
    Seq::new(v.len(), |i: int| v[i]@)
}

/// Result of a query operation.
#[derive(Debug, Clone)]
pub struct QueryResult {
    pub matches: Vec<MatchedNode>,
    pub total_searched: usize,
    pub query_embedding_time_ms: u64,
    pub search_time_ms: u64,
}

/// Basic node information for listing.
#[derive(Debug, Clone)]
pub struct NodeInfo {
    pub pathway: Pathway,
    pub kind: NodeKind,
    pub is_directory: bool,
    pub size: u64,
    pub created_at: Timestamp,
    pub updated_at: Timestamp,
}

/// What a listing entry holds.
pub struct NodeInfoView {
    pub pathway: PathwayView,
    pub kind: NodeKind,
    pub is_directory: bool,
    pub size: u64,
    pub created_at: Timestamp,
    pub updated_at: Timestamp,
}

impl View for NodeInfo {
    type V = NodeInfoView;

    open spec fn view(&self) -> NodeInfoView {
        NodeInfoView {
            pathway: self.pathway@,
            kind: self.kind,
            is_directory: self.is_directory,
            size: self.size,
            created_at: self.created_at,
            updated_at: self.updated_at,
        }
    }
}

impl NodeInfoView {
    /// The listing entry of a node.
    pub open spec fn of(node: NodeView) -> NodeInfoView {
        NodeInfoView {
            pathway: node.pathway,
            kind: node.kind,
            is_directory: node.is_directory,
            size: node.size() as u64,
            created_at: node.created_at,
            updated_at: node.updated_at,
        }
    }
}

/// Statistics for a single namespace.
#[derive(Debug, Clone)]
pub struct NamespaceStats {
    pub namespace: Namespace,
    pub node_count: u64,
    pub size_bytes: u64,
}

/// Storage statistics.
#[derive(Debug, Clone)]
pub struct StorageStats {
    pub total_nodes: u64,
    pub total_directories: u64,
    pub total_size_bytes: u64,
    pub namespaces: Vec<NamespaceStats>,
}

impl Default for StorageStats {
    fn default() -> (s: StorageStats)
        ensures
            s.total_nodes == 0,
            s.total_directories == 0,
            s.total_size_bytes == 0,
            s.namespaces@.len() == 0,
    {
        StorageStats {
            total_nodes: 0,
            total_directories: 0,
            total_size_bytes: 0,
            namespaces: Vec::new(),
        }
    }
}

} // verus!
