//! Ingestion: what is decided when a file becomes a node. Walking the
//! file system and reading files is left to the caller.

use vstd::prelude::*;
use vstd::string::*;

use crate::config::Config;
use crate::digest::{DigestGenerator, DigestView, LLMClient};
use crate::error::{A3SError, Result};
use crate::node::{Node, NodeKind, NodeView};
use crate::pathway::Pathway;
use crate::text::{
    chars_contain, chars_of, contains_text, decimal, decimal_text, str_equal, string_views,
};
use crate::IngestResult;

verus! {

/// The kind of node that a file of the extension `extension` becomes.
pub open spec fn kind_of_extension(extension: Seq<char>) -> NodeKind {
    if extension == "md"@ {
        NodeKind::Markdown
    } else if extension == "rs"@ || extension == "py"@ || extension == "js"@ || extension == "ts"@
        || extension == "go"@ || extension == "java"@ || extension == "c"@ || extension == "cpp"@
        || extension == "h"@ {
        NodeKind::Code
    } else {
        NodeKind::Document
    }
}

/// A path is passed over: one of the patterns occurs in it.
pub open spec fn ignored(path: Seq<char>, patterns: Seq<Seq<char>>) -> bool {
    exists|i: int| 0 <= i < patterns.len() && contains_text(path, #[trigger] patterns[i])
}

/// The text of an optional string; empty where there is none.
pub open spec fn text_or_empty(s: Option<String>) -> Seq<char> {
    match s {
        Some(t) => t@,
        None => Seq::empty(),
    }
}

/// A copy of an optional string; the empty string where there is none.
fn copy_or_empty(s: &Option<String>) -> (r: String)
    ensures
        r@ == text_or_empty(*s),
{
    match s {
        Some(t) => t.clone(),
        None => String::new(),
    }
}

/// Content processor: turns files into nodes.
pub struct Processor {
    digest_generator: DigestGenerator,
    config: Config,
}

impl Processor {
    /// A processor that works under `config`. It summarizes through the
    /// configured service where digests are wanted and a base address is
    /// given, else by the local fallback.
    pub fn new(config: &Config) -> (p: Processor)
        ensures
            p.uses_service() == (config.llm.auto_digest && config.llm.api_base.is_some()),
            p.auto_digest() == config.llm.auto_digest,
            p.max_file_size() == config.ingest.max_file_size,
            p.ignore_patterns() == string_views(config.ingest.ignore_patterns@),
    {
        let llm_client = if config.llm.auto_digest && config.llm.api_base.is_some() {
            Some(
                LLMClient::new(
                    copy_or_empty(&config.llm.api_base),
                    copy_or_empty(&config.llm.api_key),
                    copy_or_empty(&config.llm.model),
                ),
            )
        } else {
            None
        };
        Processor { digest_generator: DigestGenerator::new(llm_client), config: config.clone() }
    }

    /// Whether digests are made by the summarization service.
    pub closed spec fn uses_service(&self) -> bool {
        self.digest_generator.has_client()
    }

    /// Whether a digest is made on ingestion.
    pub closed spec fn auto_digest(&self) -> bool {
        self.config.llm.auto_digest
    }

    /// Largest file that is ingested, in bytes.
    pub closed spec fn max_file_size(&self) -> u64 {
        self.config.ingest.max_file_size
    }

    /// The path patterns that are passed over.
    pub closed spec fn ignore_patterns(&self) -> Seq<Seq<char>> {
        string_views(self.config.ingest.ignore_patterns@)
    }

    /// The maker of digests.
    pub fn digest_generator(&self) -> (r: &DigestGenerator)
        ensures
            r.has_client() == self.uses_service(),
    {
        &self.digest_generator
    }

    /// Whether a digest is to be made for an ingested node.
    pub fn wants_digest(&self) -> (r: bool)
        ensures
            r == self.auto_digest(),
    {
        self.config.llm.auto_digest
    }

    /// The kind of node that a file of the extension `extension` becomes:
    /// Markdown for `md`, code for the extensions of source files, a
    /// document for every other.
    pub fn detect_kind(&self, extension: &str) -> (r: NodeKind)
        ensures
            r == kind_of_extension(extension@),
    {
        if str_equal(extension, "md") {
            NodeKind::Markdown
        } else if str_equal(extension, "rs") || str_equal(extension, "py") || str_equal(
            extension,
            "js",
        ) || str_equal(extension, "ts") || str_equal(extension, "go") || str_equal(
            extension,
            "java",
        ) || str_equal(extension, "c") || str_equal(extension, "cpp") || str_equal(extension, "h") {
            NodeKind::Code
        } else {
            NodeKind::Document
        }
    }

    /// Whether `path` is passed over: one of the ignore patterns occurs
    /// in it as a substring.
    pub fn should_ignore(&self, path: &str) -> (r: bool)
        ensures
            r == ignored(path@, self.ignore_patterns()),
    {
        let text = chars_of(path);
        let patterns = &self.config.ingest.ignore_patterns;
        let mut i: usize = 0;
        while i < patterns.len()
            invariant
                i <= patterns.len(),
                text@ == path@,
                string_views(patterns@) == self.ignore_patterns(),
                forall|x: int|
                    0 <= x < i ==> !contains_text(path@, #[trigger] string_views(patterns@)[x]),
            decreases patterns.len() - i,
        {
            let pattern = chars_of(patterns[i].as_str());
            assert(string_views(patterns@)[i as int] == pattern@);
            if chars_contain(&text, &pattern) {
                return true;
            }
            i += 1;
        }
        false
    }

    /// Whether a file of `size` bytes is taken: an ingest error for one
    /// beyond the largest size.
    pub fn check_size(&self, size: u64) -> (r: Result<()>)
        ensures
            match r {
                Ok(_) => size <= self.max_file_size(),
                Err(e) => size > self.max_file_size() && e is Ingest && e.detail() == "File too large: "@
                    + decimal_text(size as nat) + " bytes"@,
            },
    {
        if size > self.config.ingest.max_file_size {
            let message = String::from_str("File too large: ").concat(decimal(size).as_str()).concat(
                " bytes",
            );
            Err(A3SError::Ingest(message))
        } else {
            Ok(())
        }
    }

    /// The node that a file becomes, and whether it is new. Where a node
    /// is stored at the pathway already it takes the new content, which
    /// resets its digest; else a fresh node is made.
    pub fn prepare(&self, existing: Option<Node>, pathway: &Pathway, kind: NodeKind, content: String) -> (r:
        (Node, bool))
        ensures
            r.1 == existing.is_none(),
            r.0@.content == content@,
            r.0@.digest == DigestView::ungenerated(),
            match existing {
                Some(old) => r.0@ == (NodeView {
                    content: content@,
                    digest: DigestView::ungenerated(),
                    updated_at: r.0@.updated_at,
                    ..old@
                }),
                None => r.0@.pathway == pathway@ && r.0@.kind == kind && !r.0@.is_directory
                    && r.0@.embedding.len() == 0 && r.0@.metadata == crate::node::MetadataView::empty()
                    && r.0@.relations.len() == 0 && r.0@.created_at == r.0@.updated_at,
            },
    {
        match existing {
            Some(mut node) => {
                node.update_content(content);
                (node, false)
            },
            None => (Node::new(pathway.clone(), kind, content), true),
        }
    }
}

impl IngestResult {
    /// The result of an ingestion into `pathway` before any file is
    /// taken.
    pub fn new(pathway: Pathway) -> (r: IngestResult)
        ensures
            r.pathway@ == pathway@,
            r.nodes_created == 0,
            r.nodes_updated == 0,
            r.errors@.len() == 0,
    {
        IngestResult { pathway, nodes_created: 0, nodes_updated: 0, errors: Vec::new() }
    }

    /// Records the outcome of one file: a node created, a node updated,
    /// or a failure, which is kept as `label: report`. A counter that has
    /// reached the greatest number stays there.
    pub fn record(&mut self, label: &str, outcome: Result<bool>)
        ensures
            final(self).pathway == old(self).pathway,
            match outcome {
                Ok(true) => final(self).nodes_created == bumped(old(self).nodes_created) && final(self).nodes_updated == old(self).nodes_updated && final(self).errors == old(self).errors,
                Ok(false) => final(self).nodes_updated == bumped(old(self).nodes_updated) && final(self).nodes_created == old(self).nodes_created && final(self).errors == old(self).errors,
                Err(e) => final(self).nodes_created == old(self).nodes_created && final(self).nodes_updated == old(self).nodes_updated && final(self).errors@.len() == old(self).errors@.len() + 1 && final(self).errors@.drop_last() == old(self).errors@
                    && final(self).errors@.last()@ == label@ + ": "@ + e.report(),
            },
    {
        match outcome {
            Ok(created) => {
                if created {
                    if self.nodes_created < usize::MAX {
                        self.nodes_created = self.nodes_created + 1;
                    }
                } else {
                    if self.nodes_updated < usize::MAX {
                        self.nodes_updated = self.nodes_updated + 1;
                    }
                }
            },
            Err(e) => {
                let line = String::from_str(label).concat(": ").concat(e.to_string().as_str());
                let ghost before = self.errors@;
                self.errors.push(line);
                assert(self.errors@.drop_last() == before);
            },
        }
    }
}

/// One more than `n`, or `n` where it is the greatest number.
pub open spec fn bumped(n: usize) -> usize {
    if n < usize::MAX {
        (n + 1) as usize
    } else {
        n
    }
}

} // verus!
