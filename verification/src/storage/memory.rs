//! The in-memory storage backend: a map of nodes beside a similarity
//! index.

use dashmap::DashMap;
use vstd::prelude::*;
use vstd::string::*;

use crate::config::VectorIndexConfig;
use crate::digest::Digest;
use crate::error::{A3SError, Result};
use crate::node::{Namespace, Node, NodeView};
use crate::pathway::{Pathway, PathwayView};
use crate::ranking::Score;
use crate::storage::maps::{
    entry_keys, lists_nodes, no_nodes, no_vectors, node_entries, nodes_contains, nodes_get,
    nodes_insert, nodes_len, nodes_list, nodes_new, nodes_remove,
};
use crate::storage::select::{pick, picked_has};
use crate::storage::vector_index::{search_outcome, VectorIndex};
use crate::text::{chars_contain, chars_of, contains_text, lowercase, lowercase_text};
use crate::{NodeInfo, NodeInfoView, StorageStats};

verus! {

/// In-memory storage backend.
pub struct MemoryStorage {
    nodes: DashMap<String, Node>,
    vector_index: VectorIndex,
}

/// The index agrees with the node store: every node lies under the text
/// of its pathway, every vector belongs to a stored node, and every
/// embedded node has its embedding in the index.
pub open spec fn consistent(
    nodes: Map<Seq<char>, NodeView>,
    vectors: Map<Seq<char>, Seq<u32>>,
) -> bool {
    &&& forall|k: Seq<char>| nodes.contains_key(k) ==> (#[trigger] nodes[k]).key() == k
    &&& forall|k: Seq<char>| #[trigger] vectors.contains_key(k) ==> nodes.contains_key(k)
    &&& forall|k: Seq<char>|
        nodes.contains_key(k) && (#[trigger] nodes[k]).is_embedded() ==> vectors.contains_key(k)
            && vectors[k] == nodes[k].embedding
}

/// `keys` lists, once each, the keys of the nodes of which `keep` holds.
pub open spec fn selects(
    content: Map<Seq<char>, NodeView>,
    keep: spec_fn(NodeView) -> bool,
    keys: Seq<Seq<char>>,
) -> bool {
    &&& forall|i: int|
        0 <= i < keys.len() ==> content.contains_key(#[trigger] keys[i]) && keep(content[keys[i]])
    &&& forall|i: int, j: int| 0 <= i < j < keys.len() ==> #[trigger] keys[i] != #[trigger] keys[j]
    &&& forall|k: Seq<char>| content.contains_key(k) && keep(#[trigger] content[k]) ==> keys.contains(k)
}

/// The nodes under `keys`, in the order of the keys.
pub open spec fn selected(content: Map<Seq<char>, NodeView>, keys: Seq<Seq<char>>) -> Seq<NodeView> {
    Seq::new(keys.len(), |i: int| content[keys[i]])
}

/// What each node of `v` holds.
pub open spec fn node_views(v: Seq<Node>) -> Seq<NodeView> {
    Seq::new(v.len(), |i: int| v[i]@)
}

/// What each listing entry of `v` holds.
pub open spec fn info_views(v: Seq<NodeInfo>) -> Seq<NodeInfoView> {
    Seq::new(v.len(), |i: int| v[i]@)
}

/// What each pathway of `v` holds.
pub open spec fn pathway_views(v: Seq<Pathway>) -> Seq<PathwayView> {
    Seq::new(v.len(), |i: int| v[i]@)
}

/// The keys at the picked places of a list of entries.
pub open spec fn picked_keys(entries: Seq<(String, Node)>, picked: Seq<usize>) -> Seq<Seq<char>> {
    Seq::new(picked.len(), |x: int| entries[picked[x] as int].0@)
}

/// Picking the flagged places of a complete list selects the nodes that
/// the flags stand for.
proof fn lemma_selects(
    content: Map<Seq<char>, NodeView>,
    entries: Seq<(String, Node)>,
    flags: Seq<bool>,
    picked: Seq<usize>,
    keep: spec_fn(NodeView) -> bool,
)
    requires
        lists_nodes(entries, content),
        flags.len() == entries.len(),
        forall|idx: int| 0 <= idx < entries.len() ==> #[trigger] flags[idx] == keep(entries[idx].1@),
        forall|x: int|
            0 <= x < picked.len() ==> (#[trigger] picked[x]) < flags.len() && flags[picked[x] as int],
        forall|x: int, y: int|
            0 <= x < y < picked.len() ==> (#[trigger] picked[x]) < (#[trigger] picked[y]),
        forall|idx: int| 0 <= idx < flags.len() && #[trigger] flags[idx] ==> picked_has(picked, idx),
    ensures
        selects(content, keep, picked_keys(entries, picked)),
        forall|x: int|
            0 <= x < picked.len() ==> #[trigger] selected(content, picked_keys(entries, picked))[x]
                == entries[picked[x] as int].1@,
{
    let keys = picked_keys(entries, picked);
    assert forall|i: int| 0 <= i < keys.len() implies content.contains_key(#[trigger] keys[i])
        && keep(content[keys[i]]) by {
        let idx = picked[i] as int;
        assert(flags[idx]);
        assert(content.contains_key(entries[idx].0@));
    }
    assert forall|i: int, j: int| 0 <= i < j < keys.len() implies #[trigger] keys[i] != #[trigger] keys[j] by {
        let a = picked[i] as int;
        let b = picked[j] as int;
        assert(a < b);
        assert(entries[a].0@ != entries[b].0@);
    }
    assert forall|k: Seq<char>| content.contains_key(k) && keep(#[trigger] content[k]) implies keys.contains(
        k,
    ) by {
        assert(entry_keys(entries).contains(k));
        let idx = choose|idx: int| 0 <= idx < entry_keys(entries).len() && entry_keys(entries)[idx] == k;
        assert(entries[idx].0@ == k);
        assert(content[entries[idx].0@] == entries[idx].1@);
        assert(flags[idx]);
        assert(picked_has(picked, idx));
        let x = choose|x: int| 0 <= x < picked.len() && #[trigger] picked[x] == idx;
        assert(keys[x] == k);
    }
    assert forall|x: int| 0 <= x < picked.len() implies #[trigger] selected(content, keys)[x]
        == entries[picked[x] as int].1@ by {
        let idx = picked[x] as int;
        assert(content[entries[idx].0@] == entries[idx].1@);
    }
}

/// The nodes that a listing of `parent` shows: its direct children.
pub open spec fn child_of(parent: PathwayView) -> spec_fn(NodeView) -> bool {
    |n: NodeView| n.pathway.parent() == Some(parent)
}

/// The nodes that lie between one and `max_depth` levels below `root`.
pub open spec fn below(root: PathwayView, max_depth: int) -> spec_fn(NodeView) -> bool {
    |n: NodeView| root.is_prefix_of(n.pathway) && 0 < root.levels_to(n.pathway) <= max_depth
}

/// The nodes at or below `root`.
pub open spec fn under(root: PathwayView) -> spec_fn(NodeView) -> bool {
    |n: NodeView| root.is_prefix_of(n.pathway)
}

/// Every node.
pub open spec fn every() -> spec_fn(NodeView) -> bool {
    |n: NodeView| true
}

/// The form in which a text is compared: its lower-case form where case
/// is ignored, else the text itself.
pub open spec fn folded(s: Seq<char>, case_insensitive: bool) -> Seq<char> {
    if case_insensitive {
        lowercase_text(s)
    } else {
        s
    }
}

/// The nodes at or below `root` whose content holds `pattern`.
pub open spec fn holding(root: PathwayView, pattern: Seq<char>, case_insensitive: bool) -> spec_fn(
    NodeView,
) -> bool {
    |n: NodeView|
        root.is_prefix_of(n.pathway) && contains_text(
            folded(n.content, case_insensitive),
            folded(pattern, case_insensitive),
        )
}

/// The node store after a node has been put into it.
pub open spec fn nodes_after_put(nodes: Map<Seq<char>, NodeView>, node: NodeView) -> Map<
    Seq<char>,
    NodeView,
> {
    nodes.insert(node.key(), node)
}

/// The index after a node has been put into the store: an embedded node
/// brings its vector, another leaves the index as it is.
pub open spec fn vectors_after_put(vectors: Map<Seq<char>, Seq<u32>>, node: NodeView) -> Map<
    Seq<char>,
    Seq<u32>,
> {
    if node.is_embedded() {
        vectors.insert(node.key(), node.embedding)
    } else {
        vectors
    }
}

/// The node store after a batch of nodes has been put into it, in order.
pub open spec fn nodes_after_batch(nodes: Map<Seq<char>, NodeView>, batch: Seq<NodeView>) -> Map<
    Seq<char>,
    NodeView,
>
    decreases batch.len(),
{
    if batch.len() == 0 {
        nodes
    } else {
        nodes_after_put(nodes_after_batch(nodes, batch.drop_last()), batch.last())
    }
}

/// The index after a batch of nodes has been put into the store.
pub open spec fn vectors_after_batch(vectors: Map<Seq<char>, Seq<u32>>, batch: Seq<NodeView>) -> Map<
    Seq<char>,
    Seq<u32>,
>
    decreases batch.len(),
{
    if batch.len() == 0 {
        vectors
    } else {
        vectors_after_put(vectors_after_batch(vectors, batch.drop_last()), batch.last())
    }
}

/// The keys that a removal takes out: the addressed key alone, or, for a
/// recursive removal, the key of every node at or below the pathway.
pub open spec fn doomed(
    nodes: Map<Seq<char>, NodeView>,
    pathway: PathwayView,
    recursive: bool,
) -> Set<Seq<char>> {
    if recursive {
        Set::new(|k: Seq<char>| nodes.contains_key(k) && pathway.is_prefix_of(nodes[k].pathway))
    } else {
        set![pathway.text()]
    }
}

/// Number of directories among the nodes under `keys`.
pub open spec fn count_directories(content: Map<Seq<char>, NodeView>, keys: Seq<Seq<char>>) -> nat
    decreases keys.len(),
{
    if keys.len() == 0 {
        0
    } else {
        count_directories(content, keys.drop_last()) + if content[keys.last()].is_directory {
            1nat
        } else {
            0nat
        }
    }
}

/// Sum of the content sizes of the nodes under `keys`.
pub open spec fn sum_sizes(content: Map<Seq<char>, NodeView>, keys: Seq<Seq<char>>) -> nat
    decreases keys.len(),
{
    if keys.len() == 0 {
        0
    } else {
        sum_sizes(content, keys.drop_last()) + content[keys.last()].size()
    }
}

/// `n`, or the greatest 64-bit number where `n` is beyond it.
pub open spec fn clamp_u64(n: nat) -> u64 {
    if n > u64::MAX {
        u64::MAX
    } else {
        n as u64
    }
}

impl MemoryStorage {
    /// The stored nodes, by the text of their pathway.
    pub closed spec fn nodes(&self) -> Map<Seq<char>, NodeView> {
        node_entries(self.nodes)
    }

    /// The vectors of the similarity index, by the text of their pathway.
    pub closed spec fn vectors(&self) -> Map<Seq<char>, Seq<u32>> {
        self.vector_index.entries()
    }

    /// The similarity index agrees with the node store.
    pub open spec fn wf(&self) -> bool {
        consistent(self.nodes(), self.vectors())
    }

    /// An empty store.
    pub fn new(config: &VectorIndexConfig) -> (storage: MemoryStorage)
        ensures
            storage.nodes() == no_nodes(),
            storage.vectors() == no_vectors(),
            storage.wf(),
    {
        MemoryStorage { nodes: nodes_new(), vector_index: VectorIndex::new(config) }
    }

    /// Prepares the store for use. Nothing is to be done in memory.
    pub fn initialize(&self) -> (r: Result<()>)
        ensures
            r is Ok,
    {
        Ok(())
    }

    /// Stores `node` under its pathway, in place of the node that was
    /// there. An embedded node has its vector put into the index.
    pub fn put(&mut self, node: &Node) -> (r: Result<()>)
        ensures
            r is Ok,
            final(self).nodes() == nodes_after_put(old(self).nodes(), node@),
            final(self).vectors() == vectors_after_put(old(self).vectors(), node@),
            old(self).wf() ==> final(self).wf(),
    {
        let key = node.pathway.to_string();
        if node.embedding.len() > 0 {
            let _ = self.vector_index.add(&node.pathway, node.embedding.as_slice());
        }
        nodes_insert(&mut self.nodes, key, node.clone());
        Ok(())
    }

    /// Stores each node of `nodes`, in order.
    pub fn put_batch(&mut self, nodes: &[Node]) -> (r: Result<()>)
        ensures
            r is Ok,
            final(self).nodes() == nodes_after_batch(old(self).nodes(), node_views(nodes@)),
            final(self).vectors() == vectors_after_batch(old(self).vectors(), node_views(nodes@)),
            old(self).wf() ==> final(self).wf(),
    {
        let ghost batch = node_views(nodes@);
        let mut i: usize = 0;
        assert(batch.take(0) == Seq::<NodeView>::empty());
        while i < nodes.len()
            invariant
                i <= nodes.len(),
                batch == node_views(nodes@),
                self.nodes() == nodes_after_batch(old(self).nodes(), batch.take(i as int)),
                self.vectors() == vectors_after_batch(old(self).vectors(), batch.take(i as int)),
                old(self).wf() ==> self.wf(),
            decreases nodes.len() - i,
        {
            proof {
                assert(batch.take(i + 1).drop_last() == batch.take(i as int));
                assert(batch.take(i + 1).last() == nodes@[i as int]@);
            }
            let _ = self.put(&nodes[i]);
            i += 1;
        }
        assert(batch.take(i as int) == batch);
        Ok(())
    }

    /// The node at `pathway`; `NodeNotFound` when there is none.
    pub fn get(&self, pathway: &Pathway) -> (r: Result<Node>)
        ensures
            match r {
                Ok(node) => self.nodes().contains_key(pathway@.text()) && node@ == self.nodes()[pathway@.text()],
                Err(e) => !self.nodes().contains_key(pathway@.text()) && e is NodeNotFound
                    && e.detail() == pathway@.text(),
            },
    {
        let key = pathway.to_string();
        match nodes_get(&self.nodes, key.as_str()) {
            Some(node) => Ok(node),
            None => Err(A3SError::NodeNotFound(pathway.to_string())),
        }
    }

    /// Whether a node is stored at `pathway`.
    pub fn contains(&self, pathway: &Pathway) -> (r: Result<bool>)
        ensures
            r is Ok,
            r->Ok_0 == self.nodes().contains_key(pathway@.text()),
    {
        let key = pathway.to_string();
        Ok(nodes_contains(&self.nodes, key.as_str()))
    }

    /// Removes the node at `pathway`, and its vector with it. A recursive
    /// removal takes out every node at or below `pathway`, each with its
    /// vector.
    pub fn remove(&mut self, pathway: &Pathway, recursive: bool) -> (r: Result<()>)
        ensures
            r is Ok,
            final(self).nodes() == old(self).nodes().remove_keys(
                doomed(old(self).nodes(), pathway@, recursive),
            ),
            final(self).vectors() == old(self).vectors().remove_keys(
                doomed(old(self).nodes(), pathway@, recursive),
            ),
            old(self).wf() ==> final(self).wf(),
    {
        let ghost nodes0 = self.nodes();
        let ghost vectors0 = self.vectors();
        let ghost gone = doomed(nodes0, pathway@, recursive);
        if recursive {
            let entries = nodes_list(&self.nodes);
            let ghost mut removed: Set<Seq<char>> = Set::empty();
            let mut j: usize = 0;
            assert(self.nodes() =~= nodes0.remove_keys(removed));
            assert(self.vectors() =~= vectors0.remove_keys(removed));
            while j < entries.len()
                invariant
                    j <= entries.len(),
                    lists_nodes(entries@, nodes0),
                    gone == doomed(nodes0, pathway@, true),
                    self.nodes() == nodes0.remove_keys(removed),
                    self.vectors() == vectors0.remove_keys(removed),
                    forall|k: Seq<char>| removed.contains(k) ==> gone.contains(k),
                    forall|idx: int|
                        0 <= idx < j && gone.contains((#[trigger] entries@[idx]).0@) ==> removed.contains(
                            entries@[idx].0@,
                        ),
                decreases entries.len() - j,
            {
                let key = &entries[j].0;
                let ghost k0 = key@;
                proof {
                    assert(nodes0.contains_key(k0) && nodes0[k0] == entries@[j as int].1@);
                }
                if pathway.is_prefix_of(&entries[j].1.pathway) {
                    assert(gone.contains(k0));
                    nodes_remove(&mut self.nodes, key.as_str());
                    self.vector_index.remove_key(key.as_str());
                    proof {
                        let before = removed;
                        removed = before.insert(k0);
                        assert(nodes0.remove_keys(before).remove(k0) =~= nodes0.remove_keys(removed));
                        assert(vectors0.remove_keys(before).remove(k0) =~= vectors0.remove_keys(
                            removed,
                        ));
                    }
                } else {
                    assert(!gone.contains(k0));
                }
                j += 1;
            }
            proof {
                assert forall|k: Seq<char>| gone.contains(k) implies removed.contains(k) by {
                    assert(entry_keys(entries@).contains(k));
                    let idx = choose|idx: int|
                        0 <= idx < entry_keys(entries@).len() && entry_keys(entries@)[idx] == k;
                    assert(entries@[idx].0@ == k);
                }
                assert(removed =~= gone);
            }
        } else {
            let key = pathway.to_string();
            nodes_remove(&mut self.nodes, key.as_str());
            self.vector_index.remove_key(key.as_str());
            proof {
                assert(self.nodes() =~= nodes0.remove_keys(gone));
                assert(self.vectors() =~= vectors0.remove_keys(gone));
            }
        }
        Ok(())
    }

    /// The direct children of `pathway`, in no particular order.
    pub fn list(&self, pathway: &Pathway) -> (r: Result<Vec<NodeInfo>>)
        ensures
            r is Ok,
            exists|keys: Seq<Seq<char>>| #[trigger]
                selects(self.nodes(), child_of(pathway@), keys) && info_views(r->Ok_0@) == selected(
                    self.nodes(),
                    keys,
                ).map_values(|n: NodeView| NodeInfoView::of(n)),
    {
        let entries = nodes_list(&self.nodes);
        let mut flags: Vec<bool> = Vec::new();
        let mut j: usize = 0;
        while j < entries.len()
            invariant
                j <= entries.len(),
                flags.len() == j,
                forall|idx: int|
                    0 <= idx < j ==> #[trigger] flags@[idx] == child_of(pathway@)(entries@[idx].1@),
            decreases entries.len() - j,
        {
            let keep = match entries[j].1.pathway.parent() {
                Some(parent) => parent == *pathway,
                None => false,
            };
            flags.push(keep);
            j += 1;
        }
        let picked = pick(&flags);
        let mut out: Vec<NodeInfo> = Vec::new();
        let mut x: usize = 0;
        while x < picked.len()
            invariant
                x <= picked.len(),
                out.len() == x,
                flags.len() == entries.len(),
                forall|y: int| 0 <= y < picked.len() ==> (#[trigger] picked@[y]) < flags.len(),
                forall|y: int|
                    0 <= y < x ==> (#[trigger] out@[y])@ == NodeInfoView::of(
                        entries@[picked@[y] as int].1@,
                    ),
            decreases picked.len() - x,
        {
            let node = &entries[picked[x]].1;
            out.push(
                NodeInfo {
                    pathway: node.pathway.clone(),
                    kind: node.kind,
                    is_directory: node.is_directory,
                    size: node.size(),
                    created_at: node.created_at,
                    updated_at: node.updated_at,
                },
            );
            x += 1;
        }
        proof {
            let keys = picked_keys(entries@, picked@);
            lemma_selects(self.nodes(), entries@, flags@, picked@, child_of(pathway@));
            assert(info_views(out@) =~= selected(self.nodes(), keys).map_values(
                |n: NodeView| NodeInfoView::of(n),
            ));
        }
        Ok(out)
    }

    /// The best hits of the similarity index for a scoring function; see
    /// `VectorIndex::search`.
    pub fn search_vector<F: Fn(&Vec<u32>) -> Score>(
        &self,
        score_of: &F,
        namespace: Option<Namespace>,
        limit: usize,
        threshold: Score,
    ) -> (r: Result<Vec<(Pathway, Score)>>)
        requires
            forall|v: &Vec<u32>| call_requires(*score_of, (v,)),
        ensures
            search_outcome(*score_of, self.vectors(), namespace, limit as int, threshold, r),
    {
        self.vector_index.search(score_of, namespace, limit, threshold)
    }

    /// The pathways of the nodes at or below `pathway` whose content
    /// holds `pattern` as a literal substring, in no particular order.
    /// Where case is ignored, both are compared in lower case.
    pub fn search_text(&self, pattern: &str, pathway: &Pathway, case_insensitive: bool) -> (r: Result<
        Vec<Pathway>,
    >)
        ensures
            r is Ok,
            exists|keys: Seq<Seq<char>>| #[trigger]
                selects(self.nodes(), holding(pathway@, pattern@, case_insensitive), keys)
                    && pathway_views(r->Ok_0@) == selected(self.nodes(), keys).map_values(
                    |n: NodeView| n.pathway,
                ),
    {
        let wanted = if case_insensitive {
            chars_of(lowercase(pattern).as_str())
        } else {
            chars_of(pattern)
        };
        let entries = nodes_list(&self.nodes);
        let mut flags: Vec<bool> = Vec::new();
        let mut j: usize = 0;
        while j < entries.len()
            invariant
                j <= entries.len(),
                flags.len() == j,
                wanted@ == folded(pattern@, case_insensitive),
                forall|idx: int|
                    0 <= idx < j ==> #[trigger] flags@[idx] == holding(
                        pathway@,
                        pattern@,
                        case_insensitive,
                    )(entries@[idx].1@),
            decreases entries.len() - j,
        {
            let node = &entries[j].1;
            let keep = if !pathway.is_prefix_of(&node.pathway) {
                false
            } else {
                let content = if case_insensitive {
                    chars_of(lowercase(node.content.as_str()).as_str())
                } else {
                    chars_of(node.content.as_str())
                };
                chars_contain(&content, &wanted)
            };
            flags.push(keep);
            j += 1;
        }
        let picked = pick(&flags);
        let mut out: Vec<Pathway> = Vec::new();
        let mut x: usize = 0;
        while x < picked.len()
            invariant
                x <= picked.len(),
                out.len() == x,
                flags.len() == entries.len(),
                forall|y: int| 0 <= y < picked.len() ==> (#[trigger] picked@[y]) < flags.len(),
                forall|y: int| 0 <= y < x ==> (#[trigger] out@[y])@ == entries@[picked@[y] as int].1@.pathway,
            decreases picked.len() - x,
        {
            out.push(entries[picked[x]].1.pathway.clone());
            x += 1;
        }
        proof {
            let keys = picked_keys(entries@, picked@);
            lemma_selects(
                self.nodes(),
                entries@,
                flags@,
                picked@,
                holding(pathway@, pattern@, case_insensitive),
            );
            assert(pathway_views(out@) =~= selected(self.nodes(), keys).map_values(
                |n: NodeView| n.pathway,
            ));
        }
        Ok(out)
    }

    /// Node and directory counts and the sum of content sizes. A sum
    /// beyond 64 bits is reported as the greatest 64-bit number.
    pub fn stats(&self) -> (r: Result<StorageStats>)
        ensures
            r is Ok,
            r->Ok_0.total_nodes == self.nodes().len() as u64,
            r->Ok_0.namespaces@.len() == 0,
            exists|keys: Seq<Seq<char>>| #[trigger]
                selects(self.nodes(), every(), keys) && r->Ok_0.total_directories == count_directories(
                    self.nodes(),
                    keys,
                ) && r->Ok_0.total_size_bytes == clamp_u64(sum_sizes(self.nodes(), keys)),
    {
        let total_nodes = nodes_len(&self.nodes) as u64;
        let entries = nodes_list(&self.nodes);
        let ghost content = self.nodes();
        let ghost all = entry_keys(entries@);
        let mut directories: u64 = 0;
        let mut bytes: u64 = 0;
        let mut j: usize = 0;
        assert(all.take(0) == Seq::<Seq<char>>::empty());
        while j < entries.len()
            invariant
                j <= entries.len(),
                content == self.nodes(),
                lists_nodes(entries@, content),
                all == entry_keys(entries@),
                directories == count_directories(content, all.take(j as int)),
                directories <= j,
                bytes == clamp_u64(sum_sizes(content, all.take(j as int))),
            decreases entries.len() - j,
        {
            let node = &entries[j].1;
            proof {
                assert(all.take(j + 1).drop_last() == all.take(j as int));
                assert(all.take(j + 1).last() == entries@[j as int].0@);
                assert(content[entries@[j as int].0@] == node@);
            }
            if node.is_directory {
                directories += 1;
            }
            let size = node.size();
            bytes = if size > u64::MAX - bytes {
                u64::MAX
            } else {
                bytes + size
            };
            j += 1;
        }
        proof {
            assert(all.take(j as int) == all);
            assert forall|i: int| 0 <= i < all.len() implies content.contains_key(#[trigger] all[i])
                && every()(content[all[i]]) by {
                assert(content.contains_key(entries@[i].0@));
            }
            assert forall|a: int, b: int| 0 <= a < b < all.len() implies #[trigger] all[a] != #[trigger] all[b] by {
                assert(entries@[a].0@ != entries@[b].0@);
            }
            assert(selects(content, every(), all));
        }
        Ok(
            StorageStats {
                total_nodes,
                total_directories: directories,
                total_size_bytes: bytes,
                namespaces: Vec::new(),
            },
        )
    }

    /// Writes out what is pending. Nothing is pending in memory.
    pub fn flush(&self) -> (r: Result<()>)
        ensures
            r is Ok,
    {
        Ok(())
    }

    /// The nodes that lie between one and `max_depth` levels below
    /// `pathway`, in no particular order.
    pub fn get_children(&self, pathway: &Pathway, max_depth: usize) -> (r: Result<Vec<Node>>)
        ensures
            r is Ok,
            exists|keys: Seq<Seq<char>>| #[trigger]
                selects(self.nodes(), below(pathway@, max_depth as int), keys) && node_views(r->Ok_0@)
                    == selected(self.nodes(), keys),
    {
        let entries = nodes_list(&self.nodes);
        let mut flags: Vec<bool> = Vec::new();
        let mut j: usize = 0;
        while j < entries.len()
            invariant
                j <= entries.len(),
                flags.len() == j,
                forall|idx: int|
                    0 <= idx < j ==> #[trigger] flags@[idx] == below(pathway@, max_depth as int)(
                        entries@[idx].1@,
                    ),
            decreases entries.len() - j,
        {
            let p = &entries[j].1.pathway;
            let keep = if !pathway.is_prefix_of(p) {
                false
            } else {
                let depth = p.depth() - pathway.depth();
                depth > 0 && depth <= max_depth
            };
            flags.push(keep);
            j += 1;
        }
        let picked = pick(&flags);
        let mut out: Vec<Node> = Vec::new();
        let mut x: usize = 0;
        while x < picked.len()
            invariant
                x <= picked.len(),
                out.len() == x,
                flags.len() == entries.len(),
                forall|y: int| 0 <= y < picked.len() ==> (#[trigger] picked@[y]) < flags.len(),
                forall|y: int| 0 <= y < x ==> (#[trigger] out@[y])@ == entries@[picked@[y] as int].1@,
            decreases picked.len() - x,
        {
            out.push(entries[picked[x]].1.clone());
            x += 1;
        }
        proof {
            let keys = picked_keys(entries@, picked@);
            lemma_selects(self.nodes(), entries@, flags@, picked@, below(pathway@, max_depth as int));
            assert(node_views(out@) =~= selected(self.nodes(), keys));
        }
        Ok(out)
    }

    /// Gives the node at `pathway` the embedding `embedding` and puts it
    /// into the index. Nothing changes when no node is stored there.
    pub fn update_embedding(&mut self, pathway: &Pathway, embedding: Vec<u32>) -> (r: Result<()>)
        ensures
            r is Ok,
            old(self).nodes().contains_key(pathway@.text()) ==> final(self).nodes() == old(self).nodes().insert(
                pathway@.text(),
                NodeView { embedding: embedding@, ..old(self).nodes()[pathway@.text()] },
            ) && final(self).vectors() == old(self).vectors().insert(pathway@.text(), embedding@),
            !old(self).nodes().contains_key(pathway@.text()) ==> final(self).nodes() == old(self).nodes() && final(self).vectors() == old(self).vectors(),
            old(self).wf() ==> final(self).wf(),
    {
        let key = pathway.to_string();
        match nodes_get(&self.nodes, key.as_str()) {
            Some(mut node) => {
                let _ = self.vector_index.add(pathway, embedding.as_slice());
                node.embedding = embedding;
                nodes_insert(&mut self.nodes, key, node);
            },
            None => {},
        }
        Ok(())
    }

    /// Gives the node at `pathway` the digest `digest`. Nothing changes
    /// when no node is stored there.
    pub fn update_digest(&mut self, pathway: &Pathway, digest: Digest) -> (r: Result<()>)
        ensures
            r is Ok,
            old(self).nodes().contains_key(pathway@.text()) ==> final(self).nodes() == old(self).nodes().insert(
                pathway@.text(),
                NodeView { digest: digest@, ..old(self).nodes()[pathway@.text()] },
            ),
            !old(self).nodes().contains_key(pathway@.text()) ==> final(self).nodes() == old(self).nodes(),
            final(self).vectors() == old(self).vectors(),
            old(self).wf() ==> final(self).wf(),
    {
        let key = pathway.to_string();
        match nodes_get(&self.nodes, key.as_str()) {
            Some(mut node) => {
                node.digest = digest;
                nodes_insert(&mut self.nodes, key, node);
            },
            None => {},
        }
        Ok(())
    }
}

} // verus!
