//! What holds of every search of the similarity index and of every
//! removal from the store.

use vstd::prelude::*;

use crate::node::{Namespace, NodeView};
use crate::pathway::PathwayView;
use crate::ranking::Score;
use crate::storage::memory::{consistent, doomed, nodes_after_put, vectors_after_put};
use crate::storage::vector_index::{is_answer, is_hit, key_outranks};

verus! {

/// A search returns at most `limit` results, none scores below the
/// threshold, and the scores never rise from one result to the next.
pub proof fn law_search_bounds(
    content: Map<Seq<char>, Seq<u32>>,
    observed: Map<Seq<char>, Score>,
    filter: Option<Namespace>,
    limit: int,
    threshold: Score,
    keys: Seq<Seq<char>>,
    out: Seq<(PathwayView, Score)>,
)
    requires
        is_answer(content, observed, filter, limit, threshold, keys, out),
    ensures
        out.len() <= limit,
        forall|i: int| 0 <= i < out.len() ==> (#[trigger] out[i]).1 >= threshold,
        forall|i: int, j: int| 0 <= i < j < out.len() ==> (#[trigger] out[i]).1 >= (#[trigger] out[j]).1,
{
    assert forall|i: int| 0 <= i < out.len() implies (#[trigger] out[i]).1 >= threshold by {
        assert(is_hit(content, observed, filter, threshold, keys[i]));
    }
    assert forall|i: int, j: int| 0 <= i < j < out.len() implies (#[trigger] out[i]).1 >= (
    #[trigger] out[j]).1 by {
        assert(is_hit(content, observed, filter, threshold, keys[i]));
        assert(is_hit(content, observed, filter, threshold, keys[j]));
        assert(key_outranks(observed, keys[i], keys[j]));
    }
}

/// A search under a namespace filter returns pathways of that namespace
/// only.
pub proof fn law_search_namespace(
    content: Map<Seq<char>, Seq<u32>>,
    observed: Map<Seq<char>, Score>,
    namespace: Namespace,
    limit: int,
    threshold: Score,
    keys: Seq<Seq<char>>,
    out: Seq<(PathwayView, Score)>,
)
    requires
        is_answer(content, observed, Some(namespace), limit, threshold, keys, out),
    ensures
        forall|i: int| 0 <= i < out.len() ==> (#[trigger] out[i]).0.namespace == namespace,
{
    assert forall|i: int| 0 <= i < out.len() implies (#[trigger] out[i]).0.namespace == namespace by {
        assert(is_hit(content, observed, Some(namespace), threshold, keys[i]));
    }
}

/// A search returns no pathway twice.
pub proof fn law_search_distinct(
    content: Map<Seq<char>, Seq<u32>>,
    observed: Map<Seq<char>, Score>,
    filter: Option<Namespace>,
    limit: int,
    threshold: Score,
    keys: Seq<Seq<char>>,
    out: Seq<(PathwayView, Score)>,
)
    requires
        is_answer(content, observed, filter, limit, threshold, keys, out),
    ensures
        forall|i: int, j: int| 0 <= i < j < keys.len() ==> #[trigger] keys[i] != #[trigger] keys[j],
{
    assert forall|i: int, j: int| 0 <= i < j < keys.len() implies #[trigger] keys[i] != #[trigger] keys[j] by {
        assert(key_outranks(observed, keys[i], keys[j]));
        crate::ranking::lemma_text_before_irreflexive(keys[i]);
    }
}

/// After a recursive removal of `root`, no node at or below `root` is in
/// the store, and the index holds no vector under the key of such a
/// node.
pub proof fn law_recursive_remove(
    nodes: Map<Seq<char>, NodeView>,
    vectors: Map<Seq<char>, Seq<u32>>,
    root: PathwayView,
    key: Seq<char>,
)
    requires
        nodes.contains_key(key),
        root.is_prefix_of(nodes[key].pathway),
    ensures
        !nodes.remove_keys(doomed(nodes, root, true)).contains_key(key),
        !vectors.remove_keys(doomed(nodes, root, true)).contains_key(key),
{
}

/// A node that is put at or below `root` is gone, with its vector, after
/// a recursive removal of `root`.
pub proof fn law_put_then_remove(
    nodes: Map<Seq<char>, NodeView>,
    vectors: Map<Seq<char>, Seq<u32>>,
    node: NodeView,
    root: PathwayView,
)
    requires
        root.is_prefix_of(node.pathway),
    ensures
        ({
            let stored = nodes_after_put(nodes, node);
            let indexed = vectors_after_put(vectors, node);
            let gone = doomed(stored, root, true);
            !stored.remove_keys(gone).contains_key(node.key()) && !indexed.remove_keys(
                gone,
            ).contains_key(node.key())
        }),
{
    let stored = nodes_after_put(nodes, node);
    assert(stored.contains_key(node.key()));
    assert(stored[node.key()] == node);
}

/// A removal keeps the index in agreement with the store.
pub proof fn law_remove_consistent(
    nodes: Map<Seq<char>, NodeView>,
    vectors: Map<Seq<char>, Seq<u32>>,
    pathway: PathwayView,
    recursive: bool,
)
    requires
        consistent(nodes, vectors),
    ensures
        consistent(
            nodes.remove_keys(doomed(nodes, pathway, recursive)),
            vectors.remove_keys(doomed(nodes, pathway, recursive)),
        ),
{
}

/// Putting a node keeps the index in agreement with the store.
pub proof fn law_put_consistent(
    nodes: Map<Seq<char>, NodeView>,
    vectors: Map<Seq<char>, Seq<u32>>,
    node: NodeView,
)
    requires
        consistent(nodes, vectors),
    ensures
        consistent(nodes_after_put(nodes, node), vectors_after_put(vectors, node)),
{
}

} // verus!
