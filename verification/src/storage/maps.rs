//! The two shared maps of a storage backend, as `dashmap` provides them.
//!
//! Verus does not look inside a `DashMap`. What a map holds is named by
//! a function of the map, and each operation is a small wrapper whose
//! contract says what the operation does to that content. The wrappers
//! take the map by `&mut` where the operation changes it, so that the
//! change shows in the contract.

use dashmap::DashMap;
use vstd::prelude::*;

use crate::node::{Node, NodeView};

verus! {

/// `dashmap::DashMap`: a concurrent hash map.
#[verifier::external_type_specification]
#[verifier::external_body]
#[verifier::reject_recursive_types(K)]
#[verifier::reject_recursive_types(V)]
#[verifier::reject_recursive_types(S)]
pub struct ExDashMap<K, V, S>(DashMap<K, V, S>);

/// What a map of vectors holds: for each key text, the components of its
/// vector.
pub uninterp spec fn vector_entries(m: DashMap<String, Vec<u32>>) -> Map<Seq<char>, Seq<u32>>;

/// What a map of nodes holds: for each key text, the node under it.
pub uninterp spec fn node_entries(m: DashMap<String, Node>) -> Map<Seq<char>, NodeView>;

/// The map of vectors without entries.
pub open spec fn no_vectors() -> Map<Seq<char>, Seq<u32>> {
    Map::empty()
}

/// The map of nodes without entries.
pub open spec fn no_nodes() -> Map<Seq<char>, NodeView> {
    Map::empty()
}

/// The keys of a list of entries.
pub open spec fn entry_keys<V>(entries: Seq<(String, V)>) -> Seq<Seq<char>> {
    Seq::new(entries.len(), |i: int| entries[i].0@)
}

/// `entries` lists the content of `content` once: every entry is in the
/// map with its value, no key comes twice, and every key of the map is
/// listed.
pub open spec fn lists_vectors(
    entries: Seq<(String, Vec<u32>)>,
    content: Map<Seq<char>, Seq<u32>>,
) -> bool {
    &&& forall|i: int|
        0 <= i < entries.len() ==> content.contains_key(#[trigger] entries[i].0@) && content[entries[i].0@]
            == entries[i].1@
    &&& forall|i: int, j: int|
        0 <= i < j < entries.len() ==> (#[trigger] entries[i]).0@ != (#[trigger] entries[j]).0@
    &&& forall|k: Seq<char>| content.contains_key(k) ==> entry_keys(entries).contains(k)
}

/// `entries` lists the content of `content` once; see `lists_vectors`.
pub open spec fn lists_nodes(entries: Seq<(String, Node)>, content: Map<Seq<char>, NodeView>) -> bool {
    &&& forall|i: int|
        0 <= i < entries.len() ==> content.contains_key(#[trigger] entries[i].0@) && content[entries[i].0@]
            == entries[i].1@
    &&& forall|i: int, j: int|
        0 <= i < j < entries.len() ==> (#[trigger] entries[i]).0@ != (#[trigger] entries[j]).0@
    &&& forall|k: Seq<char>| content.contains_key(k) ==> entry_keys(entries).contains(k)
}

/// `DashMap::new`: a map without entries.
#[verifier::external_body]
pub(crate) fn vectors_new() -> (m: DashMap<String, Vec<u32>>)
    ensures
        vector_entries(m) == no_vectors(),
{
    DashMap::new()
}

/// `DashMap::insert`: puts `value` under `key`, in place of what was
/// there.
#[verifier::external_body]
pub(crate) fn vectors_insert(m: &mut DashMap<String, Vec<u32>>, key: String, value: Vec<u32>)
    ensures
        vector_entries(*final(m)) == vector_entries(*old(m)).insert(key@, value@),
{
    m.insert(key, value);
}

/// `DashMap::remove`: takes out the entry under `key`, if there is one.
#[verifier::external_body]
pub(crate) fn vectors_remove(m: &mut DashMap<String, Vec<u32>>, key: &str)
    ensures
        vector_entries(*final(m)) == vector_entries(*old(m)).remove(key@),
{
    m.remove(key);
}

/// `DashMap::len`: the number of entries.
#[verifier::external_body]
pub(crate) fn vectors_len(m: &DashMap<String, Vec<u32>>) -> (n: usize)
    ensures
        n == vector_entries(*m).len(),
{
    m.len()
}

/// `DashMap::iter`: every entry once, in no particular order; each is
/// handed out as a copy of its key and of its value.
#[verifier::external_body]
pub(crate) fn vectors_list(m: &DashMap<String, Vec<u32>>) -> (entries: Vec<(String, Vec<u32>)>)
    ensures
        lists_vectors(entries@, vector_entries(*m)),
{
    m.iter().map(|e| (e.key().clone(), e.value().clone())).collect()
}

/// `DashMap::new`: a map without entries.
#[verifier::external_body]
pub(crate) fn nodes_new() -> (m: DashMap<String, Node>)
    ensures
        node_entries(m) == no_nodes(),
{
    DashMap::new()
}

/// `DashMap::insert`: puts `node` under `key`, in place of what was
/// there.
#[verifier::external_body]
pub(crate) fn nodes_insert(m: &mut DashMap<String, Node>, key: String, node: Node)
    ensures
        node_entries(*final(m)) == node_entries(*old(m)).insert(key@, node@),
{
    m.insert(key, node);
}

/// `DashMap::remove`: takes out the entry under `key`, if there is one.
#[verifier::external_body]
pub(crate) fn nodes_remove(m: &mut DashMap<String, Node>, key: &str)
    ensures
        node_entries(*final(m)) == node_entries(*old(m)).remove(key@),
{
    m.remove(key);
}

/// `DashMap::get`: the node under `key`, handed out as a copy made by
/// `Node::clone`; `None` when the key is absent.
#[verifier::external_body]
pub(crate) fn nodes_get(m: &DashMap<String, Node>, key: &str) -> (r: Option<Node>)
    ensures
        r.is_some() == node_entries(*m).contains_key(key@),
        r.is_some() ==> r.unwrap()@ == node_entries(*m)[key@],
{
    m.get(key).map(|e| e.value().clone())
}

/// `DashMap::contains_key`: whether there is an entry under `key`.
#[verifier::external_body]
pub(crate) fn nodes_contains(m: &DashMap<String, Node>, key: &str) -> (r: bool)
    ensures
        r == node_entries(*m).contains_key(key@),
{
    m.contains_key(key)
}

/// `DashMap::len`: the number of entries.
#[verifier::external_body]
pub(crate) fn nodes_len(m: &DashMap<String, Node>) -> (n: usize)
    ensures
        n == node_entries(*m).len(),
{
    m.len()
}

/// `DashMap::iter`: every entry once, in no particular order; each is
/// handed out as a copy of its key and, by `Node::clone`, of its node.
#[verifier::external_body]
pub(crate) fn nodes_list(m: &DashMap<String, Node>) -> (entries: Vec<(String, Node)>)
    ensures
        lists_nodes(entries@, node_entries(*m)),
{
    m.iter().map(|e| (e.key().clone(), e.value().clone())).collect()
}

} // verus!
