use std::collections::HashMap;
use vstd::prelude::*;

use crate::node::FileNode;

verus! {

/// The entries a map holds, keyed by the text of each key.
pub uninterp spec fn map_entries(m: HashMap<String, FileNode>) -> Map<Seq<char>, FileNode>;

/// Relies on `HashMap::new`: the new map is empty.
#[verifier::external_body]
fn map_new() -> (r: HashMap<String, FileNode>)
    ensures
        map_entries(r).dom() == Set::<Seq<char>>::empty(),
{
    HashMap::new()
}

/// Relies on `HashMap::insert`: the key then maps to the value, replacing any
/// earlier value, and no other key changes.
#[verifier::external_body]
fn map_insert(m: &mut HashMap<String, FileNode>, k: String, v: FileNode)
    ensures
        map_entries(*final(m)) == map_entries(*old(m)).insert(k@, v),
{
    m.insert(k, v);
}

/// Relies on `HashMap::get`: the value under the key, if there is one.
#[verifier::external_body]
fn map_get<'a>(m: &'a HashMap<String, FileNode>, k: &str) -> (r: Option<&'a FileNode>)
    ensures
        match r {
            Some(v) => map_entries(*m).contains_key(k@) && *v == map_entries(*m)[k@],
            None => !map_entries(*m).contains_key(k@),
        },
{
    m.get(k)
}

/// Relies on `HashMap::len`: the number of entries.
#[verifier::external_body]
fn map_len(m: &HashMap<String, FileNode>) -> (r: usize)
    ensures
        r == map_entries(*m).dom().len(),
{
    m.len()
}

/// Relies on `HashMap::into_values`: every value once, in an unspecified order.
#[verifier::external_body]
fn map_into_values(m: HashMap<String, FileNode>) -> (r: Vec<FileNode>)
    requires
        forall|k: Seq<char>| #[trigger] map_entries(m).contains_key(k) ==> map_entries(m)[k].id@ == k,
    ensures
        r@.len() == map_entries(m).dom().len(),
        forall|k: Seq<char>| #[trigger]
            map_entries(m).contains_key(k) ==> r@.contains(map_entries(m)[k]),
        forall|i: int|
            0 <= i < r@.len() ==> map_entries(m).contains_key(#[trigger] r@[i].id@)
                && map_entries(m)[r@[i].id@] == r@[i],
{
    m.into_values().collect()
}

/// An index of nodes keyed by their ids.
pub struct Index {
    map: HashMap<String, FileNode>,
}

impl View for Index {
    type V = Map<Seq<char>, FileNode>;

    closed spec fn view(&self) -> Map<Seq<char>, FileNode> {
        map_entries(self.map)
    }
}

impl Index {
    /// Every node is stored under its own id.
    pub open spec fn wf(&self) -> bool {
        forall|k: Seq<char>| #[trigger] self@.contains_key(k) ==> self@[k].id@ == k
    }

    /// An empty index.
    pub fn new() -> (r: Index)
        ensures
            r@.dom() == Set::<Seq<char>>::empty(),
            r.wf(),
    {
        Index { map: map_new() }
    }

    /// Stores a node under its id, replacing a node with the same id.
    pub fn record(&mut self, node: FileNode)
        requires
            old(self).wf(),
        ensures
            final(self)@ == old(self)@.insert(node.id@, node),
            final(self).wf(),
    {
        let id = node.id.clone();
        map_insert(&mut self.map, id, node);
        proof {
            assert forall|k: Seq<char>| #[trigger] self@.contains_key(k) implies self@[k].id@ == k by {
                if k != node.id@ {
                    assert(old(self)@.contains_key(k));
                }
            }
        }
    }

    /// The node with the given id.
    pub fn get(&self, id: &str) -> (r: Option<&FileNode>)
        ensures
            match r {
                Some(v) => self@.contains_key(id@) && *v == self@[id@],
                None => !self@.contains_key(id@),
            },
    {
        map_get(&self.map, id)
    }

    /// Whether a node with the given id is present.
    pub fn contains(&self, id: &str) -> (r: bool)
        ensures
            r == self@.contains_key(id@),
    {
        map_get(&self.map, id).is_some()
    }

    /// The number of nodes.
    pub fn len(&self) -> (r: usize)
        ensures
            r == self@.dom().len(),
    {
        map_len(&self.map)
    }

    /// All nodes, each once, in an unspecified order.
    pub fn into_nodes(self) -> (r: Vec<FileNode>)
        requires
            self.wf(),
        ensures
            r@.len() == self@.dom().len(),
            forall|k: Seq<char>| #[trigger] self@.contains_key(k) ==> r@.contains(self@[k]),
            forall|i: int|
                0 <= i < r@.len() ==> self@.contains_key(#[trigger] r@[i].id@) && self@[r@[i].id@]
                    == r@[i],
    {
        proof {
            assert(self@ == map_entries(self.map));
        }
        map_into_values(self.map)
    }

    /// The underlying map from id to node.
    pub fn into_map(self) -> (r: HashMap<String, FileNode>)
        ensures
            map_entries(r) == self@,
    {
        self.map
    }
}

} // verus!
