//! The durable node store: key-addressed blob storage for tree nodes,
//! consumed through a minimal read/write interface. Backends implement
//! [`NodeStore`]; [`MemStore`] is a verified in-memory backend.

use vstd::prelude::*;
use crate::hash::HashValue;
use crate::node::{TreeNode, NodeV};
use crate::errors::StoreError;
use crate::change_set::nodes_view;

verus! {

/// The view of an optional node.
pub open spec fn opt_node_view(o: Option<TreeNode>) -> Option<NodeV> {
    match o {
        Some(n) => Some(n@),
        None => None,
    }
}

/// The mapping described by a sequence of (key, node) pairs; a later binding
/// of a key wins.
pub open spec fn to_node_map(s: Seq<(Seq<u8>, NodeV)>) -> Map<Seq<u8>, NodeV>
    decreases s.len(),
{
    if s.len() == 0 {
        Map::empty()
    } else {
        to_node_map(s.drop_last()).insert(s.last().0, s.last().1)
    }
}

/// Optional lookup in a map.
pub open spec fn map_get(m: Map<Seq<u8>, NodeV>, key: Seq<u8>) -> Option<NodeV> {
    if m.dom().contains(key) {
        Some(m[key])
    } else {
        None
    }
}

/// The minimal contract a durable node store provides: point reads agree
/// with the store's contents, and a batch write is atomic — on success the
/// contents gain exactly the written nodes, on failure they are unchanged.
pub trait NodeStore {
    /// The nodes this store holds, by node key.
    spec fn contents(&self) -> Map<Seq<u8>, NodeV>;

    /// Reads the node stored at `key`, or nothing.
    fn get_node(&self, key: &HashValue) -> (r: Result<Option<TreeNode>, StoreError>)
        ensures
            r matches Ok(opt) ==> opt_node_view(opt) == map_get(self.contents(), key@),
    ;

    /// Writes a batch of nodes as one atomic write; a later binding of a key
    /// wins over an earlier one in the same batch.
    fn write_nodes(&mut self, batch: Vec<(HashValue, TreeNode)>) -> (r: Result<(), StoreError>)
        ensures
            r is Ok ==> final(self).contents() == old(self).contents().union_prefer_right(
                to_node_map(nodes_view(batch@)),
            ),
            r is Err ==> final(self).contents() == old(self).contents(),
    ;
}

/// When all bindings at and above `j` for `s[j]`'s key sit at `j` itself,
/// the mapping binds that key to `s[j]`'s node.
pub proof fn lemma_to_node_map_found(s: Seq<(Seq<u8>, NodeV)>, j: int)
    requires
        0 <= j < s.len(),
        forall|i: int| j < i < s.len() ==> (#[trigger] s[i]).0 != s[j].0,
    ensures
        map_get(to_node_map(s), s[j].0) == Some(s[j].1),
    decreases s.len(),
{
    if j == s.len() - 1 {
    } else {
        assert(s.last() == s[s.len() - 1]);
        lemma_to_node_map_found(s.drop_last(), j);
        assert(s.drop_last()[j] == s[j]);
    }
}

/// A key bound nowhere is absent from the mapping.
pub proof fn lemma_to_node_map_missing(s: Seq<(Seq<u8>, NodeV)>, key: Seq<u8>)
    requires
        forall|i: int| 0 <= i < s.len() ==> (#[trigger] s[i]).0 != key,
    ensures
        !to_node_map(s).dom().contains(key),
    decreases s.len(),
{
    if s.len() > 0 {
        lemma_to_node_map_missing(s.drop_last(), key);
    }
}

/// The mapping of a concatenation is the union of the mappings, preferring
/// the later part.
pub proof fn lemma_to_node_map_concat(s: Seq<(Seq<u8>, NodeV)>, t: Seq<(Seq<u8>, NodeV)>)
    ensures
        to_node_map(s + t) == to_node_map(s).union_prefer_right(to_node_map(t)),
    decreases t.len(),
{
    if t.len() == 0 {
        assert(s + t =~= s);
        assert(to_node_map(s).union_prefer_right(to_node_map(t)) =~= to_node_map(s));
    } else {
        lemma_to_node_map_concat(s, t.drop_last());
        assert((s + t).drop_last() =~= s + t.drop_last());
        assert((s + t).last() == t.last());
        assert(to_node_map(s).union_prefer_right(to_node_map(t.drop_last())).insert(
            t.last().0,
            t.last().1,
        ) =~= to_node_map(s).union_prefer_right(
            to_node_map(t.drop_last()).insert(t.last().0, t.last().1),
        ));
    }
}

/// A verified in-memory node store: an append-only list of (key, node)
/// pairs, of which the latest binding of a key is current.
pub struct MemStore {
    pub nodes: Vec<(HashValue, TreeNode)>,
}

impl MemStore {
    /// An empty store.
    pub fn new() -> (s: MemStore)
        ensures
            s.contents() == Map::<Seq<u8>, NodeV>::empty(),
            s.nodes@.len() == 0,
    {
        let s = MemStore { nodes: Vec::new() };
        proof {
            assert(nodes_view(s.nodes@) =~= Seq::<(Seq<u8>, NodeV)>::empty());
        }
        s
    }

    /// How many node writes this store has received in all.
    pub fn node_count(&self) -> (n: usize)
        ensures
            n == self.nodes@.len(),
    {
        self.nodes.len()
    }
}

impl NodeStore for MemStore {
    open spec fn contents(&self) -> Map<Seq<u8>, NodeV> {
        to_node_map(nodes_view(self.nodes@))
    }

    fn get_node(&self, key: &HashValue) -> (r: Result<Option<TreeNode>, StoreError>) {
        let ghost view = nodes_view(self.nodes@);
        let mut j: usize = self.nodes.len();
        while j > 0
            invariant
                j <= self.nodes@.len(),
                view == nodes_view(self.nodes@),
                forall|i: int| j <= i < view.len() ==> (#[trigger] view[i]).0 != key@,
            decreases j,
        {
            j = j - 1;
            if self.nodes[j].0.eq_hash(key) {
                proof {
                    assert(view[j as int].0 == key@);
                    lemma_to_node_map_found(view, j as int);
                }
                return Ok(Some(self.nodes[j].1.clone_node()));
            }
        }
        proof {
            lemma_to_node_map_missing(view, key@);
        }
        Ok(None)
    }

    fn write_nodes(&mut self, batch: Vec<(HashValue, TreeNode)>) -> (r: Result<(), StoreError>) {
        let ghost old_view = nodes_view(self.nodes@);
        let ghost batch_view = nodes_view(batch@);
        let mut incoming = batch;
        self.nodes.append(&mut incoming);
        proof {
            assert(nodes_view(self.nodes@) =~= old_view + batch_view);
            lemma_to_node_map_concat(old_view, batch_view);
        }
        Ok(())
    }
}

} // verus!
