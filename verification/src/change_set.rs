//! Change-sets: the output of one commit against the external tree algorithm.
//! A change-set maps node keys to newly written nodes, marks node keys stale
//! as of a given root, and counts new and stale leaves.

use vstd::prelude::*;
use crate::hash::{HashValue, clone_bytes};
use crate::node::{TreeNode, NodeV, node_is_leaf};

verus! {

/// A node key marked stale as of the root `stale_since_version`: the node it
/// names was superseded by that root but is retained for historical access.
pub struct StaleNodeIndex {
    pub stale_since_version: HashValue,
    pub node_key: HashValue,
}

/// The mathematical form of a stale-node index.
#[verifier::ext_equal]
pub struct StaleV {
    pub since: Seq<u8>,
    pub key: Seq<u8>,
}

impl View for StaleNodeIndex {
    type V = StaleV;

    open spec fn view(&self) -> StaleV {
        StaleV { since: self.stale_since_version@, key: self.node_key@ }
    }
}

impl StaleNodeIndex {
    /// Copies this stale-node index.
    pub fn clone_index(&self) -> (r: StaleNodeIndex)
        ensures
            r@ == self@,
    {
        StaleNodeIndex {
            stale_since_version: self.stale_since_version.clone_hash(),
            node_key: self.node_key.clone_hash(),
        }
    }
}

/// The mathematical form of a change-set.
#[verifier::ext_equal]
pub struct BatchV {
    pub nodes: Seq<(Seq<u8>, NodeV)>,
    pub stales: Seq<StaleV>,
    pub n_new_leaves: int,
    pub n_stale_leaves: int,
}

/// The view of a node batch: each pair as (key bytes, node contents).
pub open spec fn nodes_view(s: Seq<(HashValue, TreeNode)>) -> Seq<(Seq<u8>, NodeV)> {
    s.map_values(|p: (HashValue, TreeNode)| (p.0@, p.1@))
}

/// The view of a stale-node batch.
pub open spec fn stales_view(s: Seq<StaleNodeIndex>) -> Seq<StaleV> {
    s.map_values(|x: StaleNodeIndex| x@)
}

/// The node bound to `key` in a node batch: the first binding, if any.
pub open spec fn node_lookup(nodes: Seq<(Seq<u8>, NodeV)>, key: Seq<u8>) -> Option<NodeV>
    decreases nodes.len(),
{
    if nodes.len() == 0 {
        None
    } else if nodes[0].0 == key {
        Some(nodes[0].1)
    } else {
        node_lookup(nodes.drop_first(), key)
    }
}

/// A node batch with the first binding of `key` removed.
pub open spec fn remove_node_key(nodes: Seq<(Seq<u8>, NodeV)>, key: Seq<u8>) -> Seq<(Seq<u8>, NodeV)>
    decreases nodes.len(),
{
    if nodes.len() == 0 {
        nodes
    } else if nodes[0].0 == key {
        nodes.drop_first()
    } else {
        seq![nodes[0]] + remove_node_key(nodes.drop_first(), key)
    }
}

/// The number of leaf nodes in a node batch.
pub open spec fn count_leaves(nodes: Seq<(Seq<u8>, NodeV)>) -> int
    decreases nodes.len(),
{
    if nodes.len() == 0 {
        0
    } else {
        count_leaves(nodes.drop_last()) + if node_is_leaf(nodes.last().1) {
            1int
        } else {
            0int
        }
    }
}

/// Leaf counts lie between zero and the batch length.
pub proof fn lemma_count_leaves_bounds(nodes: Seq<(Seq<u8>, NodeV)>)
    ensures
        0 <= count_leaves(nodes) <= nodes.len(),
    decreases nodes.len(),
{
    if nodes.len() > 0 {
        lemma_count_leaves_bounds(nodes.drop_last());
    }
}

/// A change-set: the nodes written by one commit, the node keys it marked
/// stale, and its new-leaf and stale-leaf counts. The change-set of a
/// generation held in the cache keeps `num_new_leaves` equal to the number of
/// leaves in its node batch.
pub struct TreeUpdateBatch {
    pub node_batch: Vec<(HashValue, TreeNode)>,
    pub stale_node_index_batch: Vec<StaleNodeIndex>,
    pub num_new_leaves: usize,
    pub num_stale_leaves: usize,
}

impl View for TreeUpdateBatch {
    type V = BatchV;

    open spec fn view(&self) -> BatchV {
        BatchV {
            nodes: nodes_view(self.node_batch@),
            stales: stales_view(self.stale_node_index_batch@),
            n_new_leaves: self.num_new_leaves as int,
            n_stale_leaves: self.num_stale_leaves as int,
        }
    }
}

/// A cached change-set is consistent when its new-leaf count equals the
/// number of leaves in its node batch.
pub open spec fn leaves_consistent(b: BatchV) -> bool {
    b.n_new_leaves == count_leaves(b.nodes)
}

impl TreeUpdateBatch {
    /// An empty change-set.
    pub fn new() -> (b: TreeUpdateBatch)
        ensures
            b@.nodes.len() == 0,
            b@.stales.len() == 0,
            b@.n_new_leaves == 0,
            b@.n_stale_leaves == 0,
    {
        TreeUpdateBatch {
            node_batch: Vec::new(),
            stale_node_index_batch: Vec::new(),
            num_new_leaves: 0,
            num_stale_leaves: 0,
        }
    }

    /// Copies this change-set.
    pub fn clone_batch(&self) -> (b: TreeUpdateBatch)
        ensures
            b@ == self@,
    {
        let mut node_batch: Vec<(HashValue, TreeNode)> = Vec::new();
        let mut i: usize = 0;
        while i < self.node_batch.len()
            invariant
                i <= self.node_batch@.len(),
                node_batch@.len() == i,
                forall|k: int|
                    0 <= k < i ==> #[trigger] node_batch@[k].0@ == self.node_batch@[k].0@
                        && node_batch@[k].1@ == self.node_batch@[k].1@,
            decreases self.node_batch@.len() - i,
        {
            let p = &self.node_batch[i];
            node_batch.push((p.0.clone_hash(), p.1.clone_node()));
            i = i + 1;
        }
        let mut stale_batch: Vec<StaleNodeIndex> = Vec::new();
        let mut j: usize = 0;
        while j < self.stale_node_index_batch.len()
            invariant
                j <= self.stale_node_index_batch@.len(),
                stale_batch@.len() == j,
                forall|k: int|
                    0 <= k < j ==> #[trigger] stale_batch@[k]@ == self.stale_node_index_batch@[k]@,
            decreases self.stale_node_index_batch@.len() - j,
        {
            stale_batch.push(self.stale_node_index_batch[j].clone_index());
            j = j + 1;
        }
        let b = TreeUpdateBatch {
            node_batch,
            stale_node_index_batch: stale_batch,
            num_new_leaves: self.num_new_leaves,
            num_stale_leaves: self.num_stale_leaves,
        };
        proof {
            assert(nodes_view(b.node_batch@) =~= nodes_view(self.node_batch@));
            assert(stales_view(b.stale_node_index_batch@) =~= stales_view(
                self.stale_node_index_batch@,
            ));
            assert(b@ =~= self@);
        }
        b
    }
}

/// Looking a key up, removing it, and counting leaves relate as expected when
/// the key's first binding sits at index `j`.
pub proof fn lemma_remove_at_index(nodes: Seq<(Seq<u8>, NodeV)>, key: Seq<u8>, j: int)
    requires
        0 <= j < nodes.len(),
        nodes[j].0 == key,
        forall|i: int| 0 <= i < j ==> nodes[i].0 != key,
    ensures
        node_lookup(nodes, key) == Some(nodes[j].1),
        remove_node_key(nodes, key) == nodes.remove(j),
    decreases j,
{
    if j == 0 {
        assert(remove_node_key(nodes, key) == nodes.drop_first());
        assert(nodes.drop_first() =~= nodes.remove(0));
    } else {
        lemma_remove_at_index(nodes.drop_first(), key, j - 1);
        assert(nodes.drop_first()[j - 1] == nodes[j]);
        assert(remove_node_key(nodes, key) == seq![nodes[0]] + remove_node_key(
            nodes.drop_first(),
            key,
        ));
        assert(seq![nodes[0]] + nodes.drop_first().remove(j - 1) =~= nodes.remove(j));
    }
}

/// Removing an element in the middle adjusts the leaf count by that
/// element's leafness.
pub proof fn lemma_count_leaves_remove(nodes: Seq<(Seq<u8>, NodeV)>, j: int)
    requires
        0 <= j < nodes.len(),
    ensures
        count_leaves(nodes.remove(j)) == count_leaves(nodes) - if node_is_leaf(nodes[j].1) {
            1int
        } else {
            0int
        },
    decreases nodes.len(),
{
    if j == nodes.len() - 1 {
        assert(nodes.remove(j) =~= nodes.drop_last());
    } else {
        lemma_count_leaves_remove(nodes.drop_last(), j);
        assert(nodes.remove(j).drop_last() =~= nodes.drop_last().remove(j));
        assert(nodes.remove(j).last() == nodes.last());
    }
}

/// A key bound to a leaf contributes at least one to the leaf count.
pub proof fn lemma_leaf_in_batch_counts(nodes: Seq<(Seq<u8>, NodeV)>, j: int)
    requires
        0 <= j < nodes.len(),
        node_is_leaf(nodes[j].1),
    ensures
        count_leaves(nodes) >= 1,
    decreases nodes.len(),
{
    if j == nodes.len() - 1 {
        lemma_count_leaves_bounds(nodes.drop_last());
    } else {
        lemma_leaf_in_batch_counts(nodes.drop_last(), j);
    }
}

} // verus!
