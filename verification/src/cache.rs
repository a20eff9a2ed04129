//! The change-set cache: an ordered list of (root hash, change-set)
//! generations representing commits not yet flushed to durable storage, the
//! current head root hash, and an optional split point used during flush.
//!
//! Merging a new change-set must not corrupt the accounting of stale versus
//! live nodes: a node written by a still-unflushed generation and superseded
//! again before ever reaching storage is removed from the generation that
//! wrote it instead of being recorded as stale, since stale accounting is
//! only meaningful relative to durable storage.

use vstd::prelude::*;
use crate::hash::{HashValue, placeholder_hash, placeholder_view};
use crate::node::{TreeNode, NodeV, node_is_leaf};
use crate::change_set::{
    TreeUpdateBatch, BatchV, StaleNodeIndex, StaleV, nodes_view, stales_view, node_lookup,
    remove_node_key, count_leaves, leaves_consistent, lemma_remove_at_index,
    lemma_count_leaves_remove, lemma_leaf_in_batch_counts,
};

verus! {

/// The mathematical form of the cache.
#[verifier::ext_equal]
pub struct CacheV {
    pub root: Seq<u8>,
    pub gens: Seq<(Seq<u8>, BatchV)>,
    pub split: Option<int>,
}

/// The view of a generation list.
pub open spec fn gens_view(s: Seq<(HashValue, TreeUpdateBatch)>) -> Seq<(Seq<u8>, BatchV)> {
    s.map_values(|p: (HashValue, TreeUpdateBatch)| (p.0@, p.1@))
}

/// An in-memory cache of committed but unflushed generations, oldest first.
pub struct StateCache {
    pub root_hash: HashValue,
    pub change_set_list: Vec<(HashValue, TreeUpdateBatch)>,
    pub split_off_idx: Option<usize>,
}

impl View for StateCache {
    type V = CacheV;

    open spec fn view(&self) -> CacheV {
        CacheV {
            root: self.root_hash@,
            gens: gens_view(self.change_set_list@),
            split: match self.split_off_idx {
                Some(s) => Some(s as int),
                None => None,
            },
        }
    }
}

/// Every generation's new-leaf counter equals the number of leaves in its
/// node batch.
pub open spec fn gens_wf(gens: Seq<(Seq<u8>, BatchV)>) -> bool {
    forall|i: int| 0 <= i < gens.len() ==> leaves_consistent(#[trigger] gens[i].1)
}

/// A well-formed cache: every generation's leaf accounting is consistent.
pub open spec fn cache_wf(c: CacheV) -> bool {
    gens_wf(c.gens)
}

/// The newest generation whose node batch binds `key`, if any.
pub open spec fn find_gen(gens: Seq<(Seq<u8>, BatchV)>, key: Seq<u8>) -> Option<int>
    decreases gens.len(),
{
    if gens.len() == 0 {
        None
    } else if node_lookup(gens.last().1.nodes, key) is Some {
        Some(gens.len() - 1)
    } else {
        find_gen(gens.drop_last(), key)
    }
}

/// The node bound to `key` in the newest generation that binds it.
pub open spec fn cache_node_lookup(gens: Seq<(Seq<u8>, BatchV)>, key: Seq<u8>) -> Option<NodeV> {
    match find_gen(gens, key) {
        Some(i) => node_lookup(gens[i].1.nodes, key),
        None => None,
    }
}

/// Node resolution against the cache alone: the empty-tree sentinel resolves
/// to the null node, any other key to the newest cached binding.
pub open spec fn resolve_in_cache(c: CacheV, key: Seq<u8>) -> Option<NodeV> {
    if key == placeholder_view() {
        Some(NodeV::Null)
    } else {
        cache_node_lookup(c.gens, key)
    }
}

/// A found generation index is in range and its node batch binds the key.
pub proof fn lemma_find_gen_some(gens: Seq<(Seq<u8>, BatchV)>, key: Seq<u8>, i: int)
    requires
        find_gen(gens, key) == Some(i),
    ensures
        0 <= i < gens.len(),
        node_lookup(gens[i].1.nodes, key) is Some,
    decreases gens.len(),
{
    if gens.len() > 0 && node_lookup(gens.last().1.nodes, key) is None {
        lemma_find_gen_some(gens.drop_last(), key, i);
    }
}

/// When no generation binds the key, every generation misses it.
pub proof fn lemma_find_gen_none(gens: Seq<(Seq<u8>, BatchV)>, key: Seq<u8>)
    requires
        find_gen(gens, key) is None,
    ensures
        forall|i: int| 0 <= i < gens.len() ==> node_lookup(#[trigger] gens[i].1.nodes, key) is None,
    decreases gens.len(),
{
    if gens.len() > 0 {
        lemma_find_gen_none(gens.drop_last(), key);
        assert forall|i: int| 0 <= i < gens.len() implies node_lookup(
            #[trigger] gens[i].1.nodes,
            key,
        ) is None by {
            if i < gens.len() - 1 {
                assert(node_lookup(gens.drop_last()[i].1.nodes, key) is None);
                assert(gens.drop_last()[i] == gens[i]);
            } else {
                assert(node_lookup(gens.last().1.nodes, key) is None);
            }
        }
    }
}

/// A key bound somewhere in a node batch is found by `node_lookup`.
pub proof fn lemma_lookup_found(nodes: Seq<(Seq<u8>, NodeV)>, key: Seq<u8>, j: int)
    requires
        0 <= j < nodes.len(),
        nodes[j].0 == key,
    ensures
        node_lookup(nodes, key) is Some,
    decreases j,
{
    if nodes[0].0 != key {
        lemma_lookup_found(nodes.drop_first(), key, j - 1);
    }
}

/// A key bound nowhere in a node batch is missed by `node_lookup`.
pub proof fn lemma_lookup_missing(nodes: Seq<(Seq<u8>, NodeV)>, key: Seq<u8>)
    requires
        forall|i: int| 0 <= i < nodes.len() ==> (#[trigger] nodes[i]).0 != key,
    ensures
        node_lookup(nodes, key) is None,
    decreases nodes.len(),
{
    if nodes.len() > 0 {
        lemma_lookup_missing(nodes.drop_first(), key);
    }
}

/// One step of the merge, for one stale node key: if a cached generation
/// wrote the node, it vanishes from that generation (adjusting its leaf
/// count and the running removed-leaf count); otherwise a genuine stale
/// index, tagged with the new root, is kept.
pub open spec fn merge_stale_step(
    gens: Seq<(Seq<u8>, BatchV)>,
    kept: Seq<StaleV>,
    removed_leaves: int,
    new_root: Seq<u8>,
    key: Seq<u8>,
) -> (Seq<(Seq<u8>, BatchV)>, Seq<StaleV>, int) {
    match find_gen(gens, key) {
        Some(i) => {
            let g = gens[i];
            let n = node_lookup(g.1.nodes, key).unwrap();
            let leaf_adj: int = if node_is_leaf(n) {
                1
            } else {
                0
            };
            let g2 = BatchV {
                nodes: remove_node_key(g.1.nodes, key),
                stales: g.1.stales,
                n_new_leaves: g.1.n_new_leaves - leaf_adj,
                n_stale_leaves: g.1.n_stale_leaves,
            };
            (gens.update(i, (g.0, g2)), kept, removed_leaves + leaf_adj)
        },
        None => (gens, kept.push(StaleV { since: new_root, key }), removed_leaves),
    }
}

/// The merge's stale pass: folds `merge_stale_step` over the incoming stale
/// entries in order.
pub open spec fn merge_stales(
    gens: Seq<(Seq<u8>, BatchV)>,
    kept: Seq<StaleV>,
    removed_leaves: int,
    new_root: Seq<u8>,
    stales: Seq<StaleV>,
) -> (Seq<(Seq<u8>, BatchV)>, Seq<StaleV>, int)
    decreases stales.len(),
{
    if stales.len() == 0 {
        (gens, kept, removed_leaves)
    } else {
        let step = merge_stale_step(gens, kept, removed_leaves, new_root, stales[0].key);
        merge_stales(step.0, step.1, step.2, new_root, stales.drop_first())
    }
}

/// Folding over one more stale entry applies one more step.
pub proof fn lemma_merge_stales_snoc(
    gens: Seq<(Seq<u8>, BatchV)>,
    kept: Seq<StaleV>,
    removed_leaves: int,
    new_root: Seq<u8>,
    stales: Seq<StaleV>,
    x: StaleV,
)
    ensures
        merge_stales(gens, kept, removed_leaves, new_root, stales.push(x)) == {
            let mid = merge_stales(gens, kept, removed_leaves, new_root, stales);
            merge_stale_step(mid.0, mid.1, mid.2, new_root, x.key)
        },
    decreases stales.len(),
{
    let s1 = stales.push(x);
    if stales.len() == 0 {
        assert(s1[0] == x);
        assert(s1.drop_first() =~= Seq::<StaleV>::empty());
        let step = merge_stale_step(gens, kept, removed_leaves, new_root, x.key);
        assert(merge_stales(gens, kept, removed_leaves, new_root, s1) == merge_stales(
            step.0,
            step.1,
            step.2,
            new_root,
            s1.drop_first(),
        ));
        assert(merge_stales(step.0, step.1, step.2, new_root, s1.drop_first()) == (
            step.0,
            step.1,
            step.2,
        ));
        assert(merge_stales(gens, kept, removed_leaves, new_root, stales) == (
            gens,
            kept,
            removed_leaves,
        ));
    } else {
        let step = merge_stale_step(gens, kept, removed_leaves, new_root, stales[0].key);
        assert(s1[0] == stales[0]);
        assert(s1.drop_first() =~= stales.drop_first().push(x));
        assert(merge_stales(gens, kept, removed_leaves, new_root, s1) == merge_stales(
            step.0,
            step.1,
            step.2,
            new_root,
            s1.drop_first(),
        ));
        lemma_merge_stales_snoc(step.0, step.1, step.2, new_root, stales.drop_first(), x);
        assert(merge_stales(gens, kept, removed_leaves, new_root, stales) == merge_stales(
            step.0,
            step.1,
            step.2,
            new_root,
            stales.drop_first(),
        ));
    }
}

/// The stale pass never changes how many generations the cache holds.
pub proof fn lemma_merge_stales_len(
    gens: Seq<(Seq<u8>, BatchV)>,
    kept: Seq<StaleV>,
    removed_leaves: int,
    new_root: Seq<u8>,
    stales: Seq<StaleV>,
)
    ensures
        merge_stales(gens, kept, removed_leaves, new_root, stales).0.len() == gens.len(),
    decreases stales.len(),
{
    if stales.len() > 0 {
        let step = merge_stale_step(gens, kept, removed_leaves, new_root, stales[0].key);
        match find_gen(gens, stales[0].key) {
            Some(i) => {
                lemma_find_gen_some(gens, stales[0].key, i);
            },
            None => {},
        }
        assert(step.0.len() == gens.len());
        lemma_merge_stales_len(step.0, step.1, step.2, new_root, stales.drop_first());
    }
}

/// The whole merge: reconcile the incoming stale entries against the cached
/// generations, then append the new generation, whose new-leaf count is
/// recomputed from its node batch and whose stale-leaf count is the incoming
/// count less the leaves that vanished (never below zero), and advance the
/// head root.
pub open spec fn merge_spec(c: CacheV, new_root: Seq<u8>, cs: BatchV) -> CacheV {
    let stale_pass = merge_stales(c.gens, Seq::empty(), 0, new_root, cs.stales);
    let new_batch = BatchV {
        nodes: cs.nodes,
        stales: stale_pass.1,
        n_new_leaves: count_leaves(cs.nodes),
        n_stale_leaves: if cs.n_stale_leaves >= stale_pass.2 {
            cs.n_stale_leaves - stale_pass.2
        } else {
            0
        },
    };
    CacheV {
        root: new_root,
        gens: stale_pass.0.push((new_root, new_batch)),
        split: c.split,
    }
}

/// Finds the first binding of `key` in a node batch.
fn batch_find_index(nodes: &Vec<(HashValue, TreeNode)>, key: &HashValue) -> (r: Option<usize>)
    ensures
        match r {
            Some(j) => {
                &&& (j as int) < nodes@.len()
                &&& nodes@[j as int].0@ == key@
                &&& forall|i: int| 0 <= i < j ==> nodes@[i].0@ != key@
            },
            None => node_lookup(nodes_view(nodes@), key@) is None,
        },
{
    let mut j: usize = 0;
    while j < nodes.len()
        invariant
            j <= nodes@.len(),
            forall|i: int| 0 <= i < j ==> nodes@[i].0@ != key@,
        decreases nodes@.len() - j,
    {
        if nodes[j].0.eq_hash(key) {
            return Some(j);
        }
        j = j + 1;
    }
    proof {
        assert(forall|i: int|
            0 <= i < nodes_view(nodes@).len() ==> (#[trigger] nodes_view(nodes@)[i]).0 != key@);
        lemma_lookup_missing(nodes_view(nodes@), key@);
    }
    None
}

/// Finds the newest generation whose node batch binds `key`.
fn find_gen_exec(list: &Vec<(HashValue, TreeUpdateBatch)>, key: &HashValue) -> (r: Option<usize>)
    ensures
        match r {
            Some(j) => find_gen(gens_view(list@), key@) == Some(j as int),
            None => find_gen(gens_view(list@), key@) is None,
        },
{
    let ghost gens = gens_view(list@);
    let mut j: usize = list.len();
    proof {
        assert(gens.take(list@.len() as int) =~= gens);
    }
    while j > 0
        invariant
            j <= list@.len(),
            gens == gens_view(list@),
            find_gen(gens, key@) == find_gen(gens.take(j as int), key@),
        decreases j,
    {
        j = j - 1;
        let found = batch_find_index(&list[j].1.node_batch, key);
        proof {
            assert(gens.take(j + 1 as int).last() == gens[j as int]);
            assert(gens.take(j + 1 as int).drop_last() =~= gens.take(j as int));
            assert(gens[j as int].1.nodes == nodes_view(list@[j as int].1.node_batch@));
        }
        match found {
            Some(nj) => {
                proof {
                    lemma_lookup_found(nodes_view(list@[j as int].1.node_batch@), key@, nj as int);
                    assert(find_gen(gens.take(j + 1 as int), key@) == Some(j as int));
                }
                return Some(j);
            },
            None => {
                proof {
                    assert(find_gen(gens.take(j + 1 as int), key@) == find_gen(
                        gens.take(j as int),
                        key@,
                    ));
                }
            },
        }
    }
    proof {
        assert(gens.take(0) =~= Seq::<(Seq<u8>, BatchV)>::empty());
    }
    None
}

impl StateCache {
    /// A fresh cache: no generations, head root as given, no split point.
    pub fn new(initial_root: HashValue) -> (c: StateCache)
        ensures
            c@.root == initial_root@,
            c@.gens.len() == 0,
            c@.split is None,
            cache_wf(c@),
    {
        let c = StateCache {
            root_hash: initial_root,
            change_set_list: Vec::new(),
            split_off_idx: None,
        };
        proof {
            assert(c@.gens =~= Seq::<(Seq<u8>, BatchV)>::empty());
        }
        c
    }

    /// The current head root hash.
    pub fn head_root(&self) -> (h: HashValue)
        ensures
            h@ == self@.root,
    {
        self.root_hash.clone_hash()
    }

    /// Resolves a node key against this cache: the empty-tree sentinel
    /// resolves to the null node; any other key to the newest cached
    /// binding, scanning generations newest to oldest; otherwise nothing.
    pub fn find_node(&self, node_key: &HashValue) -> (r: Option<TreeNode>)
        ensures
            match r {
                Some(n) => resolve_in_cache(self@, node_key@) == Some(n@),
                None => resolve_in_cache(self@, node_key@) is None,
            },
    {
        let ph = placeholder_hash();
        if node_key.eq_hash(&ph) {
            return Some(TreeNode::Null);
        }
        match find_gen_exec(&self.change_set_list, node_key) {
            Some(gj) => {
                proof {
                    lemma_find_gen_some(self@.gens, node_key@, gj as int);
                }
                let batch = &self.change_set_list[gj].1;
                let nj = batch_find_index(&batch.node_batch, node_key);
                proof {
                    assert(self@.gens[gj as int].1.nodes == nodes_view(batch.node_batch@));
                    if nj is None {
                        assert(false);
                    }
                }
                let nj = nj.unwrap();
                let node = batch.node_batch[nj].1.clone_node();
                proof {
                    lemma_remove_at_index(
                        nodes_view(batch.node_batch@),
                        node_key@,
                        nj as int,
                    );
                }
                Some(node)
            },
            None => None,
        }
    }

    /// Deep-copies this cache (the snapshot step of an owned reader or a
    /// lazy dump: the copy's view is frozen even if this cache is mutated
    /// afterwards).
    pub fn clone_cache(&self) -> (c: StateCache)
        ensures
            c@ == self@,
    {
        let mut list: Vec<(HashValue, TreeUpdateBatch)> = Vec::new();
        let mut i: usize = 0;
        while i < self.change_set_list.len()
            invariant
                i <= self.change_set_list@.len(),
                list@.len() == i,
                forall|k: int| 0 <= k < i ==> #[trigger] list@[k].0@ == self.change_set_list@[k].0@,
                forall|k: int| 0 <= k < i ==> #[trigger] list@[k].1@ == self.change_set_list@[k].1@,
            decreases self.change_set_list@.len() - i,
        {
            let p = &self.change_set_list[i];
            list.push((p.0.clone_hash(), p.1.clone_batch()));
            i = i + 1;
        }
        let c = StateCache {
            root_hash: self.root_hash.clone_hash(),
            change_set_list: list,
            split_off_idx: self.split_off_idx,
        };
        proof {
            assert(c@.gens =~= self@.gens);
            assert(c@ =~= self@);
        }
        c
    }

    /// Merges one commit's change-set into the cache as a new generation,
    /// reconciling stale entries against still-unflushed nodes (the rule of
    /// `merge_spec`), and advances the head root.
    pub fn add_changeset(&mut self, root_hash: HashValue, cs: TreeUpdateBatch)
        requires
            cache_wf(old(self)@),
        ensures
            final(self)@ == merge_spec(old(self)@, root_hash@, cs@),
            cache_wf(final(self)@),
    {
        let ghost old_gens = self@.gens;
        let ghost stales = cs@.stales;
        let ghost root_v = root_hash@;
        let mut kept: Vec<StaleNodeIndex> = Vec::new();
        let mut removed_leaves: usize = 0;
        let mut si: usize = 0;
        proof {
            assert(stales.take(0) =~= Seq::<StaleV>::empty());
        }
        while si < cs.stale_node_index_batch.len()
            invariant
                si <= cs.stale_node_index_batch@.len(),
                removed_leaves <= si,
                stales == stales_view(cs.stale_node_index_batch@),
                root_v == root_hash@,
                gens_wf(gens_view(self.change_set_list@)),
                self@.root == old(self)@.root,
                self@.split == old(self)@.split,
                gens_view(self.change_set_list@) == merge_stales(
                    old_gens,
                    Seq::<StaleV>::empty(),
                    0,
                    root_v,
                    stales.take(si as int),
                ).0,
                stales_view(kept@) == merge_stales(
                    old_gens,
                    Seq::<StaleV>::empty(),
                    0,
                    root_v,
                    stales.take(si as int),
                ).1,
                removed_leaves as int == merge_stales(
                    old_gens,
                    Seq::<StaleV>::empty(),
                    0,
                    root_v,
                    stales.take(si as int),
                ).2,
            decreases cs.stale_node_index_batch@.len() - si,
        {
            let ghost pre_gens = gens_view(self.change_set_list@);
            let ghost pre_kept = stales_view(kept@);
            let ghost pre_lr = removed_leaves as int;
            let key = &cs.stale_node_index_batch[si].node_key;
            proof {
                assert(stales[si as int] == cs.stale_node_index_batch@[si as int]@);
                assert(stales.take(si + 1 as int) =~= stales.take(si as int).push(
                    stales[si as int],
                ));
                lemma_merge_stales_snoc(
                    old_gens,
                    Seq::<StaleV>::empty(),
                    0,
                    root_v,
                    stales.take(si as int),
                    stales[si as int],
                );
            }
            match find_gen_exec(&self.change_set_list, key) {
                Some(gj) => {
                    proof {
                        lemma_find_gen_some(pre_gens, key@, gj as int);
                        assert(gens_wf(pre_gens));
                        assert(leaves_consistent(pre_gens[gj as int].1));
                        assert(pre_gens[gj as int].1 == self.change_set_list@[gj as int].1@);
                    }
                    let mut gen = self.change_set_list.remove(gj);
                    let ghost old_nodes = nodes_view(gen.1.node_batch@);
                    let ghost old_n_new = gen.1.num_new_leaves as int;
                    proof {
                        assert(pre_gens[gj as int].1 == gen.1@);
                        assert(old_n_new == count_leaves(old_nodes));
                    }
                    let nj = batch_find_index(&gen.1.node_batch, key);
                    proof {
                        if nj is None {
                            assert(node_lookup(old_nodes, key@) is Some);
                            assert(false);
                        }
                    }
                    let nj = nj.unwrap();
                    proof {
                        lemma_remove_at_index(old_nodes, key@, nj as int);
                        lemma_count_leaves_remove(old_nodes, nj as int);
                        if node_is_leaf(old_nodes[nj as int].1) {
                            lemma_leaf_in_batch_counts(old_nodes, nj as int);
                        }
                    }
                    let removed = gen.1.node_batch.remove(nj);
                    let is_leaf = removed.1.is_leaf();
                    proof {
                        assert(removed.1@ == old_nodes[nj as int].1);
                        assert(nodes_view(gen.1.node_batch@) =~= old_nodes.remove(nj as int));
                        assert(nodes_view(gen.1.node_batch@) == remove_node_key(old_nodes, key@));
                    }
                    if is_leaf {
                        gen.1.num_new_leaves = gen.1.num_new_leaves - 1;
                        removed_leaves = removed_leaves + 1;
                    }
                    self.change_set_list.insert(gj, gen);
                    proof {
                        let step = merge_stale_step(pre_gens, pre_kept, pre_lr, root_v, key@);
                        assert(node_lookup(pre_gens[gj as int].1.nodes, key@).unwrap()
                            == old_nodes[nj as int].1);
                        assert(gens_view(self.change_set_list@) =~= pre_gens.update(
                            gj as int,
                            (pre_gens[gj as int].0, gen.1@),
                        ));
                        assert(gen.1@ =~= step.0[gj as int].1);
                        assert(gens_view(self.change_set_list@) =~= step.0);
                        assert(leaves_consistent(gen.1@));
                        let cur = gens_view(self.change_set_list@);
                        assert forall|i: int| 0 <= i < cur.len() implies leaves_consistent(
                            #[trigger] cur[i].1,
                        ) by {
                            if i != gj as int {
                                assert(cur[i] == pre_gens[i]);
                                assert(leaves_consistent(pre_gens[i].1));
                            }
                        }
                        assert(stales_view(kept@) == step.1);
                        assert(removed_leaves as int == step.2);
                        assert(merge_stales(
                            old_gens,
                            Seq::<StaleV>::empty(),
                            0,
                            root_v,
                            stales.take(si + 1 as int),
                        ) == step);
                    }
                },
                None => {
                    kept.push(
                        StaleNodeIndex {
                            stale_since_version: root_hash.clone_hash(),
                            node_key: key.clone_hash(),
                        },
                    );
                    proof {
                        let step = merge_stale_step(pre_gens, pre_kept, pre_lr, root_v, key@);
                        assert(stales_view(kept@) =~= step.1);
                        assert(gens_view(self.change_set_list@) == step.0);
                        assert(removed_leaves as int == step.2);
                        assert(merge_stales(
                            old_gens,
                            Seq::<StaleV>::empty(),
                            0,
                            root_v,
                            stales.take(si + 1 as int),
                        ) == step);
                    }
                },
            }
            si = si + 1;
        }
        proof {
            assert(stales.take(stales.len() as int) =~= stales);
        }
        let mut new_nodes: Vec<(HashValue, TreeNode)> = Vec::new();
        let mut new_leaves: usize = 0;
        let mut ni: usize = 0;
        proof {
            assert(nodes_view(cs.node_batch@).take(0) =~= Seq::<(Seq<u8>, NodeV)>::empty());
        }
        while ni < cs.node_batch.len()
            invariant
                ni <= cs.node_batch@.len(),
                new_leaves <= ni,
                nodes_view(new_nodes@) == nodes_view(cs.node_batch@).take(ni as int),
                new_leaves as int == count_leaves(nodes_view(cs.node_batch@).take(ni as int)),
            decreases cs.node_batch@.len() - ni,
        {
            let p = &cs.node_batch[ni];
            let is_leaf = p.1.is_leaf();
            new_nodes.push((p.0.clone_hash(), p.1.clone_node()));
            if is_leaf {
                new_leaves = new_leaves + 1;
            }
            proof {
                assert(nodes_view(new_nodes@) =~= nodes_view(cs.node_batch@).take(ni + 1 as int));
                assert(nodes_view(cs.node_batch@).take(ni + 1 as int).drop_last() =~= nodes_view(
                    cs.node_batch@,
                ).take(ni as int));
            }
            ni = ni + 1;
        }
        proof {
            assert(nodes_view(cs.node_batch@).take(cs.node_batch@.len() as int) =~= nodes_view(
                cs.node_batch@,
            ));
        }
        let new_stale_leaves: usize = if cs.num_stale_leaves >= removed_leaves {
            cs.num_stale_leaves - removed_leaves
        } else {
            0
        };
        let new_batch = TreeUpdateBatch {
            node_batch: new_nodes,
            stale_node_index_batch: kept,
            num_new_leaves: new_leaves,
            num_stale_leaves: new_stale_leaves,
        };
        proof {
            assert(old(self)@.gens == old_gens);
            assert(cs@.stales == stales);
            let spec_batch = merge_spec(old(self)@, root_v, cs@).gens.last().1;
            assert(new_batch@.nodes == spec_batch.nodes);
            assert(new_batch@.stales == spec_batch.stales);
            assert(new_batch@ =~= spec_batch);
        }
        let ghost pre_push = gens_view(self.change_set_list@);
        let root_copy = root_hash.clone_hash();
        self.change_set_list.push((root_hash, new_batch));
        self.root_hash = root_copy;
        proof {
            let spec_result = merge_spec(old(self)@, root_v, cs@);
            assert(gens_view(self.change_set_list@) =~= spec_result.gens);
            assert(self@ =~= spec_result);
            let cur = gens_view(self.change_set_list@);
            assert forall|i: int| 0 <= i < cur.len() implies leaves_consistent(
                #[trigger] cur[i].1,
            ) by {
                if i < cur.len() - 1 {
                    assert(cur[i] == pre_push[i]);
                    assert(leaves_consistent(pre_push[i].1));
                } else {
                    assert(cur[i].1 == new_batch@);
                }
            }
        }
    }

    /// Post-flush truncation: set the head root to the flushed root and keep
    /// only the generations added after the split point recorded at flush
    /// time (everything before it is now durable).
    pub(crate) fn reset(&mut self, root_hash: HashValue)
        requires
            match old(self).split_off_idx {
                Some(s) => s <= old(self).change_set_list@.len(),
                None => true,
            },
        ensures
            final(self)@.root == root_hash@,
            final(self)@.split == old(self)@.split,
            final(self)@.gens == match old(self)@.split {
                Some(s) => old(self)@.gens.subrange(s, old(self)@.gens.len() as int),
                None => Seq::<(Seq<u8>, BatchV)>::empty(),
            },
    {
        self.root_hash = root_hash;
        match self.split_off_idx {
            Some(s) => {
                let tail = self.change_set_list.split_off(s);
                self.change_set_list = tail;
                proof {
                    assert(gens_view(self.change_set_list@) =~= old(self)@.gens.subrange(
                        s as int,
                        old(self)@.gens.len() as int,
                    ));
                }
            },
            None => {
                self.change_set_list = Vec::new();
                proof {
                    assert(gens_view(self.change_set_list@) =~= Seq::<(Seq<u8>, BatchV)>::empty());
                }
            },
        }
    }
}

} // verus!
