//! Laws of the change-set cache, stated and proved over its mathematical
//! model: chiefly the dedup law — a node written by one unflushed commit and
//! superseded by a later commit, with no flush in between, never reaches
//! durable storage.

use vstd::prelude::*;
use crate::node::NodeV;
use crate::change_set::{BatchV, StaleV, node_lookup, remove_node_key};
use crate::cache::{
    CacheV, find_gen, merge_spec, merge_stales, merge_stale_step, lemma_find_gen_some,
    lemma_find_gen_none,
};
use crate::tree::flush_nodes;

verus! {

/// How many bindings a node batch holds for a key.
pub open spec fn key_count(nodes: Seq<(Seq<u8>, NodeV)>, k: Seq<u8>) -> int
    decreases nodes.len(),
{
    if nodes.len() == 0 {
        0
    } else {
        (if nodes[0].0 == k {
            1int
        } else {
            0int
        }) + key_count(nodes.drop_first(), k)
    }
}

/// Binding counts are not negative.
pub proof fn lemma_key_count_nonneg(nodes: Seq<(Seq<u8>, NodeV)>, k: Seq<u8>)
    ensures
        key_count(nodes, k) >= 0,
    decreases nodes.len(),
{
    if nodes.len() > 0 {
        lemma_key_count_nonneg(nodes.drop_first(), k);
    }
}

/// A key is missed exactly when it has no binding.
pub proof fn lemma_key_count_lookup(nodes: Seq<(Seq<u8>, NodeV)>, k: Seq<u8>)
    ensures
        (node_lookup(nodes, k) is None) <==> (key_count(nodes, k) == 0),
    decreases nodes.len(),
{
    if nodes.len() > 0 {
        lemma_key_count_lookup(nodes.drop_first(), k);
        lemma_key_count_nonneg(nodes.drop_first(), k);
    }
}

/// Removing one key's binding leaves every other key's count alone.
pub proof fn lemma_key_count_remove_other(nodes: Seq<(Seq<u8>, NodeV)>, k2: Seq<u8>, k: Seq<u8>)
    requires
        k2 != k,
    ensures
        key_count(remove_node_key(nodes, k2), k) == key_count(nodes, k),
    decreases nodes.len(),
{
    if nodes.len() > 0 {
        if nodes[0].0 == k2 {
        } else {
            lemma_key_count_remove_other(nodes.drop_first(), k2, k);
            let r = seq![nodes[0]] + remove_node_key(nodes.drop_first(), k2);
            assert(r.drop_first() =~= remove_node_key(nodes.drop_first(), k2));
            assert(r[0] == nodes[0]);
        }
    }
}

/// Removing a bound key's first binding lowers its count by one.
pub proof fn lemma_key_count_remove_same(nodes: Seq<(Seq<u8>, NodeV)>, k: Seq<u8>)
    requires
        node_lookup(nodes, k) is Some,
    ensures
        key_count(remove_node_key(nodes, k), k) == key_count(nodes, k) - 1,
    decreases nodes.len(),
{
    if nodes[0].0 == k {
    } else {
        lemma_key_count_remove_same(nodes.drop_first(), k);
        let r = seq![nodes[0]] + remove_node_key(nodes.drop_first(), k);
        assert(r.drop_first() =~= remove_node_key(nodes.drop_first(), k));
        assert(r[0] == nodes[0]);
    }
}

/// How many bindings all cached generations together hold for a key.
pub open spec fn gens_key_count(gens: Seq<(Seq<u8>, BatchV)>, k: Seq<u8>) -> int
    decreases gens.len(),
{
    if gens.len() == 0 {
        0
    } else {
        gens_key_count(gens.drop_last(), k) + key_count(gens.last().1.nodes, k)
    }
}

/// Generation-wide counts are not negative.
pub proof fn lemma_gens_key_count_nonneg(gens: Seq<(Seq<u8>, BatchV)>, k: Seq<u8>)
    ensures
        gens_key_count(gens, k) >= 0,
    decreases gens.len(),
{
    if gens.len() > 0 {
        lemma_gens_key_count_nonneg(gens.drop_last(), k);
        lemma_key_count_nonneg(gens.last().1.nodes, k);
    }
}

/// One generation's count never exceeds the generation-wide count.
pub proof fn lemma_gens_key_count_at(gens: Seq<(Seq<u8>, BatchV)>, k: Seq<u8>, i: int)
    requires
        0 <= i < gens.len(),
    ensures
        key_count(gens[i].1.nodes, k) <= gens_key_count(gens, k),
    decreases gens.len(),
{
    if i == gens.len() - 1 {
        lemma_gens_key_count_nonneg(gens.drop_last(), k);
    } else {
        lemma_gens_key_count_at(gens.drop_last(), k, i);
        lemma_key_count_nonneg(gens.last().1.nodes, k);
        assert(gens.drop_last()[i] == gens[i]);
    }
}

/// Replacing one generation shifts the generation-wide count by the
/// difference of that generation's counts.
pub proof fn lemma_gens_key_count_update(
    gens: Seq<(Seq<u8>, BatchV)>,
    k: Seq<u8>,
    i: int,
    g2: (Seq<u8>, BatchV),
)
    requires
        0 <= i < gens.len(),
    ensures
        gens_key_count(gens.update(i, g2), k) == gens_key_count(gens, k) - key_count(
            gens[i].1.nodes,
            k,
        ) + key_count(g2.1.nodes, k),
    decreases gens.len(),
{
    let u = gens.update(i, g2);
    if i == gens.len() - 1 {
        assert(u.drop_last() =~= gens.drop_last());
        assert(u.last() == g2);
    } else {
        lemma_gens_key_count_update(gens.drop_last(), k, i, g2);
        assert(u.drop_last() =~= gens.drop_last().update(i, g2));
        assert(u.last() == gens.last());
        assert(gens.drop_last()[i] == gens[i]);
    }
}

/// A generation-wide count of zero means every generation misses the key.
pub proof fn lemma_gens_key_count_zero(gens: Seq<(Seq<u8>, BatchV)>, k: Seq<u8>)
    requires
        gens_key_count(gens, k) == 0,
    ensures
        forall|i: int|
            0 <= i < gens.len() ==> node_lookup(#[trigger] gens[i].1.nodes, k) is None,
    decreases gens.len(),
{
    if gens.len() > 0 {
        lemma_gens_key_count_nonneg(gens.drop_last(), k);
        lemma_key_count_nonneg(gens.last().1.nodes, k);
        lemma_gens_key_count_zero(gens.drop_last(), k);
        lemma_key_count_lookup(gens.last().1.nodes, k);
        assert forall|i: int| 0 <= i < gens.len() implies node_lookup(
            #[trigger] gens[i].1.nodes,
            k,
        ) is None by {
            if i < gens.len() - 1 {
                assert(gens.drop_last()[i] == gens[i]);
            } else {
                assert(gens[i] == gens.last());
            }
        }
    }
}

/// One merge step never raises a key's generation-wide count; a step for the
/// key itself, when at most one binding exists, clears it.
pub proof fn lemma_step_key_count(
    gens: Seq<(Seq<u8>, BatchV)>,
    kept: Seq<StaleV>,
    removed_leaves: int,
    new_root: Seq<u8>,
    k2: Seq<u8>,
    k: Seq<u8>,
)
    ensures
        ({
            let s = merge_stale_step(gens, kept, removed_leaves, new_root, k2);
            &&& (k2 != k ==> gens_key_count(s.0, k) == gens_key_count(gens, k))
            &&& (k2 == k && gens_key_count(gens, k) <= 1 ==> gens_key_count(s.0, k) == 0)
        }),
{
    let s = merge_stale_step(gens, kept, removed_leaves, new_root, k2);
    match find_gen(gens, k2) {
        Some(i) => {
            lemma_find_gen_some(gens, k2, i);
            let g = gens[i];
            let g2 = s.0[i];
            lemma_gens_key_count_update(gens, k, i, s.0[i]);
            if k2 != k {
                lemma_key_count_remove_other(g.1.nodes, k2, k);
            } else {
                lemma_key_count_remove_same(g.1.nodes, k);
                lemma_key_count_lookup(g.1.nodes, k);
                lemma_key_count_nonneg(g.1.nodes, k);
                lemma_gens_key_count_at(gens, k, i);
                lemma_gens_key_count_nonneg(s.0, k);
            }
        },
        None => {
            if k2 == k {
                lemma_find_gen_none(gens, k);
                lemma_gens_key_count_zero_converse(gens, k);
            }
        },
    }
}

/// When every generation misses the key, the generation-wide count is zero.
pub proof fn lemma_gens_key_count_zero_converse(gens: Seq<(Seq<u8>, BatchV)>, k: Seq<u8>)
    requires
        forall|i: int|
            0 <= i < gens.len() ==> node_lookup(#[trigger] gens[i].1.nodes, k) is None,
    ensures
        gens_key_count(gens, k) == 0,
    decreases gens.len(),
{
    if gens.len() > 0 {
        assert(forall|i: int|
            0 <= i < gens.len() - 1 ==> gens.drop_last()[i] == #[trigger] gens[i]);
        assert forall|i: int| 0 <= i < gens.drop_last().len() implies node_lookup(
            #[trigger] gens.drop_last()[i].1.nodes,
            k,
        ) is None by {
            assert(gens.drop_last()[i] == gens[i]);
        }
        lemma_gens_key_count_zero_converse(gens.drop_last(), k);
        assert(gens.last() == gens[gens.len() - 1]);
        lemma_key_count_lookup(gens.last().1.nodes, k);
    }
}

/// Through the whole stale pass, a key's generation-wide count never rises;
/// and if some stale entry names the key while at most one binding exists,
/// the pass clears it.
pub proof fn lemma_merge_stales_key_count(
    gens: Seq<(Seq<u8>, BatchV)>,
    kept: Seq<StaleV>,
    removed_leaves: int,
    new_root: Seq<u8>,
    stales: Seq<StaleV>,
    k: Seq<u8>,
)
    requires
        gens_key_count(gens, k) <= 1,
    ensures
        ({
            let m = merge_stales(gens, kept, removed_leaves, new_root, stales);
            &&& gens_key_count(m.0, k) <= gens_key_count(gens, k)
            &&& ((exists|j: int| 0 <= j < stales.len() && stales[j].key == k)
                ==> gens_key_count(m.0, k) == 0)
        }),
    decreases stales.len(),
{
    if stales.len() > 0 {
        let s = merge_stale_step(gens, kept, removed_leaves, new_root, stales[0].key);
        assert(merge_stales(gens, kept, removed_leaves, new_root, stales) == merge_stales(
            s.0,
            s.1,
            s.2,
            new_root,
            stales.drop_first(),
        ));
        lemma_step_key_count(gens, kept, removed_leaves, new_root, stales[0].key, k);
        lemma_gens_key_count_nonneg(s.0, k);
        lemma_gens_key_count_nonneg(gens, k);
        lemma_merge_stales_key_count(s.0, s.1, s.2, new_root, stales.drop_first(), k);
        if exists|j: int| 0 <= j < stales.len() && stales[j].key == k {
            let j = choose|j: int| 0 <= j < stales.len() && stales[j].key == k;
            if stales[0].key == k {
                lemma_gens_key_count_nonneg(
                    merge_stales(s.0, s.1, s.2, new_root, stales.drop_first()).0,
                    k,
                );
            } else {
                assert(stales.drop_first()[j - 1] == stales[j]);
                assert(exists|j2: int|
                    0 <= j2 < stales.drop_first().len() && stales.drop_first()[j2].key == k);
            }
        }
    }
}

/// Looking a key up in a concatenation: the front answers first.
pub proof fn lemma_node_lookup_concat(
    a: Seq<(Seq<u8>, NodeV)>,
    b: Seq<(Seq<u8>, NodeV)>,
    k: Seq<u8>,
)
    ensures
        node_lookup(a + b, k) == if node_lookup(a, k) is Some {
            node_lookup(a, k)
        } else {
            node_lookup(b, k)
        },
    decreases a.len(),
{
    if a.len() == 0 {
        assert(a + b =~= b);
    } else {
        lemma_node_lookup_concat(a.drop_first(), b, k);
        assert((a + b)[0] == a[0]);
        assert((a + b).drop_first() =~= a.drop_first() + b);
    }
}

/// A key that no generation binds is absent from what a flush writes.
pub proof fn lemma_flush_nodes_missing(gens: Seq<(Seq<u8>, BatchV)>, k: Seq<u8>)
    requires
        gens_key_count(gens, k) == 0,
    ensures
        node_lookup(flush_nodes(gens), k) is None,
    decreases gens.len(),
{
    if gens.len() > 0 {
        lemma_gens_key_count_nonneg(gens.drop_last(), k);
        lemma_key_count_nonneg(gens.last().1.nodes, k);
        lemma_flush_nodes_missing(gens.drop_last(), k);
        lemma_key_count_lookup(gens.last().1.nodes, k);
        lemma_node_lookup_concat(flush_nodes(gens.drop_last()), gens.last().1.nodes, k);
    }
}

/// Dedup law. Starting from a cache none of whose generations wrote node key
/// `k`: one commit writes `k` (once), a later commit marks `k` stale without
/// rewriting it, and no flush comes between them. Then a flush after both
/// commits hands durable storage no binding for `k` — the superseded node
/// vanishes without ever being written.
pub proof fn lemma_dedup_superseded_node(
    c: CacheV,
    r1: Seq<u8>,
    cs1: BatchV,
    r2: Seq<u8>,
    cs2: BatchV,
    k: Seq<u8>,
)
    requires
        gens_key_count(c.gens, k) == 0,
        key_count(cs1.nodes, k) == 1,
        exists|j: int| 0 <= j < cs2.stales.len() && cs2.stales[j].key == k,
        node_lookup(cs2.nodes, k) is None,
    ensures
        node_lookup(flush_nodes(merge_spec(merge_spec(c, r1, cs1), r2, cs2).gens), k) is None,
{
    let m1 = merge_spec(c, r1, cs1);
    let pass1 = merge_stales(c.gens, Seq::<StaleV>::empty(), 0, r1, cs1.stales);
    lemma_merge_stales_key_count(c.gens, Seq::<StaleV>::empty(), 0, r1, cs1.stales, k);
    lemma_gens_key_count_nonneg(pass1.0, k);
    assert(gens_key_count(pass1.0, k) == 0);
    assert(m1.gens.drop_last() =~= pass1.0);
    assert(m1.gens.last().1.nodes == cs1.nodes);
    assert(gens_key_count(m1.gens, k) == 1);

    let m2 = merge_spec(m1, r2, cs2);
    let pass2 = merge_stales(m1.gens, Seq::<StaleV>::empty(), 0, r2, cs2.stales);
    lemma_merge_stales_key_count(m1.gens, Seq::<StaleV>::empty(), 0, r2, cs2.stales, k);
    assert(gens_key_count(pass2.0, k) == 0);
    assert(m2.gens.drop_last() =~= pass2.0);
    assert(m2.gens.last().1.nodes == cs2.nodes);
    lemma_key_count_lookup(cs2.nodes, k);
    assert(gens_key_count(m2.gens, k) == 0);
    lemma_flush_nodes_missing(m2.gens, k);
}

} // verus!
