//! The state tree: the public-facing versioned store. It buffers pending
//! key/value writes, computes a new generation on commit by invoking the
//! external tree algorithm, merges the result into the change-set cache,
//! and exposes proof reads, dump/export, and a flush operation that drains
//! the cache into durable storage.

use vstd::prelude::*;
use crate::hash::{HashValue, placeholder_hash, placeholder_view};
use crate::blob::Blob;
use crate::node::{TreeNode, NodeV};
use crate::errors::TreeError;
use crate::errors::StoreError;
use crate::raw_key::RawKey;
use crate::change_set::{TreeUpdateBatch, BatchV, StaleV, nodes_view};
use crate::cache::{
    StateCache, CacheV, cache_wf, merge_spec, resolve_in_cache,
};
use crate::store::{NodeStore, opt_node_view, map_get, to_node_map};
use crate::algorithm::TreeAlgorithm;
use crate::state_set::StateSet;

verus! {

/// The view of an optional byte vector.
pub open spec fn opt_vec_view(o: Option<Vec<u8>>) -> Option<Seq<u8>> {
    match o {
        Some(v) => Some(v@),
        None => None,
    }
}

/// The view of an optional blob.
pub open spec fn opt_blob_view(o: Option<Blob>) -> Option<Seq<u8>> {
    match o {
        Some(b) => Some(b@),
        None => None,
    }
}

/// The view of a pending-update buffer: (encoded key, staged value or
/// deletion) in buffer order.
pub open spec fn buffer_view<K: RawKey>(b: Seq<(K, Option<Blob>)>) -> Seq<
    (Seq<u8>, Option<Seq<u8>>),
> {
    b.map_values(|p: (K, Option<Blob>)| (p.0.encoded(), opt_blob_view(p.1)))
}

/// The staged entry for an encoded key: the first binding, if any.
pub open spec fn buffer_find(b: Seq<(Seq<u8>, Option<Seq<u8>>)>, enc: Seq<u8>) -> Option<
    Option<Seq<u8>>,
>
    decreases b.len(),
{
    if b.len() == 0 {
        None
    } else if b[0].0 == enc {
        Some(b[0].1)
    } else {
        buffer_find(b.drop_first(), enc)
    }
}

/// A buffer with the first binding of `enc` removed.
pub open spec fn buffer_remove(b: Seq<(Seq<u8>, Option<Seq<u8>>)>, enc: Seq<u8>) -> Seq<
    (Seq<u8>, Option<Seq<u8>>),
>
    decreases b.len(),
{
    if b.len() == 0 {
        b
    } else if b[0].0 == enc {
        b.drop_first()
    } else {
        seq![b[0]] + buffer_remove(b.drop_first(), enc)
    }
}

/// Staging a write: the key's old binding (if any) goes away and the new one
/// is appended; the last write for a key wins.
pub open spec fn buffer_put(
    b: Seq<(Seq<u8>, Option<Seq<u8>>)>,
    enc: Seq<u8>,
    val: Option<Seq<u8>>,
) -> Seq<(Seq<u8>, Option<Seq<u8>>)> {
    buffer_remove(b, enc).push((enc, val))
}

/// Each key is staged at most once.
pub open spec fn buffer_wf(b: Seq<(Seq<u8>, Option<Seq<u8>>)>) -> bool {
    forall|i: int, j: int| 0 <= i < j < b.len() ==> b[i].0 != b[j].0
}

/// The mathematical form of a state tree.
#[verifier::ext_equal]
pub struct TreeV {
    pub storage_root: Seq<u8>,
    pub buffer: Seq<(Seq<u8>, Option<Seq<u8>>)>,
    pub cache: CacheV,
}

/// A well-formed tree: consistent cache accounting and a deduplicated
/// buffer.
pub open spec fn tree_wf(t: TreeV) -> bool {
    &&& cache_wf(t.cache)
    &&& buffer_wf(t.buffer)
}

/// Removing a key from a deduplicated buffer removes its only binding.
pub proof fn lemma_buffer_remove_all(b: Seq<(Seq<u8>, Option<Seq<u8>>)>, enc: Seq<u8>)
    requires
        buffer_wf(b),
    ensures
        buffer_wf(buffer_remove(b, enc)),
        forall|i: int|
            0 <= i < buffer_remove(b, enc).len() ==> (#[trigger] buffer_remove(b, enc)[i]).0
                != enc,
        buffer_remove(b, enc).len() <= b.len(),
    decreases b.len(),
{
    if b.len() > 0 {
        let d = b.drop_first();
        assert(forall|i: int| 0 <= i < d.len() ==> #[trigger] d[i] == b[i + 1]);
        assert(buffer_wf(d));
        if b[0].0 == enc {
            assert(forall|i: int| 0 <= i < d.len() ==> (#[trigger] d[i]).0 != enc);
        } else {
            lemma_buffer_remove_all(d, enc);
            let r = seq![b[0]] + buffer_remove(d, enc);
            assert(forall|i: int| 0 < i < r.len() ==> #[trigger] r[i] == buffer_remove(d, enc)[i
                - 1]);
            assert(buffer_remove(b, enc) == r);
            assert forall|i: int, j: int| 0 <= i < j < r.len() implies r[i].0 != r[j].0 by {
                if i > 0 {
                    assert(r[i] == buffer_remove(d, enc)[i - 1]);
                    assert(r[j] == buffer_remove(d, enc)[j - 1]);
                } else {
                    assert(r[j] == buffer_remove(d, enc)[j - 1]);
                    lemma_remove_member_of(d, enc, j - 1);
                    let k = choose|k: int|
                        0 <= k < d.len() && d[k] == buffer_remove(d, enc)[j - 1];
                    assert(d[k] == b[k + 1]);
                    assert(b[0].0 != b[k + 1].0);
                }
            }
        }
    }
}

/// Every element of a buffer with a key removed was an element of the
/// buffer.
pub proof fn lemma_remove_member_of(b: Seq<(Seq<u8>, Option<Seq<u8>>)>, enc: Seq<u8>, j: int)
    requires
        0 <= j < buffer_remove(b, enc).len(),
    ensures
        exists|k: int| 0 <= k < b.len() && b[k] == #[trigger] buffer_remove(b, enc)[j],
    decreases b.len(),
{
    if b.len() > 0 {
        if b[0].0 == enc {
            assert(b[j + 1] == buffer_remove(b, enc)[j]);
        } else {
            if j == 0 {
                assert(b[0] == buffer_remove(b, enc)[0]);
            } else {
                lemma_remove_member_of(b.drop_first(), enc, j - 1);
                let k = choose|k: int|
                    0 <= k < b.drop_first().len() && b.drop_first()[k] == buffer_remove(
                        b.drop_first(),
                        enc,
                    )[j - 1];
                assert(b[k + 1] == buffer_remove(b, enc)[j]);
            }
        }
    }
}

/// After staging a write, the key's staged entry is that write.
pub proof fn lemma_buffer_put_find(
    b: Seq<(Seq<u8>, Option<Seq<u8>>)>,
    enc: Seq<u8>,
    val: Option<Seq<u8>>,
)
    requires
        buffer_wf(b),
    ensures
        buffer_find(buffer_put(b, enc, val), enc) == Some(val),
        buffer_wf(buffer_put(b, enc, val)),
{
    lemma_buffer_remove_all(b, enc);
    lemma_buffer_find_past(buffer_remove(b, enc), enc, val);
    let r = buffer_put(b, enc, val);
    assert forall|i: int, j: int| 0 <= i < j < r.len() implies r[i].0 != r[j].0 by {
        if j < r.len() - 1 {
            assert(r[i] == buffer_remove(b, enc)[i]);
            assert(r[j] == buffer_remove(b, enc)[j]);
        } else {
            assert(r[i] == buffer_remove(b, enc)[i]);
        }
    }
}

/// Appending an entry for one key does not change what another key finds.
pub proof fn lemma_buffer_find_push_other(
    b: Seq<(Seq<u8>, Option<Seq<u8>>)>,
    x: (Seq<u8>, Option<Seq<u8>>),
    enc2: Seq<u8>,
)
    requires
        x.0 != enc2,
    ensures
        buffer_find(b.push(x), enc2) == buffer_find(b, enc2),
    decreases b.len(),
{
    let p = b.push(x);
    if b.len() == 0 {
        assert(p[0] == x);
        assert(p.drop_first() =~= Seq::<(Seq<u8>, Option<Seq<u8>>)>::empty());
        assert(buffer_find(p, enc2) == buffer_find(p.drop_first(), enc2));
        assert(buffer_find(p, enc2) is None);
    } else {
        assert(p[0] == b[0]);
        assert(p.drop_first() =~= b.drop_first().push(x));
        if p[0].0 == enc2 {
            assert(buffer_find(p, enc2) == Some(p[0].1));
            assert(buffer_find(b, enc2) == Some(b[0].1));
        } else {
            lemma_buffer_find_push_other(b.drop_first(), x, enc2);
            assert(buffer_find(p, enc2) == buffer_find(p.drop_first(), enc2));
            assert(buffer_find(p.drop_first(), enc2) == buffer_find(b.drop_first(), enc2));
            assert(buffer_find(b, enc2) == buffer_find(b.drop_first(), enc2));
        }
    }
}

/// Removing one key's binding does not change what another key finds.
pub proof fn lemma_buffer_remove_find_other(
    b: Seq<(Seq<u8>, Option<Seq<u8>>)>,
    enc: Seq<u8>,
    enc2: Seq<u8>,
)
    requires
        enc != enc2,
    ensures
        buffer_find(buffer_remove(b, enc), enc2) == buffer_find(b, enc2),
    decreases b.len(),
{
    if b.len() > 0 {
        lemma_buffer_remove_find_other(b.drop_first(), enc, enc2);
        if b[0].0 == enc {
        } else {
            let r = seq![b[0]] + buffer_remove(b.drop_first(), enc);
            assert(r[0] == b[0]);
            assert(r.drop_first() =~= buffer_remove(b.drop_first(), enc));
        }
    }
}

/// Staging a write for one key leaves every other key's staged entry alone:
/// together with `lemma_buffer_put_find`, after any sequence of staged
/// writes and deletions each key's staged entry is the last one staged for
/// that key.
pub proof fn lemma_buffer_put_other(
    b: Seq<(Seq<u8>, Option<Seq<u8>>)>,
    enc: Seq<u8>,
    val: Option<Seq<u8>>,
    enc2: Seq<u8>,
)
    requires
        enc2 != enc,
    ensures
        buffer_find(buffer_put(b, enc, val), enc2) == buffer_find(b, enc2),
{
    lemma_buffer_remove_find_other(b, enc, enc2);
    lemma_buffer_find_push_other(buffer_remove(b, enc), (enc, val), enc2);
}

/// A key bound only at the end is found there.
pub proof fn lemma_buffer_find_past(
    b: Seq<(Seq<u8>, Option<Seq<u8>>)>,
    enc: Seq<u8>,
    val: Option<Seq<u8>>,
)
    requires
        forall|i: int| 0 <= i < b.len() ==> (#[trigger] b[i]).0 != enc,
    ensures
        buffer_find(b.push((enc, val)), enc) == Some(val),
    decreases b.len(),
{
    if b.len() == 0 {
        assert(b.push((enc, val))[0] == (enc, val));
    } else {
        lemma_buffer_find_past(b.drop_first(), enc, val);
        assert(b.push((enc, val)).drop_first() =~= b.drop_first().push((enc, val)));
    }
}

/// Removing an absent key changes nothing.
pub proof fn lemma_buffer_remove_absent(b: Seq<(Seq<u8>, Option<Seq<u8>>)>, enc: Seq<u8>)
    requires
        forall|i: int| 0 <= i < b.len() ==> (#[trigger] b[i]).0 != enc,
    ensures
        buffer_remove(b, enc) == b,
    decreases b.len(),
{
    if b.len() > 0 {
        lemma_buffer_remove_absent(b.drop_first(), enc);
        assert(seq![b[0]] + b.drop_first() =~= b);
    }
}

/// A buffer that binds a key at `j` and nowhere earlier finds that binding,
/// and removing the key removes exactly that element.
pub proof fn lemma_buffer_at_index(b: Seq<(Seq<u8>, Option<Seq<u8>>)>, enc: Seq<u8>, j: int)
    requires
        0 <= j < b.len(),
        b[j].0 == enc,
        forall|i: int| 0 <= i < j ==> (#[trigger] b[i]).0 != enc,
    ensures
        buffer_find(b, enc) == Some(b[j].1),
        buffer_remove(b, enc) == b.remove(j),
    decreases j,
{
    if j == 0 {
        assert(b.drop_first() =~= b.remove(0));
    } else {
        lemma_buffer_at_index(b.drop_first(), enc, j - 1);
        assert(b.drop_first()[j - 1] == b[j]);
        assert(seq![b[0]] + b.drop_first().remove(j - 1) =~= b.remove(j));
    }
}

/// A buffer that binds a key nowhere misses it.
pub proof fn lemma_buffer_find_missing(b: Seq<(Seq<u8>, Option<Seq<u8>>)>, enc: Seq<u8>)
    requires
        forall|i: int| 0 <= i < b.len() ==> (#[trigger] b[i]).0 != enc,
    ensures
        buffer_find(b, enc) is None,
    decreases b.len(),
{
    if b.len() > 0 {
        lemma_buffer_find_missing(b.drop_first(), enc);
    }
}

/// Finds the first staged binding of `key` in a pending buffer.
fn buffer_index_of<K: RawKey>(updates: &Vec<(K, Option<Blob>)>, key: &K) -> (r: Option<usize>)
    ensures
        match r {
            Some(j) => {
                &&& (j as int) < updates@.len()
                &&& buffer_view(updates@)[j as int].0 == key.encoded()
                &&& forall|i: int|
                    0 <= i < j ==> (#[trigger] buffer_view(updates@)[i]).0 != key.encoded()
            },
            None => forall|i: int|
                0 <= i < updates@.len() ==> (#[trigger] buffer_view(updates@)[i]).0
                    != key.encoded(),
        },
{
    let mut i: usize = 0;
    while i < updates.len()
        invariant
            i <= updates@.len(),
            forall|k: int|
                0 <= k < i ==> (#[trigger] buffer_view(updates@)[k]).0 != key.encoded(),
        decreases updates@.len() - i,
    {
        if updates[i].0.key_eq(key) {
            proof {
                assert(buffer_view(updates@)[i as int].0 == key.encoded());
            }
            return Some(i);
        }
        proof {
            assert(buffer_view(updates@)[i as int].0 == updates@[i as int].0.encoded());
        }
        i = i + 1;
    }
    None
}

/// The node keys and nodes that a flush writes: every generation's node
/// batch, oldest generation first, in batch order.
pub open spec fn flush_nodes(gens: Seq<(Seq<u8>, BatchV)>) -> Seq<(Seq<u8>, NodeV)>
    decreases gens.len(),
{
    if gens.len() == 0 {
        Seq::empty()
    } else {
        flush_nodes(gens.drop_last()) + gens.last().1.nodes
    }
}

/// Full node resolution: the empty-tree sentinel, then the cache generations
/// newest to oldest, then durable storage.
pub open spec fn resolve_node_full(
    c: CacheV,
    durable: Map<Seq<u8>, NodeV>,
    key: Seq<u8>,
) -> Option<NodeV> {
    match resolve_in_cache(c, key) {
        Some(n) => Some(n),
        None => map_get(durable, key),
    }
}

/// Resolves a node by its key: the empty-tree sentinel resolves to the null
/// node; otherwise the cache generations answer, newest first; otherwise the
/// durable store is asked.
pub fn resolve_node<S: NodeStore>(cache: &StateCache, store: &S, node_key: &HashValue) -> (r:
    Result<Option<TreeNode>, StoreError>)
    ensures
        r matches Ok(opt) ==> opt_node_view(opt) == resolve_node_full(
            cache@,
            store.contents(),
            node_key@,
        ),
        r is Err ==> resolve_in_cache(cache@, node_key@) is None,
{
    match cache.find_node(node_key) {
        Some(n) => Ok(Some(n)),
        None => store.get_node(node_key),
    }
}

/// A tree-node reader owning a snapshot of the cache, for reads that must
/// outlive the call that created them; the borrowing fast path is
/// [`resolve_node`].
pub struct StorageTreeReader {
    pub cache: StateCache,
}

impl StorageTreeReader {
    /// Takes ownership of a cache snapshot.
    pub fn new(cache: StateCache) -> (r: StorageTreeReader)
        ensures
            r.cache@ == cache@,
    {
        StorageTreeReader { cache }
    }

    /// Resolves a node by its key against the snapshot and a store.
    pub fn get_node_option<S: NodeStore>(&self, store: &S, node_key: &HashValue) -> (r: Result<
        Option<TreeNode>,
        StoreError,
    >)
        ensures
            r matches Ok(opt) ==> opt_node_view(opt) == resolve_node_full(
                self.cache@,
                store.contents(),
                node_key@,
            ),
            r is Err ==> resolve_in_cache(self.cache@, node_key@) is None,
    {
        resolve_node(&self.cache, store, node_key)
    }
}

/// Decodes the raw pairs of a state set into staged writes, each key through
/// the raw-key contract. A key that does not decode fails the whole batch.
pub fn decode_state_set<K: RawKey>(entries: Vec<(Vec<u8>, Vec<u8>)>) -> (r: Result<
    Vec<(K, Option<Blob>)>,
    TreeError,
>)
    ensures
        r matches Ok(kvs) ==> kvs@.len() == entries@.len() && forall|i: int|
            0 <= i < entries@.len() ==> (#[trigger] kvs@[i]).0.encoded() == entries@[i].0@
                && opt_blob_view(kvs@[i].1) == Some(entries@[i].1@),
        r matches Err(e) ==> e is KeyDecode,
{
    let mut kvs: Vec<(K, Option<Blob>)> = Vec::new();
    let mut i: usize = 0;
    while i < entries.len()
        invariant
            i <= entries@.len(),
            kvs@.len() == i,
            forall|k: int|
                0 <= k < i ==> (#[trigger] kvs@[k]).0.encoded() == entries@[k].0@
                    && opt_blob_view(kvs@[k].1) == Some(entries@[k].1@),
        decreases entries@.len() - i,
    {
        let p = &entries[i];
        let key = match K::decode_key(p.0.as_slice()) {
            Ok(k) => k,
            Err(_) => {
                return Err(TreeError::KeyDecode);
            },
        };
        kvs.push((key, Some(Blob::from_vec(crate::hash::clone_bytes(&p.1)))));
        i = i + 1;
    }
    Ok(kvs)
}

/// Encodes dumped (key, value) pairs as a state set: the pairs in order,
/// each key in its byte encoding.
pub fn encode_state_set<K: RawKey>(items: Vec<(K, Blob)>) -> (r: Result<StateSet, TreeError>)
    ensures
        r matches Ok(ss) ==> ss@.len() == items@.len() && forall|i: int|
            0 <= i < items@.len() ==> #[trigger] ss@[i] == (items@[i].0.encoded(), items@[i].1@),
        r matches Err(e) ==> e is KeyEncode,
{
    let mut entries: Vec<(Vec<u8>, Vec<u8>)> = Vec::new();
    let mut i: usize = 0;
    while i < items.len()
        invariant
            i <= items@.len(),
            entries@.len() == i,
            forall|k: int|
                0 <= k < i ==> #[trigger] entries@[k].0@ == items@[k].0.encoded() && entries@[k].1@
                    == items@[k].1@,
        decreases items@.len() - i,
    {
        let p = &items[i];
        let enc = match p.0.encode_key() {
            Ok(e) => e,
            Err(_) => {
                return Err(TreeError::KeyEncode);
            },
        };
        entries.push((enc, crate::hash::clone_bytes(p.1.as_bytes())));
        i = i + 1;
    }
    let ss = StateSet::new(entries);
    Ok(ss)
}

/// A single-pass sequence of decoded (key, value) pairs over the tree at one
/// root, resolved when the sequence was created: later mutation of the
/// originating tree does not affect it.
pub struct DumpIterator<K: RawKey> {
    pub items: Vec<(K, Blob)>,
    pub pos: usize,
}

impl<K: RawKey> DumpIterator<K> {
    /// How many pairs remain.
    pub fn remaining(&self) -> (n: usize)
        ensures
            n == if self.pos <= self.items@.len() {
                self.items@.len() - self.pos
            } else {
                0
            },
    {
        if self.pos <= self.items.len() {
            self.items.len() - self.pos
        } else {
            0
        }
    }

    /// The next pair, or nothing once the sequence is exhausted.
    pub fn next(&mut self) -> (r: Option<(K, Blob)>)
        ensures
            final(self).items@ == old(self).items@,
            old(self).pos >= old(self).items@.len() ==> r is None && final(self).pos == old(
                self,
            ).pos,
            old(self).pos < old(self).items@.len() ==> {
                &&& final(self).pos == old(self).pos + 1
                &&& r matches Some(p) && p.0.encoded() == old(self).items@[old(self).pos as int].0.encoded()
                    && p.0.hashed() == old(self).items@[old(self).pos as int].0.hashed() && p.1@
                    == old(self).items@[old(self).pos as int].1@
            },
    {
        if self.pos < self.items.len() {
            let p = &self.items[self.pos];
            let out = (p.0.duplicate(), p.1.clone_blob());
            self.pos = self.pos + 1;
            Some(out)
        } else {
            None
        }
    }
}

/// The versioned, authenticated key-value store. `storage_root_hash` is the
/// durably flushed root; `updates` is the pending buffer (a `None` value is
/// a staged deletion); `cache` holds committed but unflushed generations.
pub struct StateTree<K: RawKey> {
    pub storage_root_hash: HashValue,
    pub updates: Vec<(K, Option<Blob>)>,
    pub cache: StateCache,
}

impl<K: RawKey> View for StateTree<K> {
    type V = TreeV;

    open spec fn view(&self) -> TreeV {
        TreeV {
            storage_root: self.storage_root_hash@,
            buffer: buffer_view(self.updates@),
            cache: self.cache@,
        }
    }
}

impl<K: RawKey> StateTree<K> {
    /// Constructs a state tree rooted at `state_root_hash`, or at the
    /// canonical empty-tree sentinel if absent. Touches no storage.
    pub fn new(state_root_hash: Option<HashValue>) -> (t: StateTree<K>)
        ensures
            t@.buffer.len() == 0,
            t@.cache.gens.len() == 0,
            t@.cache.split is None,
            t@.storage_root == t@.cache.root,
            t@.cache.root == match state_root_hash {
                Some(h) => h@,
                None => placeholder_view(),
            },
            tree_wf(t@),
    {
        let root = match state_root_hash {
            Some(h) => h,
            None => placeholder_hash(),
        };
        let root2 = root.clone_hash();
        let t = StateTree {
            storage_root_hash: root,
            updates: Vec::new(),
            cache: StateCache::new(root2),
        };
        proof {
            assert(t@.buffer =~= Seq::<(Seq<u8>, Option<Seq<u8>>)>::empty());
        }
        t
    }

    /// The current head root: reflects every commit, flushed or not, but no
    /// pending (uncommitted) write.
    pub fn root_hash(&self) -> (h: HashValue)
        ensures
            h@ == self@.cache.root,
    {
        self.cache.head_root()
    }

    /// True iff the head root is the canonical empty-tree sentinel.
    pub fn is_genesis(&self) -> (r: bool)
        ensures
            r == (self@.cache.root == placeholder_view()),
    {
        let ph = placeholder_hash();
        self.cache.root_hash.eq_hash(&ph)
    }

    /// True iff a staged write has not been committed yet.
    pub fn is_dirty(&self) -> (r: bool)
        ensures
            r == (self@.buffer.len() > 0),
    {
        self.updates.len() > 0
    }

    /// Stages one write or deletion in the pending buffer.
    fn stage(&mut self, key: K, val: Option<Blob>)
        requires
            tree_wf(old(self)@),
        ensures
            tree_wf(final(self)@),
            final(self)@.buffer == buffer_put(old(self)@.buffer, key.encoded(), opt_blob_view(val)),
            final(self)@.cache == old(self)@.cache,
            final(self)@.storage_root == old(self)@.storage_root,
    {
        let ghost old_buf = buffer_view(self.updates@);
        let ghost enc = key.encoded();
        let found = buffer_index_of(&self.updates, &key);
        match found {
            Some(j) => {
                proof {
                    lemma_buffer_at_index(old_buf, enc, j as int);
                }
                let _ = self.updates.remove(j);
                proof {
                    assert(buffer_view(self.updates@) =~= old_buf.remove(j as int));
                }
            },
            None => {
                proof {
                    lemma_buffer_remove_absent(old_buf, enc);
                }
            },
        }
        proof {
            assert(buffer_view(self.updates@) == buffer_remove(old_buf, enc));
            lemma_buffer_remove_all(old_buf, enc);
        }
        self.updates.push((key, val));
        proof {
            assert(buffer_view(self.updates@) =~= buffer_remove(old_buf, enc).push(
                (enc, opt_blob_view(val)),
            ));
            lemma_buffer_put_find(old_buf, enc, opt_blob_view(val));
        }
    }

    /// Stages a write of `value` under `key`. The root hash does not move;
    /// `commit` recomputes it.
    pub fn put(&mut self, key: K, value: Vec<u8>)
        requires
            tree_wf(old(self)@),
        ensures
            tree_wf(final(self)@),
            final(self)@.buffer == buffer_put(
                old(self)@.buffer,
                key.encoded(),
                Some(value@),
            ),
            final(self)@.cache == old(self)@.cache,
            final(self)@.storage_root == old(self)@.storage_root,
    {
        self.stage(key, Some(Blob::from_vec(value)));
    }

    /// Stages a deletion of `key`. The root hash does not move; `commit`
    /// recomputes it.
    pub fn remove(&mut self, key: &K)
        requires
            tree_wf(old(self)@),
        ensures
            tree_wf(final(self)@),
            final(self)@.buffer == buffer_put(
                old(self)@.buffer,
                key.encoded(),
                None::<Seq<u8>>,
            ),
            final(self)@.cache == old(self)@.cache,
            final(self)@.storage_root == old(self)@.storage_root,
    {
        let dup = key.duplicate();
        self.stage(dup, None);
    }

    /// Reads `key`: the pending buffer first (so uncommitted writes are
    /// visible), then the authenticated tree at the current head root.
    pub fn get<S: NodeStore, A: TreeAlgorithm<K, S>>(
        &self,
        algo: &A,
        store: &S,
        key: &K,
    ) -> (r: Result<Option<Vec<u8>>, TreeError>)
        requires
            tree_wf(self@),
        ensures
            (buffer_find(self@.buffer, key.encoded()) matches Some(staged) ==> r matches Ok(v)
                && opt_vec_view(v) == staged),
            r matches Err(e) ==> e is Algorithm,
    {
        let ghost enc = key.encoded();
        match buffer_index_of(&self.updates, key) {
            Some(i) => {
                proof {
                    lemma_buffer_at_index(buffer_view(self.updates@), enc, i as int);
                }
                return Ok(
                    match &self.updates[i].1 {
                        Some(b) => Some(crate::hash::clone_bytes(b.as_bytes())),
                        None => None,
                    },
                );
            },
            None => {},
        }
        proof {
            lemma_buffer_find_missing(buffer_view(self.updates@), enc);
        }
        match self.get_with_proof(algo, store, key) {
            Ok((v, _proof)) => Ok(v),
            Err(e) => Err(e),
        }
    }

    /// True iff `get` would find a value for `key`.
    pub fn contains<S: NodeStore, A: TreeAlgorithm<K, S>>(
        &self,
        algo: &A,
        store: &S,
        key: &K,
    ) -> (r: Result<bool, TreeError>)
        requires
            tree_wf(self@),
        ensures
            (buffer_find(self@.buffer, key.encoded()) matches Some(staged) ==> r matches Ok(b)
                && b == (staged is Some)),
            r matches Err(e) ==> e is Algorithm,
    {
        match self.get(algo, store, key) {
            Ok(v) => Ok(v.is_some()),
            Err(e) => Err(e),
        }
    }

    /// Reads `key` strictly from the authenticated tree at the current head
    /// root, with a membership/non-membership proof against that root. The
    /// pending buffer is not consulted. An algorithm failure (e.g. a missing
    /// internal node) is surfaced verbatim.
    pub fn get_with_proof<S: NodeStore, A: TreeAlgorithm<K, S>>(
        &self,
        algo: &A,
        store: &S,
        key: &K,
    ) -> (r: Result<(Option<Vec<u8>>, A::Proof), TreeError>)
        ensures
            r matches Err(e) ==> e is Algorithm,
    {
        let key_hash = key.key_hash();
        match algo.tree_get_with_proof(store, &self.cache, &self.cache.root_hash, &key_hash) {
            Ok((data, proof)) => Ok(
                (
                    match data {
                        Some(b) => Some(b.into_vec()),
                        None => None,
                    },
                    proof,
                ),
            ),
            Err(e) => Err(TreeError::Algorithm(e)),
        }
    }

    /// Applies a batch of updates through the algorithm and merges the
    /// resulting change-set into the cache; an empty batch is a no-op that
    /// returns the current head root.
    fn apply_updates<S: NodeStore, A: TreeAlgorithm<K, S>>(
        &mut self,
        algo: &A,
        store: &S,
        kvs: Vec<(K, Option<Blob>)>,
    ) -> (r: Result<HashValue, TreeError>)
        requires
            tree_wf(old(self)@),
        ensures
            tree_wf(final(self)@),
            final(self)@.buffer == old(self)@.buffer,
            final(self)@.storage_root == old(self)@.storage_root,
            kvs@.len() == 0 ==> (r matches Ok(h) && h@ == old(self)@.cache.root && final(self)@
                == old(self)@),
            r matches Ok(h) ==> final(self)@.cache.root == h@ && (kvs@.len() > 0
                ==> exists|cs: BatchV|
                final(self)@.cache == merge_spec(old(self)@.cache, h@, cs)
                    && final(self)@.cache.gens.len() == old(self)@.cache.gens.len() + 1),
            r is Err ==> final(self)@ == old(self)@ && (r matches Err(e) ==> e is Algorithm),
    {
        if kvs.is_empty() {
            return Ok(self.cache.head_root());
        }
        match algo.tree_updates(store, &self.cache, &self.cache.root_hash, kvs) {
            Ok((new_root, cs)) => {
                let ghost cs_v = cs@;
                let ghost root_v = new_root@;
                let root_copy = new_root.clone_hash();
                self.cache.add_changeset(new_root, cs);
                proof {
                    crate::cache::lemma_merge_stales_len(
                        old(self)@.cache.gens,
                        Seq::<StaleV>::empty(),
                        0,
                        root_v,
                        cs_v.stales,
                    );
                    assert(self@.cache == merge_spec(old(self)@.cache, root_v, cs_v));
                    assert(self@.cache.gens.len() == old(self)@.cache.gens.len() + 1);
                }
                Ok(root_copy)
            },
            Err(e) => Err(TreeError::Algorithm(e)),
        }
    }

    /// Commits the pending buffer: takes a snapshot of it, clears it, and if
    /// it was non-empty computes a new generation through the algorithm and
    /// merges it into the cache. Returns the new head root. On an empty
    /// buffer it is a no-op returning the current root; on failure the
    /// buffer and the cache are untouched. No durable write happens here.
    pub fn commit<S: NodeStore, A: TreeAlgorithm<K, S>>(&mut self, algo: &A, store: &S) -> (r:
        Result<HashValue, TreeError>)
        requires
            tree_wf(old(self)@),
        ensures
            tree_wf(final(self)@),
            final(self)@.storage_root == old(self)@.storage_root,
            old(self)@.buffer.len() == 0 ==> (r matches Ok(h) && h@ == old(self)@.cache.root
                && final(self)@ == old(self)@),
            r matches Ok(h) ==> {
                &&& final(self)@.cache.root == h@
                &&& final(self)@.buffer.len() == 0
                &&& (old(self)@.buffer.len() > 0 ==> exists|cs: BatchV|
                    final(self)@.cache == merge_spec(old(self)@.cache, h@, cs)
                        && final(self)@.cache.gens.len() == old(self)@.cache.gens.len() + 1)
            },
            r is Err ==> final(self)@ == old(self)@ && (r matches Err(e) ==> e is Algorithm),
    {
        if self.updates.is_empty() {
            return Ok(self.cache.head_root());
        }
        let mut staged: Vec<(K, Option<Blob>)> = Vec::new();
        let mut i: usize = 0;
        while i < self.updates.len()
            invariant
                i <= self.updates@.len(),
                staged@.len() == i,
            decreases self.updates@.len() - i,
        {
            let p = &self.updates[i];
            staged.push(
                (
                    p.0.duplicate(),
                    match &p.1 {
                        Some(b) => Some(b.clone_blob()),
                        None => None,
                    },
                ),
            );
            i = i + 1;
        }
        match self.apply_updates(algo, store, staged) {
            Ok(h) => {
                self.updates.clear();
                proof {
                    assert(buffer_view(self.updates@) =~= Seq::<
                        (Seq<u8>, Option<Seq<u8>>),
                    >::empty());
                }
                Ok(h)
            },
            Err(e) => Err(e),
        }
    }

    /// Bulk-loads raw (encoded key, value) pairs: each key is decoded by the
    /// raw-key contract and the batch goes through the same path as staged
    /// writes followed by one commit — but not a flush. The pending buffer
    /// is bypassed and untouched. A key that does not decode fails the whole
    /// call with nothing applied.
    pub fn apply<S: NodeStore, A: TreeAlgorithm<K, S>>(
        &mut self,
        algo: &A,
        store: &S,
        state_set: StateSet,
    ) -> (r: Result<(), TreeError>)
        requires
            tree_wf(old(self)@),
        ensures
            tree_wf(final(self)@),
            final(self)@.buffer == old(self)@.buffer,
            final(self)@.storage_root == old(self)@.storage_root,
            r is Err ==> final(self)@ == old(self)@ && (r matches Err(e) ==> e is Algorithm
                || e is KeyDecode),
            r is Ok ==> (state_set@.len() == 0 ==> final(self)@ == old(self)@) && (state_set@.len()
                > 0 ==> exists|h: Seq<u8>, cs: BatchV|
                final(self)@.cache == merge_spec(old(self)@.cache, h, cs)),
    {
        let entries = state_set.into_entries();
        let kvs = match decode_state_set::<K>(entries) {
            Ok(kvs) => kvs,
            Err(e) => {
                return Err(e);
            },
        };
        match self.apply_updates(algo, store, kvs) {
            Ok(_) => Ok(()),
            Err(e) => Err(e),
        }
    }

    /// Drains all cache generations accumulated since the last flush into
    /// durable storage as a single write, advances the durably visible root
    /// to the newest drained generation's root, and truncates the cache.
    /// A no-op when nothing is there to drain. On a storage failure the
    /// cache keeps the undrained generations, so a retry drains the same
    /// work.
    pub fn flush<S: NodeStore>(&mut self, store: &mut S) -> (r: Result<(), TreeError>)
        requires
            tree_wf(old(self)@),
        ensures
            tree_wf(final(self)@),
            final(self)@.buffer == old(self)@.buffer,
            old(self)@.cache.gens.len() == 0 ==> {
                &&& r is Ok
                &&& *final(store) == *old(store)
                &&& final(self)@.storage_root == old(self)@.storage_root
                &&& final(self)@.cache.root == old(self)@.cache.root
                &&& final(self)@.cache.gens == old(self)@.cache.gens
                &&& final(self)@.cache.split == Some(0int)
            },
            old(self)@.cache.gens.len() > 0 ==> match r {
                Ok(_) => {
                    &&& final(store).contents() == old(store).contents().union_prefer_right(
                        to_node_map(flush_nodes(old(self)@.cache.gens)),
                    )
                    &&& final(self)@.storage_root == old(self)@.cache.gens.last().0
                    &&& final(self)@.cache.root == old(self)@.cache.gens.last().0
                    &&& final(self)@.cache.gens.len() == 0
                    &&& final(self)@.cache.split == Some(old(self)@.cache.gens.len() as int)
                },
                Err(e) => {
                    &&& e is Store
                    &&& final(store).contents() == old(store).contents()
                    &&& final(self)@.storage_root == old(self)@.storage_root
                    &&& final(self)@.cache.root == old(self)@.cache.root
                    &&& final(self)@.cache.gens == old(self)@.cache.gens
                    &&& final(self)@.cache.split == Some(old(self)@.cache.gens.len() as int)
                },
            },
    {
        let list_len = self.cache.change_set_list.len();
        self.cache.split_off_idx = Some(list_len);
        if list_len == 0 {
            return Ok(());
        }
        let ghost gens = self@.cache.gens;
        let mut node_vec: Vec<(HashValue, TreeNode)> = Vec::new();
        let mut gi: usize = 0;
        proof {
            assert(flush_nodes(gens.take(0)) =~= Seq::<(Seq<u8>, NodeV)>::empty());
            assert(nodes_view(node_vec@) =~= Seq::<(Seq<u8>, NodeV)>::empty());
        }
        while gi < list_len
            invariant
                gi <= list_len,
                list_len == self.cache.change_set_list@.len(),
                gens == self@.cache.gens,
                nodes_view(node_vec@) == flush_nodes(gens.take(gi as int)),
            decreases list_len - gi,
        {
            let batch = &self.cache.change_set_list[gi].1;
            let ghost batch_nodes = nodes_view(batch.node_batch@);
            let ghost before = nodes_view(node_vec@);
            proof {
                assert(before + batch_nodes.take(0) =~= before);
            }
            let mut ni: usize = 0;
            while ni < batch.node_batch.len()
                invariant
                    ni <= batch.node_batch@.len(),
                    batch_nodes == nodes_view(batch.node_batch@),
                    nodes_view(node_vec@) == before + batch_nodes.take(ni as int),
                decreases batch.node_batch@.len() - ni,
            {
                let p = &batch.node_batch[ni];
                let ghost pre = nodes_view(node_vec@);
                node_vec.push((p.0.clone_hash(), p.1.clone_node()));
                proof {
                    assert(batch_nodes[ni as int] == (
                        batch.node_batch@[ni as int].0@,
                        batch.node_batch@[ni as int].1@,
                    ));
                    assert(nodes_view(node_vec@) =~= pre.push(batch_nodes[ni as int]));
                    assert(pre.push(batch_nodes[ni as int]) =~= before + batch_nodes.take(
                        ni + 1 as int,
                    ));
                }
                ni = ni + 1;
            }
            proof {
                assert(batch_nodes.take(batch.node_batch@.len() as int) =~= batch_nodes);
                assert(gens.take(gi + 1 as int).drop_last() =~= gens.take(gi as int));
                assert(gens.take(gi + 1 as int).last() == gens[gi as int]);
                assert(gens[gi as int].1.nodes == batch_nodes);
                assert(nodes_view(node_vec@) =~= flush_nodes(gens.take(gi + 1 as int)));
            }
            gi = gi + 1;
        }
        proof {
            assert(gens.take(gens.len() as int) =~= gens);
        }
        let last_idx = list_len - 1;
        let new_root = self.cache.change_set_list[last_idx].0.clone_hash();
        match store.write_nodes(node_vec) {
            Ok(_) => {
                self.storage_root_hash = new_root.clone_hash();
                self.cache.reset(new_root);
                proof {
                    assert(final(self)@.cache.gens =~= gens.subrange(
                        gens.len() as int,
                        gens.len() as int,
                    ));
                    assert(final(self)@.cache.gens =~= Seq::<(Seq<u8>, BatchV)>::empty());
                }
                Ok(())
            },
            Err(e) => Err(TreeError::Store(e)),
        }
    }

    /// Eagerly resolves the whole tree at the current head root into a state
    /// set of encoded (key, value) pairs, ignoring the pending buffer.
    pub fn dump<S: NodeStore, A: TreeAlgorithm<K, S>>(&self, algo: &A, store: &S) -> (r: Result<
        StateSet,
        TreeError,
    >)
        ensures
            r matches Err(e) ==> e is Algorithm || e is KeyEncode,
    {
        match algo.tree_dump(store, &self.cache, &self.cache.root_hash) {
            Ok(items) => encode_state_set(items),
            Err(e) => Err(TreeError::Algorithm(e)),
        }
    }

    /// A lazy, single-pass, non-restartable sequence of decoded (key, value)
    /// pairs over the tree at the current head root, backed by an owned
    /// snapshot of the cache taken now: later mutation of this tree does not
    /// affect an in-flight iteration.
    pub fn dump_iter<S: NodeStore, A: TreeAlgorithm<K, S>>(&self, algo: &A, store: &S) -> (r:
        Result<DumpIterator<K>, TreeError>)
        ensures
            r matches Ok(it) ==> it.pos == 0,
            r matches Err(e) ==> e is Algorithm,
    {
        let snapshot = self.cache.clone_cache();
        match algo.tree_dump(store, &snapshot, &snapshot.root_hash) {
            Ok(items) => Ok(DumpIterator { items, pos: 0 }),
            Err(e) => Err(TreeError::Algorithm(e)),
        }
    }

    /// The most recently committed (root, change-set) generation, or nothing
    /// if no commit happened since construction or the last flush.
    pub fn last_change_sets(&self) -> (r: Option<(HashValue, TreeUpdateBatch)>)
        ensures
            match r {
                Some(p) => self@.cache.gens.len() > 0 && (p.0@, p.1@) == self@.cache.gens.last(),
                None => self@.cache.gens.len() == 0,
            },
    {
        let n = self.cache.change_set_list.len();
        if n == 0 {
            None
        } else {
            let p = &self.cache.change_set_list[n - 1];
            Some((p.0.clone_hash(), p.1.clone_batch()))
        }
    }

    /// A fresh handle at the last flushed root, against the same storage:
    /// pending writes and unflushed generations are not carried over.
    pub fn fork(&self) -> (t: StateTree<K>)
        ensures
            t@.storage_root == self@.storage_root,
            t@.cache.root == self@.storage_root,
            t@.buffer.len() == 0,
            t@.cache.gens.len() == 0,
            tree_wf(t@),
    {
        StateTree::new(Some(self.storage_root_hash.clone_hash()))
    }
}

} // verus!

