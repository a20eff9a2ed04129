// End-to-end scenarios driving the state tree with a reference tree
// algorithm: a flat directory tree whose root node lists every (key, value)
// pair and whose leaves are content-addressed nodes, with SHA3-256 as the
// node hash. The algorithm resolves nodes through the library's reader
// (cache generations first, then the durable store), so commits, the cache
// merge, flushes, and re-opens all run against real stored nodes.

use sha3::{Digest, Sha3_256};
use state_tree::algorithm::TreeAlgorithm;
use state_tree::blob::Blob;
use state_tree::cache::StateCache;
use state_tree::change_set::{StaleNodeIndex, TreeUpdateBatch};
use state_tree::errors::{AlgorithmError, TreeError};
use state_tree::hash::{placeholder_hash, HashValue};
use state_tree::keys::{AccountAddress, ModuleName, StructTag};
use state_tree::node::TreeNode;
use state_tree::raw_key::RawKey;
use state_tree::state_set::{AccountState, StateSet};
use state_tree::store::{MemStore, NodeStore};
use state_tree::tree::{resolve_node, StateTree};
use state_tree::account_iter::AccountStateSetIterator;

fn sha3(data: &[u8]) -> Vec<u8> {
    Sha3_256::digest(data).to_vec()
}

fn leaf_key(key_hash: &[u8], value: &[u8]) -> Vec<u8> {
    let mut buf = vec![1u8];
    buf.extend_from_slice(key_hash);
    buf.extend_from_slice(value);
    sha3(&buf)
}

fn root_key(dir: &[u8]) -> Vec<u8> {
    let mut buf = vec![0u8];
    buf.extend_from_slice(dir);
    sha3(&buf)
}

#[derive(Clone)]
struct DirEntry {
    key_bytes: Vec<u8>,
    key_hash: Vec<u8>,
    value: Vec<u8>,
}

impl DirEntry {
    fn leaf(&self) -> Vec<u8> {
        leaf_key(&self.key_hash, &self.value)
    }
}

fn encode_dir(entries: &[DirEntry]) -> Vec<u8> {
    let mut out = Vec::new();
    for e in entries {
        out.extend_from_slice(&(e.key_bytes.len() as u32).to_le_bytes());
        out.extend_from_slice(&e.key_bytes);
        out.extend_from_slice(&e.key_hash);
        out.extend_from_slice(&(e.value.len() as u32).to_le_bytes());
        out.extend_from_slice(&e.value);
    }
    out
}

fn decode_dir(bytes: &[u8]) -> Option<Vec<DirEntry>> {
    let mut entries = Vec::new();
    let mut pos = 0usize;
    while pos < bytes.len() {
        if bytes.len() - pos < 4 {
            return None;
        }
        let klen = u32::from_le_bytes(bytes[pos..pos + 4].try_into().ok()?) as usize;
        pos += 4;
        if bytes.len() - pos < klen + 32 + 4 {
            return None;
        }
        let key_bytes = bytes[pos..pos + klen].to_vec();
        pos += klen;
        let key_hash = bytes[pos..pos + 32].to_vec();
        pos += 32;
        let vlen = u32::from_le_bytes(bytes[pos..pos + 4].try_into().ok()?) as usize;
        pos += 4;
        if bytes.len() - pos < vlen {
            return None;
        }
        let value = bytes[pos..pos + vlen].to_vec();
        pos += vlen;
        entries.push(DirEntry { key_bytes, key_hash, value });
    }
    Some(entries)
}

fn algo_err(message: &str) -> AlgorithmError {
    AlgorithmError { message: message.to_string() }
}

fn read_dir<S: NodeStore>(
    store: &S,
    cache: &StateCache,
    root: &HashValue,
) -> Result<Vec<DirEntry>, AlgorithmError> {
    match resolve_node(cache, store, root) {
        Ok(Some(TreeNode::Null)) => Ok(Vec::new()),
        Ok(Some(TreeNode::Internal(d))) => decode_dir(&d).ok_or(algo_err("malformed directory")),
        Ok(Some(TreeNode::Leaf(_))) => Err(algo_err("leaf node at root")),
        Ok(None) => Err(algo_err("missing root node")),
        Err(_) => Err(algo_err("storage failure")),
    }
}

struct RefAlgo;

impl<K: RawKey, S: NodeStore> TreeAlgorithm<K, S> for RefAlgo {
    type Proof = Vec<u8>;

    fn tree_updates(
        &self,
        store: &S,
        cache: &StateCache,
        root: &HashValue,
        updates: Vec<(K, Option<Blob>)>,
    ) -> Result<(HashValue, TreeUpdateBatch), AlgorithmError> {
        let mut entries = read_dir(store, cache, root)?;
        let mut new_nodes: Vec<(HashValue, TreeNode)> = Vec::new();
        let mut stale: Vec<StaleNodeIndex> = Vec::new();
        let mut num_new_leaves = 0usize;
        let mut num_stale_leaves = 0usize;
        for (k, v) in updates {
            let kh = k.key_hash();
            let kb = k.encode_key().map_err(|_| algo_err("key encode"))?;
            let pos = entries.iter().position(|e| e.key_hash == kh.bytes);
            match v {
                Some(blob) => {
                    let val = blob.into_vec();
                    if let Some(i) = pos {
                        if entries[i].value == val {
                            continue;
                        }
                        stale.push(StaleNodeIndex {
                            stale_since_version: root.clone_hash(),
                            node_key: HashValue::new(entries[i].leaf()),
                        });
                        num_stale_leaves += 1;
                        entries[i].value = val.clone();
                    } else {
                        entries.push(DirEntry {
                            key_bytes: kb,
                            key_hash: kh.bytes.clone(),
                            value: val.clone(),
                        });
                    }
                    new_nodes.push((
                        HashValue::new(leaf_key(&kh.bytes, &val)),
                        TreeNode::Leaf(val),
                    ));
                    num_new_leaves += 1;
                }
                None => {
                    if let Some(i) = pos {
                        stale.push(StaleNodeIndex {
                            stale_since_version: root.clone_hash(),
                            node_key: HashValue::new(entries[i].leaf()),
                        });
                        num_stale_leaves += 1;
                        entries.remove(i);
                    }
                }
            }
        }
        entries.sort_by(|a, b| a.key_hash.cmp(&b.key_hash));
        let dir = encode_dir(&entries);
        let new_root = HashValue::new(root_key(&dir));
        if new_root.bytes == root.bytes {
            return Ok((new_root, TreeUpdateBatch::new()));
        }
        new_nodes.push((new_root.clone_hash(), TreeNode::Internal(dir)));
        if root.bytes != placeholder_hash().bytes {
            stale.push(StaleNodeIndex {
                stale_since_version: new_root.clone_hash(),
                node_key: root.clone_hash(),
            });
        }
        Ok((
            new_root,
            TreeUpdateBatch {
                node_batch: new_nodes,
                stale_node_index_batch: stale,
                num_new_leaves,
                num_stale_leaves,
            },
        ))
    }

    fn tree_get_with_proof(
        &self,
        store: &S,
        cache: &StateCache,
        root: &HashValue,
        key_hash: &HashValue,
    ) -> Result<(Option<Blob>, Vec<u8>), AlgorithmError> {
        let entries = read_dir(store, cache, root)?;
        match entries.iter().find(|e| e.key_hash == key_hash.bytes) {
            Some(e) => Ok((Some(Blob::from_vec(e.value.clone())), e.leaf())),
            None => Ok((None, Vec::new())),
        }
    }

    fn tree_dump(
        &self,
        store: &S,
        cache: &StateCache,
        root: &HashValue,
    ) -> Result<Vec<(K, Blob)>, AlgorithmError> {
        let entries = read_dir(store, cache, root)?;
        let mut out = Vec::new();
        for e in entries {
            let k = K::decode_key(&e.key_bytes).map_err(|_| algo_err("key decode"))?;
            out.push((k, Blob::from_vec(e.value)));
        }
        Ok(out)
    }
}

fn mkey(name: &[u8]) -> ModuleName {
    ModuleName::new(name.to_vec())
}

fn sorted_entries(ss: &StateSet) -> Vec<(Vec<u8>, Vec<u8>)> {
    let mut v = ss.entries().clone();
    v.sort();
    v
}

#[test]
fn staged_writes_visible_before_commit() {
    let store = MemStore::new();
    let algo = RefAlgo;
    let mut tree: StateTree<ModuleName> = StateTree::new(None);
    assert!(!tree.is_dirty());
    tree.put(mkey(b"a"), vec![1]);
    assert!(tree.is_dirty());
    assert_eq!(tree.get(&algo, &store, &mkey(b"a")).unwrap(), Some(vec![1]));
    tree.put(mkey(b"a"), vec![9]);
    assert_eq!(tree.get(&algo, &store, &mkey(b"a")).unwrap(), Some(vec![9]));
    tree.remove(&mkey(b"a"));
    assert_eq!(tree.get(&algo, &store, &mkey(b"a")).unwrap(), None);
    assert!(tree.is_dirty());
    // the staged deletion shadows the tree, but the root is untouched
    assert_eq!(tree.root_hash().bytes, placeholder_hash().bytes);
}

#[test]
fn get_after_commit_matches_get_with_proof() {
    let store = MemStore::new();
    let algo = RefAlgo;
    let mut tree: StateTree<ModuleName> = StateTree::new(None);
    tree.put(mkey(b"a"), vec![1]);
    tree.put(mkey(b"b"), vec![2]);
    tree.remove(&mkey(b"b"));
    tree.put(mkey(b"b"), vec![3]);
    tree.commit(&algo, &store).unwrap();
    // last staged value per key won
    assert_eq!(tree.get(&algo, &store, &mkey(b"a")).unwrap(), Some(vec![1]));
    assert_eq!(tree.get(&algo, &store, &mkey(b"b")).unwrap(), Some(vec![3]));
    // get agrees with the authenticated read, and a present key has a
    // non-empty proof bound to its leaf
    let (va, proof_a) = tree.get_with_proof(&algo, &store, &mkey(b"a")).unwrap();
    assert_eq!(va, Some(vec![1]));
    assert_eq!(proof_a, leaf_key(&sha3(b"a"), &[1]));
    let (vm, proof_m) = tree.get_with_proof(&algo, &store, &mkey(b"missing")).unwrap();
    assert_eq!(vm, None);
    assert!(proof_m.is_empty());
}

#[test]
fn commit_on_empty_buffer_is_noop() {
    let store = MemStore::new();
    let algo = RefAlgo;
    let mut tree: StateTree<ModuleName> = StateTree::new(None);
    let r0 = tree.root_hash();
    let r1 = tree.commit(&algo, &store).unwrap();
    assert_eq!(r0.bytes, r1.bytes);
    assert!(tree.last_change_sets().is_none());
    // and after a real commit, an empty commit still moves nothing
    tree.put(mkey(b"a"), vec![1]);
    let r2 = tree.commit(&algo, &store).unwrap();
    let before = tree.last_change_sets().unwrap().0;
    let r3 = tree.commit(&algo, &store).unwrap();
    assert_eq!(r2.bytes, r3.bytes);
    assert_eq!(tree.last_change_sets().unwrap().0.bytes, before.bytes);
}

#[test]
fn commit_advances_root_in_memory_only() {
    let store = MemStore::new();
    let algo = RefAlgo;
    let mut tree: StateTree<ModuleName> = StateTree::new(None);
    tree.put(mkey(b"a"), vec![1]);
    let r1 = tree.commit(&algo, &store).unwrap();
    assert_eq!(tree.root_hash().bytes, r1.bytes);
    assert!(!tree.is_dirty());
    // nothing durable yet
    assert_eq!(store.node_count(), 0);
    let (last_root, cs) = tree.last_change_sets().unwrap();
    assert_eq!(last_root.bytes, r1.bytes);
    assert_eq!(cs.num_new_leaves, 1);
}

#[test]
fn genesis_iff_placeholder_root() {
    let mut store = MemStore::new();
    let algo = RefAlgo;
    let mut tree: StateTree<ModuleName> = StateTree::new(None);
    assert!(tree.is_genesis());
    tree.put(mkey(b"a"), vec![1]);
    tree.commit(&algo, &store).unwrap();
    tree.flush(&mut store).unwrap();
    // after a flush the head root is not the sentinel, so not genesis
    assert!(!tree.is_genesis());
    assert_ne!(tree.root_hash().bytes, placeholder_hash().bytes);
}

#[test]
fn reopen_at_flushed_root_reads_identically() {
    let mut store = MemStore::new();
    let algo = RefAlgo;
    let mut tree: StateTree<ModuleName> = StateTree::new(None);
    tree.put(mkey(b"a"), vec![1]);
    tree.put(mkey(b"b"), vec![2]);
    let r1 = tree.commit(&algo, &store).unwrap();
    tree.flush(&mut store).unwrap();
    let fresh: StateTree<ModuleName> = StateTree::new(Some(r1.clone_hash()));
    for (k, want) in [(b"a", vec![1u8]), (b"b", vec![2u8])] {
        assert_eq!(
            tree.get(&algo, &store, &mkey(k)).unwrap(),
            fresh.get(&algo, &store, &mkey(k)).unwrap()
        );
        assert_eq!(fresh.get(&algo, &store, &mkey(k)).unwrap(), Some(want));
    }
}

#[test]
fn flush_twice_is_idempotent() {
    let mut store = MemStore::new();
    let algo = RefAlgo;
    let mut tree: StateTree<ModuleName> = StateTree::new(None);
    tree.put(mkey(b"a"), vec![1]);
    tree.commit(&algo, &store).unwrap();
    tree.flush(&mut store).unwrap();
    let count_after_first = store.node_count();
    let root_after_first = tree.root_hash();
    assert!(count_after_first > 0);
    tree.flush(&mut store).unwrap();
    assert_eq!(store.node_count(), count_after_first);
    assert_eq!(tree.root_hash().bytes, root_after_first.bytes);
    assert!(tree.last_change_sets().is_none());
}

#[test]
fn dedup_superseded_leaf_never_reaches_storage() {
    let mut store = MemStore::new();
    let algo = RefAlgo;
    let mut tree: StateTree<ModuleName> = StateTree::new(None);
    tree.put(mkey(b"k"), vec![7, 7]);
    tree.commit(&algo, &store).unwrap();
    tree.remove(&mkey(b"k"));
    tree.commit(&algo, &store).unwrap();
    // the reconciled change-set of the second commit: the superseded leaf
    // vanished instead of being recorded stale, and both leaf counters
    // settled accordingly
    let (_, cs) = tree.last_change_sets().unwrap();
    assert_eq!(cs.stale_node_index_batch.len(), 0);
    assert_eq!(cs.num_stale_leaves, 0);
    assert_eq!(cs.num_new_leaves, 0);
    assert_eq!(cs.node_batch.len(), 1);
    tree.flush(&mut store).unwrap();
    // the intermediate leaf for k's first value was written and superseded
    // entirely in memory: durable storage never received it
    let intermediate_leaf = HashValue::new(leaf_key(&sha3(b"k"), &[7, 7]));
    assert!(store.get_node(&intermediate_leaf).unwrap().is_none());
    // only the second commit's root node reached storage
    assert_eq!(store.node_count(), 1);
}

#[test]
fn dedup_baseline_without_superseding_writes_both() {
    let mut store = MemStore::new();
    let algo = RefAlgo;
    let mut tree: StateTree<ModuleName> = StateTree::new(None);
    tree.put(mkey(b"k"), vec![7, 7]);
    tree.commit(&algo, &store).unwrap();
    tree.flush(&mut store).unwrap();
    // baseline: flushing before the deletion writes the leaf and its root
    let intermediate_leaf = HashValue::new(leaf_key(&sha3(b"k"), &[7, 7]));
    assert!(store.get_node(&intermediate_leaf).unwrap().is_some());
    assert_eq!(store.node_count(), 2);
    // deleting k now supersedes durable nodes: they are recorded as genuine
    // stale indices tagged with the new root
    tree.remove(&mkey(b"k"));
    let r2 = tree.commit(&algo, &store).unwrap();
    let (_, cs) = tree.last_change_sets().unwrap();
    assert_eq!(cs.stale_node_index_batch.len(), 2);
    assert_eq!(cs.num_stale_leaves, 1);
    for idx in &cs.stale_node_index_batch {
        assert_eq!(idx.stale_since_version.bytes, r2.bytes);
    }
}

#[test]
fn contains_follows_get() {
    let store = MemStore::new();
    let algo = RefAlgo;
    let mut tree: StateTree<ModuleName> = StateTree::new(None);
    tree.put(mkey(b"a"), vec![1]);
    assert!(tree.contains(&algo, &store, &mkey(b"a")).unwrap());
    assert!(!tree.contains(&algo, &store, &mkey(b"b")).unwrap());
    tree.commit(&algo, &store).unwrap();
    assert!(tree.contains(&algo, &store, &mkey(b"a")).unwrap());
    tree.remove(&mkey(b"a"));
    assert!(!tree.contains(&algo, &store, &mkey(b"a")).unwrap());
}

#[test]
fn dump_independent_of_commit_batching() {
    let algo = RefAlgo;
    let pairs: Vec<(&[u8], Vec<u8>)> =
        vec![(b"k1", vec![1]), (b"k2", vec![2, 2]), (b"k3", vec![3, 3, 3])];

    let store_one = MemStore::new();
    let mut batched: StateTree<ModuleName> = StateTree::new(None);
    for (k, v) in &pairs {
        batched.put(mkey(k), v.clone());
    }
    batched.commit(&algo, &store_one).unwrap();

    let store_many = MemStore::new();
    let mut one_by_one: StateTree<ModuleName> = StateTree::new(None);
    for (k, v) in &pairs {
        one_by_one.put(mkey(k), v.clone());
        one_by_one.commit(&algo, &store_many).unwrap();
    }

    let d1 = sorted_entries(&batched.dump(&algo, &store_one).unwrap());
    let d2 = sorted_entries(&one_by_one.dump(&algo, &store_many).unwrap());
    assert_eq!(d1, d2);
    let mut want: Vec<(Vec<u8>, Vec<u8>)> =
        pairs.iter().map(|(k, v)| (k.to_vec(), v.clone())).collect();
    want.sort();
    assert_eq!(d1, want);
}

#[test]
fn apply_then_dump_roundtrips() {
    let store = MemStore::new();
    let algo = RefAlgo;
    let mut tree: StateTree<ModuleName> = StateTree::new(None);
    let mut entries = vec![
        (b"alpha".to_vec(), vec![1, 2, 3]),
        (b"beta".to_vec(), vec![4]),
        (b"gamma".to_vec(), vec![]),
    ];
    tree.apply(&algo, &store, StateSet::new(entries.clone())).unwrap();
    // apply committed (root advanced) but did not stage anything
    assert!(!tree.is_dirty());
    assert_ne!(tree.root_hash().bytes, placeholder_hash().bytes);
    let dumped = sorted_entries(&tree.dump(&algo, &store).unwrap());
    entries.sort();
    assert_eq!(dumped, entries);
}

#[test]
fn apply_rejects_undecodable_key() {
    let store = MemStore::new();
    let algo = RefAlgo;
    // account addresses must be 16 bytes: a 3-byte key cannot decode
    let mut tree: StateTree<AccountAddress> = StateTree::new(None);
    let r0 = tree.root_hash();
    let err = tree
        .apply(&algo, &store, StateSet::new(vec![(vec![1, 2, 3], vec![9])]))
        .unwrap_err();
    assert!(matches!(err, TreeError::KeyDecode));
    assert_eq!(tree.root_hash().bytes, r0.bytes);
}

#[test]
fn storage_failure_leaves_cache_for_retry() {
    // a store whose writes fail once: flush must keep its generations and a
    // retry must drain the same work
    struct FlakyStore {
        inner: MemStore,
        fail_writes: bool,
    }
    impl NodeStore for FlakyStore {
        fn contents(&self) -> vstd::map::Map<vstd::seq::Seq<u8>, state_tree::node::NodeV> {
            unreachable!()
        }
        fn get_node(
            &self,
            key: &HashValue,
        ) -> Result<Option<TreeNode>, state_tree::errors::StoreError> {
            self.inner.get_node(key)
        }
        fn write_nodes(
            &mut self,
            batch: Vec<(HashValue, TreeNode)>,
        ) -> Result<(), state_tree::errors::StoreError> {
            if self.fail_writes {
                self.fail_writes = false;
                return Err(state_tree::errors::StoreError { message: "write failed".to_string() });
            }
            self.inner.write_nodes(batch)
        }
    }
    let algo = RefAlgo;
    let mut store = FlakyStore { inner: MemStore::new(), fail_writes: true };
    let mut tree: StateTree<ModuleName> = StateTree::new(None);
    tree.put(mkey(b"a"), vec![1]);
    let r1 = tree.commit(&algo, &store).unwrap();
    let err = tree.flush(&mut store).unwrap_err();
    match &err {
        TreeError::Store(e) => assert_eq!(e.message().as_str(), "write failed"),
        _ => panic!("flush must surface the storage failure"),
    }
    // the cache kept the generation and the durable root did not move
    assert!(tree.last_change_sets().is_some());
    assert_eq!(store.inner.node_count(), 0);
    // the retry drains the same generations
    tree.flush(&mut store).unwrap();
    assert!(tree.last_change_sets().is_none());
    assert!(store.inner.node_count() > 0);
    let fresh: StateTree<ModuleName> = StateTree::new(Some(r1));
    assert_eq!(fresh.get(&algo, &store, &mkey(b"a")).unwrap(), Some(vec![1]));
}

#[test]
fn fork_starts_fresh_at_flushed_root() {
    let mut store = MemStore::new();
    let algo = RefAlgo;
    let mut tree: StateTree<ModuleName> = StateTree::new(None);
    tree.put(mkey(b"a"), vec![1]);
    let r1 = tree.commit(&algo, &store).unwrap();
    tree.flush(&mut store).unwrap();
    // stage and commit more work that stays unflushed
    tree.put(mkey(b"b"), vec![2]);
    tree.commit(&algo, &store).unwrap();
    tree.put(mkey(b"c"), vec![3]);
    let fork = tree.fork();
    // the fork sees only the flushed state: no pending writes, no unflushed
    // generations
    assert_eq!(fork.root_hash().bytes, r1.bytes);
    assert!(!fork.is_dirty());
    assert_eq!(fork.get(&algo, &store, &mkey(b"a")).unwrap(), Some(vec![1]));
    assert_eq!(fork.get(&algo, &store, &mkey(b"b")).unwrap(), None);
}

#[test]
fn concrete_two_instance_scenario() {
    let mut store = MemStore::new();
    let algo = RefAlgo;
    let mut tree: StateTree<ModuleName> = StateTree::new(None);
    tree.put(mkey(b"a"), vec![1]);
    tree.put(mkey(b"b"), vec![2]);
    let r1 = tree.commit(&algo, &store).unwrap();
    assert_eq!(tree.get(&algo, &store, &mkey(b"a")).unwrap(), Some(vec![1]));
    tree.flush(&mut store).unwrap();
    let mut other: StateTree<ModuleName> = StateTree::new(Some(r1.clone_hash()));
    assert_eq!(other.get(&algo, &store, &mkey(b"b")).unwrap(), Some(vec![2]));
    other.remove(&mkey(b"a"));
    let r2 = other.commit(&algo, &store).unwrap();
    assert_ne!(r2.bytes, r1.bytes);
    // deletion committed on `other` only: the first instance still reads a
    assert_eq!(tree.get(&algo, &store, &mkey(b"a")).unwrap(), Some(vec![1]));
    assert_eq!(other.get(&algo, &store, &mkey(b"a")).unwrap(), None);
}

#[test]
fn dump_iter_snapshot_unaffected_by_later_writes() {
    let store = MemStore::new();
    let algo = RefAlgo;
    let mut tree: StateTree<ModuleName> = StateTree::new(None);
    tree.put(mkey(b"a"), vec![1]);
    tree.commit(&algo, &store).unwrap();
    let mut iter = tree.dump_iter(&algo, &store).unwrap();
    // mutate after the snapshot: the iteration must not see it
    tree.put(mkey(b"b"), vec![2]);
    tree.commit(&algo, &store).unwrap();
    let (k, v) = iter.next().unwrap();
    assert_eq!(k.bytes, b"a".to_vec());
    assert_eq!(v.as_bytes(), &vec![1]);
    assert!(iter.next().is_none());
    assert_eq!(iter.remaining(), 0);
}

fn addr(byte: u8) -> AccountAddress {
    AccountAddress::new(vec![byte; 16]).unwrap()
}

#[test]
fn account_iterator_composes_per_kind_dumps() {
    let mut store = MemStore::new();
    let algo = RefAlgo;

    // a module sub-tree for the first account
    let mut modules: StateTree<ModuleName> = StateTree::new(None);
    modules.put(mkey(b"Coin"), vec![0xCA]);
    let module_root = modules.commit(&algo, &store).unwrap();
    modules.flush(&mut store).unwrap();

    // a resource sub-tree for the second account
    let mut resources: StateTree<StructTag> = StateTree::new(None);
    resources.put(StructTag::new(b"Balance".to_vec()), vec![0xBA]);
    let resource_root = resources.commit(&algo, &store).unwrap();
    resources.flush(&mut store).unwrap();

    let mut accounts: StateTree<AccountAddress> = StateTree::new(None);
    accounts.put(
        addr(1),
        AccountState::new(Some(module_root), None).encode(),
    );
    accounts.put(
        addr(2),
        AccountState::new(None, Some(resource_root)).encode(),
    );
    accounts.commit(&algo, &store).unwrap();

    let mut iter =
        AccountStateSetIterator::new(accounts.dump_iter(&algo, &store).unwrap());
    let mut seen = Vec::new();
    while let Some((address, set)) = iter.next(&store, &algo, &algo) {
        assert_eq!(set.len(), 2);
        let code = set.state_set(0).as_ref().map(sorted_entries);
        let resource = set.state_set(1).as_ref().map(sorted_entries);
        seen.push((address.bytes.clone(), code, resource));
    }
    seen.sort();
    assert_eq!(seen.len(), 2);
    assert_eq!(
        seen[0],
        (
            vec![1u8; 16],
            Some(vec![(b"Coin".to_vec(), vec![0xCA])]),
            None
        )
    );
    assert_eq!(
        seen[1],
        (
            vec![2u8; 16],
            None,
            Some(vec![(b"Balance".to_vec(), vec![0xBA])])
        )
    );
}

#[test]
fn account_iterator_stops_at_undecodable_state() {
    let store = MemStore::new();
    let algo = RefAlgo;
    let mut accounts: StateTree<AccountAddress> = StateTree::new(None);
    // one garbage account state: the sequence must end there and stay ended
    accounts.put(addr(3), vec![9, 9, 9]);
    accounts.commit(&algo, &store).unwrap();
    let mut iter =
        AccountStateSetIterator::new(accounts.dump_iter(&algo, &store).unwrap());
    assert!(iter.next(&store, &algo, &algo).is_none());
    assert!(iter.next(&store, &algo, &algo).is_none());
}

#[test]
fn dedup_reaches_back_across_generations() {
    let mut store = MemStore::new();
    let algo = RefAlgo;
    let mut tree: StateTree<ModuleName> = StateTree::new(None);
    tree.put(mkey(b"k"), vec![1]);
    tree.commit(&algo, &store).unwrap();
    tree.put(mkey(b"j"), vec![2]);
    tree.commit(&algo, &store).unwrap();
    tree.remove(&mkey(b"k"));
    tree.commit(&algo, &store).unwrap();
    tree.flush(&mut store).unwrap();
    // k's leaf was written two generations before its deletion and still
    // never reached storage; j's leaf did
    let leaf_k = HashValue::new(leaf_key(&sha3(b"k"), &[1]));
    let leaf_j = HashValue::new(leaf_key(&sha3(b"j"), &[2]));
    assert!(store.get_node(&leaf_k).unwrap().is_none());
    assert!(store.get_node(&leaf_j).unwrap().is_some());
    // only j's leaf and the final root reached storage
    assert_eq!(store.node_count(), 2);
    let fresh: StateTree<ModuleName> = StateTree::new(Some(tree.root_hash()));
    assert_eq!(fresh.get(&algo, &store, &mkey(b"j")).unwrap(), Some(vec![2]));
    assert_eq!(fresh.get(&algo, &store, &mkey(b"k")).unwrap(), None);
}
