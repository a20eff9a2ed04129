//! The external authenticated tree algorithm, consumed as a black box: given
//! a root and a way to resolve nodes, it answers point lookups with proofs,
//! and given a root and a batch of key/value updates it returns a new root
//! plus a change-set of newly written and newly stale nodes.
//!
//! No behaviour of an implementation is assumed: everything the state tree
//! guarantees holds for every implementation of this trait. An
//! implementation resolves node keys through [`crate::cache::StateCache::find_node`]
//! (or [`crate::tree::StorageTreeReader`]) first and the durable store second,
//! as the reader contract (`resolve_in_cache`) prescribes.

use vstd::prelude::*;
use crate::hash::HashValue;
use crate::blob::Blob;
use crate::errors::AlgorithmError;
use crate::cache::StateCache;
use crate::change_set::TreeUpdateBatch;
use crate::raw_key::RawKey;
use crate::store::NodeStore;

verus! {

/// The external sparse Merkle tree algorithm over keys `K`, reading nodes
/// from the cache and a store `S`.
pub trait TreeAlgorithm<K: RawKey, S: NodeStore>: Sized {
    /// The membership/non-membership proof type the algorithm produces.
    type Proof;

    /// Applies a batch of updates (`None` deletes the key) to the tree at
    /// `root` and returns the new root plus the change-set of newly written
    /// and newly stale nodes.
    fn tree_updates(
        &self,
        store: &S,
        cache: &StateCache,
        root: &HashValue,
        updates: Vec<(K, Option<Blob>)>,
    ) -> (r: Result<(HashValue, TreeUpdateBatch), AlgorithmError>);

    /// Looks the hashed key up in the tree at `root`, returning the value
    /// stored there (if any) and a proof against that root.
    fn tree_get_with_proof(
        &self,
        store: &S,
        cache: &StateCache,
        root: &HashValue,
        key_hash: &HashValue,
    ) -> (r: Result<(Option<Blob>, Self::Proof), AlgorithmError>);

    /// Resolves the entire tree at `root` into its (key, value) pairs.
    fn tree_dump(
        &self,
        store: &S,
        cache: &StateCache,
        root: &HashValue,
    ) -> (r: Result<Vec<(K, Blob)>, AlgorithmError>);
}

} // verus!
