// Unit tests of the library's building blocks: hash values and the
// empty-tree sentinel, the SHA3-256 key hashing, the concrete key kinds,
// the account-state codec, the in-memory node store, and the reader
// adapters.

use sha3::{Digest, Sha3_256};
use state_tree::cache::StateCache;
use state_tree::hash::{bytes_eq, clone_bytes, placeholder_hash, HashValue};
use state_tree::keys::{AccountAddress, ModuleName, StructTag};
use state_tree::node::TreeNode;
use state_tree::raw_key::RawKey;
use state_tree::state_set::{AccountState, AccountStateSet, DataType, StateSet};
use state_tree::store::{MemStore, NodeStore};
use state_tree::tree::{DumpIterator, StorageTreeReader};
use state_tree::blob::Blob;

#[test]
fn placeholder_is_the_padded_ascii_sentinel() {
    let mut expected = b"SPARSE_MERKLE_PLACEHOLDER_HASH".to_vec();
    expected.push(0);
    expected.push(0);
    let ph = placeholder_hash();
    assert_eq!(ph.bytes, expected);
    assert_eq!(ph.bytes.len(), 32);
}

#[test]
fn key_hash_is_sha3_256_of_the_encoding() {
    // an independent fixed vector: SHA3-256 of the ASCII bytes "abc"
    let expected: [u8; 32] = [
        0x3a, 0x98, 0x5d, 0xa7, 0x4f, 0xe2, 0x25, 0xb2, 0x04, 0x5c, 0x17, 0x2d, 0x6b, 0xd3, 0x90,
        0xbd, 0x85, 0x5f, 0x08, 0x6e, 0x3e, 0x9d, 0x52, 0x5b, 0x46, 0xbf, 0xe2, 0x45, 0x11, 0x43,
        0x15, 0x32,
    ];
    let key = ModuleName::new(b"abc".to_vec());
    let h = key.key_hash();
    assert_eq!(h.bytes, expected.to_vec());
    assert_eq!(h.bytes, Sha3_256::digest(b"abc").to_vec());
    // a different input hashes differently: the digest depends on its input
    assert_ne!(ModuleName::new(b"abd".to_vec()).key_hash().bytes, expected.to_vec());
}

#[test]
fn hash_value_equality_and_copies() {
    let a = HashValue::new(vec![7; 32]);
    let b = a.clone_hash();
    assert!(a.eq_hash(&b));
    let c = HashValue::new(vec![8; 32]);
    assert!(!a.eq_hash(&c));
    assert!(bytes_eq(&vec![1, 2], &clone_bytes(&vec![1, 2])));
    assert!(!bytes_eq(&vec![1, 2], &vec![1, 2, 3]));
    assert_eq!(a.as_bytes(), &vec![7; 32]);
}

#[test]
fn account_address_is_sixteen_bytes() {
    assert!(AccountAddress::new(vec![1; 16]).is_ok());
    assert!(AccountAddress::new(vec![1; 15]).is_err());
    assert!(AccountAddress::new(vec![1; 17]).is_err());
    assert!(<AccountAddress as RawKey>::decode_key(&[2; 16]).is_ok());
    assert!(<AccountAddress as RawKey>::decode_key(&[2; 3]).is_err());
}

#[test]
fn key_kinds_encode_to_their_bytes() {
    let m = ModuleName::new(b"Token".to_vec());
    assert_eq!(m.encode_key().unwrap(), b"Token".to_vec());
    let t = StructTag::new(b"Tag".to_vec());
    assert_eq!(t.encode_key().unwrap(), b"Tag".to_vec());
    let a = AccountAddress::new(vec![5; 16]).unwrap();
    assert_eq!(a.encode_key().unwrap(), vec![5; 16]);
    // decode is the inverse of encode
    let m2 = <ModuleName as RawKey>::decode_key(&m.encode_key().unwrap()).unwrap();
    assert!(m.key_eq(&m2));
    assert!(!m.key_eq(&ModuleName::new(b"Other".to_vec())));
    let d = m.duplicate();
    assert!(m.key_eq(&d));
    assert_eq!(d.key_hash().bytes, m.key_hash().bytes);
}

#[test]
fn account_state_codec_roundtrips() {
    let r1 = HashValue::new(vec![0xAA; 32]);
    let r2 = HashValue::new(vec![0xBB; 32]);
    let cases = vec![
        AccountState::new(None, None),
        AccountState::new(Some(r1.clone_hash()), None),
        AccountState::new(None, Some(r2.clone_hash())),
        AccountState::new(Some(r1.clone_hash()), Some(r2.clone_hash())),
    ];
    for state in cases {
        let bytes = state.encode();
        let back = AccountState::decode(&bytes).unwrap();
        let roots = state.storage_roots();
        let roots_back = back.storage_roots();
        assert_eq!(roots.len(), 2);
        for i in 0..2 {
            match (&roots[i], &roots_back[i]) {
                (Some(x), Some(y)) => assert!(x.eq_hash(y)),
                (None, None) => {}
                _ => panic!("root {} did not round-trip", i),
            }
        }
    }
}

#[test]
fn account_state_decode_rejects_malformed_bytes() {
    assert!(AccountState::decode(&[]).is_err());
    // a bad flag byte
    assert!(AccountState::decode(&[2, 0]).is_err());
    // a truncated root
    assert!(AccountState::decode(&[1, 9, 9]).is_err());
    // trailing bytes after both roots
    assert!(AccountState::decode(&[0, 0, 7]).is_err());
    // exactly two absent roots is the smallest valid form
    assert!(AccountState::decode(&[0, 0]).is_ok());
}

#[test]
fn data_type_indices() {
    assert_eq!(DataType::from_index(0), Some(DataType::CODE));
    assert_eq!(DataType::from_index(1), Some(DataType::RESOURCE));
    assert_eq!(DataType::from_index(2), None);
    assert_eq!(DataType::from_index(255), None);
}

#[test]
fn state_set_holds_raw_pairs() {
    let ss = StateSet::new(vec![(vec![1], vec![2]), (vec![3], vec![4])]);
    assert_eq!(ss.len(), 2);
    assert_eq!(ss.entries()[0], (vec![1], vec![2]));
    let back = ss.into_entries();
    assert_eq!(back[1], (vec![3], vec![4]));
    let acc = AccountStateSet::new(vec![None, Some(StateSet::new(vec![]))]);
    assert_eq!(acc.len(), 2);
    assert!(acc.state_set(0).is_none());
    assert!(acc.state_set(1).is_some());
}

#[test]
fn blob_wraps_bytes() {
    let b = Blob::from_vec(vec![1, 2, 3]);
    assert_eq!(b.as_bytes(), &vec![1, 2, 3]);
    let c = b.clone_blob();
    assert_eq!(c.into_vec(), vec![1, 2, 3]);
    assert_eq!(b.into_vec(), vec![1, 2, 3]);
}

#[test]
fn mem_store_reads_its_latest_writes() {
    let mut store = MemStore::new();
    let k1 = HashValue::new(vec![1; 32]);
    let k2 = HashValue::new(vec![2; 32]);
    assert!(store.get_node(&k1).unwrap().is_none());
    store
        .write_nodes(vec![
            (k1.clone_hash(), TreeNode::Leaf(vec![10])),
            (k2.clone_hash(), TreeNode::Internal(vec![20])),
        ])
        .unwrap();
    match store.get_node(&k1).unwrap() {
        Some(TreeNode::Leaf(d)) => assert_eq!(d, vec![10]),
        other => panic!("unexpected node: {:?}", other.is_some()),
    }
    // a later binding of the same key wins
    store.write_nodes(vec![(k1.clone_hash(), TreeNode::Leaf(vec![11]))]).unwrap();
    match store.get_node(&k1).unwrap() {
        Some(TreeNode::Leaf(d)) => assert_eq!(d, vec![11]),
        other => panic!("unexpected node: {:?}", other.is_some()),
    }
    assert_eq!(store.node_count(), 3);
}

#[test]
fn reader_resolves_sentinel_to_null_node() {
    let store = MemStore::new();
    let cache = StateCache::new(placeholder_hash());
    let reader = StorageTreeReader::new(cache);
    match reader.get_node_option(&store, &placeholder_hash()).unwrap() {
        Some(TreeNode::Null) => {}
        _ => panic!("the sentinel must resolve to the null node"),
    }
    // an unknown key resolves to nothing
    let unknown = HashValue::new(vec![9; 32]);
    assert!(reader.get_node_option(&store, &unknown).unwrap().is_none());
}

#[test]
fn node_kinds() {
    assert!(TreeNode::Leaf(vec![1]).is_leaf());
    assert!(!TreeNode::Internal(vec![1]).is_leaf());
    assert!(!TreeNode::Null.is_leaf());
    let n = TreeNode::Leaf(vec![5]).clone_node();
    match n {
        TreeNode::Leaf(d) => assert_eq!(d, vec![5]),
        _ => panic!("clone changed the node kind"),
    }
}

#[test]
fn dump_iterator_walks_once() {
    let mut it = DumpIterator::<ModuleName> {
        items: vec![
            (ModuleName::new(b"a".to_vec()), Blob::from_vec(vec![1])),
            (ModuleName::new(b"b".to_vec()), Blob::from_vec(vec![2])),
        ],
        pos: 0,
    };
    assert_eq!(it.remaining(), 2);
    let (k1, v1) = it.next().unwrap();
    assert_eq!(k1.bytes, b"a".to_vec());
    assert_eq!(v1.into_vec(), vec![1]);
    let (k2, v2) = it.next().unwrap();
    assert_eq!(k2.bytes, b"b".to_vec());
    assert_eq!(v2.into_vec(), vec![2]);
    assert!(it.next().is_none());
    assert!(it.next().is_none());
}
