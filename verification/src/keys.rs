//! The three concrete key kinds, each addressing a distinct tree namespace:
//! account addresses (the global account tree), module names (a per-account
//! code sub-tree), and struct tags (a per-account resource sub-tree).
//!
//! Each kind encodes as its raw bytes and hashes with SHA3-256 over that
//! encoding.

use vstd::prelude::*;
use crate::hash::{HashValue, clone_bytes, bytes_eq, sha3_256, sha3_of};
use crate::errors::KeyCodecError;
use crate::raw_key::RawKey;

verus! {

/// Copies a byte slice into a fresh vector.
pub fn slice_to_vec(s: &[u8]) -> (r: Vec<u8>)
    ensures
        r@ == s@,
{
    let mut r: Vec<u8> = Vec::new();
    let mut i: usize = 0;
    while i < s.len()
        invariant
            i <= s@.len(),
            r@ == s@.subrange(0, i as int),
        decreases s@.len() - i,
    {
        r.push(s[i]);
        proof {
            assert(r@ =~= s@.subrange(0, i + 1 as int));
        }
        i = i + 1;
    }
    proof {
        assert(r@ =~= s@);
    }
    r
}

/// An account address: exactly 16 bytes, keying the global account tree.
pub struct AccountAddress {
    pub bytes: Vec<u8>,
}

impl AccountAddress {
    /// A well-formed address is exactly 16 bytes wide.
    pub open spec fn wf(&self) -> bool {
        self.bytes@.len() == 16
    }

    /// Wraps 16 bytes as an address; rejects any other width.
    pub fn new(bytes: Vec<u8>) -> (r: Result<AccountAddress, KeyCodecError>)
        ensures
            bytes@.len() == 16 ==> (r matches Ok(a) && a.bytes@ == bytes@ && a.wf()),
            bytes@.len() != 16 ==> r is Err,
    {
        if bytes.len() == 16 {
            Ok(AccountAddress { bytes })
        } else {
            Err(KeyCodecError {})
        }
    }
}

impl RawKey for AccountAddress {
    open spec fn encoded(&self) -> Seq<u8> {
        self.bytes@
    }

    open spec fn hashed(&self) -> Seq<u8> {
        sha3_of(self.bytes@)
    }

    fn key_hash(&self) -> (h: HashValue) {
        sha3_256(&self.bytes)
    }

    fn encode_key(&self) -> (r: Result<Vec<u8>, KeyCodecError>) {
        Ok(clone_bytes(&self.bytes))
    }

    fn decode_key(bytes: &[u8]) -> (r: Result<Self, KeyCodecError>) {
        if bytes.len() == 16 {
            Ok(AccountAddress { bytes: slice_to_vec(bytes) })
        } else {
            Err(KeyCodecError {})
        }
    }

    fn key_eq(&self, other: &Self) -> (r: bool) {
        bytes_eq(&self.bytes, &other.bytes)
    }

    fn duplicate(&self) -> (k: Self) {
        AccountAddress { bytes: clone_bytes(&self.bytes) }
    }
}

/// A module name, keying a per-account code sub-tree.
pub struct ModuleName {
    pub bytes: Vec<u8>,
}

impl ModuleName {
    /// Wraps bytes as a module name.
    pub fn new(bytes: Vec<u8>) -> (m: ModuleName)
        ensures
            m.bytes@ == bytes@,
    {
        ModuleName { bytes }
    }
}

impl RawKey for ModuleName {
    open spec fn encoded(&self) -> Seq<u8> {
        self.bytes@
    }

    open spec fn hashed(&self) -> Seq<u8> {
        sha3_of(self.bytes@)
    }

    fn key_hash(&self) -> (h: HashValue) {
        sha3_256(&self.bytes)
    }

    fn encode_key(&self) -> (r: Result<Vec<u8>, KeyCodecError>) {
        Ok(clone_bytes(&self.bytes))
    }

    fn decode_key(bytes: &[u8]) -> (r: Result<Self, KeyCodecError>) {
        Ok(ModuleName { bytes: slice_to_vec(bytes) })
    }

    fn key_eq(&self, other: &Self) -> (r: bool) {
        bytes_eq(&self.bytes, &other.bytes)
    }

    fn duplicate(&self) -> (k: Self) {
        ModuleName { bytes: clone_bytes(&self.bytes) }
    }
}

/// A struct tag, keying a per-account resource sub-tree.
pub struct StructTag {
    pub bytes: Vec<u8>,
}

impl StructTag {
    /// Wraps bytes as a struct tag.
    pub fn new(bytes: Vec<u8>) -> (t: StructTag)
        ensures
            t.bytes@ == bytes@,
    {
        StructTag { bytes }
    }
}

impl RawKey for StructTag {
    open spec fn encoded(&self) -> Seq<u8> {
        self.bytes@
    }

    open spec fn hashed(&self) -> Seq<u8> {
        sha3_of(self.bytes@)
    }

    fn key_hash(&self) -> (h: HashValue) {
        sha3_256(&self.bytes)
    }

    fn encode_key(&self) -> (r: Result<Vec<u8>, KeyCodecError>) {
        Ok(clone_bytes(&self.bytes))
    }

    fn decode_key(bytes: &[u8]) -> (r: Result<Self, KeyCodecError>) {
        Ok(StructTag { bytes: slice_to_vec(bytes) })
    }

    fn key_eq(&self, other: &Self) -> (r: bool) {
        bytes_eq(&self.bytes, &other.bytes)
    }

    fn duplicate(&self) -> (k: Self) {
        StructTag { bytes: clone_bytes(&self.bytes) }
    }
}

} // verus!
