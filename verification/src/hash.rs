//! Fixed-width hash values: the addresses of tree nodes and the digest form
//! of raw keys, together with the canonical empty-tree sentinel.

use vstd::prelude::*;

verus! {

/// Copies a byte vector, element by element.
pub fn clone_bytes(v: &Vec<u8>) -> (r: Vec<u8>)
    ensures
        r@ == v@,
{
    let mut r: Vec<u8> = Vec::new();
    let mut i: usize = 0;
    while i < v.len()
        invariant
            i <= v@.len(),
            r@ == v@.subrange(0, i as int),
        decreases v@.len() - i,
    {
        r.push(v[i]);
        proof {
            assert(r@ =~= v@.subrange(0, i + 1 as int));
        }
        i = i + 1;
    }
    proof {
        assert(r@ =~= v@);
    }
    r
}

/// Compares two byte vectors for equality of contents.
pub fn bytes_eq(a: &Vec<u8>, b: &Vec<u8>) -> (r: bool)
    ensures
        r == (a@ == b@),
{
    if a.len() != b.len() {
        return false;
    }
    let mut i: usize = 0;
    while i < a.len()
        invariant
            i <= a@.len(),
            a@.len() == b@.len(),
            forall|j: int| 0 <= j < i ==> a@[j] == b@[j],
        decreases a@.len() - i,
    {
        if a[i] != b[i] {
            return false;
        }
        i = i + 1;
    }
    proof {
        assert(a@ =~= b@);
    }
    true
}

/// A 256-bit hash value: 32 bytes. Hash values address tree nodes and stand
/// for hashed raw keys; the tree's root is a hash value.
pub struct HashValue {
    pub bytes: Vec<u8>,
}

impl View for HashValue {
    type V = Seq<u8>;

    open spec fn view(&self) -> Seq<u8> {
        self.bytes@
    }
}

impl HashValue {
    /// A hash value is well formed when it is exactly 32 bytes wide.
    pub open spec fn wf(&self) -> bool {
        self@.len() == 32
    }

    /// Wraps 32 bytes as a hash value.
    pub fn new(bytes: Vec<u8>) -> (h: HashValue)
        requires
            bytes@.len() == 32,
        ensures
            h@ == bytes@,
            h.wf(),
    {
        HashValue { bytes }
    }

    /// Copies this hash value.
    pub fn clone_hash(&self) -> (h: HashValue)
        ensures
            h@ == self@,
    {
        HashValue { bytes: clone_bytes(&self.bytes) }
    }

    /// True iff the two hash values hold the same bytes.
    pub fn eq_hash(&self, other: &HashValue) -> (r: bool)
        ensures
            r == (self@ == other@),
    {
        bytes_eq(&self.bytes, &other.bytes)
    }

    /// The bytes of this hash value.
    pub fn as_bytes(&self) -> (r: &Vec<u8>)
        ensures
            r@ == self@,
    {
        &self.bytes
    }
}

/// The canonical empty-tree sentinel: the ASCII bytes of
/// `SPARSE_MERKLE_PLACEHOLDER_HASH` padded with zeros to 32 bytes. A tree
/// rooted here holds nothing, and a node request for this value resolves to
/// the null node without consulting any storage.
pub open spec fn placeholder_view() -> Seq<u8> {
    seq![
        83u8, 80u8, 65u8, 82u8, 83u8, 69u8, 95u8, 77u8, 69u8, 82u8, 75u8, 76u8, 69u8, 95u8, 80u8,
        76u8, 65u8, 67u8, 69u8, 72u8, 79u8, 76u8, 68u8, 69u8, 82u8, 95u8, 72u8, 65u8, 83u8, 72u8,
        0u8, 0u8,
    ]
}

/// Builds the empty-tree sentinel as a hash value.
pub fn placeholder_hash() -> (h: HashValue)
    ensures
        h@ == placeholder_view(),
        h.wf(),
{
    let mut b: Vec<u8> = Vec::new();
    b.push(83);
    b.push(80);
    b.push(65);
    b.push(82);
    b.push(83);
    b.push(69);
    b.push(95);
    b.push(77);
    b.push(69);
    b.push(82);
    b.push(75);
    b.push(76);
    b.push(69);
    b.push(95);
    b.push(80);
    b.push(76);
    b.push(65);
    b.push(67);
    b.push(69);
    b.push(72);
    b.push(79);
    b.push(76);
    b.push(68);
    b.push(69);
    b.push(82);
    b.push(95);
    b.push(72);
    b.push(65);
    b.push(83);
    b.push(72);
    b.push(0);
    b.push(0);
    proof {
        assert(b@ =~= placeholder_view());
    }
    HashValue { bytes: b }
}

/// The SHA3-256 digest of a byte string, named: it is a function of the input
/// bytes alone, computed by an outside crate and never restated here.
pub uninterp spec fn sha3_of(bytes: Seq<u8>) -> Seq<u8>;

/// Relies on `sha3::Sha3_256` through `digest::Digest::digest`: the SHA3-256
/// digest is a function of the input bytes alone and is exactly 32 bytes wide
/// (output size `U32`).
#[verifier::external_body]
pub(crate) fn sha3_256(bytes: &Vec<u8>) -> (h: HashValue)
    ensures
        h@ == sha3_of(bytes@),
        h@.len() == 32,
        h.wf(),
{
    let digest = <sha3::Sha3_256 as sha3::Digest>::digest(bytes.as_slice());
    HashValue { bytes: digest.to_vec() }
}

} // verus!
