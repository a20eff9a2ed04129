//! Blobs: the opaque byte payloads stored at tree leaves.

use vstd::prelude::*;
use crate::hash::clone_bytes;

verus! {

/// An opaque byte payload stored at a leaf, convertible to and from a raw
/// byte vector.
pub struct Blob {
    pub data: Vec<u8>,
}

impl View for Blob {
    type V = Seq<u8>;

    open spec fn view(&self) -> Seq<u8> {
        self.data@
    }
}

impl Blob {
    /// Wraps raw bytes as a blob.
    pub fn from_vec(data: Vec<u8>) -> (b: Blob)
        ensures
            b@ == data@,
    {
        Blob { data }
    }

    /// Unwraps the blob into its raw bytes.
    pub fn into_vec(self) -> (r: Vec<u8>)
        ensures
            r@ == self@,
    {
        self.data
    }

    /// The bytes of this blob.
    pub fn as_bytes(&self) -> (r: &Vec<u8>)
        ensures
            r@ == self@,
    {
        &self.data
    }

    /// Copies this blob.
    pub fn clone_blob(&self) -> (b: Blob)
        ensures
            b@ == self@,
    {
        Blob { data: clone_bytes(&self.data) }
    }
}

} // verus!
