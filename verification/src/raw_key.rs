//! The raw-key capability: any key type stored in a state tree must provide a
//! deterministic fixed-width hash and an encoding to and from bytes, so that
//! tree positions can be addressed independently of the key type.

use vstd::prelude::*;
use crate::hash::HashValue;
use crate::errors::KeyCodecError;

verus! {

/// The capability a key type must provide to be addressable in a state tree.
///
/// `encoded` abstracts the byte form of a key and `hashed` its fixed-width
/// digest; both are functions of the key alone, so hashing and encoding are
/// deterministic. Two keys are the same tree position exactly when their
/// encodings agree.
pub trait RawKey: Sized {
    /// The byte encoding of this key.
    spec fn encoded(&self) -> Seq<u8>;

    /// The fixed-width digest of this key.
    spec fn hashed(&self) -> Seq<u8>;

    /// The deterministic hash of this key, used to address its tree position.
    fn key_hash(&self) -> (h: HashValue)
        ensures
            h@ == self.hashed(),
    ;

    /// Encodes this key to bytes.
    fn encode_key(&self) -> (r: Result<Vec<u8>, KeyCodecError>)
        ensures
            r matches Ok(v) ==> v@ == self.encoded(),
    ;

    /// Decodes a key from its byte encoding.
    fn decode_key(bytes: &[u8]) -> (r: Result<Self, KeyCodecError>)
        ensures
            r matches Ok(k) ==> k.encoded() == bytes@,
    ;

    /// True iff the two keys address the same tree position.
    fn key_eq(&self, other: &Self) -> (r: bool)
        ensures
            r == (self.encoded() == other.encoded()),
    ;

    /// Copies this key.
    fn duplicate(&self) -> (k: Self)
        ensures
            k.encoded() == self.encoded(),
            k.hashed() == self.hashed(),
    ;
}

} // verus!
