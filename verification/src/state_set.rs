//! State sets: raw (encoded key, value) collections produced by dumps and
//! consumed by bulk loads, and the per-account state record with one optional
//! sub-tree root per data kind.

use vstd::prelude::*;
use crate::hash::{HashValue, clone_bytes};
use crate::errors::KeyCodecError;
use crate::keys::slice_to_vec;

verus! {

/// A set of raw (encoded key, value) pairs.
pub struct StateSet {
    pub entries: Vec<(Vec<u8>, Vec<u8>)>,
}

impl View for StateSet {
    type V = Seq<(Seq<u8>, Seq<u8>)>;

    open spec fn view(&self) -> Seq<(Seq<u8>, Seq<u8>)> {
        self.entries@.map_values(|p: (Vec<u8>, Vec<u8>)| (p.0@, p.1@))
    }
}

impl StateSet {
    /// Wraps raw pairs as a state set.
    pub fn new(entries: Vec<(Vec<u8>, Vec<u8>)>) -> (s: StateSet)
        ensures
            s.entries@ == entries@,
    {
        StateSet { entries }
    }

    /// How many pairs the set holds.
    pub fn len(&self) -> (n: usize)
        ensures
            n == self@.len(),
    {
        self.entries.len()
    }

    /// The raw pairs.
    pub fn entries(&self) -> (r: &Vec<(Vec<u8>, Vec<u8>)>)
        ensures
            r@ == self.entries@,
    {
        &self.entries
    }

    /// Unwraps the set into its raw pairs.
    pub fn into_entries(self) -> (r: Vec<(Vec<u8>, Vec<u8>)>)
        ensures
            r@ == self.entries@,
    {
        self.entries
    }
}

/// The data kinds an account stores, in their fixed order: module code
/// first, then resources.
#[derive(PartialEq, Eq, Structural, Clone, Copy, Debug)]
pub enum DataType {
    CODE,
    RESOURCE,
}

impl DataType {
    /// The data kind at a storage-root index.
    pub fn from_index(idx: u8) -> (r: Option<DataType>)
        ensures
            r == if idx == 0 {
                Some(DataType::CODE)
            } else if idx == 1 {
                Some(DataType::RESOURCE)
            } else {
                None::<DataType>
            },
    {
        if idx == 0 {
            Some(DataType::CODE)
        } else if idx == 1 {
            Some(DataType::RESOURCE)
        } else {
            None
        }
    }
}

/// The mathematical form of an account state: one optional sub-tree root per
/// data kind.
#[verifier::ext_equal]
pub struct AccountStateV {
    pub code: Option<Seq<u8>>,
    pub resource: Option<Seq<u8>>,
}

/// A fixed-size record with one optional per-account sub-tree root per data
/// kind; absence of a kind's root means the account has no entries of that
/// kind.
pub struct AccountState {
    pub code_root: Option<HashValue>,
    pub resource_root: Option<HashValue>,
}

impl View for AccountState {
    type V = AccountStateV;

    open spec fn view(&self) -> AccountStateV {
        AccountStateV {
            code: match self.code_root {
                Some(h) => Some(h@),
                None => None,
            },
            resource: match self.resource_root {
                Some(h) => Some(h@),
                None => None,
            },
        }
    }
}

/// Both roots, where present, are full-width hash values.
pub open spec fn account_state_wf(a: AccountStateV) -> bool {
    &&& match a.code {
        Some(h) => h.len() == 32,
        None => true,
    }
    &&& match a.resource {
        Some(h) => h.len() == 32,
        None => true,
    }
}

/// The byte form of one optional root: a zero flag, or a one flag followed
/// by the 32 root bytes.
pub open spec fn opt_root_bytes(o: Option<Seq<u8>>) -> Seq<u8> {
    match o {
        None => seq![0u8],
        Some(h) => seq![1u8] + h,
    }
}

/// The byte form of an account state: its roots in the fixed kind order.
pub open spec fn account_state_bytes(a: AccountStateV) -> Seq<u8> {
    opt_root_bytes(a.code) + opt_root_bytes(a.resource)
}

/// Parses one optional root at `pos`, giving the root and the position after
/// it.
pub open spec fn parse_opt_root(bytes: Seq<u8>, pos: int) -> Option<(Option<Seq<u8>>, int)> {
    if !(0 <= pos < bytes.len()) {
        None
    } else if bytes[pos] == 0 {
        Some((None, pos + 1))
    } else if bytes[pos] == 1 && pos + 33 <= bytes.len() {
        Some((Some(bytes.subrange(pos + 1, pos + 33)), pos + 33))
    } else {
        None
    }
}

/// Parses an account state: both roots in order, consuming the whole input.
pub open spec fn parse_account_state(bytes: Seq<u8>) -> Option<AccountStateV> {
    match parse_opt_root(bytes, 0) {
        None => None,
        Some((code, p1)) => match parse_opt_root(bytes, p1) {
            None => None,
            Some((resource, p2)) => if p2 == bytes.len() {
                Some(AccountStateV { code, resource })
            } else {
                None
            },
        },
    }
}

/// Round trip: parsing the byte form of a well-formed account state yields
/// that state. Together with the codec contracts below, an account state
/// written to a tree leaf decodes back unchanged.
pub proof fn lemma_account_state_roundtrip(a: AccountStateV)
    requires
        account_state_wf(a),
    ensures
        parse_account_state(account_state_bytes(a)) == Some(a),
{
    let bytes = account_state_bytes(a);
    let c = opt_root_bytes(a.code);
    let r = opt_root_bytes(a.resource);
    assert(bytes == c + r);
    match a.code {
        None => {
            assert(bytes[0] == 0);
            assert(parse_opt_root(bytes, 0) == Some((None::<Seq<u8>>, 1int)));
            match a.resource {
                None => {
                    assert(bytes[1] == 0);
                },
                Some(h) => {
                    assert(bytes[1] == 1);
                    assert(bytes.subrange(2, 34) =~= h);
                },
            }
        },
        Some(hc) => {
            assert(bytes[0] == 1);
            assert(bytes.subrange(1, 33) =~= hc);
            assert(parse_opt_root(bytes, 0) == Some((Some(hc), 33int)));
            match a.resource {
                None => {
                    assert(bytes[33] == 0);
                },
                Some(h) => {
                    assert(bytes[33] == 1);
                    assert(bytes.subrange(34, 66) =~= h);
                },
            }
        },
    }
}

impl AccountState {
    /// Builds an account state from its two optional roots.
    pub fn new(code_root: Option<HashValue>, resource_root: Option<HashValue>) -> (a: AccountState)
        ensures
            a@ == (AccountStateV {
                code: match code_root {
                    Some(h) => Some(h@),
                    None => None,
                },
                resource: match resource_root {
                    Some(h) => Some(h@),
                    None => None,
                },
            }),
    {
        AccountState { code_root, resource_root }
    }

    /// The storage roots in the fixed kind order: module code, then
    /// resources.
    pub fn storage_roots(&self) -> (r: Vec<Option<HashValue>>)
        ensures
            r@.len() == 2,
            match r@[0] {
                Some(h) => self@.code == Some(h@),
                None => self@.code is None,
            },
            match r@[1] {
                Some(h) => self@.resource == Some(h@),
                None => self@.resource is None,
            },
    {
        let mut r: Vec<Option<HashValue>> = Vec::new();
        r.push(
            match &self.code_root {
                Some(h) => Some(h.clone_hash()),
                None => None,
            },
        );
        r.push(
            match &self.resource_root {
                Some(h) => Some(h.clone_hash()),
                None => None,
            },
        );
        r
    }

    /// Encodes this account state to its byte form.
    pub fn encode(&self) -> (r: Vec<u8>)
        requires
            account_state_wf(self@),
        ensures
            r@ == account_state_bytes(self@),
    {
        let mut out: Vec<u8> = Vec::new();
        match &self.code_root {
            None => out.push(0),
            Some(h) => {
                out.push(1);
                let mut hb = clone_bytes(&h.bytes);
                out.append(&mut hb);
            },
        }
        proof {
            assert(out@ =~= opt_root_bytes(self@.code));
        }
        match &self.resource_root {
            None => out.push(0),
            Some(h) => {
                out.push(1);
                let mut hb = clone_bytes(&h.bytes);
                out.append(&mut hb);
            },
        }
        proof {
            assert(out@ =~= account_state_bytes(self@));
        }
        out
    }

    /// Decodes an account state from its byte form: exactly two optional
    /// roots and nothing else.
    pub fn decode(bytes: &[u8]) -> (r: Result<AccountState, KeyCodecError>)
        ensures
            r matches Ok(a) ==> parse_account_state(bytes@) == Some(a@) && account_state_wf(a@),
            r is Err ==> parse_account_state(bytes@) is None,
    {
        let (code_root, p1) = match decode_opt_root(bytes, 0) {
            Some(v) => v,
            None => {
                return Err(KeyCodecError {});
            },
        };
        let (resource_root, p2) = match decode_opt_root(bytes, p1) {
            Some(v) => v,
            None => {
                return Err(KeyCodecError {});
            },
        };
        if p2 != bytes.len() {
            return Err(KeyCodecError {});
        }
        Ok(AccountState { code_root, resource_root })
    }
}

/// Decodes one optional root at `pos`, mirroring `parse_opt_root`.
fn decode_opt_root(bytes: &[u8], pos: usize) -> (r: Option<(Option<HashValue>, usize)>)
    ensures
        match r {
            Some(v) => {
                &&& parse_opt_root(bytes@, pos as int) == Some(
                    (
                        match v.0 {
                            Some(h) => Some(h@),
                            None => None::<Seq<u8>>,
                        },
                        v.1 as int,
                    ),
                )
                &&& match v.0 {
                    Some(h) => h.wf(),
                    None => true,
                }
                &&& v.1 <= bytes@.len()
            },
            None => parse_opt_root(bytes@, pos as int) is None,
        },
{
    if pos >= bytes.len() {
        return None;
    }
    let flag = bytes[pos];
    if flag == 0 {
        Some((None, pos + 1))
    } else if flag == 1 {
        let n = bytes.len();
        if n - pos >= 33 {
            let mut h: Vec<u8> = Vec::new();
            let mut i: usize = pos + 1;
            while i < pos + 33
                invariant
                    pos + 1 <= i <= pos + 33,
                    pos + 33 <= n,
                    n == bytes@.len(),
                    h@ == bytes@.subrange(pos + 1 as int, i as int),
                decreases pos + 33 - i,
            {
                h.push(bytes[i]);
                proof {
                    assert(h@ =~= bytes@.subrange(pos + 1 as int, i + 1 as int));
                }
                i = i + 1;
            }
            Some((Some(HashValue::new(h)), pos + 33))
        } else {
            None
        }
    } else {
        None
    }
}

/// The composed per-kind state sets of one account, in the fixed kind order;
/// an absent set means the account has no entries of that kind.
pub struct AccountStateSet {
    pub sets: Vec<Option<StateSet>>,
}

impl AccountStateSet {
    /// Wraps per-kind state sets.
    pub fn new(sets: Vec<Option<StateSet>>) -> (s: AccountStateSet)
        ensures
            s.sets@ == sets@,
    {
        AccountStateSet { sets }
    }

    /// How many kinds this set covers.
    pub fn len(&self) -> (n: usize)
        ensures
            n == self.sets@.len(),
    {
        self.sets.len()
    }

    /// The state set of one kind, if the account has entries of that kind.
    pub fn state_set(&self, idx: usize) -> (r: &Option<StateSet>)
        requires
            idx < self.sets@.len(),
        ensures
            r == &self.sets@[idx as int],
    {
        &self.sets[idx]
    }
}

} // verus!
