//! The account-state-set iterator: a two-level lazy traversal. The outer
//! level walks the account-address-keyed tree, yielding one decoded account
//! state per account; for each account, each data kind's sub-tree (module
//! code, then resources), where present, is opened at its storage root
//! against the same durable storage and eagerly dumped. A decode failure on
//! an account's state bytes, or a failure in a nested dump, terminates the
//! sequence: earlier items stand, and no further item is yielded.

use vstd::prelude::*;
use crate::keys::{AccountAddress, ModuleName, StructTag};
use crate::raw_key::RawKey;
use crate::state_set::{AccountState, AccountStateSet, StateSet, parse_account_state};
use crate::store::NodeStore;
use crate::algorithm::TreeAlgorithm;
use crate::tree::{StateTree, DumpIterator};

verus! {

/// A single-pass, non-restartable sequence of (account address, composed
/// per-kind state sets), driven by an owned snapshot of the account tree.
pub struct AccountStateSetIterator {
    pub accounts: DumpIterator<AccountAddress>,
    pub done: bool,
}

impl AccountStateSetIterator {
    /// Wraps a dump of the account-address-keyed tree.
    pub fn new(accounts: DumpIterator<AccountAddress>) -> (it: AccountStateSetIterator)
        ensures
            it.accounts.items@ == accounts.items@,
            it.accounts.pos == accounts.pos,
            !it.done,
    {
        AccountStateSetIterator { accounts, done: false }
    }

    /// The next account and its per-kind state sets, or nothing once the
    /// sequence ended. The sets come in the fixed kind order (module code,
    /// then resources); an absent storage root yields an absent set. Any
    /// decode or dump failure ends the sequence for good.
    pub fn next<S: NodeStore, AM: TreeAlgorithm<ModuleName, S>, AR: TreeAlgorithm<StructTag, S>>(
        &mut self,
        store: &S,
        module_algo: &AM,
        resource_algo: &AR,
    ) -> (r: Option<(AccountAddress, AccountStateSet)>)
        ensures
            final(self).accounts.items@ == old(self).accounts.items@,
            old(self).done ==> r is None && final(self).done && final(self).accounts.pos == old(
                self,
            ).accounts.pos,
            r is None ==> final(self).done,
            r matches Some(p) ==> {
                &&& !old(self).done
                &&& !final(self).done
                &&& old(self).accounts.pos < old(self).accounts.items@.len()
                &&& final(self).accounts.pos == old(self).accounts.pos + 1
                &&& p.0.encoded() == old(self).accounts.items@[old(
                    self,
                ).accounts.pos as int].0.encoded()
                &&& parse_account_state(old(self).accounts.items@[old(
                    self,
                ).accounts.pos as int].1@) is Some
                &&& p.1.sets@.len() == 2
                &&& {
                    let state = parse_account_state(old(self).accounts.items@[old(
                        self,
                    ).accounts.pos as int].1@).unwrap();
                    &&& (state.code is None <==> p.1.sets@[0] is None)
                    &&& (state.resource is None <==> p.1.sets@[1] is None)
                }
            },
    {
        if self.done {
            return None;
        }
        let item = self.accounts.next();
        let (addr, blob) = match item {
            Some(p) => p,
            None => {
                self.done = true;
                return None;
            },
        };
        let state = match AccountState::decode(blob.as_bytes().as_slice()) {
            Ok(a) => a,
            Err(_) => {
                self.done = true;
                return None;
            },
        };
        let code_set: Option<StateSet> = match &state.code_root {
            Some(root) => {
                let sub: StateTree<ModuleName> = StateTree::new(Some(root.clone_hash()));
                match sub.dump(module_algo, store) {
                    Ok(ss) => Some(ss),
                    Err(_) => {
                        self.done = true;
                        return None;
                    },
                }
            },
            None => None,
        };
        let resource_set: Option<StateSet> = match &state.resource_root {
            Some(root) => {
                let sub: StateTree<StructTag> = StateTree::new(Some(root.clone_hash()));
                match sub.dump(resource_algo, store) {
                    Ok(ss) => Some(ss),
                    Err(_) => {
                        self.done = true;
                        return None;
                    },
                }
            },
            None => None,
        };
        let mut sets: Vec<Option<StateSet>> = Vec::new();
        sets.push(code_set);
        sets.push(resource_set);
        Some((addr, AccountStateSet::new(sets)))
    }
}

} // verus!
