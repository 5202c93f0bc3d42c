//! The account loader: the cache of account snapshots that the virtual
//! machine reads while executing a transaction.

use vstd::prelude::*;
use crate::key::{AccountKey, BPF_LOADER_ID, TOKEN_PROGRAM_ID};
use crate::model::{AccountSnapshot, SnapshotView};
use crate::rollupdb::{lemma_view_map_insert, view_map};
use crate::table::KeyTable;

verus! {

pub struct RollupAccountLoader {
    cache: KeyTable<AccountSnapshot>,
}

impl RollupAccountLoader {
    /// The cached snapshots by key.
    pub closed spec fn cache(&self) -> Map<Seq<u8>, SnapshotView> {
        view_map(self.cache@)
    }

    pub closed spec fn wf(&self) -> bool {
        self.cache.wf()
    }

    /// A loader seeded with the program loader's and the token program's snapshots.
    pub fn new(bpf_loader_account: AccountSnapshot, token_program_account: AccountSnapshot) -> (r: RollupAccountLoader)
        ensures
            r.wf(),
            r.cache() == Map::<Seq<u8>, SnapshotView>::empty().insert(BPF_LOADER_ID@, bpf_loader_account@).insert(
                TOKEN_PROGRAM_ID@, token_program_account@),
    {
        let mut r = RollupAccountLoader { cache: KeyTable::new() };
        r.add_account(AccountKey { bytes: BPF_LOADER_ID }, bpf_loader_account);
        r.add_account(AccountKey { bytes: TOKEN_PROGRAM_ID }, token_program_account);
        assert(view_map(Map::<Seq<u8>, AccountSnapshot>::empty()) =~= Map::<Seq<u8>, SnapshotView>::empty());
        r
    }

    /// Caches `modified_or_new_account` under `pubkey`, replacing any earlier snapshot.
    pub fn add_account(&mut self, pubkey: AccountKey, modified_or_new_account: AccountSnapshot)
        requires
            old(self).wf(),
        ensures
            final(self).wf(),
            final(self).cache() == old(self).cache().insert(pubkey@, modified_or_new_account@),
    {
        let ghost before = self.cache@;
        self.cache.insert(pubkey.bytes, modified_or_new_account);
        proof {
            lemma_view_map_insert(before, pubkey@, modified_or_new_account);
        }
    }

    /// A copy of the cached snapshot of `pubkey`; absent means the account does not exist.
    pub fn get_account_shared_data(&self, pubkey: &AccountKey) -> (r: Option<AccountSnapshot>)
        requires
            self.wf(),
        ensures
            match r {
                Some(s) => self.cache().contains_key(pubkey@) && s@ == self.cache()[pubkey@],
                None => !self.cache().contains_key(pubkey@),
            },
    {
        match self.cache.get(&pubkey.bytes) {
            Some(s) => Some(s.duplicate()),
            None => None,
        }
    }

    /// The first position in `owners` of the owner of `account`'s cached snapshot.
    pub fn account_matches_owners(&self, account: &AccountKey, owners: &Vec<AccountKey>) -> (r: Option<usize>)
        requires
            self.wf(),
        ensures
            match r {
                Some(i) => self.cache().contains_key(account@) && i < owners@.len()
                    && owners@[i as int]@ == self.cache()[account@].owner
                    && forall|j: int| 0 <= j < i ==> (#[trigger] owners@[j])@ != self.cache()[account@].owner,
                None => !self.cache().contains_key(account@) || forall|j: int| 0 <= j < owners@.len()
                    ==> (#[trigger] owners@[j])@ != self.cache()[account@].owner,
            },
    {
        let snapshot = match self.cache.get(&account.bytes) {
            Some(s) => s,
            None => { return None; },
        };
        let mut i: usize = 0;
        while i < owners.len()
            invariant
                self.wf(),
                self.cache@.contains_key(account@),
                *snapshot == self.cache@[account@],
                i <= owners@.len(),
                forall|j: int| 0 <= j < i ==> (#[trigger] owners@[j])@ != snapshot.owner@,
            decreases owners@.len() - i,
        {
            if owners[i].same(&snapshot.owner) {
                return Some(i);
            }
            i = i + 1;
        }
        None
    }
}

} // verus!
