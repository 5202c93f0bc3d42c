//! The state store: account snapshots available for scheduling (`active`),
//! those reserved by an in-flight transaction (`locked`), and the log of
//! committed transactions keyed by message hash.

use vstd::prelude::*;
use crate::bundler::{
    authority_map, fits_amount, is_instruction_for, is_settlement, net_table, transfers_in, BundleError,
    NetTransfer, ParsedTransfer, TransferBundler,
};
use crate::key::AccountKey;
use crate::model::{AccountSnapshot, CompiledInstruction, Instruction, SnapshotView, Transaction};
use crate::table::KeyTable;

verus! {

/// Account maps of the store, by value.
pub struct StoreState {
    pub active: Map<Seq<u8>, SnapshotView>,
    pub locked: Map<Seq<u8>, SnapshotView>,
}

pub open spec fn view_map(m: Map<Seq<u8>, AccountSnapshot>) -> Map<Seq<u8>, SnapshotView> {
    m.map_values(|s: AccountSnapshot| s@)
}

pub open spec fn key_views(keys: Seq<AccountKey>) -> Seq<Seq<u8>> {
    keys.map_values(|k: AccountKey| k@)
}

pub open spec fn snapshot_views(s: Seq<(AccountKey, AccountSnapshot)>) -> Seq<(Seq<u8>, SnapshotView)> {
    s.map_values(|e: (AccountKey, AccountSnapshot)| (e.0@, e.1@))
}

/// Locking one key: moved out of `active` where it is there, else installed
/// from the snapshots read from the base chain, else left as it is.
pub open spec fn lock_step(s: StoreState, k: Seq<u8>, fetched: Map<Seq<u8>, SnapshotView>) -> StoreState {
    if s.active.contains_key(k) {
        StoreState { active: s.active.remove(k), locked: s.locked.insert(k, s.active[k]) }
    } else if fetched.contains_key(k) {
        StoreState { active: s.active, locked: s.locked.insert(k, fetched[k]) }
    } else {
        s
    }
}

pub open spec fn lock_spec(s: StoreState, keys: Seq<Seq<u8>>, fetched: Map<Seq<u8>, SnapshotView>) -> StoreState
    decreases keys.len(),
{
    if keys.len() == 0 {
        s
    } else {
        lock_step(lock_spec(s, keys.drop_last(), fetched), keys.last(), fetched)
    }
}

/// Whether each key can be locked: it is active, read from the chain, or already locked.
pub open spec fn lockable(s: StoreState, keys: Seq<Seq<u8>>, fetched: Map<Seq<u8>, SnapshotView>) -> bool {
    forall|i: int| 0 <= i < keys.len() ==> s.active.contains_key(#[trigger] keys[i])
        || fetched.contains_key(keys[i]) || s.locked.contains_key(keys[i])
}

/// Installing a post-execution snapshot: active with the new value, unlocked.
pub open spec fn install_spec(s: StoreState, new: Seq<(Seq<u8>, SnapshotView)>) -> StoreState
    decreases new.len(),
{
    if new.len() == 0 {
        s
    } else {
        let p = install_spec(s, new.drop_last());
        StoreState { active: p.active.insert(new.last().0, new.last().1), locked: p.locked.remove(new.last().0) }
    }
}

/// Releasing the transaction's keys that are still locked, with the
/// snapshots they were locked with.
pub open spec fn release_spec(s: StoreState, keys: Seq<Seq<u8>>) -> StoreState
    decreases keys.len(),
{
    if keys.len() == 0 {
        s
    } else {
        let p = release_spec(s, keys.drop_last());
        let k = keys.last();
        if p.locked.contains_key(k) {
            StoreState { active: p.active.insert(k, p.locked[k]), locked: p.locked.remove(k) }
        } else {
            p
        }
    }
}

pub open spec fn commit_spec(s: StoreState, tx_keys: Seq<Seq<u8>>, new: Seq<(Seq<u8>, SnapshotView)>) -> StoreState {
    release_spec(install_spec(s, new), tx_keys)
}

/// Whether a commit may run: every key of the transaction is locked.
pub open spec fn committable(s: StoreState, tx_keys: Seq<Seq<u8>>) -> bool {
    forall|i: int| 0 <= i < tx_keys.len() ==> s.locked.contains_key(#[trigger] tx_keys[i])
}

/// Mint per token account, later pairs overriding earlier ones.
pub open spec fn mints_map(pairs: Seq<(AccountKey, AccountKey)>) -> Map<Seq<u8>, AccountKey>
    decreases pairs.len(),
{
    if pairs.len() == 0 {
        Map::empty()
    } else {
        mints_map(pairs.drop_last()).insert(pairs.last().0@, pairs.last().1)
    }
}

/// The transfers made by the logged transactions, in log order.
pub open spec fn log_transfers(log: Seq<([u8; 32], Transaction)>, mints: Map<Seq<u8>, AccountKey>) -> Seq<ParsedTransfer>
    decreases log.len(),
{
    if log.len() == 0 {
        Seq::empty()
    } else {
        let tx = log.last().1;
        log_transfers(log.drop_last(), mints) + transfers_in(tx.message.instructions@, tx.message.account_keys@, mints)
    }
}

/// Whether `ix` is a token-program `Transfer` whose source index is in range.
pub open spec fn is_token_transfer_from_source(ix: CompiledInstruction, keys: Seq<AccountKey>) -> bool {
    &&& (ix.program_id_index as int) < keys.len()
    &&& keys[ix.program_id_index as int]@ == crate::key::TOKEN_PROGRAM_ID@
    &&& ix.data@.len() > 0
    &&& ix.data@[0] == crate::bundler::TOKEN_TRANSFER
    &&& ix.accounts@.len() > 0
    &&& (ix.accounts@[0] as int) < keys.len()
}

/// The sources of the token `Transfer`s among `ixs`, in order.
pub open spec fn token_sources(ixs: Seq<CompiledInstruction>, keys: Seq<AccountKey>) -> Seq<AccountKey>
    decreases ixs.len(),
{
    if ixs.len() == 0 {
        Seq::empty()
    } else {
        let rest = token_sources(ixs.drop_last(), keys);
        if is_token_transfer_from_source(ixs.last(), keys) {
            rest.push(keys[ixs.last().accounts@[0] as int])
        } else {
            rest
        }
    }
}

/// The sources of the token `Transfer`s in the logged transactions, in log order.
pub open spec fn log_token_sources(log: Seq<([u8; 32], Transaction)>) -> Seq<AccountKey>
    decreases log.len(),
{
    if log.len() == 0 {
        Seq::empty()
    } else {
        let tx = log.last().1;
        log_token_sources(log.drop_last()) + token_sources(tx.message.instructions@, tx.message.account_keys@)
    }
}

/// Why the store refused a command.
#[derive(Clone, Copy, Debug, PartialEq, Eq, Structural)]
pub enum StoreError {
    /// A key to lock is neither active, nor read from the chain, nor locked.
    MissingAccount,
    /// A key of the committed transaction is not locked.
    NotLocked,
    /// The transaction's message has a list too long for the wire format,
    /// so it has no message hash to be logged under.
    MessageTooLong,
}

pub proof fn lemma_view_map_insert(m: Map<Seq<u8>, AccountSnapshot>, k: Seq<u8>, v: AccountSnapshot)
    ensures
        view_map(m.insert(k, v)) == view_map(m).insert(k, v@),
{
    assert(view_map(m.insert(k, v)) =~= view_map(m).insert(k, v@));
}

pub proof fn lemma_view_map_remove(m: Map<Seq<u8>, AccountSnapshot>, k: Seq<u8>)
    ensures
        view_map(m.remove(k)) == view_map(m).remove(k),
{
    assert(view_map(m.remove(k)) =~= view_map(m).remove(k));
}

pub struct RollupDB {
    accounts_db: KeyTable<AccountSnapshot>,
    locked_accounts: KeyTable<AccountSnapshot>,
    transactions: KeyTable<Transaction>,
}

impl RollupDB {
    /// The account maps, by value.
    pub closed spec fn state(&self) -> StoreState {
        StoreState { active: view_map(self.accounts_db@), locked: view_map(self.locked_accounts@) }
    }

    /// The log: transaction by message hash.
    pub closed spec fn log(&self) -> Map<Seq<u8>, Transaction> {
        self.transactions@
    }

    /// The log's entries in the order their hashes were first committed.
    pub closed spec fn log_entries(&self) -> Seq<([u8; 32], Transaction)> {
        self.transactions.entries()
    }

    /// The store's invariant: no key is both active and locked.
    pub closed spec fn wf(&self) -> bool {
        &&& self.accounts_db.wf()
        &&& self.locked_accounts.wf()
        &&& self.transactions.wf()
        &&& self.accounts_db@.dom().disjoint(self.locked_accounts@.dom())
    }

    /// A key is never both active and locked.
    pub proof fn lemma_active_locked_disjoint(&self, k: Seq<u8>)
        requires
            self.wf(),
        ensures
            !(self.state().active.contains_key(k) && self.state().locked.contains_key(k)),
    {
        assert(self.accounts_db@.dom().contains(k) ==> !self.locked_accounts@.dom().contains(k));
    }

    pub fn new() -> (r: RollupDB)
        ensures
            r.wf(),
            r.state().active == Map::<Seq<u8>, SnapshotView>::empty(),
            r.state().locked == Map::<Seq<u8>, SnapshotView>::empty(),
            r.log() == Map::<Seq<u8>, Transaction>::empty(),
    {
        let r = RollupDB { accounts_db: KeyTable::new(), locked_accounts: KeyTable::new(), transactions: KeyTable::new() };
        assert(r.state().active =~= Map::<Seq<u8>, SnapshotView>::empty());
        assert(r.state().locked =~= Map::<Seq<u8>, SnapshotView>::empty());
        r
    }

    /// Whether `key` is reserved by an in-flight transaction.
    pub fn is_locked(&self, key: &AccountKey) -> (r: bool)
        requires
            self.wf(),
        ensures
            r == self.state().locked.contains_key(key@),
    {
        self.locked_accounts.contains_key(&key.bytes)
    }

    /// Whether `key` is available for scheduling.
    pub fn is_active(&self, key: &AccountKey) -> (r: bool)
        requires
            self.wf(),
        ensures
            r == self.state().active.contains_key(key@),
    {
        self.accounts_db.contains_key(&key.bytes)
    }

    /// Locks `keys` in order: an active key moves to `locked`; another is
    /// installed from `fetched`, its snapshot as read from the base chain.
    /// Answers with each key's locked snapshot in the order requested;
    /// refuses, changing nothing, where a key is in none of the three.
    pub fn lock_accounts(&mut self, keys: &Vec<AccountKey>, fetched: &KeyTable<AccountSnapshot>) -> (r: Result<Vec<(AccountKey, AccountSnapshot)>, StoreError>)
        requires
            old(self).wf(),
            fetched.wf(),
        ensures
            final(self).wf(),
            final(self).log() == old(self).log(),
            final(self).log_entries() == old(self).log_entries(),
            lockable(old(self).state(), key_views(keys@), view_map(fetched@)) ==> (r matches Ok(out)
                && final(self).state() == lock_spec(old(self).state(), key_views(keys@), view_map(fetched@))
                && out@.len() == keys@.len()
                && forall|i: int| 0 <= i < out@.len() ==> (#[trigger] out@[i]).0 == keys@[i]
                    && final(self).state().locked.contains_key(keys@[i]@)
                    && out@[i].1@ == final(self).state().locked[keys@[i]@]),
            !lockable(old(self).state(), key_views(keys@), view_map(fetched@)) ==> r == Err::<Vec<(AccountKey, AccountSnapshot)>, StoreError>(StoreError::MissingAccount)
                && final(self).state() == old(self).state(),
    {
        let ghost kv = key_views(keys@);
        let ghost fv = view_map(fetched@);
        let ghost s0 = self.state();
        let mut i: usize = 0;
        while i < keys.len()
            invariant
                self.wf(),
                fetched.wf(),
                self.state() == s0,
                kv == key_views(keys@),
                fv == view_map(fetched@),
                i <= keys@.len(),
                forall|j: int| 0 <= j < i ==> s0.active.contains_key(#[trigger] kv[j]) || fv.contains_key(kv[j]) || s0.locked.contains_key(kv[j]),
            decreases keys@.len() - i,
        {
            let k = &keys[i];
            if !self.accounts_db.contains_key(&k.bytes) && !fetched.contains_key(&k.bytes) && !self.locked_accounts.contains_key(&k.bytes) {
                assert(!lockable(s0, kv, fv)) by {
                    assert(kv[i as int] == k@);
                }
                return Err(StoreError::MissingAccount);
            }
            i = i + 1;
        }
        assert(lockable(s0, kv, fv));
        let mut i: usize = 0;
        while i < keys.len()
            invariant
                self.wf(),
                fetched.wf(),
                kv == key_views(keys@),
                fv == view_map(fetched@),
                i <= keys@.len(),
                lockable(s0, kv, fv),
                self.state() == lock_spec(s0, kv.take(i as int), fv),
                self.log() == old(self).log(),
                self.log_entries() == old(self).log_entries(),
                forall|j: int| 0 <= j < i ==> self.state().locked.contains_key(#[trigger] kv[j]),
                forall|j: int| 0 <= j < kv.len() ==> self.state().active.contains_key(#[trigger] kv[j])
                    || fv.contains_key(kv[j]) || self.state().locked.contains_key(kv[j]),
            decreases keys@.len() - i,
        {
            let k = keys[i];
            let ghost before = self.state();
            assert(kv.take(i + 1).drop_last() =~= kv.take(i as int));
            assert(kv[i as int] == k@);
            let ghost active_before = self.accounts_db@;
            match self.accounts_db.remove(&k.bytes) {
                Some(snap) => {
                    proof {
                        lemma_view_map_remove(active_before, k@);
                    }
                    let ghost locked_before = self.locked_accounts@;
                    self.locked_accounts.insert(k.bytes, snap);
                    proof {
                        lemma_view_map_insert(locked_before, k@, snap);
                    }
                },
                None => {
                    assert(self.accounts_db@ =~= active_before);
                    match fetched.get(&k.bytes) {
                        Some(s) => {
                            let copy = s.duplicate();
                            let ghost locked_before = self.locked_accounts@;
                            self.locked_accounts.insert(k.bytes, copy);
                            proof {
                                lemma_view_map_insert(locked_before, k@, copy);
                            }
                        },
                        None => {},
                    }
                },
            }
            assert(self.state().active =~= lock_step(before, k@, fv).active);
            assert(self.state().locked =~= lock_step(before, k@, fv).locked);
            i = i + 1;
        }
        assert(kv.take(kv.len() as int) =~= kv);
        assert forall|j: int| 0 <= j < keys@.len() implies self.state().locked.contains_key(#[trigger] keys@[j]@) by {
            assert(kv[j] == keys@[j]@);
        }
        let mut out: Vec<(AccountKey, AccountSnapshot)> = Vec::new();
        let mut i: usize = 0;
        while i < keys.len()
            invariant
                self.wf(),
                kv == key_views(keys@),
                fv == view_map(fetched@),
                self.state() == lock_spec(s0, kv, fv),
                self.log() == old(self).log(),
                self.log_entries() == old(self).log_entries(),
                i <= keys@.len(),
                out@.len() == i,
                forall|j: int| 0 <= j < keys@.len() ==> self.state().locked.contains_key(#[trigger] keys@[j]@),
                forall|j: int| 0 <= j < i ==> (#[trigger] out@[j]).0 == keys@[j]
                    && out@[j].1@ == self.state().locked[keys@[j]@],
            decreases keys@.len() - i,
        {
            let k = keys[i];
            assert(kv[i as int] == k@);
            match self.locked_accounts.get(&k.bytes) {
                Some(s) => {
                    out.push((k, s.duplicate()));
                },
                None => {},
            }
            i = i + 1;
        }
        Ok(out)
    }
}


impl RollupDB {
    /// Commits `tx` with its post-execution snapshots: each snapshot is
    /// installed as active and its key unlocked; the transaction's keys
    /// still locked after that are unlocked with the snapshots they were
    /// locked with; `tx` is logged under its message hash. Refuses, changing
    /// nothing, where the message cannot be hashed (a list longer than the
    /// wire format allows) or where a key of `tx` is not locked.
    pub fn commit(&mut self, tx: Transaction, new_snapshots: Vec<(AccountKey, AccountSnapshot)>) -> (r: Result<(), StoreError>)
        requires
            old(self).wf(),
        ensures
            final(self).wf(),
            tx.message.wire_encodable() && committable(old(self).state(), key_views(tx.message.account_keys@)) ==> r is Ok
                && final(self).state() == commit_spec(old(self).state(), key_views(tx.message.account_keys@), snapshot_views(new_snapshots@))
                && final(self).log() == old(self).log().insert(tx.message.hash_spec(), tx)
                && (!old(self).log().contains_key(tx.message.hash_spec()) ==> final(self).log_entries().drop_last() == old(self).log_entries()
                    && final(self).log_entries().last().1 == tx),
            !tx.message.wire_encodable() ==> r == Err::<(), StoreError>(StoreError::MessageTooLong),
            tx.message.wire_encodable() && !committable(old(self).state(), key_views(tx.message.account_keys@))
                ==> r == Err::<(), StoreError>(StoreError::NotLocked),
            r is Err ==> final(self).state() == old(self).state() && final(self).log() == old(self).log()
                && final(self).log_entries() == old(self).log_entries(),
    {
        let ghost kv = key_views(tx.message.account_keys@);
        let ghost nv = snapshot_views(new_snapshots@);
        let ghost s0 = self.state();
        if !tx.message.is_wire_encodable() {
            return Err(StoreError::MessageTooLong);
        }
        let keys = &tx.message.account_keys;
        let mut i: usize = 0;
        while i < keys.len()
            invariant
                self.wf(),
                tx.message.wire_encodable(),
                self.state() == s0,
                keys@ == tx.message.account_keys@,
                kv == key_views(keys@),
                i <= keys@.len(),
                forall|j: int| 0 <= j < i ==> s0.locked.contains_key(#[trigger] kv[j]),
            decreases keys@.len() - i,
        {
            assert(kv[i as int] == keys@[i as int]@);
            if !self.locked_accounts.contains_key(&keys[i].bytes) {
                assert(!s0.locked.contains_key(kv[i as int]));
                return Err(StoreError::NotLocked);
            }
            i = i + 1;
        }
        assert(committable(s0, kv));
        let mut i: usize = 0;
        while i < new_snapshots.len()
            invariant
                self.wf(),
                tx.message.wire_encodable(),
                nv == snapshot_views(new_snapshots@),
                i <= new_snapshots@.len(),
                self.state() == install_spec(s0, nv.take(i as int)),
                self.log() == old(self).log(),
                self.log_entries() == old(self).log_entries(),
            decreases new_snapshots@.len() - i,
        {
            let k = new_snapshots[i].0;
            let snap = new_snapshots[i].1.duplicate();
            assert(nv.take(i + 1).drop_last() =~= nv.take(i as int));
            assert(nv.take(i + 1).last() == (k@, snap@));
            let ghost before = self.state();
            let ghost locked_before = self.locked_accounts@;
            let ghost active_before = self.accounts_db@;
            self.locked_accounts.remove(&k.bytes);
            self.accounts_db.insert(k.bytes, snap);
            proof {
                lemma_view_map_remove(locked_before, k@);
                lemma_view_map_insert(active_before, k@, snap);
                assert(self.locked_accounts@ =~= locked_before.remove(k@));
            }
            assert(self.state().active =~= install_spec(s0, nv.take(i + 1)).active);
            assert(self.state().locked =~= install_spec(s0, nv.take(i + 1)).locked);
            i = i + 1;
        }
        assert(nv.take(nv.len() as int) =~= nv);
        let ghost s1 = self.state();
        let mut i: usize = 0;
        while i < keys.len()
            invariant
                self.wf(),
                tx.message.wire_encodable(),
                kv == key_views(keys@),
                i <= keys@.len(),
                self.state() == release_spec(s1, kv.take(i as int)),
                self.log() == old(self).log(),
                self.log_entries() == old(self).log_entries(),
            decreases keys@.len() - i,
        {
            let k = keys[i];
            assert(kv.take(i + 1).drop_last() =~= kv.take(i as int));
            assert(kv.take(i + 1).last() == k@);
            let ghost before = self.state();
            let ghost locked_before = self.locked_accounts@;
            let ghost active_before = self.accounts_db@;
            match self.locked_accounts.remove(&k.bytes) {
                Some(v) => {
                    self.accounts_db.insert(k.bytes, v);
                    proof {
                        lemma_view_map_remove(locked_before, k@);
                        lemma_view_map_insert(active_before, k@, v);
                    }
                },
                None => {
                    assert(self.locked_accounts@ =~= locked_before);
                },
            }
            assert(self.state().active =~= release_spec(s1, kv.take(i + 1)).active);
            assert(self.state().locked =~= release_spec(s1, kv.take(i + 1)).locked);
            i = i + 1;
        }
        assert(kv.take(kv.len() as int) =~= kv);
        let h = tx.message.hash();
        self.transactions.insert(h, tx);
        Ok(())
    }

    /// The logged transaction whose message hash is `hash`.
    pub fn get_tx(&self, hash: &[u8; 32]) -> (r: Option<&Transaction>)
        requires
            self.wf(),
        ensures
            match r {
                Some(t) => self.log().contains_key(hash@) && *t == self.log()[hash@],
                None => !self.log().contains_key(hash@),
            },
    {
        self.transactions.get(hash)
    }

    /// The sources of logged token `Transfer`s, whose mints the bundler
    /// needs: in log order, the first account of each instruction that calls
    /// the token program with the `Transfer` opcode.
    pub fn token_transfer_sources(&self) -> (r: Vec<AccountKey>)
        requires
            self.wf(),
        ensures
            r@ == log_token_sources(self.log_entries()),
    {
        let ghost entries = self.transactions.entries();
        let mut out: Vec<AccountKey> = Vec::new();
        let mut i: usize = 0;
        while i < self.transactions.len()
            invariant
                self.wf(),
                entries == self.transactions.entries(),
                i <= entries.len(),
                out@ == log_token_sources(entries.take(i as int)),
            decreases entries.len() - i,
        {
            let tx = self.transactions.value_at(i);
            let keys = &tx.message.account_keys;
            let ixs = &tx.message.instructions;
            assert(entries.take(i + 1).drop_last() =~= entries.take(i as int));
            let ghost start = out@;
            let mut j: usize = 0;
            while j < ixs.len()
                invariant
                    j <= ixs@.len(),
                    out@ == start + token_sources(ixs@.take(j as int), keys@),
                decreases ixs@.len() - j,
            {
                let ix = &ixs[j];
                assert(ixs@.take(j + 1).drop_last() =~= ixs@.take(j as int));
                if crate::bundler::is_token_transfer_ix(ix, keys) && ix.data[0] == crate::bundler::TOKEN_TRANSFER
                    && ix.accounts.len() > 0 && (ix.accounts[0] as usize) < keys.len() {
                    out.push(keys[ix.accounts[0] as usize]);
                }
                assert(out@ =~= start + token_sources(ixs@.take(j + 1), keys@));
                j = j + 1;
            }
            assert(ixs@.take(ixs@.len() as int) =~= ixs@);
            i = i + 1;
        }
        assert(entries.take(entries.len() as int) =~= entries);
        out
    }

    /// Nets every logged transfer, with `mints` giving the mint of token
    /// accounts, and clears the log; the settlement instructions come back.
    /// Refuses, changing nothing, where the bundler refuses.
    pub fn bundle(&mut self, mints: &Vec<(AccountKey, AccountKey)>) -> (r: Result<Vec<Instruction>, BundleError>)
        requires
            old(self).wf(),
        ensures
            final(self).wf(),
            final(self).state() == old(self).state(),
            ({
                let ts = log_transfers(old(self).log_entries(), mints_map(mints@));
                match r {
                    Ok(ixs) => final(self).log() == Map::<Seq<u8>, Transaction>::empty()
                        && final(self).log_entries() == Seq::<([u8; 32], Transaction)>::empty()
                        && ts.len() <= crate::bundler::MAX_TRANSFERS
                        && (forall|j: int| 0 <= j < net_table(ts).len() ==> fits_amount(#[trigger] net_table(ts)[j]))
                        && exists|out: Seq<NetTransfer>|
                            is_settlement(out, net_table(ts), authority_map(ts)) && out.len() == ixs@.len()
                            && forall|i: int| 0 <= i < ixs@.len() ==> is_instruction_for(#[trigger] ixs@[i], out[i]),
                    Err(e) => final(self).log() == old(self).log() && final(self).log_entries() == old(self).log_entries()
                        && (e == BundleError::TooManyTransfers ==> ts.len() > crate::bundler::MAX_TRANSFERS)
                        && (e == BundleError::AmountTooLarge ==> ts.len() <= crate::bundler::MAX_TRANSFERS
                            && exists|j: int| 0 <= j < net_table(ts).len() && !fits_amount(#[trigger] net_table(ts)[j])),
                }
            }),
    {
        let mut bundler = TransferBundler::new();
        let mut m: usize = 0;
        while m < mints.len()
            invariant
                bundler.wf(),
                m <= mints@.len(),
                bundler.history() == Seq::<ParsedTransfer>::empty(),
                bundler.mints() == mints_map(mints@.take(m as int)),
            decreases mints@.len() - m,
        {
            assert(mints@.take(m + 1).drop_last() =~= mints@.take(m as int));
            bundler.record_mint(mints[m].0, mints[m].1);
            m = m + 1;
        }
        assert(mints@.take(mints@.len() as int) =~= mints@);
        let ghost mm = mints_map(mints@);
        let ghost entries = self.transactions.entries();
        let mut i: usize = 0;
        while i < self.transactions.len()
            invariant
                self.wf(),
                bundler.wf(),
                self.state() == old(self).state(),
                self.log() == old(self).log(),
                self.log_entries() == old(self).log_entries(),
                entries == self.transactions.entries(),
                i <= entries.len(),
                mm == mints_map(mints@),
                bundler.mints() == mm,
                bundler.history() == log_transfers(entries.take(i as int), mm),
            decreases entries.len() - i,
        {
            let tx = self.transactions.value_at(i);
            assert(entries.take(i + 1).drop_last() =~= entries.take(i as int));
            assert(entries.take(i + 1).last().1 == *tx);
            match bundler.bundle(tx) {
                Ok(()) => {},
                Err(e) => {
                    proof {
                        assert(log_transfers(entries.take(i + 1), mm) == log_transfers(entries.take(i as int), mm)
                            + transfers_in(tx.message.instructions@, tx.message.account_keys@, mm));
                        lemma_log_transfers_prefix(entries, mm, i + 1);
                        assert(entries.take(entries.len() as int) =~= entries);
                    }
                    return Err(e);
                },
            }
            i = i + 1;
        }
        assert(entries.take(entries.len() as int) =~= entries);
        proof {
            bundler.lemma_history_bound();
        }
        match bundler.generate_final() {
            Ok(ixs) => {
                self.transactions.clear();
                let ghost ts = bundler.history();
                Ok(ixs)
            },
            Err(e) => Err(e),
        }
    }
}

/// A prefix of the log makes no more transfers than the whole log.
pub proof fn lemma_log_transfers_prefix(log: Seq<([u8; 32], Transaction)>, mints: Map<Seq<u8>, AccountKey>, i: int)
    requires
        0 <= i <= log.len(),
    ensures
        log_transfers(log.take(i), mints).len() <= log_transfers(log, mints).len(),
    decreases log.len() - i,
{
    if i < log.len() {
        lemma_log_transfers_prefix(log, mints, i + 1);
        assert(log.take(i + 1).drop_last() =~= log.take(i));
    } else {
        assert(log.take(i) =~= log);
    }
}

} // verus!

verus! {

proof fn lemma_install_keeps_keys(s: StoreState, new: Seq<(Seq<u8>, SnapshotView)>, k: Seq<u8>)
    requires
        s.active.contains_key(k) || s.locked.contains_key(k),
    ensures
        install_spec(s, new).active.contains_key(k) || install_spec(s, new).locked.contains_key(k),
    decreases new.len(),
{
    if new.len() > 0 {
        lemma_install_keeps_keys(s, new.drop_last(), k);
    }
}

proof fn lemma_release_activates(p: StoreState, keys: Seq<Seq<u8>>)
    requires
        forall|i: int| 0 <= i < keys.len() ==> p.active.contains_key(#[trigger] keys[i]) || p.locked.contains_key(keys[i]),
    ensures
        forall|i: int| 0 <= i < keys.len() ==> release_spec(p, keys).active.contains_key(#[trigger] keys[i]),
        forall|k: Seq<u8>| p.active.contains_key(k) ==> #[trigger] release_spec(p, keys).active.contains_key(k),
        forall|k: Seq<u8>| p.locked.contains_key(k) ==> #[trigger] release_spec(p, keys).active.contains_key(k)
            || release_spec(p, keys).locked.contains_key(k),
    decreases keys.len(),
{
    if keys.len() > 0 {
        let prefix = keys.drop_last();
        assert forall|i: int| 0 <= i < prefix.len() implies p.active.contains_key(#[trigger] prefix[i]) || p.locked.contains_key(prefix[i]) by {
            assert(prefix[i] == keys[i]);
        }
        lemma_release_activates(p, prefix);
        let q = release_spec(p, prefix);
        let r = release_spec(p, keys);
        let last = keys.last();
        assert(forall|k: Seq<u8>| q.active.contains_key(k) ==> r.active.contains_key(k));
        assert(forall|k: Seq<u8>| q.locked.contains_key(k) ==> r.active.contains_key(k) || r.locked.contains_key(k));
        assert(p.active.contains_key(keys[keys.len() - 1]) || p.locked.contains_key(keys[keys.len() - 1]));
        assert(q.active.contains_key(last) || q.locked.contains_key(last));
        assert(r.active.contains_key(last));
        assert forall|i: int| 0 <= i < keys.len() implies r.active.contains_key(#[trigger] keys[i]) by {
            if i < keys.len() - 1 {
                assert(prefix[i] == keys[i]);
                assert(q.active.contains_key(prefix[i]));
            }
        }
        assert forall|k: Seq<u8>| p.active.contains_key(k) implies #[trigger] r.active.contains_key(k) by {
            assert(q.active.contains_key(k));
        }
        assert forall|k: Seq<u8>| p.locked.contains_key(k) implies #[trigger] r.active.contains_key(k) || r.locked.contains_key(k) by {
            assert(q.active.contains_key(k) || q.locked.contains_key(k));
        }
    }
}

/// After a commit, every key of the committed transaction is active.
pub proof fn lemma_commit_activates_transaction_keys(s: StoreState, tx_keys: Seq<Seq<u8>>, new: Seq<(Seq<u8>, SnapshotView)>)
    requires
        committable(s, tx_keys),
    ensures
        forall|i: int| 0 <= i < tx_keys.len() ==> commit_spec(s, tx_keys, new).active.contains_key(#[trigger] tx_keys[i]),
{
    let p = install_spec(s, new);
    assert forall|i: int| 0 <= i < tx_keys.len() implies p.active.contains_key(#[trigger] tx_keys[i]) || p.locked.contains_key(tx_keys[i]) by {
        lemma_install_keeps_keys(s, new, tx_keys[i]);
    }
    lemma_release_activates(p, tx_keys);
}

/// A committed transaction is found in the log under its message hash.
pub proof fn lemma_committed_transaction_found(log: Map<Seq<u8>, Transaction>, tx: Transaction)
    ensures
        log.insert(tx.message.hash_spec(), tx).contains_key(tx.message.hash_spec()),
        log.insert(tx.message.hash_spec(), tx)[tx.message.hash_spec()] == tx,
{
}

} // verus!

verus! {

proof fn lemma_lock_active_keys(s: StoreState, keys: Seq<Seq<u8>>, fetched: Map<Seq<u8>, SnapshotView>)
    requires
        keys.no_duplicates(),
        forall|i: int| 0 <= i < keys.len() ==> s.active.contains_key(#[trigger] keys[i]),
    ensures
        forall|k: Seq<u8>| #[trigger] lock_spec(s, keys, fetched).active.contains_key(k)
            <==> s.active.contains_key(k) && !keys.contains(k),
        forall|k: Seq<u8>| lock_spec(s, keys, fetched).active.contains_key(k)
            ==> #[trigger] lock_spec(s, keys, fetched).active[k] == s.active[k],
        forall|k: Seq<u8>| #[trigger] lock_spec(s, keys, fetched).locked.contains_key(k)
            <==> s.locked.contains_key(k) || keys.contains(k),
        forall|k: Seq<u8>| lock_spec(s, keys, fetched).locked.contains_key(k)
            ==> #[trigger] lock_spec(s, keys, fetched).locked[k] == if keys.contains(k) { s.active[k] } else { s.locked[k] },
    decreases keys.len(),
{
    if keys.len() > 0 {
        let prefix = keys.drop_last();
        let last = keys.last();
        assert forall|i: int| 0 <= i < prefix.len() implies s.active.contains_key(#[trigger] prefix[i]) by {
            assert(prefix[i] == keys[i]);
        }
        assert(prefix.no_duplicates()) by {
            assert forall|i: int, j: int| 0 <= i < prefix.len() && 0 <= j < prefix.len() && i != j implies prefix[i] != prefix[j] by {
                assert(prefix[i] == keys[i] && prefix[j] == keys[j]);
            }
        }
        lemma_lock_active_keys(s, prefix, fetched);
        assert(!prefix.contains(last)) by {
            if prefix.contains(last) {
                let i = choose|i: int| 0 <= i < prefix.len() && prefix[i] == last;
                assert(keys[i] == keys[keys.len() - 1]);
            }
        }
        assert(s.active.contains_key(keys[keys.len() - 1]));
        assert forall|k: Seq<u8>| #[trigger] keys.contains(k) <==> prefix.contains(k) || k == last by {
            if keys.contains(k) {
                let i = choose|i: int| 0 <= i < keys.len() && keys[i] == k;
                if i < keys.len() - 1 {
                    assert(prefix[i] == k);
                }
            }
            if prefix.contains(k) {
                let i = choose|i: int| 0 <= i < prefix.len() && prefix[i] == k;
                assert(keys[i] == k);
            }
            if k == last {
                assert(keys[keys.len() - 1] == k);
            }
        }
        let q = lock_spec(s, prefix, fetched);
        let r = lock_spec(s, keys, fetched);
        assert(q.active.contains_key(last));
        assert(r.active == q.active.remove(last));
        assert(r.locked == q.locked.insert(last, q.active[last]));
        assert forall|k: Seq<u8>| #[trigger] r.active.contains_key(k) <==> s.active.contains_key(k) && !keys.contains(k) by {
            assert(q.active.contains_key(k) <==> s.active.contains_key(k) && !prefix.contains(k));
        }
        assert forall|k: Seq<u8>| r.active.contains_key(k) implies #[trigger] r.active[k] == s.active[k] by {
            assert(q.active.contains_key(k));
        }
        assert forall|k: Seq<u8>| #[trigger] r.locked.contains_key(k) <==> s.locked.contains_key(k) || keys.contains(k) by {
            assert(q.locked.contains_key(k) <==> s.locked.contains_key(k) || prefix.contains(k));
        }
        assert forall|k: Seq<u8>| r.locked.contains_key(k) implies #[trigger] r.locked[k] == if keys.contains(k) { s.active[k] } else { s.locked[k] } by {
            if k != last {
                assert(q.locked.contains_key(k));
            }
        }
    }
}

proof fn lemma_install_distinct(p: StoreState, new: Seq<(Seq<u8>, SnapshotView)>)
    requires
        forall|i: int, j: int| 0 <= i < new.len() && 0 <= j < new.len() && i != j ==> (#[trigger] new[i]).0 != (#[trigger] new[j]).0,
    ensures
        forall|i: int| 0 <= i < new.len() ==> #[trigger] install_spec(p, new).active.contains_key(new[i].0)
            && install_spec(p, new).active[new[i].0] == new[i].1 && !install_spec(p, new).locked.contains_key(new[i].0),
    decreases new.len(),
{
    if new.len() > 0 {
        let prefix = new.drop_last();
        assert forall|i: int, j: int| 0 <= i < prefix.len() && 0 <= j < prefix.len() && i != j implies (#[trigger] prefix[i]).0 != (#[trigger] prefix[j]).0 by {
            assert(prefix[i] == new[i] && prefix[j] == new[j]);
        }
        lemma_install_distinct(p, prefix);
        let q = install_spec(p, prefix);
        let r = install_spec(p, new);
        let last = new.last();
        assert(r.active == q.active.insert(last.0, last.1));
        assert(r.locked == q.locked.remove(last.0));
        assert forall|i: int| 0 <= i < new.len() implies #[trigger] r.active.contains_key(new[i].0)
            && r.active[new[i].0] == new[i].1 && !r.locked.contains_key(new[i].0) by {
            if i < new.len() - 1 {
                assert(prefix[i] == new[i]);
                assert(new[i].0 != new[new.len() - 1].0);
                assert(q.active.contains_key(prefix[i].0));
            }
        }
    }
}

/// Whether no snapshot in `new` is for key `k`.
pub open spec fn not_installed(new: Seq<(Seq<u8>, SnapshotView)>, k: Seq<u8>) -> bool {
    forall|i: int| 0 <= i < new.len() ==> (#[trigger] new[i]).0 != k
}

proof fn lemma_install_other(p: StoreState, new: Seq<(Seq<u8>, SnapshotView)>, k: Seq<u8>)
    requires
        not_installed(new, k),
    ensures
        install_spec(p, new).active.contains_key(k) == p.active.contains_key(k),
        p.active.contains_key(k) ==> install_spec(p, new).active[k] == p.active[k],
        install_spec(p, new).locked.contains_key(k) == p.locked.contains_key(k),
        p.locked.contains_key(k) ==> install_spec(p, new).locked[k] == p.locked[k],
    decreases new.len(),
{
    if new.len() > 0 {
        let prefix = new.drop_last();
        assert(new[new.len() - 1].0 != k);
        assert forall|i: int| 0 <= i < prefix.len() implies (#[trigger] prefix[i]).0 != k by {
            assert(prefix[i] == new[i]);
        }
        lemma_install_other(p, prefix, k);
    }
}

proof fn lemma_release_unlocked(q: StoreState, keys: Seq<Seq<u8>>)
    requires
        forall|i: int| 0 <= i < keys.len() ==> !q.locked.contains_key(#[trigger] keys[i]),
    ensures
        release_spec(q, keys) == q,
    decreases keys.len(),
{
    if keys.len() > 0 {
        assert forall|i: int| 0 <= i < keys.len() - 1 implies !q.locked.contains_key(#[trigger] keys.drop_last()[i]) by {
            assert(keys.drop_last()[i] == keys[i]);
        }
        lemma_release_unlocked(q, keys.drop_last());
        assert(!q.locked.contains_key(keys[keys.len() - 1]));
    }
}

/// Locking keys that are all active, then committing a transaction over
/// exactly those keys with the snapshots that the lock answered, leaves the
/// account maps as they were: every key active again with its snapshot, none locked.
pub proof fn lemma_lock_commit_round_trip(
    s: StoreState,
    keys: Seq<Seq<u8>>,
    fetched: Map<Seq<u8>, SnapshotView>,
    new: Seq<(Seq<u8>, SnapshotView)>,
)
    requires
        s.active.dom().disjoint(s.locked.dom()),
        keys.no_duplicates(),
        forall|i: int| 0 <= i < keys.len() ==> s.active.contains_key(#[trigger] keys[i]),
        new.len() == keys.len(),
        forall|i: int| 0 <= i < new.len() ==> #[trigger] new[i] == (keys[i], lock_spec(s, keys, fetched).locked[keys[i]]),
    ensures
        commit_spec(lock_spec(s, keys, fetched), keys, new).active == s.active,
        commit_spec(lock_spec(s, keys, fetched), keys, new).locked == s.locked,
{
    let l = lock_spec(s, keys, fetched);
    lemma_lock_active_keys(s, keys, fetched);
    assert forall|i: int| 0 <= i < keys.len() implies #[trigger] keys.contains(keys[i]) by {}
    assert forall|i: int, j: int| 0 <= i < new.len() && 0 <= j < new.len() && i != j implies (#[trigger] new[i]).0 != (#[trigger] new[j]).0 by {
        assert(new[i].0 == keys[i] && new[j].0 == keys[j]);
    }
    lemma_install_distinct(l, new);
    let p = install_spec(l, new);
    assert forall|i: int| 0 <= i < keys.len() implies !p.locked.contains_key(#[trigger] keys[i]) by {
        assert(new[i].0 == keys[i]);
        assert(p.active.contains_key(new[i].0));
    }
    lemma_release_unlocked(p, keys);
    assert forall|k: Seq<u8>| #[trigger] keys.contains(k) <==> exists|i: int| 0 <= i < new.len() && (#[trigger] new[i]).0 == k by {
        if keys.contains(k) {
            let i = choose|i: int| 0 <= i < keys.len() && keys[i] == k;
            assert(new[i].0 == k);
        }
    }
    assert forall|k: Seq<u8>| p.active.contains_key(k) == s.active.contains_key(k) by {
        if keys.contains(k) {
            let i = choose|i: int| 0 <= i < new.len() && new[i].0 == k;
            assert(p.active.contains_key(new[i].0));
            assert(keys[i] == k);
        } else {
            assert(not_installed(new, k));
            lemma_install_other(l, new, k);
        }
    }
    assert forall|k: Seq<u8>| p.active.contains_key(k) implies p.active[k] == s.active[k] by {
        if keys.contains(k) {
            let i = choose|i: int| 0 <= i < new.len() && new[i].0 == k;
            assert(p.active[new[i].0] == new[i].1);
            assert(keys[i] == k);
        } else {
            assert(not_installed(new, k));
            lemma_install_other(l, new, k);
        }
    }
    assert forall|k: Seq<u8>| p.locked.contains_key(k) == s.locked.contains_key(k) by {
        if keys.contains(k) {
            let i = choose|i: int| 0 <= i < new.len() && new[i].0 == k;
            assert(p.active.contains_key(new[i].0));
            assert(keys[i] == k);
            assert(s.active.contains_key(k));
        } else {
            assert(not_installed(new, k));
            lemma_install_other(l, new, k);
        }
    }
    assert forall|k: Seq<u8>| p.locked.contains_key(k) implies p.locked[k] == s.locked[k] by {
        if !keys.contains(k) {
            assert(not_installed(new, k));
            lemma_install_other(l, new, k);
        } else {
            let i = choose|i: int| 0 <= i < new.len() && new[i].0 == k;
            assert(p.active.contains_key(new[i].0));
        }
    }
    assert(p.active =~= s.active);
    assert(p.locked =~= s.locked);
}

} // verus!

verus! {

proof fn lemma_seq_contains_split(keys: Seq<Seq<u8>>, k: Seq<u8>)
    requires
        keys.len() > 0,
    ensures
        keys.contains(k) <==> keys.drop_last().contains(k) || keys.last() == k,
{
    let prefix = keys.drop_last();
    if keys.contains(k) {
        let i = choose|i: int| 0 <= i < keys.len() && keys[i] == k;
        if i < keys.len() - 1 {
            assert(prefix[i] == k);
        }
    }
    if prefix.contains(k) {
        let i = choose|i: int| 0 <= i < prefix.len() && prefix[i] == k;
        assert(keys[i] == k);
    }
    if keys.last() == k {
        assert(keys[keys.len() - 1] == k);
    }
}

proof fn lemma_release_key(p: StoreState, keys: Seq<Seq<u8>>, k: Seq<u8>)
    ensures
        keys.contains(k) && (p.active.contains_key(k) || p.locked.contains_key(k)) ==> release_spec(p, keys).active.contains_key(k)
            && !release_spec(p, keys).locked.contains_key(k)
            && release_spec(p, keys).active[k] == if p.locked.contains_key(k) { p.locked[k] } else { p.active[k] },
        !keys.contains(k) ==> release_spec(p, keys).active.contains_key(k) == p.active.contains_key(k)
            && (p.active.contains_key(k) ==> release_spec(p, keys).active[k] == p.active[k])
            && release_spec(p, keys).locked.contains_key(k) == p.locked.contains_key(k)
            && (p.locked.contains_key(k) ==> release_spec(p, keys).locked[k] == p.locked[k]),
    decreases keys.len(),
{
    if keys.len() > 0 {
        let prefix = keys.drop_last();
        lemma_release_key(p, prefix, k);
        lemma_seq_contains_split(keys, k);
    }
}

/// After a commit, each key of the transaction is active and unlocked,
/// holding its new snapshot where one was given and otherwise the snapshot
/// it was locked with.
pub proof fn lemma_commit_values(s: StoreState, tx_keys: Seq<Seq<u8>>, new: Seq<(Seq<u8>, SnapshotView)>, k: Seq<u8>)
    requires
        committable(s, tx_keys),
        tx_keys.contains(k),
        forall|i: int, j: int| 0 <= i < new.len() && 0 <= j < new.len() && i != j ==> (#[trigger] new[i]).0 != (#[trigger] new[j]).0,
    ensures
        commit_spec(s, tx_keys, new).active.contains_key(k),
        !commit_spec(s, tx_keys, new).locked.contains_key(k),
        not_installed(new, k) ==> commit_spec(s, tx_keys, new).active[k] == s.locked[k],
        forall|i: int| 0 <= i < new.len() && (#[trigger] new[i]).0 == k ==> commit_spec(s, tx_keys, new).active[k] == new[i].1,
{
    let p = install_spec(s, new);
    let i0 = choose|i: int| 0 <= i < tx_keys.len() && tx_keys[i] == k;
    assert(s.locked.contains_key(tx_keys[i0]));
    lemma_install_distinct(s, new);
    lemma_release_key(p, tx_keys, k);
    if not_installed(new, k) {
        lemma_install_other(s, new, k);
    } else {
        let i = choose|i: int| 0 <= i < new.len() && (#[trigger] new[i]).0 == k;
        assert(p.active.contains_key(new[i].0));
        assert forall|j: int| 0 <= j < new.len() && (#[trigger] new[j]).0 == k implies commit_spec(s, tx_keys, new).active[k] == new[j].1 by {
            assert(p.active.contains_key(new[j].0));
        }
    }
}

} // verus!
