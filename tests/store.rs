use rollup_core::key::{AccountKey, BPF_LOADER_ID, SYSTEM_PROGRAM_ID, TOKEN_PROGRAM_ID};
use rollup_core::loader::RollupAccountLoader;
use rollup_core::model::{AccountSnapshot, CompiledInstruction, Message, MessageHeader, Transaction};
use rollup_core::rollupdb::{RollupDB, StoreError};
use rollup_core::table::KeyTable;
use solana_sdk::pubkey::Pubkey;

fn key(n: u8) -> AccountKey {
    AccountKey::new([n; 32])
}

fn snapshot(lamports: u64) -> AccountSnapshot {
    AccountSnapshot { lamports, owner: AccountKey::new(SYSTEM_PROGRAM_ID), executable: false, data: vec![1, 2, 3] }
}

fn transfer_tx(from: AccountKey, to: AccountKey, lamports: u64) -> Transaction {
    let data = solana_sdk::system_instruction::transfer(&Pubkey::new_from_array(from.bytes), &Pubkey::new_from_array(to.bytes), lamports).data;
    Transaction {
        signatures: vec![vec![7u8; 64]],
        message: Message {
            header: MessageHeader { num_required_signatures: 1, num_readonly_signed_accounts: 0, num_readonly_unsigned_accounts: 1 },
            account_keys: vec![from, to, AccountKey::new(SYSTEM_PROGRAM_ID)],
            recent_blockhash: [9; 32],
            instructions: vec![CompiledInstruction { program_id_index: 2, accounts: vec![0, 1], data }],
        },
    }
}

fn to_chain(tx: &Transaction) -> solana_sdk::transaction::Transaction {
    let m = &tx.message;
    let message = solana_sdk::message::Message::new_with_compiled_instructions(
        m.header.num_required_signatures,
        m.header.num_readonly_signed_accounts,
        m.header.num_readonly_unsigned_accounts,
        m.account_keys.iter().map(|k| Pubkey::new_from_array(k.bytes)).collect(),
        solana_sdk::hash::Hash::new_from_array(m.recent_blockhash),
        m.instructions
            .iter()
            .map(|i| solana_sdk::instruction::CompiledInstruction::new_from_raw_parts(i.program_id_index, i.data.clone(), i.accounts.clone()))
            .collect(),
    );
    solana_sdk::transaction::Transaction::new_unsigned(message)
}

fn fetched_for(db: &RollupDB, keys: &Vec<AccountKey>, lamports: u64) -> KeyTable<AccountSnapshot> {
    let mut fetched = KeyTable::new();
    for k in keys {
        if !db.is_active(k) {
            fetched.insert(k.bytes, snapshot(lamports));
        }
    }
    fetched
}

#[test]
fn message_hash_matches_the_chain() {
    let tx = transfer_tx(key(1), key(2), 5);
    assert_eq!(tx.message.hash(), to_chain(&tx).message.hash().to_bytes());
    let other = transfer_tx(key(1), key(2), 6);
    assert_ne!(tx.message.hash(), other.message.hash());
}

#[test]
fn single_transfer_is_committed_and_logged() {
    let p = key(1);
    let q = key(2);
    let mut db = RollupDB::new();
    let tx = transfer_tx(p, q, 250_000_000);
    let keys = tx.message.account_keys.clone();
    let fetched = fetched_for(&db, &keys, 1_000_000_000);
    let locked = db.lock_accounts(&keys, &fetched).unwrap();
    assert_eq!(locked.len(), 3);
    for k in &keys {
        assert!(db.is_locked(k));
        assert!(!db.is_active(k));
    }
    let post = vec![(p, snapshot(750_000_000)), (q, snapshot(1_250_000_000))];
    let hash = tx.message.hash();
    db.commit(tx.clone(), post).unwrap();
    for k in &keys {
        assert!(db.is_active(k));
        assert!(!db.is_locked(k));
    }
    let logged = db.get_tx(&hash).unwrap();
    assert_eq!(logged.message.hash(), hash);
    assert_eq!(logged.signatures, tx.signatures);
    let again = db.lock_accounts(&vec![p, q], &KeyTable::new()).unwrap();
    assert_eq!(again[0].1.lamports, 750_000_000);
    assert_eq!(again[1].1.lamports, 1_250_000_000);
    assert_eq!(again[2 - 1].0, q);
}

#[test]
fn lock_then_commit_same_snapshots_changes_nothing() {
    let a = key(1);
    let b = key(2);
    let mut db = RollupDB::new();
    let first = transfer_tx(a, b, 1);
    let keys = first.message.account_keys.clone();
    let fetched = fetched_for(&db, &keys, 500);
    let locked = db.lock_accounts(&keys, &fetched).unwrap();
    db.commit(first, locked).unwrap();
    let second = transfer_tx(a, b, 2);
    let locked = db.lock_accounts(&keys, &KeyTable::new()).unwrap();
    let answered = locked.clone();
    db.commit(second, locked).unwrap();
    for (k, s) in &answered {
        assert!(db.is_active(k));
        assert!(!db.is_locked(k));
        assert_eq!(s.lamports, 500);
    }
    let after = db.lock_accounts(&keys, &KeyTable::new()).unwrap();
    for (x, y) in after.iter().zip(answered.iter()) {
        assert_eq!(x.0, y.0);
        assert_eq!(x.1.lamports, y.1.lamports);
        assert_eq!(x.1.data, y.1.data);
    }
}

#[test]
fn commit_without_lock_is_refused() {
    let mut db = RollupDB::new();
    let tx = transfer_tx(key(1), key(2), 5);
    assert_eq!(db.commit(tx.clone(), vec![]), Err(StoreError::NotLocked));
    assert!(db.get_tx(&tx.message.hash()).is_none());
}

#[test]
fn lock_of_unknown_account_is_refused() {
    let mut db = RollupDB::new();
    let result = db.lock_accounts(&vec![key(1), key(2)], &KeyTable::new());
    assert_eq!(result.unwrap_err(), StoreError::MissingAccount);
    assert!(!db.is_locked(&key(1)));
}

#[test]
fn empty_commit_restores_locked_snapshots() {
    let a = key(1);
    let b = key(2);
    let mut db = RollupDB::new();
    let tx = transfer_tx(a, b, 5);
    let keys = tx.message.account_keys.clone();
    let fetched = fetched_for(&db, &keys, 42);
    db.lock_accounts(&keys, &fetched).unwrap();
    db.commit(tx, vec![]).unwrap();
    let back = db.lock_accounts(&keys, &KeyTable::new()).unwrap();
    for (_, s) in back {
        assert_eq!(s.lamports, 42);
    }
}

#[test]
fn lock_contention_serialises() {
    let a = key(1);
    let b = key(2);
    let c = key(3);
    let mut db = RollupDB::new();
    let t1 = transfer_tx(a, b, 10);
    let t2 = transfer_tx(b, c, 4);
    let k1 = t1.message.account_keys.clone();
    let fetched = fetched_for(&db, &k1, 100);
    db.lock_accounts(&k1, &fetched).unwrap();
    assert!(db.is_locked(&b));
    db.commit(t1, vec![(a, snapshot(90)), (b, snapshot(110))]).unwrap();
    assert!(!db.is_locked(&b));
    let k2 = t2.message.account_keys.clone();
    let fetched = fetched_for(&db, &k2, 100);
    let view = db.lock_accounts(&k2, &fetched).unwrap();
    assert_eq!(view[0].0, b);
    assert_eq!(view[0].1.lamports, 110);
}

#[test]
fn loader_serves_cached_snapshots() {
    let mut loader = RollupAccountLoader::new(snapshot(1), snapshot(2));
    assert_eq!(loader.get_account_shared_data(&AccountKey::new(BPF_LOADER_ID)).unwrap().lamports, 1);
    assert_eq!(loader.get_account_shared_data(&AccountKey::new(TOKEN_PROGRAM_ID)).unwrap().lamports, 2);
    assert!(loader.get_account_shared_data(&key(5)).is_none());
    loader.add_account(key(5), snapshot(3));
    loader.add_account(key(5), snapshot(4));
    assert_eq!(loader.get_account_shared_data(&key(5)).unwrap().lamports, 4);
    let owners = vec![key(9), AccountKey::new(SYSTEM_PROGRAM_ID)];
    assert_eq!(loader.account_matches_owners(&key(5), &owners), Some(1));
    assert_eq!(loader.account_matches_owners(&key(5), &vec![key(9)]), None);
    assert_eq!(loader.account_matches_owners(&key(6), &owners), None);
}

#[test]
fn oversized_message_is_refused() {
    let mut db = RollupDB::new();
    let mut tx = transfer_tx(key(1), key(2), 5);
    tx.message.instructions[0].data = vec![0u8; 65_536];
    let keys = tx.message.account_keys.clone();
    let fetched = fetched_for(&db, &keys, 10);
    db.lock_accounts(&keys, &fetched).unwrap();
    assert!(!tx.message.is_wire_encodable());
    assert_eq!(db.commit(tx, vec![]), Err(StoreError::MessageTooLong));
    assert!(db.is_locked(&key(1)));
    let mut fits = transfer_tx(key(1), key(2), 5);
    fits.message.instructions[0].data = vec![0u8; 65_535];
    assert!(fits.message.is_wire_encodable());
}

#[test]
fn snapshot_for_unlocked_key_is_installed() {
    let mut db = RollupDB::new();
    let tx = transfer_tx(key(1), key(2), 5);
    let keys = tx.message.account_keys.clone();
    let fetched = fetched_for(&db, &keys, 10);
    db.lock_accounts(&keys, &fetched).unwrap();
    db.commit(tx, vec![(key(7), snapshot(77))]).unwrap();
    assert!(db.is_active(&key(7)));
    assert!(!db.is_locked(&key(7)));
    for k in &keys {
        assert!(db.is_active(k));
    }
}
