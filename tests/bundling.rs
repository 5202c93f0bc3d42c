use rollup_core::bundler::{
    is_token_transfer_ix, is_transfer_ix, mint_of_token_account, parse_compiled_instruction,
    parse_instruction, parse_transfer, BundleError, TransferBundler,
};
use rollup_core::key::{AccountKey, SYSTEM_PROGRAM_ID, TOKEN_PROGRAM_ID};
use rollup_core::model::{CompiledInstruction, Instruction, Message, MessageHeader, Transaction};
use rollup_core::rollupdb::RollupDB;
use rollup_core::table::KeyTable;
use solana_sdk::program_pack::Pack;
use solana_sdk::pubkey::Pubkey;

fn key(n: u8) -> AccountKey {
    AccountKey::new([n; 32])
}

fn pk(k: &AccountKey) -> Pubkey {
    Pubkey::new_from_array(k.bytes)
}

fn tx_with(keys: Vec<AccountKey>, instructions: Vec<CompiledInstruction>, blockhash: u8) -> Transaction {
    Transaction {
        signatures: vec![vec![0u8; 64]],
        message: Message {
            header: MessageHeader {
                num_required_signatures: 1,
                num_readonly_signed_accounts: 0,
                num_readonly_unsigned_accounts: 1,
            },
            account_keys: keys,
            recent_blockhash: [blockhash; 32],
            instructions,
        },
    }
}

fn sol_transfer(from: AccountKey, to: AccountKey, lamports: u64, blockhash: u8) -> Transaction {
    let data = solana_sdk::system_instruction::transfer(&pk(&from), &pk(&to), lamports).data;
    let ix = CompiledInstruction { program_id_index: 2, accounts: vec![0, 1], data };
    tx_with(vec![from, to, AccountKey::new(SYSTEM_PROGRAM_ID)], vec![ix], blockhash)
}

fn run_bundle(txs: Vec<Transaction>, mints: Vec<(AccountKey, AccountKey)>) -> Vec<Instruction> {
    let mut bundler = TransferBundler::new();
    for (account, mint) in mints {
        bundler.record_mint(account, mint);
    }
    for tx in &txs {
        bundler.bundle(tx).unwrap();
    }
    bundler.generate_final().unwrap()
}

#[test]
fn empty_log_bundles_to_nothing() {
    let mut db = RollupDB::new();
    assert!(db.bundle(&vec![]).unwrap().is_empty());
    assert!(TransferBundler::new().generate_final().unwrap().is_empty());
}

#[test]
fn back_and_forth_transfers_compress_to_one() {
    let a = key(1);
    let b = key(2);
    let unit = solana_sdk::native_token::LAMPORTS_PER_SOL / 10;
    let amounts: Vec<i64> = vec![5, -3, 9, -10, 1, -10, 4, -3, 9, -6];
    let mut txs = Vec::new();
    for (i, amount) in amounts.iter().enumerate() {
        let (from, to) = if *amount > 0 { (a, b) } else { (b, a) };
        txs.push(sol_transfer(from, to, amount.unsigned_abs() * unit, i as u8 + 1));
    }
    let out = run_bundle(txs, vec![]);
    assert_eq!(out.len(), 1);
    let expected = solana_sdk::system_instruction::transfer(&pk(&b), &pk(&a), 4 * unit);
    assert_eq!(out[0].program_id.bytes, expected.program_id.to_bytes());
    assert_eq!(out[0].data, expected.data);
    assert_eq!(out[0].accounts.len(), 2);
    for (m, e) in out[0].accounts.iter().zip(expected.accounts.iter()) {
        assert_eq!(m.pubkey.bytes, e.pubkey.to_bytes());
        assert_eq!(m.is_signer, e.is_signer);
        assert_eq!(m.is_writable, e.is_writable);
    }
}

#[test]
fn back_and_forth_through_the_store_clears_the_log() {
    let a = key(1);
    let b = key(2);
    let mut db = RollupDB::new();
    let amounts: Vec<i64> = vec![5, -3, 9, -10, 1, -10, 4, -3, 9, -6];
    for (i, amount) in amounts.iter().enumerate() {
        let (from, to) = if *amount > 0 { (a, b) } else { (b, a) };
        let tx = sol_transfer(from, to, amount.unsigned_abs(), i as u8 + 1);
        let mut fetched = KeyTable::new();
        for k in &tx.message.account_keys {
            if !db.is_active(k) {
                fetched.insert(k.bytes, snapshot(1_000));
            }
        }
        let keys = tx.message.account_keys.clone();
        let locked = db.lock_accounts(&keys, &fetched).unwrap();
        db.commit(tx, locked).unwrap();
    }
    let out = db.bundle(&vec![]).unwrap();
    assert_eq!(out.len(), 1);
    assert_eq!(out[0].accounts[0].pubkey, b);
    assert_eq!(out[0].accounts[1].pubkey, a);
    assert_eq!(out[0].data[4..12].to_vec(), 4u64.to_le_bytes().to_vec());
    assert!(db.bundle(&vec![]).unwrap().is_empty());
}

fn snapshot(lamports: u64) -> rollup_core::model::AccountSnapshot {
    rollup_core::model::AccountSnapshot {
        lamports,
        owner: AccountKey::new(SYSTEM_PROGRAM_ID),
        executable: false,
        data: vec![],
    }
}

#[test]
fn zero_sum_pair_settles_nothing() {
    let a = key(1);
    let b = key(2);
    let c = key(3);
    let txs = vec![sol_transfer(a, b, 70, 1), sol_transfer(b, a, 30, 2), sol_transfer(b, a, 40, 3), sol_transfer(a, c, 5, 4)];
    let out = run_bundle(txs, vec![]);
    assert_eq!(out.len(), 1);
    assert_eq!(out[0].accounts[0].pubkey, a);
    assert_eq!(out[0].accounts[1].pubkey, c);
}

#[test]
fn non_transfer_instruction_is_ignored() {
    let payer = key(1);
    let new_account = key(2);
    let ix = solana_sdk::system_instruction::create_account(&pk(&payer), &pk(&new_account), 1_000, 0, &Pubkey::new_from_array(TOKEN_PROGRAM_ID));
    let compiled = CompiledInstruction { program_id_index: 2, accounts: vec![0, 1], data: ix.data };
    let tx = tx_with(vec![payer, new_account, AccountKey::new(SYSTEM_PROGRAM_ID)], vec![compiled], 1);
    let keys = tx.message.account_keys.clone();
    assert!(!is_transfer_ix(&tx.message.instructions[0], &keys));
    assert!(parse_transfer(&tx.message.instructions[0], &keys, &KeyTable::new()).is_none());
    let mut bundler = TransferBundler::new();
    bundler.bundle(&tx).unwrap();
    assert!(bundler.net_transfers().unwrap().is_empty());
    assert!(bundler.generate_final().unwrap().is_empty());
}

fn token_tx(ix: solana_sdk::instruction::Instruction, blockhash: u8) -> Transaction {
    let message = solana_sdk::message::Message::new(&[ix], None);
    let keys: Vec<AccountKey> = message.account_keys.iter().map(|k| AccountKey::new(k.to_bytes())).collect();
    let instructions = message
        .instructions
        .iter()
        .map(|c| CompiledInstruction { program_id_index: c.program_id_index, accounts: c.accounts.clone(), data: c.data.clone() })
        .collect();
    tx_with(keys, instructions, blockhash)
}

#[test]
fn transfer_and_transfer_checked_collide() {
    let source = key(10);
    let dest = key(11);
    let mint = key(12);
    let first_authority = key(13);
    let second_authority = key(14);
    let token = Pubkey::new_from_array(TOKEN_PROGRAM_ID);
    let t1 = spl_token::instruction::transfer(&token, &pk(&source), &pk(&dest), &pk(&first_authority), &[], 100).unwrap();
    let t2 = spl_token::instruction::transfer_checked(&token, &pk(&source), &pk(&mint), &pk(&dest), &pk(&second_authority), &[], 250, 6).unwrap();
    let out = run_bundle(vec![token_tx(t1, 1), token_tx(t2, 2)], vec![(source, mint)]);
    assert_eq!(out.len(), 1);
    let expected = spl_token::instruction::transfer(&token, &pk(&source), &pk(&dest), &pk(&first_authority), &[], 350).unwrap();
    assert_eq!(out[0].program_id.bytes, expected.program_id.to_bytes());
    assert_eq!(out[0].data, expected.data);
    assert_eq!(out[0].accounts.len(), 3);
    for (m, e) in out[0].accounts.iter().zip(expected.accounts.iter()) {
        assert_eq!(m.pubkey.bytes, e.pubkey.to_bytes());
        assert_eq!(m.is_signer, e.is_signer);
        assert_eq!(m.is_writable, e.is_writable);
    }
}

#[test]
fn token_transfer_without_known_mint_is_skipped() {
    let token = Pubkey::new_from_array(TOKEN_PROGRAM_ID);
    let t1 = spl_token::instruction::transfer(&token, &pk(&key(10)), &pk(&key(11)), &pk(&key(13)), &[], 100).unwrap();
    assert!(run_bundle(vec![token_tx(t1, 1)], vec![]).is_empty());
}

#[test]
fn short_token_transfer_is_skipped() {
    let token = AccountKey::new(TOKEN_PROGRAM_ID);
    let keys = vec![key(10), key(11), key(13), token];
    let mut mints = KeyTable::new();
    mints.insert(key(10).bytes, key(12));
    let one_account = CompiledInstruction { program_id_index: 3, accounts: vec![0], data: vec![3, 1, 0, 0, 0, 0, 0, 0, 0] };
    assert!(is_token_transfer_ix(&one_account, &keys));
    assert!(parse_transfer(&one_account, &keys, &mints).is_none());
    assert!(TransferBundler::parse_token_transfer(&one_account, &keys, &mints).is_none());
    let short_data = CompiledInstruction { program_id_index: 3, accounts: vec![0, 1, 2], data: vec![3, 1, 0, 0, 0, 0, 0, 0] };
    assert!(parse_transfer(&short_data, &keys, &mints).is_none());
    let empty_data = CompiledInstruction { program_id_index: 3, accounts: vec![0, 1, 2], data: vec![] };
    assert!(!is_token_transfer_ix(&empty_data, &keys));
    assert!(parse_transfer(&empty_data, &keys, &mints).is_none());
    let good = CompiledInstruction { program_id_index: 3, accounts: vec![0, 1, 2], data: vec![3, 1, 0, 0, 0, 0, 0, 0, 0] };
    let parsed = parse_transfer(&good, &keys, &mints).unwrap();
    assert_eq!(parsed.amount, 1);
    assert_eq!(parsed.asset, key(12));
    assert_eq!(parsed.authority, key(13));
    let out_of_range = CompiledInstruction { program_id_index: 9, accounts: vec![0, 1, 2], data: vec![3, 1, 0, 0, 0, 0, 0, 0, 0] };
    assert!(parse_transfer(&out_of_range, &keys, &mints).is_none());
}

#[test]
fn system_transfer_is_read_through_bincode() {
    let tx = sol_transfer(key(1), key(2), 123_456_789, 1);
    let keys = tx.message.account_keys.clone();
    let ix = &tx.message.instructions[0];
    assert!(is_transfer_ix(ix, &keys));
    let parsed = parse_transfer(ix, &keys, &KeyTable::new()).unwrap();
    assert_eq!(parsed.from, key(1));
    assert_eq!(parsed.to, key(2));
    assert_eq!(parsed.amount, 123_456_789);
    assert_eq!(parsed.asset.bytes, SYSTEM_PROGRAM_ID);
    let (from, to, amount) = parse_compiled_instruction(ix, &keys).unwrap();
    assert_eq!((from, to, amount), (key(1), key(2), 123_456_789i128));
    let explicit = solana_sdk::system_instruction::transfer(&pk(&key(1)), &pk(&key(2)), 987);
    let own = Instruction {
        program_id: AccountKey::new(SYSTEM_PROGRAM_ID),
        accounts: explicit
            .accounts
            .iter()
            .map(|m| rollup_core::model::AccountMeta { pubkey: AccountKey::new(m.pubkey.to_bytes()), is_signer: m.is_signer, is_writable: m.is_writable })
            .collect(),
        data: explicit.data.clone(),
    };
    assert_eq!(parse_instruction(&own), Some((key(1), key(2), 987i128)));
    let mut truncated = own.clone();
    truncated.data.truncate(3);
    assert_eq!(parse_instruction(&truncated), None);
    let mut wrong_tag = ix.clone();
    wrong_tag.data[0] = 3;
    assert!(!is_transfer_ix(&wrong_tag, &keys));
    assert!(parse_transfer(&wrong_tag, &keys, &KeyTable::new()).is_none());
}

#[test]
fn holdings_are_preserved_by_bundling() {
    let a = key(1);
    let b = key(2);
    let c = key(3);
    let txs = vec![sol_transfer(a, b, 50, 1), sol_transfer(b, c, 20, 2), sol_transfer(c, a, 5, 3), sol_transfer(b, a, 10, 4)];
    let mut bundler = TransferBundler::new();
    for tx in &txs {
        bundler.bundle(tx).unwrap();
    }
    let out = bundler.net_transfers().unwrap();
    let delta = |p: AccountKey| -> i128 {
        out.iter().map(|t| (if t.to == p { t.amount as i128 } else { 0 }) - (if t.from == p { t.amount as i128 } else { 0 })).sum()
    };
    assert_eq!(delta(a), -50 + 5 + 10);
    assert_eq!(delta(b), 50 - 20 - 10);
    assert_eq!(delta(c), 20 - 5);
}

#[test]
fn huge_net_sum_is_refused() {
    let a = key(1);
    let b = key(2);
    let mut bundler = TransferBundler::new();
    bundler.bundle(&sol_transfer(a, b, u64::MAX, 1)).unwrap();
    bundler.bundle(&sol_transfer(a, b, 1, 2)).unwrap();
    assert!(matches!(bundler.generate_final(), Err(BundleError::AmountTooLarge)));
}

#[test]
fn token_account_mint_comes_from_its_data() {
    let account = spl_token::state::Account {
        mint: Pubkey::new_from_array([7; 32]),
        owner: Pubkey::new_from_array([8; 32]),
        amount: 5,
        state: spl_token::state::AccountState::Initialized,
        ..Default::default()
    };
    let mut data = vec![0u8; spl_token::state::Account::LEN];
    spl_token::state::Account::pack(account, &mut data).unwrap();
    assert_eq!(mint_of_token_account(&data), Some(AccountKey::new([7; 32])));
    assert_eq!(mint_of_token_account(&data[..100].to_vec()), None);
    let mut uninitialised = data.clone();
    uninitialised[108] = 0;
    assert_eq!(mint_of_token_account(&uninitialised), None);
    let mut bad_tag = data.clone();
    bad_tag[72] = 2;
    assert_eq!(mint_of_token_account(&bad_tag), None);
    let mut frozen = data.clone();
    frozen[108] = 2;
    assert_eq!(mint_of_token_account(&frozen), Some(AccountKey::new([7; 32])));
}

#[test]
fn program_ids_match_the_chain() {
    assert_eq!(TOKEN_PROGRAM_ID, spl_token::ID.to_bytes());
    assert_eq!(SYSTEM_PROGRAM_ID, solana_sdk::system_program::ID.to_bytes());
    assert_eq!(rollup_core::key::BPF_LOADER_ID, solana_sdk::bpf_loader::ID.to_bytes());
}

#[test]
fn sorted_pair_collides_both_ways() {
    let a = key(1);
    let b = key(2);
    assert_eq!(AccountKey::sort_pair(a, b), AccountKey::sort_pair(b, a));
    assert!(a.less_than(&b));
    assert!(!b.less_than(&a));
    assert!(!a.less_than(&a));
}


#[test]
fn store_lists_token_transfer_sources() {
    let source = key(10);
    let token = Pubkey::new_from_array(TOKEN_PROGRAM_ID);
    let t1 = spl_token::instruction::transfer(&token, &pk(&source), &pk(&key(11)), &pk(&key(13)), &[], 100).unwrap();
    let t2 = spl_token::instruction::transfer_checked(&token, &pk(&key(20)), &pk(&key(12)), &pk(&key(11)), &pk(&key(13)), &[], 250, 6).unwrap();
    let mut db = RollupDB::new();
    for tx in [token_tx(t1, 1), token_tx(t2, 2)] {
        let keys = tx.message.account_keys.clone();
        let mut fetched = KeyTable::new();
        for k in &keys {
            fetched.insert(k.bytes, snapshot(1));
        }
        let locked = db.lock_accounts(&keys, &fetched).unwrap();
        db.commit(tx, locked).unwrap();
    }
    assert_eq!(db.token_transfer_sources(), vec![source]);
    let out = db.bundle(&vec![(source, key(12))]).unwrap();
    assert_eq!(out.len(), 2);
    assert!(db.token_transfer_sources().is_empty());
}

#[test]
fn settlement_order_follows_keys_not_log_order() {
    let a = key(1);
    let b = key(2);
    let c = key(3);
    let d = key(4);
    let first = run_bundle(vec![sol_transfer(c, d, 7, 1), sol_transfer(a, b, 5, 2)], vec![]);
    let second = run_bundle(vec![sol_transfer(a, b, 5, 2), sol_transfer(c, d, 7, 1)], vec![]);
    assert_eq!(first.len(), 2);
    for (x, y) in first.iter().zip(second.iter()) {
        assert_eq!(x.accounts[0].pubkey, y.accounts[0].pubkey);
        assert_eq!(x.data, y.data);
    }
    assert_eq!(first[0].accounts[0].pubkey, a);
    assert_eq!(first[1].accounts[0].pubkey, c);
}
