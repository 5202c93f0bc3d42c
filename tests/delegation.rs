use rollup_core::delegation::{
    create_delegation_instruction, create_topup_instruction, create_withdrawal_instruction,
    find_delegation_pda, get_delegation_program_id, DelegatedAccount, EscrowMethod,
    InitializeDelegateArgs, DELEGATION_PROGRAM_ID,
};
use rollup_core::delegation_service::{DelegationError, DelegationService};
use rollup_core::key::{AccountKey, SYSTEM_PROGRAM_ID};
use rollup_core::model::AccountSnapshot;
use solana_sdk::pubkey::Pubkey;
use solana_sdk::signature::Keypair;
use solana_sdk::signer::Signer;
use std::str::FromStr;

fn keypair_bytes(seed: u8) -> (Vec<u8>, AccountKey) {
    let kp = Keypair::new_from_array([seed; 32]);
    (kp.to_bytes().to_vec(), AccountKey::new(kp.pubkey().to_bytes()))
}

fn escrow_data(owner: &AccountKey, delegated: u64, time: i64, bump: u8) -> Vec<u8> {
    let mut data = vec![9u8, 9, 9, 9, 9, 9, 9, 9];
    data.extend_from_slice(&owner.bytes);
    data.extend_from_slice(&delegated.to_le_bytes());
    data.extend_from_slice(&time.to_le_bytes());
    data.push(bump);
    data
}

fn escrow_account(owner: &AccountKey, delegated: u64) -> AccountSnapshot {
    AccountSnapshot {
        lamports: 2_000_000,
        owner: get_delegation_program_id(),
        executable: false,
        data: escrow_data(owner, delegated, 1_700_000_000, 254),
    }
}

fn expected_pda(owner: &AccountKey) -> (AccountKey, u8) {
    let program = Pubkey::from_str("5MSF4TiUfD7dVm7P1ahPYJfEBLCUQn7hEPYXYHocVwzh").unwrap();
    let (pda, bump) = Pubkey::find_program_address(&[b"delegate", owner.bytes.as_ref()], &program);
    (AccountKey::new(pda.to_bytes()), bump)
}

#[test]
fn program_id_matches_its_base58_form() {
    let program = Pubkey::from_str("5MSF4TiUfD7dVm7P1ahPYJfEBLCUQn7hEPYXYHocVwzh").unwrap();
    assert_eq!(DELEGATION_PROGRAM_ID, program.to_bytes());
}

#[test]
fn escrow_derivation_is_deterministic() {
    let user = AccountKey::new([42; 32]);
    let first = find_delegation_pda(&user).unwrap();
    let second = find_delegation_pda(&user).unwrap();
    assert_eq!(first, second);
    assert_eq!(first, expected_pda(&user));
    let other = find_delegation_pda(&AccountKey::new([43; 32])).unwrap();
    assert_ne!(first.0, other.0);
}

#[test]
fn discriminators_are_sha256_prefixes() {
    assert_eq!(EscrowMethod::InitializeDelegate.discriminator(), vec![125, 157, 222, 88, 198, 191, 228, 86]);
    assert_eq!(EscrowMethod::TopUp.discriminator(), vec![236, 225, 96, 9, 60, 106, 77, 208]);
    assert_eq!(EscrowMethod::Withdraw.discriminator(), vec![183, 18, 70, 156, 148, 109, 161, 34]);
}

#[test]
fn escrow_instructions_are_encoded() {
    let owner = AccountKey::new([5; 32]);
    let (pda, _) = expected_pda(&owner);
    let init = create_delegation_instruction(&owner, 1_000_000).unwrap();
    assert_eq!(init.program_id.bytes, DELEGATION_PROGRAM_ID);
    let mut data = vec![125, 157, 222, 88, 198, 191, 228, 86];
    data.extend_from_slice(&1_000_000u64.to_le_bytes());
    assert_eq!(init.data, data);
    assert_eq!(init.accounts.len(), 3);
    assert_eq!(init.accounts[0].pubkey, owner);
    assert!(init.accounts[0].is_signer && init.accounts[0].is_writable);
    assert_eq!(init.accounts[1].pubkey, pda);
    assert!(!init.accounts[1].is_signer && init.accounts[1].is_writable);
    assert_eq!(init.accounts[2].pubkey.bytes, SYSTEM_PROGRAM_ID);
    assert!(!init.accounts[2].is_signer && !init.accounts[2].is_writable);
    let top = create_topup_instruction(&owner, 7).unwrap();
    assert_eq!(top.data[..8].to_vec(), vec![236, 225, 96, 9, 60, 106, 77, 208]);
    assert_eq!(top.data[8..].to_vec(), 7u64.to_le_bytes().to_vec());
    let withdraw = create_withdrawal_instruction(&pda, &owner, 9);
    assert_eq!(withdraw.data[..8].to_vec(), vec![183, 18, 70, 156, 148, 109, 161, 34]);
    assert_eq!(withdraw.accounts[1].pubkey, pda);
    assert_eq!(InitializeDelegateArgs { amount: 1_000_000 }.try_to_vec(), 1_000_000u64.to_le_bytes().to_vec());
}

#[test]
fn escrow_record_golden_bytes() {
    let owner = AccountKey::new([3; 32]);
    let data = escrow_data(&owner, 10_000_000, -5, 251);
    assert_eq!(data.len(), 57);
    let rec = DelegatedAccount::try_from_account_data(&data).unwrap();
    assert_eq!(rec.owner, owner);
    assert_eq!(rec.delegated_amount, 10_000_000);
    assert_eq!(rec.last_deposit_time, -5);
    assert_eq!(rec.bump, 251);
    assert!(DelegatedAccount::try_from_account_data(&data[..8].to_vec()).is_none());
    assert!(DelegatedAccount::try_from_account_data(&vec![]).is_none());
    let mut longer = data.clone();
    longer.push(0);
    assert!(DelegatedAccount::try_from_account_data(&longer).is_none());
}

#[test]
fn deposit_is_top_up_when_escrow_exists() {
    let (material, user) = keypair_bytes(1);
    let mut service = DelegationService::new(material.clone()).unwrap();
    let tx = service.create_delegation_transaction(&user, 1_000_000, Some(escrow_account(&user, 10)), [4; 32]).unwrap();
    assert_eq!(tx.instruction.data[..8].to_vec(), EscrowMethod::TopUp.discriminator());
    assert_eq!(tx.payer, user);
    assert_eq!(tx.signer, material);
    assert_eq!(tx.recent_blockhash, [4; 32]);
}

#[test]
fn deposit_is_initialize_without_escrow() {
    let (material, user) = keypair_bytes(2);
    let mut service = DelegationService::new(material).unwrap();
    let tx = service.create_delegation_transaction(&user, 1_000_000, None, [4; 32]).unwrap();
    assert_eq!(tx.instruction.data[..8].to_vec(), EscrowMethod::InitializeDelegate.discriminator());
    assert_eq!(tx.instruction.data[8..].to_vec(), 1_000_000u64.to_le_bytes().to_vec());
    let short = AccountSnapshot { lamports: 1, owner: get_delegation_program_id(), executable: false, data: vec![1, 2, 3, 4, 5, 6, 7, 8] };
    let tx = service.create_delegation_transaction(&user, 5, Some(short), [4; 32]).unwrap();
    assert_eq!(tx.instruction.data[..8].to_vec(), EscrowMethod::InitializeDelegate.discriminator());
}

#[test]
fn deposit_without_signer_is_refused() {
    let (material, _) = keypair_bytes(3);
    let mut service = DelegationService::new(material).unwrap();
    let stranger = AccountKey::new([77; 32]);
    assert_eq!(service.create_delegation_transaction(&stranger, 1, None, [0; 32]).unwrap_err(), DelegationError::NoSignerRegistered);
    let (pda, _) = expected_pda(&stranger);
    assert_eq!(service.create_withdrawal_transaction(&pda, &stranger, 1, [0; 32]).unwrap_err(), DelegationError::NoSignerRegistered);
}

#[test]
fn signers_are_registered_by_public_key() {
    let (first, first_key) = keypair_bytes(4);
    let (second, second_key) = keypair_bytes(5);
    let mut service = DelegationService::new(first.clone()).unwrap();
    assert_eq!(service.add_signer(second.clone()).unwrap(), second_key);
    assert_eq!(service.get_keypair(&first_key), Some(&first));
    assert_eq!(service.get_keypair(&second_key), Some(&second));
    let mut bad = second.clone();
    bad[40] ^= 1;
    assert_eq!(service.add_signer(bad).unwrap_err(), DelegationError::InvalidSigningMaterial);
    assert_eq!(service.add_signer(vec![1, 2, 3]).unwrap_err(), DelegationError::InvalidSigningMaterial);
    assert!(DelegationService::new(vec![0; 10]).is_err());
    let (pda, _) = expected_pda(&second_key);
    let withdraw = service.create_withdrawal_transaction(&pda, &second_key, 3, [1; 32]).unwrap();
    assert_eq!(withdraw.instruction.data[..8].to_vec(), EscrowMethod::Withdraw.discriminator());
}

#[test]
fn admission_requires_enough_delegation() {
    let (material, user) = keypair_bytes(6);
    let mut service = DelegationService::new(material).unwrap();
    assert_eq!(service.verify_delegation_for_transaction(&user, 1_000_000), None);
    let found = service.get_or_fetch_pda(&user, Some(escrow_account(&user, 10_000_000))).unwrap();
    let (pda, _) = expected_pda(&user);
    let (found_pda, record) = found.unwrap();
    assert_eq!(found_pda, pda);
    assert_eq!(record.delegated_amount, 10_000_000);
    assert_eq!(service.verify_delegation_for_transaction(&user, 1_000_000), Some(pda));
    assert_eq!(service.verify_delegation_for_transaction(&user, 10_000_001), None);
    assert!(service.get_or_fetch_pda(&user, None).unwrap().is_none());
    assert_eq!(service.verify_delegation_for_transaction(&user, 1), None);
    service.update_pda_state(pda, escrow_account(&user, 2_000_000));
    assert_eq!(service.verify_delegation_for_transaction(&user, 1_000_000), Some(pda));
}
