use rollup_core::frontend::TransactionResponse;
use rollup_core::key::{AccountKey, SYSTEM_PROGRAM_ID};
use rollup_core::model::{Message, MessageHeader, Transaction};
use rollup_core::sequencer::{Action, Event, RejectReason, Sequencer, Stage, TxFlow, LOCK_POLL_BACKOFF_MS, REQUIRED_DELEGATION};
use rollup_core::threading::{create_shared_state, SharedState};

fn key(n: u8) -> AccountKey {
    AccountKey::new([n; 32])
}

fn tx(keys: Vec<AccountKey>) -> Transaction {
    Transaction {
        signatures: vec![],
        message: Message {
            header: MessageHeader { num_required_signatures: 1, num_readonly_signed_accounts: 0, num_readonly_unsigned_accounts: 1 },
            account_keys: keys,
            recent_blockhash: [0; 32],
            instructions: vec![],
        },
    }
}

#[test]
fn admitted_transaction_runs_to_commit() {
    let (mut flow, action) = TxFlow::start(&tx(vec![key(1), key(2), AccountKey::new(SYSTEM_PROGRAM_ID)]));
    assert!(matches!(action, Action::VerifyDelegation { payer, amount } if payer == key(1) && amount == REQUIRED_DELEGATION));
    assert!(matches!(flow.step(Event::DelegationChecked { admitted: true }), Action::QueryLock { key: k } if k == key(1)));
    assert!(matches!(flow.step(Event::LockAnswer { locked: false }), Action::QueryLock { key: k } if k == key(2)));
    assert!(matches!(flow.step(Event::LockAnswer { locked: false }), Action::QueryLock { .. }));
    assert!(matches!(flow.step(Event::LockAnswer { locked: false }), Action::LockAll));
    assert!(matches!(flow.step(Event::Locked), Action::Execute));
    assert!(matches!(flow.step(Event::Executed { produced_state: true }), Action::Commit { with_post_state: true }));
    assert_eq!(flow.stage, Stage::Committed);
    assert!(matches!(flow.step(Event::Locked), Action::Idle));
}

#[test]
fn missing_delegation_asks_for_deposit() {
    let (mut flow, _) = TxFlow::start(&tx(vec![key(1), key(2)]));
    assert!(matches!(flow.step(Event::DelegationChecked { admitted: false }), Action::SubmitDeposit { payer, amount } if payer == key(1) && amount == 1_000_000));
    assert_eq!(flow.stage, Stage::DepositPending);
    assert!(matches!(flow.step(Event::DepositSettled { confirmed: true }), Action::QueryLock { key: k } if k == key(1)));
}

#[test]
fn failed_deposit_rejects() {
    let (mut flow, _) = TxFlow::start(&tx(vec![key(1)]));
    flow.step(Event::DelegationChecked { admitted: false });
    assert!(matches!(flow.step(Event::DepositSettled { confirmed: false }), Action::Reject { reason: RejectReason::DelegationInsufficient }));
    assert_eq!(flow.stage, Stage::Rejected);
}

#[test]
fn locked_key_is_polled_again() {
    let (mut flow, _) = TxFlow::start(&tx(vec![key(1), key(2)]));
    flow.step(Event::DelegationChecked { admitted: true });
    flow.step(Event::LockAnswer { locked: false });
    assert!(matches!(flow.step(Event::LockAnswer { locked: true }), Action::WaitThenQueryLock { key: k, backoff_ms } if k == key(2) && backoff_ms == LOCK_POLL_BACKOFF_MS));
    assert_eq!(flow.stage, Stage::AwaitingLock { next: 1 });
    assert!(matches!(flow.step(Event::LockAnswer { locked: false }), Action::LockAll));
}

#[test]
fn vm_without_result_restores_on_commit() {
    let (mut flow, _) = TxFlow::start(&tx(vec![key(1)]));
    flow.step(Event::DelegationChecked { admitted: true });
    flow.step(Event::LockAnswer { locked: false });
    flow.step(Event::Locked);
    assert!(matches!(flow.step(Event::Executed { produced_state: false }), Action::Commit { with_post_state: false }));
}

#[test]
fn transaction_without_accounts_is_malformed() {
    let (flow, action) = TxFlow::start(&tx(vec![]));
    assert_eq!(flow.stage, Stage::Rejected);
    assert!(matches!(action, Action::Reject { reason: RejectReason::MalformedTransaction }));
}

#[test]
fn settlement_every_ten_commits() {
    let mut seq = Sequencer::new();
    for _ in 0..9 {
        assert!(!seq.record_commit());
    }
    assert!(seq.record_commit());
    assert_eq!(seq.tx_counter, 0);
    assert!(!seq.record_commit());
}

#[test]
fn shared_counter_increments() {
    let shared = create_shared_state();
    shared.write().unwrap().increment_counter();
    let mut state = SharedState { counter: 41 };
    state.increment_counter();
    assert_eq!(state.counter, 42);
    assert_eq!(shared.read().unwrap().counter, 1);
}

#[test]
fn responses_carry_their_message() {
    let ok = TransactionResponse::Success { message: "Transaction submitted".to_string() };
    assert!(ok.is_success());
    assert_eq!(ok.message(), "Transaction submitted");
    let err = TransactionResponse::Error { message: "refused".to_string() };
    assert!(!err.is_success());
}

#[test]
fn shared_state_starts_at_zero() {
    assert_eq!(SharedState::new().counter, 0);
    assert_eq!(create_shared_state().read().unwrap().counter, 0);
}
