//! The sequencer's decisions for one transaction, as a state machine that
//! takes the outcome of each outside step (delegation check, deposit, lock
//! query, lock, execution) and names the next step to perform; and the
//! counter that triggers settlement.

use vstd::prelude::*;
use crate::key::AccountKey;
use crate::model::Transaction;

verus! {

/// Delegated balance a fee payer must have in escrow to be admitted.
pub const REQUIRED_DELEGATION: u64 = 1_000_000;

/// Committed transactions between two settlements.
pub const SETTLEMENT_THRESHOLD: u32 = 10;

/// Pause between two lock queries on a key that is still locked, in milliseconds.
pub const LOCK_POLL_BACKOFF_MS: u64 = 500;

/// Where a transaction stands.
#[derive(Clone, Copy, Debug, PartialEq, Eq, Structural)]
pub enum Stage {
    /// Waiting for the fee payer's delegation check.
    AwaitingDelegation,
    /// A deposit into the payer's escrow was sent; waiting for its confirmation.
    DepositPending,
    /// Polling whether the key at `next` is locked.
    AwaitingLock { next: usize },
    /// All keys are free; waiting for the store to lock them and for the snapshots to be cached.
    Locking,
    /// Waiting for the virtual machine.
    Executing,
    /// The commit was sent; the transaction is done.
    Committed,
    /// Refused; no lock is held.
    Rejected,
}

/// Why a transaction was refused.
#[derive(Clone, Copy, Debug, PartialEq, Eq, Structural)]
pub enum RejectReason {
    /// The transaction names no account.
    MalformedTransaction,
    /// No delegation, and the deposit that would give one failed.
    DelegationInsufficient,
}

/// The outcome of the step last asked for.
#[derive(Clone, Copy, Debug, PartialEq, Eq, Structural)]
pub enum Event {
    DelegationChecked { admitted: bool },
    DepositSettled { confirmed: bool },
    LockAnswer { locked: bool },
    Locked,
    Executed { produced_state: bool },
}

/// The next step to perform.
#[derive(Clone, Copy, Debug)]
pub enum Action {
    /// Ask the delegation service whether `payer` has `amount` delegated.
    VerifyDelegation { payer: AccountKey, amount: u64 },
    /// Build, sign and send a deposit of `amount` for `payer`, wait for it and refresh the escrow cache.
    SubmitDeposit { payer: AccountKey, amount: u64 },
    /// Ask the store whether `key` is locked.
    QueryLock { key: AccountKey },
    /// Wait `backoff_ms`, then ask the store again whether `key` is locked.
    WaitThenQueryLock { key: AccountKey, backoff_ms: u64 },
    /// Lock every key of the transaction and cache the snapshots received.
    LockAll,
    /// Run the transaction in the virtual machine.
    Execute,
    /// Commit the transaction: with the post-execution snapshots, or with
    /// none so that the locked snapshots are restored.
    Commit { with_post_state: bool },
    /// Refuse the transaction.
    Reject { reason: RejectReason },
    /// Nothing to do.
    Idle,
}

/// The progress of one transaction through the sequencer.
pub struct TxFlow {
    pub stage: Stage,
    pub keys: Vec<AccountKey>,
}

/// The step that follows `event` in `stage`, for a transaction with account keys `keys`.
pub open spec fn step_spec(stage: Stage, keys: Seq<AccountKey>, event: Event) -> (Stage, Action) {
    match (stage, event) {
        (Stage::AwaitingDelegation, Event::DelegationChecked { admitted }) => if admitted {
            (Stage::AwaitingLock { next: 0 }, Action::QueryLock { key: keys[0] })
        } else {
            (Stage::DepositPending, Action::SubmitDeposit { payer: keys[0], amount: REQUIRED_DELEGATION })
        },
        (Stage::DepositPending, Event::DepositSettled { confirmed }) => if confirmed {
            (Stage::AwaitingLock { next: 0 }, Action::QueryLock { key: keys[0] })
        } else {
            (Stage::Rejected, Action::Reject { reason: RejectReason::DelegationInsufficient })
        },
        (Stage::AwaitingLock { next }, Event::LockAnswer { locked }) => if locked {
            (Stage::AwaitingLock { next }, Action::WaitThenQueryLock { key: keys[next as int], backoff_ms: LOCK_POLL_BACKOFF_MS })
        } else if next + 1 < keys.len() {
            (Stage::AwaitingLock { next: (next + 1) as usize }, Action::QueryLock { key: keys[next + 1] })
        } else {
            (Stage::Locking, Action::LockAll)
        },
        (Stage::Locking, Event::Locked) => (Stage::Executing, Action::Execute),
        (Stage::Executing, Event::Executed { produced_state }) => (Stage::Committed, Action::Commit { with_post_state: produced_state }),
        _ => (stage, Action::Idle),
    }
}

impl TxFlow {
    /// The transaction's account keys; the first pays the fee.
    pub open spec fn keys(&self) -> Seq<AccountKey> {
        self.keys@
    }

    /// The stage stays within the transaction's keys.
    pub open spec fn wf(&self) -> bool {
        &&& self.keys().len() > 0 || self.stage == Stage::Rejected
        &&& self.stage matches Stage::AwaitingLock { next } ==> next < self.keys().len()
    }

    /// Starts a transaction: its fee payer's delegation is checked first; a
    /// transaction that names no account is refused.
    pub fn start(tx: &Transaction) -> (r: (TxFlow, Action))
        ensures
            r.0.wf(),
            r.0.keys() == tx.message.account_keys@,
            tx.message.account_keys@.len() == 0 ==> r.0.stage == Stage::Rejected
                && r.1 == (Action::Reject { reason: RejectReason::MalformedTransaction }),
            tx.message.account_keys@.len() > 0 ==> r.0.stage == Stage::AwaitingDelegation
                && r.1 == (Action::VerifyDelegation { payer: tx.message.account_keys@[0], amount: REQUIRED_DELEGATION }),
    {
        let keys = copy_keys(&tx.message.account_keys);
        if keys.len() == 0 {
            (TxFlow { stage: Stage::Rejected, keys }, Action::Reject { reason: RejectReason::MalformedTransaction })
        } else {
            let payer = keys[0];
            (TxFlow { stage: Stage::AwaitingDelegation, keys }, Action::VerifyDelegation { payer, amount: REQUIRED_DELEGATION })
        }
    }

    /// Takes in the outcome of the last step and names the next one.
    pub fn step(&mut self, event: Event) -> (r: Action)
        requires
            old(self).wf(),
        ensures
            final(self).wf(),
            final(self).keys() == old(self).keys(),
            (final(self).stage, r) == step_spec(old(self).stage, old(self).keys(), event),
    {
        match (self.stage, event) {
            (Stage::AwaitingDelegation, Event::DelegationChecked { admitted }) => {
                if admitted {
                    self.stage = Stage::AwaitingLock { next: 0 };
                    Action::QueryLock { key: self.keys[0] }
                } else {
                    self.stage = Stage::DepositPending;
                    Action::SubmitDeposit { payer: self.keys[0], amount: REQUIRED_DELEGATION }
                }
            },
            (Stage::DepositPending, Event::DepositSettled { confirmed }) => {
                if confirmed {
                    self.stage = Stage::AwaitingLock { next: 0 };
                    Action::QueryLock { key: self.keys[0] }
                } else {
                    self.stage = Stage::Rejected;
                    Action::Reject { reason: RejectReason::DelegationInsufficient }
                }
            },
            (Stage::AwaitingLock { next }, Event::LockAnswer { locked }) => {
                if locked {
                    Action::WaitThenQueryLock { key: self.keys[next], backoff_ms: LOCK_POLL_BACKOFF_MS }
                } else if next < self.keys.len() - 1 {
                    self.stage = Stage::AwaitingLock { next: next + 1 };
                    Action::QueryLock { key: self.keys[next + 1] }
                } else {
                    self.stage = Stage::Locking;
                    Action::LockAll
                }
            },
            (Stage::Locking, Event::Locked) => {
                self.stage = Stage::Executing;
                Action::Execute
            },
            (Stage::Executing, Event::Executed { produced_state }) => {
                self.stage = Stage::Committed;
                Action::Commit { with_post_state: produced_state }
            },
            _ => Action::Idle,
        }
    }
}

fn copy_keys(keys: &Vec<AccountKey>) -> (r: Vec<AccountKey>)
    ensures
        r@ == keys@,
{
    let mut r: Vec<AccountKey> = Vec::new();
    let mut i: usize = 0;
    while i < keys.len()
        invariant
            i <= keys@.len(),
            r@ == keys@.take(i as int),
        decreases keys@.len() - i,
    {
        r.push(keys[i]);
        assert(keys@.take(i + 1) =~= keys@.take(i as int).push(keys@[i as int]));
        i = i + 1;
    }
    assert(keys@.take(keys@.len() as int) =~= keys@);
    r
}

/// Counts commits since the last settlement.
pub struct Sequencer {
    pub tx_counter: u32,
}

impl Sequencer {
    pub fn new() -> (r: Sequencer)
        ensures
            r.tx_counter == 0,
    {
        Sequencer { tx_counter: 0 }
    }

    /// Records one commit; answers whether to bundle and settle now, which
    /// happens every `SETTLEMENT_THRESHOLD` commits and resets the count.
    pub fn record_commit(&mut self) -> (r: bool)
        requires
            old(self).tx_counter < SETTLEMENT_THRESHOLD,
        ensures
            final(self).tx_counter < SETTLEMENT_THRESHOLD,
            r == (old(self).tx_counter + 1 == SETTLEMENT_THRESHOLD),
            r ==> final(self).tx_counter == 0,
            !r ==> final(self).tx_counter == old(self).tx_counter + 1,
    {
        self.tx_counter = self.tx_counter + 1;
        if self.tx_counter >= SETTLEMENT_THRESHOLD {
            self.tx_counter = 0;
            true
        } else {
            false
        }
    }
}

} // verus!
