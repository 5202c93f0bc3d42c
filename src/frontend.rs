//! Messages exchanged with clients and between the front end and the store.

use vstd::prelude::*;
use crate::model::Transaction;

verus! {

/// A request for a logged transaction: its message hash as text.
#[derive(Clone, Debug)]
pub struct GetTransaction {
    pub get_tx: String,
}

/// A transaction submitted by a client.
#[derive(Clone, Debug)]
pub struct RollupTransaction {
    pub sender: String,
    pub sol_transaction: Transaction,
}

/// The store's answer to the front end: the transaction asked for.
#[derive(Clone, Debug)]
pub struct FrontendMessage {
    pub get_tx: Option<[u8; 32]>,
    pub transaction: Option<Transaction>,
}

/// Outcome reported to a client.
#[derive(Clone, Debug)]
pub enum TransactionResponse {
    Success { message: String },
    Error { message: String },
}

impl TransactionResponse {
    /// Whether this reports success.
    pub fn is_success(&self) -> (r: bool)
        ensures
            r == (self is Success),
    {
        match self {
            TransactionResponse::Success { .. } => true,
            TransactionResponse::Error { .. } => false,
        }
    }

    /// The message carried, whatever the outcome.
    pub fn message(&self) -> (r: &String)
        ensures
            match self {
                TransactionResponse::Success { message } => r == message,
                TransactionResponse::Error { message } => r == message,
            },
    {
        match self {
            TransactionResponse::Success { message } => message,
            TransactionResponse::Error { message } => message,
        }
    }
}

} // verus!
