//! The ledger's records as the sequencer sees them: account snapshots,
//! compiled transactions and outgoing instructions.

use vstd::prelude::*;
use crate::key::AccountKey;
use solana_sdk::hash::Hash as ChainHash;
use solana_sdk::instruction::CompiledInstruction as ChainCompiledInstruction;
use solana_sdk::message::Message as ChainMessage;
use solana_sdk::pubkey::Pubkey;

verus! {

/// The state of one account: balance, owning program, executable flag and data.
#[derive(Clone, Debug)]
pub struct AccountSnapshot {
    pub lamports: u64,
    pub owner: AccountKey,
    pub executable: bool,
    pub data: Vec<u8>,
}

/// The value of a snapshot, for specifications.
pub struct SnapshotView {
    pub lamports: u64,
    pub owner: Seq<u8>,
    pub executable: bool,
    pub data: Seq<u8>,
}

impl View for AccountSnapshot {
    type V = SnapshotView;

    open spec fn view(&self) -> SnapshotView {
        SnapshotView {
            lamports: self.lamports,
            owner: self.owner@,
            executable: self.executable,
            data: self.data@,
        }
    }
}

impl AccountSnapshot {
    /// A copy with the same contents.
    pub fn duplicate(&self) -> (r: AccountSnapshot)
        ensures
            r@ == self@,
    {
        AccountSnapshot {
            lamports: self.lamports,
            owner: self.owner,
            executable: self.executable,
            data: self.data.clone(),
        }
    }
}

/// An instruction inside a message: accounts and program are indexes into
/// the message's key list.
#[derive(Clone, Debug)]
pub struct CompiledInstruction {
    pub program_id_index: u8,
    pub accounts: Vec<u8>,
    pub data: Vec<u8>,
}

/// Counts of signed and read-only accounts at the front of a message's key list.
#[derive(Clone, Copy, Debug)]
pub struct MessageHeader {
    pub num_required_signatures: u8,
    pub num_readonly_signed_accounts: u8,
    pub num_readonly_unsigned_accounts: u8,
}

/// A legacy message: header, account keys (the first pays the fee), recent
/// block hash and compiled instructions.
#[derive(Clone, Debug)]
pub struct Message {
    pub header: MessageHeader,
    pub account_keys: Vec<AccountKey>,
    pub recent_blockhash: [u8; 32],
    pub instructions: Vec<CompiledInstruction>,
}

/// A message with its signatures.
#[derive(Clone, Debug)]
pub struct Transaction {
    pub signatures: Vec<Vec<u8>>,
    pub message: Message,
}

/// An account an outgoing instruction refers to, with its access rights.
#[derive(Clone, Copy, Debug)]
pub struct AccountMeta {
    pub pubkey: AccountKey,
    pub is_signer: bool,
    pub is_writable: bool,
}

/// An instruction with explicit program and account keys.
#[derive(Clone, Debug)]
pub struct Instruction {
    pub program_id: AccountKey,
    pub accounts: Vec<AccountMeta>,
    pub data: Vec<u8>,
}

/// Longest list that the wire format's short-vector length prefix can encode.
pub const MAX_SHORT_VEC_LEN: usize = 65535;

/// The digest that the base chain gives a legacy message with these parts.
pub uninterp spec fn message_hash_of(
    header: Seq<u8>,
    keys: Seq<Seq<u8>>,
    blockhash: Seq<u8>,
    instructions: Seq<(u8, Seq<u8>, Seq<u8>)>,
) -> Seq<u8>;

impl Message {
    pub open spec fn header_bytes(&self) -> Seq<u8> {
        seq![
            self.header.num_required_signatures,
            self.header.num_readonly_signed_accounts,
            self.header.num_readonly_unsigned_accounts,
        ]
    }

    pub open spec fn key_views(&self) -> Seq<Seq<u8>> {
        self.account_keys@.map_values(|k: AccountKey| k@)
    }

    pub open spec fn instruction_views(&self) -> Seq<(u8, Seq<u8>, Seq<u8>)> {
        self.instructions@.map_values(|i: CompiledInstruction| (i.program_id_index, i.accounts@, i.data@))
    }

    /// Whether every length that the wire format writes as a short vector
    /// (account keys, instructions, and each instruction's accounts and data)
    /// is at most 65,535.
    pub open spec fn wire_encodable(&self) -> bool {
        &&& self.account_keys@.len() <= MAX_SHORT_VEC_LEN
        &&& self.instructions@.len() <= MAX_SHORT_VEC_LEN
        &&& forall|i: int| 0 <= i < self.instructions@.len() ==> (#[trigger] self.instructions@[i]).accounts@.len() <= MAX_SHORT_VEC_LEN
            && self.instructions@[i].data@.len() <= MAX_SHORT_VEC_LEN
    }

    /// Tests `wire_encodable`.
    pub fn is_wire_encodable(&self) -> (r: bool)
        ensures
            r == self.wire_encodable(),
    {
        if self.account_keys.len() > MAX_SHORT_VEC_LEN || self.instructions.len() > MAX_SHORT_VEC_LEN {
            return false;
        }
        let mut i: usize = 0;
        while i < self.instructions.len()
            invariant
                i <= self.instructions@.len(),
                forall|j: int| 0 <= j < i ==> (#[trigger] self.instructions@[j]).accounts@.len() <= MAX_SHORT_VEC_LEN
                    && self.instructions@[j].data@.len() <= MAX_SHORT_VEC_LEN,
            decreases self.instructions@.len() - i,
        {
            if self.instructions[i].accounts.len() > MAX_SHORT_VEC_LEN || self.instructions[i].data.len() > MAX_SHORT_VEC_LEN {
                return false;
            }
            i = i + 1;
        }
        true
    }

    /// The message's digest, the key under which its transaction is logged.
    pub open spec fn hash_spec(&self) -> Seq<u8> {
        message_hash_of(self.header_bytes(), self.key_views(), self.recent_blockhash@, self.instruction_views())
    }

    pub fn hash(&self) -> (r: [u8; 32])
        requires
            self.wire_encodable(),
        ensures
            r@ == self.hash_spec(),
    {
        legacy_message_hash(self)
    }
}

/// Relies on `solana_message::Message::hash` (blake3 over the serialized
/// legacy message): a function of the message's parts alone. Serialising
/// panics on a short-vector length over 65,535, which `requires` keeps out.
#[verifier::external_body]
fn legacy_message_hash(m: &Message) -> (r: [u8; 32])
    requires
        m.wire_encodable(),
    ensures
        r@ == message_hash_of(m.header_bytes(), m.key_views(), m.recent_blockhash@, m.instruction_views()),
{
    let keys = m.account_keys.iter().map(|k| Pubkey::new_from_array(k.bytes)).collect();
    let ixs = m.instructions.iter().map(|i|
        ChainCompiledInstruction::new_from_raw_parts(i.program_id_index, i.data.clone(), i.accounts.clone())).collect();
    let h = m.header;
    let blockhash = ChainHash::new_from_array(m.recent_blockhash);
    ChainMessage::new_with_compiled_instructions(h.num_required_signatures, h.num_readonly_signed_accounts,
        h.num_readonly_unsigned_accounts, keys, blockhash, ixs).hash().to_bytes()
}

} // verus!
