//! The escrow program's interface: escrow address derivation, the escrow
//! record layout and the encoding of its three instructions.

use vstd::prelude::*;
use crate::bytes::{le_value, le_u64_at, read_u64_le, push_u64_le};
use crate::key::{AccountKey, SYSTEM_PROGRAM_ID};
use crate::model::{AccountMeta, Instruction};
use sha2::{Digest, Sha256};
use solana_sdk::pubkey::Pubkey;

verus! {

/// Address of the escrow program.
pub const DELEGATION_PROGRAM_ID: [u8; 32] = [
    64, 170, 231, 211, 89, 1, 197, 103, 217, 35, 167, 29, 116, 209, 243, 126, 200, 12, 82, 251,
    61, 106, 66, 58, 40, 64, 161, 191, 141, 67, 72, 122,
];

/// Length of the record-type discriminator that precedes an escrow record.
pub const RECORD_DISCRIMINATOR_LEN: usize = 8;

/// Length of an escrow record after its discriminator: owner, amount, time, bump.
pub const RECORD_BODY_LEN: usize = 49;

/// SHA-256 digest of `data`.
pub uninterp spec fn sha256_of(data: Seq<u8>) -> Seq<u8>;

/// Relies on `sha2::Sha256`: the digest of the bytes given, 32 bytes long.
#[verifier::external_body]
fn sha256(data: &Vec<u8>) -> (r: Vec<u8>)
    ensures
        r@ == sha256_of(data@),
        r@.len() == 32,
{
    let mut hasher = Sha256::new();
    hasher.update(data);
    hasher.finalize().to_vec()
}

/// The program address and bump that the base chain derives from these
/// seeds under this program, when one exists.
pub uninterp spec fn program_address_of(seeds: Seq<Seq<u8>>, program: Seq<u8>) -> Option<(Seq<u8>, u8)>;

/// Relies on `Pubkey::try_find_program_address`: the first bump from 255
/// down whose address is off the curve; `None` where there is none.
#[verifier::external_body]
fn try_find_program_address(seeds: &Vec<Vec<u8>>, program: &AccountKey) -> (r: Option<(AccountKey, u8)>)
    ensures
        match r {
            Some((k, bump)) => program_address_of(seeds@.map_values(|s: Vec<u8>| s@), program@) == Some((k@, bump)),
            None => program_address_of(seeds@.map_values(|s: Vec<u8>| s@), program@) is None,
        },
{
    let refs: Vec<&[u8]> = seeds.iter().map(|s| s.as_slice()).collect();
    let program_id = Pubkey::new_from_array(program.bytes);
    Pubkey::try_find_program_address(&refs, &program_id).map(|(k, bump)| (AccountKey { bytes: k.to_bytes() }, bump))
}

/// The seed that prefixes a user's key in escrow derivation: `"delegate"`.
pub open spec fn escrow_seed() -> Seq<u8> {
    seq![100u8, 101, 108, 101, 103, 97, 116, 101]
}

/// The escrow address and bump of `user`.
pub open spec fn escrow_address_of(user: Seq<u8>) -> Option<(Seq<u8>, u8)> {
    program_address_of(seq![escrow_seed(), user], DELEGATION_PROGRAM_ID@)
}

/// Whether `r` is what escrow derivation gives for `owner`.
pub open spec fn is_escrow_derivation(owner: Seq<u8>, r: Option<(AccountKey, u8)>) -> bool {
    match r {
        Some((k, bump)) => escrow_address_of(owner) == Some((k@, bump)),
        None => escrow_address_of(owner) is None,
    }
}

/// Escrow derivation is a function of the owner alone: two derivations for
/// the same owner give the same address and bump.
pub proof fn lemma_escrow_derivation_deterministic(
    a: Seq<u8>,
    b: Seq<u8>,
    ra: Option<(AccountKey, u8)>,
    rb: Option<(AccountKey, u8)>,
)
    requires
        a == b,
        is_escrow_derivation(a, ra),
        is_escrow_derivation(b, rb),
    ensures
        ra is Some <==> rb is Some,
        ra is Some ==> (ra->Some_0).0@ == (rb->Some_0).0@ && (ra->Some_0).1 == (rb->Some_0).1,
{
}

/// The escrow program's address.
pub fn get_delegation_program_id() -> (r: AccountKey)
    ensures
        r@ == DELEGATION_PROGRAM_ID@,
{
    AccountKey { bytes: DELEGATION_PROGRAM_ID }
}

/// The escrow address of `owner` and its bump, derived from the seed
/// `"delegate"` and the owner's key under the escrow program.
pub fn find_delegation_pda(owner: &AccountKey) -> (r: Option<(AccountKey, u8)>)
    ensures
        is_escrow_derivation(owner@, r),
{
    let seed: Vec<u8> = vec![100, 101, 108, 101, 103, 97, 116, 101];
    let user: Vec<u8> = owner.to_vec();
    let seeds: Vec<Vec<u8>> = vec![seed, user];
    let r = try_find_program_address(&seeds, &get_delegation_program_id());
    assert(seeds@.map_values(|s: Vec<u8>| s@) =~= seq![escrow_seed(), owner@]);
    r
}

/// The escrow program's instructions.
#[derive(Clone, Copy, Debug, PartialEq, Eq, Structural)]
pub enum EscrowMethod {
    InitializeDelegate,
    TopUp,
    Withdraw,
}

/// `"global:"` followed by the method's name.
pub open spec fn method_preimage(m: EscrowMethod) -> Seq<u8> {
    match m {
        EscrowMethod::InitializeDelegate => seq![
            103u8, 108, 111, 98, 97, 108, 58, 105, 110, 105, 116, 105, 97, 108, 105, 122, 101, 95,
            100, 101, 108, 101, 103, 97, 116, 101,
        ],
        EscrowMethod::TopUp => seq![103u8, 108, 111, 98, 97, 108, 58, 116, 111, 112, 95, 117, 112],
        EscrowMethod::Withdraw => seq![103u8, 108, 111, 98, 97, 108, 58, 119, 105, 116, 104, 100, 114, 97, 119],
    }
}

/// The first eight bytes of the SHA-256 digest of the method's preimage.
pub open spec fn method_discriminator(m: EscrowMethod) -> Seq<u8> {
    sha256_of(method_preimage(m)).take(8)
}

impl EscrowMethod {
    pub fn preimage(&self) -> (r: Vec<u8>)
        ensures
            r@ == method_preimage(*self),
    {
        let r: Vec<u8> = match self {
            EscrowMethod::InitializeDelegate => vec![
                103, 108, 111, 98, 97, 108, 58, 105, 110, 105, 116, 105, 97, 108, 105, 122, 101, 95,
                100, 101, 108, 101, 103, 97, 116, 101,
            ],
            EscrowMethod::TopUp => vec![103, 108, 111, 98, 97, 108, 58, 116, 111, 112, 95, 117, 112],
            EscrowMethod::Withdraw => vec![103, 108, 111, 98, 97, 108, 58, 119, 105, 116, 104, 100, 114, 97, 119],
        };
        assert(r@ =~= method_preimage(*self));
        r
    }

    /// The eight bytes that open each instruction of this method.
    pub fn discriminator(&self) -> (r: Vec<u8>)
        ensures
            r@ == method_discriminator(*self),
            r@.len() == 8,
    {
        let digest = sha256(&self.preimage());
        let mut r: Vec<u8> = Vec::new();
        let mut i: usize = 0;
        while i < 8
            invariant
                i <= 8,
                digest@.len() == 32,
                r@ == digest@.take(i as int),
            decreases 8 - i,
        {
            r.push(digest[i]);
            assert(digest@.take(i + 1) =~= digest@.take(i as int).push(digest@[i as int]));
            i = i + 1;
        }
        r
    }
}

/// The arguments of `initialize_delegate`.
#[derive(Clone, Copy, Debug)]
pub struct InitializeDelegateArgs {
    pub amount: u64,
}

impl InitializeDelegateArgs {
    /// The arguments' wire form: the amount as eight little-endian bytes.
    pub fn try_to_vec(&self) -> (r: Vec<u8>)
        ensures
            r@.len() == 8,
            le_value(r@) == self.amount,
    {
        crate::bytes::u64_le_bytes(self.amount)
    }
}

/// Whether `ix` is a call of `method` on the escrow program for `owner` and
/// `escrow` with argument `amount`: accounts owner (signer, writable),
/// escrow (writable), system program (read-only); data the method's
/// discriminator then the amount in eight little-endian bytes.
pub open spec fn is_escrow_call(ix: Instruction, method: EscrowMethod, owner: AccountKey, escrow: AccountKey, amount: u64) -> bool {
    &&& ix.program_id@ == DELEGATION_PROGRAM_ID@
    &&& ix.accounts@ == seq![
        AccountMeta { pubkey: owner, is_signer: true, is_writable: true },
        AccountMeta { pubkey: escrow, is_signer: false, is_writable: true },
        AccountMeta { pubkey: AccountKey { bytes: SYSTEM_PROGRAM_ID }, is_signer: false, is_writable: false },
    ]
    &&& ix.data@.len() == 16
    &&& ix.data@.subrange(0, 8) == method_discriminator(method)
    &&& le_u64_at(ix.data@, 8) == amount
}

/// A call of `method` on the escrow program.
pub fn escrow_instruction(method: EscrowMethod, owner: &AccountKey, escrow: &AccountKey, amount: u64) -> (r: Instruction)
    ensures
        is_escrow_call(r, method, *owner, *escrow, amount),
{
    let mut data = method.discriminator();
    push_u64_le(&mut data, amount);
    let accounts = vec![
        AccountMeta { pubkey: *owner, is_signer: true, is_writable: true },
        AccountMeta { pubkey: *escrow, is_signer: false, is_writable: true },
        AccountMeta { pubkey: AccountKey { bytes: SYSTEM_PROGRAM_ID }, is_signer: false, is_writable: false },
    ];
    Instruction { program_id: get_delegation_program_id(), accounts, data }
}

/// `initialize_delegate(amount)` for `owner`'s escrow; `None` where no
/// escrow address can be derived.
pub fn create_delegation_instruction(owner: &AccountKey, amount: u64) -> (r: Option<Instruction>)
    ensures
        match r {
            Some(ix) => escrow_address_of(owner@) is Some && exists|escrow: AccountKey|
                escrow@ == (escrow_address_of(owner@)->Some_0).0 && is_escrow_call(ix, EscrowMethod::InitializeDelegate, *owner, escrow, amount),
            None => escrow_address_of(owner@) is None,
        },
{
    match find_delegation_pda(owner) {
        Some((pda, _)) => Some(escrow_instruction(EscrowMethod::InitializeDelegate, owner, &pda, amount)),
        None => None,
    }
}

/// `top_up(amount)` for `owner`'s escrow; `None` where no escrow address can be derived.
pub fn create_topup_instruction(owner: &AccountKey, amount: u64) -> (r: Option<Instruction>)
    ensures
        match r {
            Some(ix) => escrow_address_of(owner@) is Some && exists|escrow: AccountKey|
                escrow@ == (escrow_address_of(owner@)->Some_0).0 && is_escrow_call(ix, EscrowMethod::TopUp, *owner, escrow, amount),
            None => escrow_address_of(owner@) is None,
        },
{
    match find_delegation_pda(owner) {
        Some((pda, _)) => Some(escrow_instruction(EscrowMethod::TopUp, owner, &pda, amount)),
        None => None,
    }
}

/// `withdraw(amount)` from escrow `pda` to `owner`.
pub fn create_withdrawal_instruction(pda: &AccountKey, owner: &AccountKey, amount: u64) -> (r: Instruction)
    ensures
        is_escrow_call(r, EscrowMethod::Withdraw, *owner, *pda, amount),
{
    escrow_instruction(EscrowMethod::Withdraw, owner, pda, amount)
}

/// An escrow record: owner, delegated amount, time of the last deposit, bump.
#[derive(Clone, Copy, Debug)]
pub struct DelegatedAccount {
    pub owner: AccountKey,
    pub delegated_amount: u64,
    pub last_deposit_time: i64,
    pub bump: u8,
}

/// Two's-complement reading of a 64-bit value.
pub open spec fn as_signed64(v: nat) -> int {
    if v < 0x8000_0000_0000_0000 {
        v as int
    } else {
        v - 0x1_0000_0000_0000_0000
    }
}

/// Whether `data` holds an escrow record: the 8-byte discriminator, then
/// exactly the record's 49 bytes.
pub open spec fn holds_record(data: Seq<u8>) -> bool {
    data.len() == RECORD_DISCRIMINATOR_LEN + RECORD_BODY_LEN
}

/// Whether `rec` is the record that `data` holds: after the discriminator,
/// the owner (32 bytes), the delegated amount and the last deposit time
/// (8 little-endian bytes each) and the bump.
pub open spec fn is_record_of(rec: DelegatedAccount, data: Seq<u8>) -> bool {
    &&& rec.owner@ == data.subrange(8, 40)
    &&& rec.delegated_amount as nat == le_u64_at(data, 40)
    &&& rec.last_deposit_time as int == as_signed64(le_u64_at(data, 48))
    &&& rec.bump == data[56]
}

impl DelegatedAccount {
    /// Reads the record in an escrow account's data, skipping the
    /// discriminator; `None` where the data does not hold one.
    pub fn try_from_account_data(data: &Vec<u8>) -> (r: Option<DelegatedAccount>)
        ensures
            r is Some <==> holds_record(data@),
            r matches Some(rec) ==> is_record_of(rec, data@),
    {
        if data.len() != RECORD_DISCRIMINATOR_LEN + RECORD_BODY_LEN {
            return None;
        }
        let body: usize = RECORD_DISCRIMINATOR_LEN;
        let mut owner: [u8; 32] = [0u8; 32];
        let mut i: usize = 0;
        while i < 32
            invariant
                i <= 32,
                data@.len() == 57,
                body == 8,
                owner@.len() == 32,
                forall|j: int| 0 <= j < i ==> owner@[j] == data@[8 + j],
            decreases 32 - i,
        {
            owner.set(i, data[body + i]);
            i = i + 1;
        }
        assert(owner@ =~= data@.subrange(8, 40));
        let amount = read_u64_le(data, body + 32);
        let time_bits = read_u64_le(data, body + 40);
        let last_deposit_time: i64 = if time_bits < 0x8000_0000_0000_0000 {
            time_bits as i64
        } else {
            ((time_bits - 0x8000_0000_0000_0000) as i64) + i64::MIN
        };
        Some(DelegatedAccount {
            owner: AccountKey { bytes: owner },
            delegated_amount: amount,
            last_deposit_time,
            bump: data[body + 48],
        })
    }
}

} // verus!
