//! The delegation service: registered signers, the cache of escrow
//! accounts, admission by delegated balance and escrow transactions.

use vstd::prelude::*;
use crate::bytes::le_u64_at;
use crate::delegation::{
    escrow_address_of, escrow_instruction, find_delegation_pda, holds_record, is_escrow_call,
    is_record_of, DelegatedAccount, EscrowMethod,
};
use crate::key::AccountKey;
use crate::model::{AccountSnapshot, Instruction};
use crate::table::KeyTable;
use solana_sdk::signature::Keypair;
use solana_sdk::signer::Signer;

verus! {

/// The public key of the keypair whose 64 bytes are `material`, when they form one.
pub uninterp spec fn keypair_pubkey_of(material: Seq<u8>) -> Option<Seq<u8>>;

/// Relies on `Keypair::try_from(&[u8])` and `Signer::pubkey`: 64 bytes, a
/// secret key then the public key derived from it; the public key is
/// the last 32 bytes.
#[verifier::external_body]
fn keypair_pubkey(material: &Vec<u8>) -> (r: Option<AccountKey>)
    ensures
        match r {
            Some(k) => keypair_pubkey_of(material@) == Some(k@) && material@.len() == 64
                && k@ == material@.subrange(32, 64),
            None => keypair_pubkey_of(material@) is None,
        },
{
    match Keypair::try_from(material.as_slice()) {
        Ok(kp) => Some(AccountKey { bytes: kp.pubkey().to_bytes() }),
        Err(_) => None,
    }
}

/// Why the delegation service refused a request.
#[derive(Clone, Copy, Debug, PartialEq, Eq, Structural)]
pub enum DelegationError {
    /// No signing material is registered for the user.
    NoSignerRegistered,
    /// The bytes given are not a keypair.
    InvalidSigningMaterial,
    /// No escrow address can be derived for the user.
    EscrowAddressUnavailable,
}

/// A single-instruction transaction for the escrow program, to be signed
/// with `signer` (the fee payer's signing material) and sent.
#[derive(Clone, Debug)]
pub struct EscrowTransaction {
    pub payer: AccountKey,
    pub signer: Vec<u8>,
    pub instruction: Instruction,
    pub recent_blockhash: [u8; 32],
}

/// The delegated amount recorded in escrow account data.
pub open spec fn delegated_amount_in(data: Seq<u8>) -> nat {
    le_u64_at(data, 40)
}

pub struct DelegationService {
    pda_cache: KeyTable<AccountSnapshot>,
    signers: KeyTable<Vec<u8>>,
}

impl DelegationService {
    /// Cached escrow accounts by escrow address.
    pub closed spec fn escrows(&self) -> Map<Seq<u8>, AccountSnapshot> {
        self.pda_cache@
    }

    /// Signing material by owner key.
    pub closed spec fn signers(&self) -> Map<Seq<u8>, Vec<u8>> {
        self.signers@
    }

    pub closed spec fn wf(&self) -> bool {
        self.pda_cache.wf() && self.signers.wf()
    }

    /// Whether the cache holds an escrow record for `user`.
    pub open spec fn has_escrow(&self, user: Seq<u8>) -> bool {
        &&& escrow_address_of(user) is Some
        &&& self.escrows().contains_key((escrow_address_of(user)->Some_0).0)
        &&& holds_record(self.escrows()[(escrow_address_of(user)->Some_0).0].data@)
    }

    /// A service whose one signer is the keypair `initial_signer`.
    pub fn new(initial_signer: Vec<u8>) -> (r: Result<DelegationService, DelegationError>)
        ensures
            match r {
                Ok(s) => s.wf() && s.escrows() == Map::<Seq<u8>, AccountSnapshot>::empty()
                    && keypair_pubkey_of(initial_signer@) is Some
                    && s.signers() == Map::<Seq<u8>, Vec<u8>>::empty().insert(keypair_pubkey_of(initial_signer@)->Some_0, initial_signer),
                Err(e) => e == DelegationError::InvalidSigningMaterial && keypair_pubkey_of(initial_signer@) is None,
            },
    {
        let mut s = DelegationService { pda_cache: KeyTable::new(), signers: KeyTable::new() };
        match s.add_signer(initial_signer) {
            Ok(_) => Ok(s),
            Err(e) => Err(e),
        }
    }

    /// Registers `signer` under its public key, replacing any earlier one.
    pub fn add_signer(&mut self, signer: Vec<u8>) -> (r: Result<AccountKey, DelegationError>)
        requires
            old(self).wf(),
        ensures
            final(self).wf(),
            final(self).escrows() == old(self).escrows(),
            match r {
                Ok(k) => keypair_pubkey_of(signer@) == Some(k@)
                    && final(self).signers() == old(self).signers().insert(k@, signer),
                Err(e) => e == DelegationError::InvalidSigningMaterial && keypair_pubkey_of(signer@) is None
                    && final(self).signers() == old(self).signers(),
            },
    {
        match keypair_pubkey(&signer) {
            Some(k) => {
                self.signers.insert(k.bytes, signer);
                Ok(k)
            },
            None => Err(DelegationError::InvalidSigningMaterial),
        }
    }

    /// Stores a freshly read escrow account at `pda` when it holds a
    /// record, and drops any cached one otherwise.
    fn refresh(&mut self, pda: &AccountKey, fetched: Option<AccountSnapshot>) -> (r: Option<DelegatedAccount>)
        requires
            old(self).wf(),
        ensures
            final(self).wf(),
            final(self).signers() == old(self).signers(),
            match fetched {
                Some(acct) => if holds_record(acct.data@) {
                    final(self).escrows() == old(self).escrows().insert(pda@, acct)
                        && (r matches Some(rec) && is_record_of(rec, acct.data@))
                } else {
                    final(self).escrows() == old(self).escrows().remove(pda@) && r is None
                },
                None => final(self).escrows() == old(self).escrows().remove(pda@) && r is None,
            },
    {
        match fetched {
            Some(acct) => match DelegatedAccount::try_from_account_data(&acct.data) {
                Some(rec) => {
                    self.pda_cache.insert(pda.bytes, acct);
                    Some(rec)
                },
                None => {
                    self.pda_cache.remove(&pda.bytes);
                    None
                },
            },
            None => {
                self.pda_cache.remove(&pda.bytes);
                None
            },
        }
    }

    /// Takes in what the base chain holds at `user`'s escrow address
    /// (`fetched`, `None` where the read failed) and returns the escrow
    /// address and record when there is one.
    pub fn get_or_fetch_pda(&mut self, user: &AccountKey, fetched: Option<AccountSnapshot>) -> (r: Result<Option<(AccountKey, DelegatedAccount)>, DelegationError>)
        requires
            old(self).wf(),
        ensures
            final(self).wf(),
            final(self).signers() == old(self).signers(),
            match r {
                Err(e) => e == DelegationError::EscrowAddressUnavailable && escrow_address_of(user@) is None
                    && final(self).escrows() == old(self).escrows(),
                Ok(found) => escrow_address_of(user@) is Some && ({
                    let pda = (escrow_address_of(user@)->Some_0).0;
                    match fetched {
                        Some(acct) => if holds_record(acct.data@) {
                            final(self).escrows() == old(self).escrows().insert(pda, acct)
                                && (found matches Some((k, rec)) && k@ == pda && is_record_of(rec, acct.data@))
                        } else {
                            final(self).escrows() == old(self).escrows().remove(pda) && found is None
                        },
                        None => final(self).escrows() == old(self).escrows().remove(pda) && found is None,
                    }
                }),
            },
    {
        match find_delegation_pda(user) {
            Some((pda, _)) => match self.refresh(&pda, fetched) {
                Some(rec) => Ok(Some((pda, rec))),
                None => Ok(None),
            },
            None => Err(DelegationError::EscrowAddressUnavailable),
        }
    }

    /// Caches `account` as the escrow account at `pda`.
    pub fn update_pda_state(&mut self, pda: AccountKey, account: AccountSnapshot)
        requires
            old(self).wf(),
        ensures
            final(self).wf(),
            final(self).signers() == old(self).signers(),
            final(self).escrows() == old(self).escrows().insert(pda@, account),
    {
        self.pda_cache.insert(pda.bytes, account);
    }

    /// The escrow address of `user` when its cached record delegates at least `required`.
    pub fn verify_delegation_for_transaction(&self, user: &AccountKey, required: u64) -> (r: Option<AccountKey>)
        requires
            self.wf(),
        ensures
            match r {
                Some(k) => self.has_escrow(user@) && k@ == (escrow_address_of(user@)->Some_0).0
                    && delegated_amount_in(self.escrows()[k@].data@) >= required,
                None => !(self.has_escrow(user@) && delegated_amount_in(
                    self.escrows()[(escrow_address_of(user@)->Some_0).0].data@) >= required),
            },
    {
        let pda = match find_delegation_pda(user) {
            Some((pda, _)) => pda,
            None => { return None; },
        };
        match self.pda_cache.get(&pda.bytes) {
            Some(acct) => match DelegatedAccount::try_from_account_data(&acct.data) {
                Some(rec) => if rec.delegated_amount >= required {
                    Some(pda)
                } else {
                    None
                },
                None => None,
            },
            None => None,
        }
    }

    /// A deposit of `amount` into `user`'s escrow, after taking in the
    /// escrow account as read from the base chain (`fetched`): `top_up`
    /// where the escrow holds a record, `initialize_delegate` where it does
    /// not; paid and signed by `user`'s registered signing material.
    pub fn create_delegation_transaction(&mut self, user: &AccountKey, amount: u64, fetched: Option<AccountSnapshot>, recent_blockhash: [u8; 32]) -> (r: Result<EscrowTransaction, DelegationError>)
        requires
            old(self).wf(),
        ensures
            final(self).wf(),
            final(self).signers() == old(self).signers(),
            escrow_address_of(user@) is None ==> r == Err::<EscrowTransaction, DelegationError>(DelegationError::EscrowAddressUnavailable)
                && final(self).escrows() == old(self).escrows(),
            escrow_address_of(user@) is Some ==> ({
                let pda = (escrow_address_of(user@)->Some_0).0;
                let existing = fetched matches Some(acct) && holds_record(acct.data@);
                &&& existing ==> final(self).escrows() == old(self).escrows().insert(pda, fetched->Some_0)
                &&& !existing ==> final(self).escrows() == old(self).escrows().remove(pda)
                &&& !old(self).signers().contains_key(user@) ==> r == Err::<EscrowTransaction, DelegationError>(DelegationError::NoSignerRegistered)
                &&& old(self).signers().contains_key(user@) ==> (r matches Ok(tx) && tx.payer == *user
                    && tx.signer@ == old(self).signers()[user@]@ && tx.recent_blockhash == recent_blockhash
                    && tx.instruction.accounts@[1].pubkey@ == pda
                    && is_escrow_call(tx.instruction, if existing { EscrowMethod::TopUp } else { EscrowMethod::InitializeDelegate },
                        *user, tx.instruction.accounts@[1].pubkey, amount))
            }),
    {
        let pda = match find_delegation_pda(user) {
            Some((pda, _)) => pda,
            None => { return Err(DelegationError::EscrowAddressUnavailable); },
        };
        let existing = self.refresh(&pda, fetched).is_some();
        let signer = match self.signers.get(&user.bytes) {
            Some(s) => s.clone(),
            None => { return Err(DelegationError::NoSignerRegistered); },
        };
        let method = if existing { EscrowMethod::TopUp } else { EscrowMethod::InitializeDelegate };
        let instruction = escrow_instruction(method, user, &pda, amount);
        Ok(EscrowTransaction { payer: *user, signer, instruction, recent_blockhash })
    }

    /// A withdrawal of `amount` from escrow `pda` to `owner`, paid and
    /// signed by `owner`'s registered signing material.
    pub fn create_withdrawal_transaction(&self, pda: &AccountKey, owner: &AccountKey, amount: u64, recent_blockhash: [u8; 32]) -> (r: Result<EscrowTransaction, DelegationError>)
        requires
            self.wf(),
        ensures
            !self.signers().contains_key(owner@) ==> r == Err::<EscrowTransaction, DelegationError>(DelegationError::NoSignerRegistered),
            self.signers().contains_key(owner@) ==> (r matches Ok(tx) && tx.payer == *owner
                && tx.signer@ == self.signers()[owner@]@ && tx.recent_blockhash == recent_blockhash
                && is_escrow_call(tx.instruction, EscrowMethod::Withdraw, *owner, *pda, amount)),
    {
        let signer = match self.signers.get(&owner.bytes) {
            Some(s) => s.clone(),
            None => { return Err(DelegationError::NoSignerRegistered); },
        };
        let instruction = escrow_instruction(EscrowMethod::Withdraw, owner, pda, amount);
        Ok(EscrowTransaction { payer: *owner, signer, instruction, recent_blockhash })
    }

    /// The signing material registered for `user`.
    pub fn get_keypair(&self, user: &AccountKey) -> (r: Option<&Vec<u8>>)
        requires
            self.wf(),
        ensures
            match r {
                Some(m) => self.signers().contains_key(user@) && *m == self.signers()[user@],
                None => !self.signers().contains_key(user@),
            },
    {
        self.signers.get(&user.bytes)
    }
}

} // verus!
