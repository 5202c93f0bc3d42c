//! The transfer bundler: recognises transfer instructions in logged
//! transactions and nets them per (sorted participant pair, asset).

use vstd::prelude::*;
use crate::bytes::{le_value, le_u64_at, read_u64_le, push_u64_le};
use crate::key::{AccountKey, SYSTEM_PROGRAM_ID, TOKEN_PROGRAM_ID};
use crate::model::{AccountMeta, CompiledInstruction, Instruction, Transaction};
use crate::table::KeyTable;
use solana_sdk::program_pack::Pack;

verus! {

/// Opcode of the token program's `Transfer`.
pub const TOKEN_TRANSFER: u8 = 3;

/// Opcode of the token program's `TransferChecked`.
pub const TOKEN_TRANSFER_CHECKED: u8 = 12;

/// The lamports of a system-program `Transfer`: a 4-byte little-endian
/// variant tag equal to 2, then the amount as 8 little-endian bytes.
pub open spec fn system_transfer_amount(data: Seq<u8>) -> Option<u64> {
    if data.len() >= 12 && le_value(data.subrange(0, 4)) == 2 {
        Some(le_u64_at(data, 4) as u64)
    } else {
        None
    }
}

/// Relies on `bincode::deserialize::<SystemInstruction>` (fixed-width
/// little-endian, trailing bytes allowed) and on `Transfer` being the
/// variant with index 2 whose one field is a `u64`.
#[verifier::external_body]
#[allow(deprecated)]
fn decode_system_transfer(data: &Vec<u8>) -> (r: Option<u64>)
    ensures
        r == system_transfer_amount(data@),
{
    match bincode::deserialize::<solana_sdk::system_instruction::SystemInstruction>(data) {
        Ok(solana_sdk::system_instruction::SystemInstruction::Transfer { lamports }) => Some(lamports),
        _ => None,
    }
}

/// Whether the four bytes at `off` are an optional value's tag: `[0, 0, 0, 0]`
/// (absent) or `[1, 0, 0, 0]` (present).
pub open spec fn is_option_tag(data: Seq<u8>, off: int) -> bool {
    (data[off] == 0 || data[off] == 1) && data[off + 1] == 0 && data[off + 2] == 0 && data[off + 3] == 0
}

/// The mint recorded in a token account's data: its first 32 bytes, for
/// data of exactly 165 bytes whose delegate, native-amount and
/// close-authority tags (at 72, 109 and 129) are well formed and whose
/// state byte (at 108) is initialised (1) or frozen (2).
pub open spec fn token_account_mint_of(data: Seq<u8>) -> Option<Seq<u8>> {
    if data.len() == 165 && is_option_tag(data, 72) && (data[108] == 1 || data[108] == 2)
        && is_option_tag(data, 109) && is_option_tag(data, 129) {
        Some(data.subrange(0, 32))
    } else {
        None
    }
}

/// Relies on `spl_token::state::Account::unpack`: exactly 165 bytes, the
/// option tags well formed, the state initialised or frozen; the mint is the
/// first 32 bytes.
#[verifier::external_body]
fn unpack_token_account_mint(data: &Vec<u8>) -> (r: Option<AccountKey>)
    ensures
        match r {
            Some(m) => token_account_mint_of(data@) == Some(m@) && data@.len() == 165
                && m@ == data@.subrange(0, 32),
            None => token_account_mint_of(data@) is None,
        },
{
    match spl_token::state::Account::unpack(data) {
        Ok(account) => Some(AccountKey { bytes: account.mint.to_bytes() }),
        Err(_) => None,
    }
}

/// The mint of the token account whose data is `data`, where the data is
/// that of an initialised token account.
pub fn mint_of_token_account(data: &Vec<u8>) -> (r: Option<AccountKey>)
    ensures
        match r {
            Some(m) => token_account_mint_of(data@) == Some(m@) && data@.len() == 165
                && m@ == data@.subrange(0, 32),
            None => token_account_mint_of(data@) is None,
        },
{
    unpack_token_account_mint(data)
}

/// A transfer read off one instruction.
#[derive(Clone, Copy, Debug)]
pub struct ParsedTransfer {
    pub from: AccountKey,
    pub to: AccountKey,
    pub asset: AccountKey,
    pub authority: AccountKey,
    pub amount: u64,
}

/// Whether every account index of `acc` below `n` points into a key list of length `len`.
pub open spec fn indexes_valid(acc: Seq<u8>, n: int, len: int) -> bool {
    acc.len() >= n && forall|i: int| 0 <= i < n ==> (#[trigger] acc[i] as int) < len
}

/// A system-program transfer: from, to, lamports of the native asset.
pub open spec fn parse_system_spec(ix: CompiledInstruction, keys: Seq<AccountKey>) -> Option<ParsedTransfer> {
    let acc = ix.accounts@;
    if indexes_valid(acc, 2, keys.len() as int) && system_transfer_amount(ix.data@) is Some {
        Some(ParsedTransfer {
            from: keys[acc[0] as int],
            to: keys[acc[1] as int],
            asset: AccountKey { bytes: SYSTEM_PROGRAM_ID },
            authority: keys[acc[0] as int],
            amount: system_transfer_amount(ix.data@)->Some_0,
        })
    } else {
        None
    }
}

/// A token-program `Transfer` or `TransferChecked`. A `Transfer` names no
/// mint: its asset is the mint recorded for its source account in `mints`.
pub open spec fn parse_token_spec(
    ix: CompiledInstruction,
    keys: Seq<AccountKey>,
    mints: Map<Seq<u8>, AccountKey>,
) -> Option<ParsedTransfer> {
    let acc = ix.accounts@;
    let data = ix.data@;
    let n = keys.len() as int;
    if data.len() < 9 {
        None
    } else if data[0] == TOKEN_TRANSFER_CHECKED {
        if indexes_valid(acc, 4, n) {
            Some(ParsedTransfer {
                from: keys[acc[0] as int],
                to: keys[acc[2] as int],
                asset: keys[acc[1] as int],
                authority: keys[acc[3] as int],
                amount: le_u64_at(data, 1) as u64,
            })
        } else {
            None
        }
    } else if data[0] == TOKEN_TRANSFER {
        if indexes_valid(acc, 3, n) && mints.contains_key(keys[acc[0] as int]@) {
            Some(ParsedTransfer {
                from: keys[acc[0] as int],
                to: keys[acc[1] as int],
                asset: mints[keys[acc[0] as int]@],
                authority: keys[acc[2] as int],
                amount: le_u64_at(data, 1) as u64,
            })
        } else {
            None
        }
    } else {
        None
    }
}

/// The transfer an instruction makes, if it is one that the bundler reads.
pub open spec fn parse_spec(
    ix: CompiledInstruction,
    keys: Seq<AccountKey>,
    mints: Map<Seq<u8>, AccountKey>,
) -> Option<ParsedTransfer> {
    let p = ix.program_id_index as int;
    if p >= keys.len() {
        None
    } else if keys[p]@ == SYSTEM_PROGRAM_ID@ {
        parse_system_spec(ix, keys)
    } else if keys[p]@ == TOKEN_PROGRAM_ID@ {
        parse_token_spec(ix, keys, mints)
    } else {
        None
    }
}

/// The program key an instruction calls, if its index is in range.
fn program_of(ix: &CompiledInstruction, account_keys: &Vec<AccountKey>) -> (r: Option<AccountKey>)
    ensures
        match r {
            Some(k) => (ix.program_id_index as int) < account_keys@.len()
                && k == account_keys@[ix.program_id_index as int],
            None => ix.program_id_index as int >= account_keys@.len(),
        },
{
    let p = ix.program_id_index as usize;
    if p < account_keys.len() {
        Some(account_keys[p])
    } else {
        None
    }
}

fn is_program(k: &AccountKey, id: &[u8; 32]) -> (r: bool)
    ensures
        r == (k@ == id@),
{
    crate::table::bytes32_eq(&k.bytes, id)
}

fn has_valid_indexes(acc: &Vec<u8>, n: usize, len: usize) -> (r: bool)
    ensures
        r == indexes_valid(acc@, n as int, len as int),
{
    if acc.len() < n {
        return false;
    }
    let mut i: usize = 0;
    while i < n
        invariant
            i <= n,
            acc@.len() >= n,
            forall|j: int| 0 <= j < i ==> (#[trigger] acc@[j] as int) < len,
        decreases n - i,
    {
        if acc[i] as usize >= len {
            return false;
        }
        i = i + 1;
    }
    true
}

/// Whether `cix` is a system-program `Transfer`.
pub fn is_transfer_ix(cix: &CompiledInstruction, account_keys: &Vec<AccountKey>) -> (r: bool)
    ensures
        r == ((cix.program_id_index as int) < account_keys@.len()
            && account_keys@[cix.program_id_index as int]@ == SYSTEM_PROGRAM_ID@
            && system_transfer_amount(cix.data@) is Some),
{
    match program_of(cix, account_keys) {
        Some(p) => is_program(&p, &SYSTEM_PROGRAM_ID) && decode_system_transfer(&cix.data).is_some(),
        None => false,
    }
}

/// Whether `cix` calls the token program with the `Transfer` or `TransferChecked` opcode.
pub fn is_token_transfer_ix(cix: &CompiledInstruction, account_keys: &Vec<AccountKey>) -> (r: bool)
    ensures
        r == ((cix.program_id_index as int) < account_keys@.len()
            && account_keys@[cix.program_id_index as int]@ == TOKEN_PROGRAM_ID@
            && cix.data@.len() > 0 && (cix.data@[0] == TOKEN_TRANSFER || cix.data@[0] == TOKEN_TRANSFER_CHECKED)),
{
    match program_of(cix, account_keys) {
        Some(p) => is_program(&p, &TOKEN_PROGRAM_ID) && cix.data.len() > 0 && (cix.data[0]
            == TOKEN_TRANSFER || cix.data[0] == TOKEN_TRANSFER_CHECKED),
        None => false,
    }
}

/// The instructions of a transaction.
pub fn get_transaction_instructions(tx: &Transaction) -> (r: &Vec<CompiledInstruction>)
    ensures
        r@ == tx.message.instructions@,
{
    &tx.message.instructions
}

/// Reads a system-program transfer without checking its variant tag:
/// from, to and the eight bytes at offset 4 as the amount.
pub fn parse_compiled_instruction(ix: &CompiledInstruction, account_keys: &Vec<AccountKey>) -> (r: Option<(AccountKey, AccountKey, i128)>)
    ensures
        r == (if (ix.program_id_index as int) < account_keys@.len()
            && account_keys@[ix.program_id_index as int]@ == SYSTEM_PROGRAM_ID@
            && indexes_valid(ix.accounts@, 2, account_keys@.len() as int) && ix.data@.len() >= 12 {
            Some((account_keys@[ix.accounts@[0] as int], account_keys@[ix.accounts@[1] as int], le_u64_at(ix.data@, 4) as i128))
        } else {
            None
        }),
{
    match program_of(ix, account_keys) {
        Some(p) => {
            if !is_program(&p, &SYSTEM_PROGRAM_ID) || !has_valid_indexes(&ix.accounts, 2, account_keys.len()) || ix.data.len() < 12 {
                return None;
            }
            let from = account_keys[ix.accounts[0] as usize];
            let to = account_keys[ix.accounts[1] as usize];
            let amount = read_u64_le(&ix.data, 4);
            Some((from, to, amount as i128))
        },
        None => None,
    }
}

/// Reads a system-program transfer given with explicit keys: from, to, and
/// as the amount the eight bytes after the 4-byte tag, which must end the data.
pub fn parse_instruction(ix: &Instruction) -> (r: Option<(AccountKey, AccountKey, i128)>)
    ensures
        r == (if ix.program_id@ == SYSTEM_PROGRAM_ID@ && ix.accounts@.len() >= 2 && ix.data@.len() == 12 {
            Some((ix.accounts@[0].pubkey, ix.accounts@[1].pubkey, le_u64_at(ix.data@, 4) as i128))
        } else {
            None
        }),
{
    if !is_program(&ix.program_id, &SYSTEM_PROGRAM_ID) || ix.accounts.len() < 2 || ix.data.len() != 12 {
        return None;
    }
    let amount = read_u64_le(&ix.data, 4);
    Some((ix.accounts[0].pubkey, ix.accounts[1].pubkey, amount as i128))
}

pub open spec fn is_token_program_call(ix: CompiledInstruction, keys: Seq<AccountKey>) -> bool {
    (ix.program_id_index as int) < keys.len() && keys[ix.program_id_index as int]@ == TOKEN_PROGRAM_ID@
}

fn parse_token_data(ix: &CompiledInstruction, account_keys: &Vec<AccountKey>, mints: &KeyTable<AccountKey>) -> (r: Option<ParsedTransfer>)
    requires
        mints.wf(),
    ensures
        r == parse_token_spec(*ix, account_keys@, mints@),
{
    let n = account_keys.len();
    if ix.data.len() < 9 {
        return None;
    }
    let amount = read_u64_le(&ix.data, 1);
    if ix.data[0] == TOKEN_TRANSFER_CHECKED {
        if !has_valid_indexes(&ix.accounts, 4, n) {
            return None;
        }
        Some(ParsedTransfer {
            from: account_keys[ix.accounts[0] as usize],
            to: account_keys[ix.accounts[2] as usize],
            asset: account_keys[ix.accounts[1] as usize],
            authority: account_keys[ix.accounts[3] as usize],
            amount,
        })
    } else if ix.data[0] == TOKEN_TRANSFER {
        if !has_valid_indexes(&ix.accounts, 3, n) {
            return None;
        }
        let from = account_keys[ix.accounts[0] as usize];
        match mints.get(&from.bytes) {
            Some(mint) => Some(ParsedTransfer {
                from,
                to: account_keys[ix.accounts[1] as usize],
                asset: *mint,
                authority: account_keys[ix.accounts[2] as usize],
                amount,
            }),
            None => None,
        }
    } else {
        None
    }
}

/// The transfer `ix` makes, if it is a system or token transfer that can be read.
pub fn parse_transfer(ix: &CompiledInstruction, account_keys: &Vec<AccountKey>, mints: &KeyTable<AccountKey>) -> (r: Option<ParsedTransfer>)
    requires
        mints.wf(),
    ensures
        r == parse_spec(*ix, account_keys@, mints@),
{
    let p = match program_of(ix, account_keys) {
        Some(p) => p,
        None => { return None; },
    };
    if is_program(&p, &SYSTEM_PROGRAM_ID) {
        let amount = match decode_system_transfer(&ix.data) {
            Some(a) => a,
            None => { return None; },
        };
        if !has_valid_indexes(&ix.accounts, 2, account_keys.len()) {
            return None;
        }
        let from = account_keys[ix.accounts[0] as usize];
        Some(ParsedTransfer {
            from,
            to: account_keys[ix.accounts[1] as usize],
            asset: AccountKey { bytes: SYSTEM_PROGRAM_ID },
            authority: from,
            amount,
        })
    } else if is_program(&p, &TOKEN_PROGRAM_ID) {
        parse_token_data(ix, account_keys, mints)
    } else {
        None
    }
}

} // verus!

verus! {

/// Canonical key of a net-table entry: the two participants in ascending
/// order, then the asset.
pub type NetKey = (Seq<u8>, Seq<u8>, Seq<u8>);

/// A net-table entry: key and signed sum; positive flows from the first
/// participant of the key to the second.
pub type NetEntry = (NetKey, int);

/// Most transfers one bundler nets; keeps every sum within `i128`.
pub const MAX_TRANSFERS: u64 = 0x7fff_ffff_ffff_ffff;

pub open spec fn net_key_of(t: ParsedTransfer) -> NetKey {
    let p = crate::key::sorted_pair(t.from, t.to);
    (p.0@, p.1@, t.asset@)
}

/// The amount of `t`, signed by its direction relative to its sorted pair.
pub open spec fn signed_amount(t: ParsedTransfer) -> int {
    if crate::key::bytes_lt(t.to@, t.from@) {
        -(t.amount as int)
    } else {
        t.amount as int
    }
}

/// Index of the last entry of `tbl` with key `k`, or -1.
pub open spec fn entry_index(tbl: Seq<NetEntry>, k: NetKey) -> int
    decreases tbl.len(),
{
    if tbl.len() == 0 {
        -1
    } else if tbl.last().0 == k {
        tbl.len() - 1
    } else {
        entry_index(tbl.drop_last(), k)
    }
}

/// Order of net-table keys: by the first participant, then the second,
/// then the asset, each lexicographically.
pub open spec fn net_key_lt(a: NetKey, b: NetKey) -> bool {
    crate::key::bytes_lt(a.0, b.0) || (a.0 == b.0 && (crate::key::bytes_lt(a.1, b.1) || (a.1 == b.1
        && crate::key::bytes_lt(a.2, b.2))))
}

/// Where a new key goes in `tbl`: after the last entry whose key sorts before it.
pub open spec fn insert_pos(tbl: Seq<NetEntry>, k: NetKey) -> int
    decreases tbl.len(),
{
    if tbl.len() == 0 {
        0
    } else if net_key_lt(tbl.last().0, k) {
        tbl.len() as int
    } else {
        insert_pos(tbl.drop_last(), k)
    }
}

/// `tbl` after netting in one transfer: the entry with its key updated, or
/// a new entry inserted in key order.
pub open spec fn add_transfer(tbl: Seq<NetEntry>, t: ParsedTransfer) -> Seq<NetEntry> {
    let k = net_key_of(t);
    let i = entry_index(tbl, k);
    if i >= 0 {
        tbl.update(i, (k, tbl[i].1 + signed_amount(t)))
    } else {
        tbl.insert(insert_pos(tbl, k), (k, signed_amount(t)))
    }
}

pub proof fn lemma_insert_pos_bounds(tbl: Seq<NetEntry>, k: NetKey)
    ensures
        0 <= insert_pos(tbl, k) <= tbl.len(),
    decreases tbl.len(),
{
    if tbl.len() > 0 {
        lemma_insert_pos_bounds(tbl.drop_last(), k);
    }
}

/// How `add_transfer` moves the entries: the matching entry is updated in
/// place; otherwise the new entry lands at `insert_pos` and later ones shift by one.
pub proof fn lemma_add_transfer_shape(tbl: Seq<NetEntry>, t: ParsedTransfer)
    ensures
        ({
            let k = net_key_of(t);
            let n = add_transfer(tbl, t);
            let i = entry_index(tbl, k);
            let p = insert_pos(tbl, k);
            &&& i >= 0 ==> n.len() == tbl.len() && n[i] == (k, tbl[i].1 + signed_amount(t))
                && tbl[i].0 == k && forall|j: int| 0 <= j < n.len() && j != i ==> #[trigger] n[j] == tbl[j]
            &&& i < 0 ==> n.len() == tbl.len() + 1 && 0 <= p <= tbl.len() && n[p] == (k, signed_amount(t))
                && (forall|j: int| 0 <= j < p ==> #[trigger] n[j] == tbl[j])
                && (forall|j: int| p < j < n.len() ==> #[trigger] n[j] == tbl[j - 1])
                && forall|j: int| 0 <= j < tbl.len() ==> #[trigger] tbl[j].0 != k
        }),
{
    lemma_entry_index(tbl, net_key_of(t));
    lemma_insert_pos_bounds(tbl, net_key_of(t));
}

/// The net table of a sequence of transfers, entries in ascending key order.
pub open spec fn net_table(ts: Seq<ParsedTransfer>) -> Seq<NetEntry>
    decreases ts.len(),
{
    if ts.len() == 0 {
        Seq::empty()
    } else {
        add_transfer(net_table(ts.drop_last()), ts.last())
    }
}

/// Authority recorded per source: the one of the first transfer from it.
pub open spec fn authority_map(ts: Seq<ParsedTransfer>) -> Map<Seq<u8>, AccountKey>
    decreases ts.len(),
{
    if ts.len() == 0 {
        Map::empty()
    } else {
        let m = authority_map(ts.drop_last());
        if m.contains_key(ts.last().from@) {
            m
        } else {
            m.insert(ts.last().from@, ts.last().authority)
        }
    }
}

/// The transfers that the instructions `ixs` make, in order.
pub open spec fn transfers_in(
    ixs: Seq<CompiledInstruction>,
    keys: Seq<AccountKey>,
    mints: Map<Seq<u8>, AccountKey>,
) -> Seq<ParsedTransfer>
    decreases ixs.len(),
{
    if ixs.len() == 0 {
        Seq::empty()
    } else {
        let rest = transfers_in(ixs.drop_last(), keys, mints);
        match parse_spec(ixs.last(), keys, mints) {
            Some(t) => rest.push(t),
            None => rest,
        }
    }
}

/// Change that transfer `t` makes to the holding of `p` in asset `a`.
pub open spec fn transfer_delta(t: ParsedTransfer, p: Seq<u8>, a: Seq<u8>) -> int {
    if t.asset@ == a {
        (if t.to@ == p { t.amount as int } else { 0 }) - (if t.from@ == p { t.amount as int } else { 0 })
    } else {
        0
    }
}

/// Total change that the transfers `ts` make to the holding of `p` in `a`.
pub open spec fn total_delta(ts: Seq<ParsedTransfer>, p: Seq<u8>, a: Seq<u8>) -> int
    decreases ts.len(),
{
    if ts.len() == 0 {
        0
    } else {
        total_delta(ts.drop_last(), p, a) + transfer_delta(ts.last(), p, a)
    }
}

/// Change that a net entry makes to the holding of `p` in `a`.
pub open spec fn entry_delta(e: NetEntry, p: Seq<u8>, a: Seq<u8>) -> int {
    if e.0.2 == a {
        (if e.0.1 == p { e.1 } else { 0 }) - (if e.0.0 == p { e.1 } else { 0 })
    } else {
        0
    }
}

pub open spec fn table_delta(tbl: Seq<NetEntry>, p: Seq<u8>, a: Seq<u8>) -> int
    decreases tbl.len(),
{
    if tbl.len() == 0 {
        0
    } else {
        table_delta(tbl.drop_last(), p, a) + entry_delta(tbl.last(), p, a)
    }
}

/// The entries of `tbl` whose sum is not zero, in order.
pub open spec fn nonzero_entries(tbl: Seq<NetEntry>) -> Seq<NetEntry>
    decreases tbl.len(),
{
    if tbl.len() == 0 {
        Seq::empty()
    } else if tbl.last().1 == 0 {
        nonzero_entries(tbl.drop_last())
    } else {
        nonzero_entries(tbl.drop_last()).push(tbl.last())
    }
}

pub proof fn lemma_entry_index(tbl: Seq<NetEntry>, k: NetKey)
    ensures
        -1 <= entry_index(tbl, k) < tbl.len(),
        entry_index(tbl, k) >= 0 ==> tbl[entry_index(tbl, k)].0 == k,
        entry_index(tbl, k) < 0 ==> forall|j: int| 0 <= j < tbl.len() ==> #[trigger] tbl[j].0 != k,
    decreases tbl.len(),
{
    if tbl.len() > 0 {
        lemma_entry_index(tbl.drop_last(), k);
        if tbl.last().0 != k {
            assert forall|j: int| 0 <= j < tbl.len() && entry_index(tbl, k) < 0 implies #[trigger] tbl[j].0 != k by {
                if j < tbl.len() - 1 {
                    assert(tbl.drop_last()[j] == tbl[j]);
                }
            }
        }
    }
}

proof fn lemma_transfer_delta_is_entry_delta(t: ParsedTransfer, p: Seq<u8>, a: Seq<u8>)
    ensures
        transfer_delta(t, p, a) == entry_delta((net_key_of(t), signed_amount(t)), p, a),
{
}

proof fn lemma_table_delta_update(tbl: Seq<NetEntry>, i: int, e: NetEntry, p: Seq<u8>, a: Seq<u8>)
    requires
        0 <= i < tbl.len(),
    ensures
        table_delta(tbl.update(i, e), p, a) == table_delta(tbl, p, a) - entry_delta(tbl[i], p, a)
            + entry_delta(e, p, a),
    decreases tbl.len(),
{
    let u = tbl.update(i, e);
    if i == tbl.len() - 1 {
        assert(u.drop_last() =~= tbl.drop_last());
    } else {
        assert(u.drop_last() =~= tbl.drop_last().update(i, e));
        lemma_table_delta_update(tbl.drop_last(), i, e, p, a);
    }
}

proof fn lemma_table_delta_insert(tbl: Seq<NetEntry>, i: int, e: NetEntry, p: Seq<u8>, a: Seq<u8>)
    requires
        0 <= i <= tbl.len(),
    ensures
        table_delta(tbl.insert(i, e), p, a) == table_delta(tbl, p, a) + entry_delta(e, p, a),
    decreases tbl.len(),
{
    let u = tbl.insert(i, e);
    if i == tbl.len() {
        assert(u.drop_last() =~= tbl);
    } else {
        assert(u.drop_last() =~= tbl.drop_last().insert(i, e));
        assert(u.last() == tbl.last());
        lemma_table_delta_insert(tbl.drop_last(), i, e, p, a);
    }
}

/// The net table moves each holding exactly as the transfers it was built from.
pub proof fn lemma_net_table_delta(ts: Seq<ParsedTransfer>, p: Seq<u8>, a: Seq<u8>)
    ensures
        table_delta(net_table(ts), p, a) == total_delta(ts, p, a),
    decreases ts.len(),
{
    if ts.len() > 0 {
        let prev = net_table(ts.drop_last());
        let t = ts.last();
        lemma_net_table_delta(ts.drop_last(), p, a);
        lemma_transfer_delta_is_entry_delta(t, p, a);
        let i = entry_index(prev, net_key_of(t));
        lemma_entry_index(prev, net_key_of(t));
        if i >= 0 {
            lemma_table_delta_update(prev, i, (net_key_of(t), prev[i].1 + signed_amount(t)), p, a);
        } else {
            lemma_insert_pos_bounds(prev, net_key_of(t));
            lemma_table_delta_insert(prev, insert_pos(prev, net_key_of(t)), (net_key_of(t), signed_amount(t)), p, a);
        }
    }
}

proof fn lemma_nonzero_entries_delta(tbl: Seq<NetEntry>, p: Seq<u8>, a: Seq<u8>)
    ensures
        table_delta(nonzero_entries(tbl), p, a) == table_delta(tbl, p, a),
    decreases tbl.len(),
{
    if tbl.len() > 0 {
        lemma_nonzero_entries_delta(tbl.drop_last(), p, a);
        if tbl.last().1 != 0 {
            assert(nonzero_entries(tbl.drop_last()).push(tbl.last()).drop_last() =~= nonzero_entries(tbl.drop_last()));
        }
    }
}

/// Every sum in the net table of `ts` is at most `ts.len()` times the largest amount.
pub proof fn lemma_net_table_bound(ts: Seq<ParsedTransfer>)
    ensures
        forall|j: int| 0 <= j < net_table(ts).len() ==> -(ts.len() * 0xffff_ffff_ffff_ffff) <= #[trigger] net_table(ts)[j].1
            <= ts.len() * 0xffff_ffff_ffff_ffff,
    decreases ts.len(),
{
    if ts.len() > 0 {
        let prev = net_table(ts.drop_last());
        lemma_net_table_bound(ts.drop_last());
        lemma_entry_index(prev, net_key_of(ts.last()));
        lemma_add_transfer_shape(prev, ts.last());
        let ei = entry_index(prev, net_key_of(ts.last()));
        let ip = insert_pos(prev, net_key_of(ts.last()));
        assert forall|j: int| 0 <= j < net_table(ts).len() implies -(ts.len() * 0xffff_ffff_ffff_ffff) <= #[trigger] net_table(ts)[j].1
            <= ts.len() * 0xffff_ffff_ffff_ffff by {
            let o = if ei >= 0 { j } else if j < ip { j } else { j - 1 };
            if (ei >= 0 && j != ei) || (ei < 0 && j != ip) {
                assert(net_table(ts)[j] == prev[o]);
                assert(-((ts.len() - 1) * 0xffff_ffff_ffff_ffff) <= prev[o].1 <= (ts.len() - 1) * 0xffff_ffff_ffff_ffff);
            } else if ei >= 0 {
                assert(-((ts.len() - 1) * 0xffff_ffff_ffff_ffff) <= prev[ei].1 <= (ts.len() - 1) * 0xffff_ffff_ffff_ffff);
            }
        }
    }
}

/// A non-zero sum always has a recorded authority for the participant it flows from.
pub proof fn lemma_net_table_authority(ts: Seq<ParsedTransfer>)
    ensures
        forall|j: int| 0 <= j < net_table(ts).len() ==> (#[trigger] net_table(ts)[j].1 > 0
            ==> authority_map(ts).contains_key(net_table(ts)[j].0.0)) && (net_table(ts)[j].1 < 0
            ==> authority_map(ts).contains_key(net_table(ts)[j].0.1)),
    decreases ts.len(),
{
    if ts.len() > 0 {
        let prev = net_table(ts.drop_last());
        let t = ts.last();
        lemma_net_table_authority(ts.drop_last());
        lemma_entry_index(prev, net_key_of(t));
        let m = authority_map(ts.drop_last());
        assert(authority_map(ts).contains_key(t.from@));
        assert forall|k: Seq<u8>| m.contains_key(k) implies #[trigger] authority_map(ts).contains_key(k) by {}
        let p = crate::key::sorted_pair(t.from, t.to);
        assert(signed_amount(t) > 0 ==> p.0@ == t.from@);
        assert(signed_amount(t) < 0 ==> p.1@ == t.from@);
        lemma_add_transfer_shape(prev, t);
        let ei = entry_index(prev, net_key_of(t));
        let ip = insert_pos(prev, net_key_of(t));
        let n = net_table(ts);
        assert forall|j: int| 0 <= j < n.len() implies (#[trigger] n[j].1 > 0
            ==> authority_map(ts).contains_key(n[j].0.0)) && (n[j].1 < 0
            ==> authority_map(ts).contains_key(n[j].0.1)) by {
            let o = if ei >= 0 { j } else if j < ip { j } else { j - 1 };
            if (ei >= 0 && j != ei) || (ei < 0 && j != ip) {
                assert(n[j] == prev[o]);
                assert(prev[o].1 > 0 ==> m.contains_key(prev[o].0.0));
                assert(prev[o].1 < 0 ==> m.contains_key(prev[o].0.1));
            } else if ei >= 0 {
                assert(prev[ei].1 > 0 ==> m.contains_key(prev[ei].0.0));
                assert(prev[ei].1 < 0 ==> m.contains_key(prev[ei].0.1));
            }
        }
    }
}

/// The keys of a net table are pairwise distinct.
pub proof fn lemma_net_table_unique(ts: Seq<ParsedTransfer>)
    ensures
        forall|i: int, j: int| 0 <= i < j < net_table(ts).len() ==> #[trigger] net_table(ts)[i].0 != #[trigger] net_table(ts)[j].0,
    decreases ts.len(),
{
    if ts.len() > 0 {
        let prev = net_table(ts.drop_last());
        lemma_net_table_unique(ts.drop_last());
        lemma_add_transfer_shape(prev, ts.last());
        let ei = entry_index(prev, net_key_of(ts.last()));
        let ip = insert_pos(prev, net_key_of(ts.last()));
        let n = net_table(ts);
        assert forall|a: int, b: int| 0 <= a < b < n.len() implies #[trigger] n[a].0 != #[trigger] n[b].0 by {
            if ei >= 0 {
                assert(n[a].0 == prev[a].0 && n[b].0 == prev[b].0);
            } else {
                let oa = if a < ip { a } else { a - 1 };
                let ob = if b < ip { b } else { b - 1 };
                if a != ip && b != ip {
                    assert(n[a] == prev[oa] && n[b] == prev[ob]);
                } else if a == ip {
                    assert(n[b] == prev[ob]);
                } else {
                    assert(n[a] == prev[oa]);
                }
            }
        }
    }
}

} // verus!

verus! {

/// Key of a net-table entry.
#[derive(Clone, Copy, Debug)]
pub struct BundleKey {
    pub lo: AccountKey,
    pub hi: AccountKey,
    pub asset: AccountKey,
}

impl View for BundleKey {
    type V = NetKey;

    open spec fn view(&self) -> NetKey {
        (self.lo@, self.hi@, self.asset@)
    }
}

/// Whether `a` sorts before `b` in net-table key order.
pub fn key_less(a: &BundleKey, b: &BundleKey) -> (r: bool)
    ensures
        r == net_key_lt(a@, b@),
{
    if a.lo.less_than(&b.lo) {
        true
    } else if !a.lo.same(&b.lo) {
        false
    } else if a.hi.less_than(&b.hi) {
        true
    } else if !a.hi.same(&b.hi) {
        false
    } else {
        a.asset.less_than(&b.asset)
    }
}

/// Why a bundler refused work.
#[derive(Clone, Copy, Debug, PartialEq, Eq, Structural)]
pub enum BundleError {
    /// Netting the transaction would take the bundler past `MAX_TRANSFERS` transfers.
    TooManyTransfers,
    /// A net sum is too large for one transfer's 64-bit amount.
    AmountTooLarge,
}

/// One settlement transfer: `amount` of `asset` from `from` to `to`, signed by `authority`.
#[derive(Clone, Copy, Debug)]
pub struct NetTransfer {
    pub from: AccountKey,
    pub to: AccountKey,
    pub asset: AccountKey,
    pub authority: AccountKey,
    pub amount: u64,
}

/// Whether `nt` settles the non-zero entry `e`: the whole sum, from the
/// participant the sign names to the other.
pub open spec fn settles(nt: NetTransfer, e: NetEntry) -> bool {
    &&& nt.asset@ == e.0.2
    &&& e.1 > 0 ==> nt.from@ == e.0.0 && nt.to@ == e.0.1 && nt.amount as int == e.1
    &&& e.1 < 0 ==> nt.from@ == e.0.1 && nt.to@ == e.0.0 && nt.amount as int == -e.1
    &&& e.1 != 0
}

/// Change that settlement transfer `nt` makes to the holding of `p` in `a`.
pub open spec fn net_transfer_delta(nt: NetTransfer, p: Seq<u8>, a: Seq<u8>) -> int {
    if nt.asset@ == a {
        (if nt.to@ == p { nt.amount as int } else { 0 }) - (if nt.from@ == p { nt.amount as int } else { 0 })
    } else {
        0
    }
}

pub open spec fn settlement_delta(out: Seq<NetTransfer>, p: Seq<u8>, a: Seq<u8>) -> int
    decreases out.len(),
{
    if out.len() == 0 {
        0
    } else {
        settlement_delta(out.drop_last(), p, a) + net_transfer_delta(out.last(), p, a)
    }
}

/// Whether a net sum fits a 64-bit transfer amount.
pub open spec fn fits_amount(e: NetEntry) -> bool {
    -0xffff_ffff_ffff_ffff <= e.1 <= 0xffff_ffff_ffff_ffff
}

/// Accumulates transfers into a net table and emits the settlement.
pub struct TransferBundler {
    transfers: Vec<(BundleKey, i128)>,
    authorities: KeyTable<AccountKey>,
    mints: KeyTable<AccountKey>,
    count: u64,
    history: Ghost<Seq<ParsedTransfer>>,
}

impl TransferBundler {
    /// Every transfer netted so far, in order.
    pub closed spec fn history(&self) -> Seq<ParsedTransfer> {
        self.history@
    }

    /// Mint of each token account that has been recorded.
    pub closed spec fn mints(&self) -> Map<Seq<u8>, AccountKey> {
        self.mints@
    }

    /// Authority recorded for each source.
    pub closed spec fn authorities(&self) -> Map<Seq<u8>, AccountKey> {
        self.authorities@
    }

    pub closed spec fn table_view(&self) -> Seq<NetEntry> {
        self.transfers@.map_values(|e: (BundleKey, i128)| (e.0@, e.1 as int))
    }

    pub closed spec fn wf(&self) -> bool {
        &&& self.authorities.wf()
        &&& self.mints.wf()
        &&& self.count as int == self.history@.len()
        &&& self.count <= MAX_TRANSFERS
        &&& self.table_view() == net_table(self.history@)
        &&& self.authorities@ == authority_map(self.history@)
    }

    pub proof fn lemma_history_bound(&self)
        requires
            self.wf(),
        ensures
            self.history().len() <= MAX_TRANSFERS,
    {
    }

    pub fn new() -> (r: TransferBundler)
        ensures
            r.wf(),
            r.history() == Seq::<ParsedTransfer>::empty(),
            r.mints() == Map::<Seq<u8>, AccountKey>::empty(),
    {
        let r = TransferBundler {
            transfers: Vec::new(),
            authorities: KeyTable::new(),
            mints: KeyTable::new(),
            count: 0,
            history: Ghost(Seq::empty()),
        };
        assert(r.table_view() =~= net_table(Seq::empty()));
        r
    }

    /// Reads a token transfer: source, destination, asset, authority and amount.
    pub fn parse_token_transfer(ix: &CompiledInstruction, account_keys: &Vec<AccountKey>, mints: &KeyTable<AccountKey>) -> (r: Option<ParsedTransfer>)
        requires
            mints.wf(),
        ensures
            r == (if is_token_program_call(*ix, account_keys@) { parse_token_spec(*ix, account_keys@, mints@) } else { None }),
    {
        match program_of(ix, account_keys) {
            Some(p) => {
                if !is_program(&p, &TOKEN_PROGRAM_ID) {
                    return None;
                }
            },
            None => { return None; },
        }
        parse_token_data(ix, account_keys, mints)
    }

    /// Records `mint` as the asset of transfers out of `token_account`.
    pub fn record_mint(&mut self, token_account: AccountKey, mint: AccountKey)
        requires
            old(self).wf(),
        ensures
            final(self).wf(),
            final(self).history() == old(self).history(),
            final(self).mints() == old(self).mints().insert(token_account@, mint),
    {
        self.mints.insert(token_account.bytes, mint);
    }

    /// Where an entry for the absent key `k` goes to keep the table in key order.
    fn insert_position(&self, k: &BundleKey) -> (r: usize)
        requires
            self.wf(),
        ensures
            r as int == insert_pos(self.table_view(), k@),
            r <= self.transfers@.len(),
    {
        let ghost tbl = self.table_view();
        let mut i: usize = self.transfers.len();
        assert(tbl.take(i as int) =~= tbl);
        while i > 0
            invariant
                i <= self.transfers@.len(),
                tbl == self.table_view(),
                insert_pos(tbl, k@) == insert_pos(tbl.take(i as int), k@),
            decreases i,
        {
            assert(tbl.take(i as int).last() == tbl[i - 1]);
            if key_less(&self.transfers[i - 1].0, k) {
                return i;
            }
            assert(tbl.take(i as int).drop_last() =~= tbl.take(i - 1));
            i = i - 1;
        }
        0
    }

    fn find_entry(&self, k: &BundleKey) -> (r: Option<usize>)
        requires
            self.wf(),
        ensures
            match r {
                Some(i) => i < self.transfers@.len() && i as int == entry_index(self.table_view(), k@),
                None => entry_index(self.table_view(), k@) == -1,
            },
    {
        let ghost tbl = self.table_view();
        let mut i: usize = self.transfers.len();
        assert(tbl.take(i as int) =~= tbl);
        while i > 0
            invariant
                i <= self.transfers@.len(),
                tbl == self.table_view(),
                entry_index(tbl, k@) == entry_index(tbl.take(i as int), k@),
            decreases i,
        {
            let e = &self.transfers[i - 1].0;
            assert(tbl.take(i as int).last() == tbl[i - 1]);
            if e.lo.same(&k.lo) && e.hi.same(&k.hi) && e.asset.same(&k.asset) {
                return Some(i - 1);
            }
            assert(tbl.take(i as int).drop_last() =~= tbl.take(i - 1));
            i = i - 1;
        }
        None
    }

    /// Nets in one transfer.
    fn add(&mut self, t: ParsedTransfer)
        requires
            old(self).wf(),
            old(self).count < MAX_TRANSFERS,
        ensures
            final(self).wf(),
            final(self).history() == old(self).history().push(t),
            final(self).mints() == old(self).mints(),
            final(self).count == old(self).count + 1,
    {
        let ghost old_tbl = self.table_view();
        let ghost new_hist = self.history@.push(t);
        let (lo, hi) = AccountKey::sort_pair(t.from, t.to);
        let delta: i128 = if t.to.less_than(&t.from) {
            -(t.amount as i128)
        } else {
            t.amount as i128
        };
        let key = BundleKey { lo, hi, asset: t.asset };
        assert(new_hist.drop_last() =~= self.history@);
        match self.find_entry(&key) {
            Some(i) => {
                let v = self.transfers[i].1;
                proof {
                    lemma_net_table_bound(self.history@);
                    let n = self.count as int;
                    assert(-(n * 0xffff_ffff_ffff_ffff) <= old_tbl[i as int].1 <= n * 0xffff_ffff_ffff_ffff);
                    assert(n * 0xffff_ffff_ffff_ffff + 0xffff_ffff_ffff_ffff <= 0x7fff_ffff_ffff_ffff_ffff_ffff_ffff_ffff) by (nonlinear_arith)
                        requires n < 0x7fff_ffff_ffff_ffff;
                }
                self.transfers.set(i, (key, v + delta));
                assert(self.table_view() =~= add_transfer(old_tbl, t));
            },
            None => {
                let p = self.insert_position(&key);
                self.transfers.insert(p, (key, delta));
                assert(self.table_view() =~= add_transfer(old_tbl, t));
            },
        }
        if !self.authorities.contains_key(&t.from.bytes) {
            self.authorities.insert(t.from.bytes, t.authority);
        }
        self.count = self.count + 1;
        self.history = Ghost(new_hist);
    }

    /// Number of transfers `transaction` makes, or `MAX_TRANSFERS + 1` where there are more.
    fn count_transfers(&self, transaction: &Transaction) -> (r: u64)
        requires
            self.wf(),
        ensures
            r as int == transfers_in(transaction.message.instructions@, transaction.message.account_keys@, self.mints()).len()
                || (r == MAX_TRANSFERS + 1 && transfers_in(transaction.message.instructions@, transaction.message.account_keys@, self.mints()).len() > MAX_TRANSFERS),
    {
        let ixs = &transaction.message.instructions;
        let keys = &transaction.message.account_keys;
        assert(ixs@ =~= transaction.message.instructions@);
        assert(keys@ =~= transaction.message.account_keys@);
        let mut n: u64 = 0;
        let mut i: usize = 0;
        while i < ixs.len()
            invariant
                self.wf(),
                ixs@ == transaction.message.instructions@,
                keys@ == transaction.message.account_keys@,
                i <= ixs@.len(),
                n <= MAX_TRANSFERS,
                n as int == transfers_in(ixs@.take(i as int), keys@, self.mints()).len(),
            decreases ixs@.len() - i,
        {
            assert(ixs@.take(i + 1).drop_last() =~= ixs@.take(i as int));
            assert(ixs@.take(i + 1).last() == ixs@[i as int]);
            if parse_transfer(&ixs[i], keys, &self.mints).is_some() {
                if n == MAX_TRANSFERS {
                    proof {
                        lemma_transfers_in_prefix(ixs@, keys@, self.mints(), i + 1);
                        assert(transfers_in(ixs@.take(i + 1), keys@, self.mints()).len() == n + 1);
                        assert(transfers_in(ixs@, keys@, self.mints()).len() > MAX_TRANSFERS);
                    }
                    return MAX_TRANSFERS + 1;
                }
                n = n + 1;
            }
            i = i + 1;
        }
        assert(ixs@.take(ixs@.len() as int) =~= ixs@);
        n
    }

    /// Nets in every transfer that `transaction` makes; refuses, changing
    /// nothing, where that would exceed `MAX_TRANSFERS` transfers in all.
    pub fn bundle(&mut self, transaction: &Transaction) -> (r: Result<(), BundleError>)
        requires
            old(self).wf(),
        ensures
            final(self).wf(),
            final(self).mints() == old(self).mints(),
            ({
                let added = transfers_in(transaction.message.instructions@, transaction.message.account_keys@, old(self).mints());
                &&& r is Ok <==> old(self).history().len() + added.len() <= MAX_TRANSFERS
                &&& r is Ok ==> final(self).history() == old(self).history() + added
                &&& r is Err ==> r == Err::<(), BundleError>(BundleError::TooManyTransfers) && final(self).history() == old(self).history()
            }),
    {
        let n = self.count_transfers(transaction);
        if n > MAX_TRANSFERS - self.count {
            return Err(BundleError::TooManyTransfers);
        }
        let ixs = &transaction.message.instructions;
        let keys = &transaction.message.account_keys;
        assert(ixs@ =~= transaction.message.instructions@);
        assert(keys@ =~= transaction.message.account_keys@);
        let ghost start = self.history@;
        let ghost mints = self.mints@;
        let mut i: usize = 0;
        while i < ixs.len()
            invariant
                self.wf(),
                ixs@ == transaction.message.instructions@,
                keys@ == transaction.message.account_keys@,
                i <= ixs@.len(),
                self.mints() == mints,
                self.history() == start + transfers_in(ixs@.take(i as int), keys@, mints),
                start.len() + transfers_in(ixs@, keys@, mints).len() <= MAX_TRANSFERS,
            decreases ixs@.len() - i,
        {
            assert(ixs@.take(i + 1).drop_last() =~= ixs@.take(i as int));
            proof { lemma_transfers_in_prefix(ixs@, keys@, mints, i + 1); }
            match parse_transfer(&ixs[i], keys, &self.mints) {
                Some(t) => {
                    self.add(t);
                    assert(self.history() =~= start + transfers_in(ixs@.take(i + 1), keys@, mints));
                },
                None => {},
            }
            i = i + 1;
        }
        assert(ixs@.take(ixs@.len() as int) =~= ixs@);
        Ok(())
    }
}

/// A prefix of the instructions makes no more transfers than all of them.
pub proof fn lemma_transfers_in_prefix(
    ixs: Seq<CompiledInstruction>,
    keys: Seq<AccountKey>,
    mints: Map<Seq<u8>, AccountKey>,
    i: int,
)
    requires
        0 <= i <= ixs.len(),
    ensures
        transfers_in(ixs.take(i), keys, mints).len() <= transfers_in(ixs, keys, mints).len(),
    decreases ixs.len() - i,
{
    if i < ixs.len() {
        lemma_transfers_in_prefix(ixs, keys, mints, i + 1);
        assert(ixs.take(i + 1).drop_last() =~= ixs.take(i));
    } else {
        assert(ixs.take(i) =~= ixs);
    }
}

} // verus!

verus! {

/// Whether `ix` carries out `nt` on the base chain: a system-program
/// transfer signed by the source for the native asset, else a token-program
/// `Transfer` signed by the authority.
pub open spec fn is_instruction_for(ix: Instruction, nt: NetTransfer) -> bool {
    if nt.asset@ == SYSTEM_PROGRAM_ID@ {
        &&& ix.program_id@ == SYSTEM_PROGRAM_ID@
        &&& ix.accounts@ == seq![
            AccountMeta { pubkey: nt.from, is_signer: true, is_writable: true },
            AccountMeta { pubkey: nt.to, is_signer: false, is_writable: true },
        ]
        &&& ix.data@.len() == 12
        &&& le_value(ix.data@.subrange(0, 4)) == 2
        &&& le_u64_at(ix.data@, 4) == nt.amount
    } else {
        &&& ix.program_id@ == TOKEN_PROGRAM_ID@
        &&& ix.accounts@ == seq![
            AccountMeta { pubkey: nt.from, is_signer: false, is_writable: true },
            AccountMeta { pubkey: nt.to, is_signer: false, is_writable: true },
            AccountMeta { pubkey: nt.authority, is_signer: true, is_writable: false },
        ]
        &&& ix.data@.len() == 9
        &&& ix.data@[0] == TOKEN_TRANSFER
        &&& le_u64_at(ix.data@, 1) == nt.amount
    }
}

impl NetTransfer {
    /// The base-chain instruction that performs this transfer.
    pub fn to_instruction(&self) -> (r: Instruction)
        ensures
            is_instruction_for(r, *self),
    {
        if crate::table::bytes32_eq(&self.asset.bytes, &SYSTEM_PROGRAM_ID) {
            let mut data: Vec<u8> = vec![2, 0, 0, 0];
            push_u64_le(&mut data, self.amount);
            proof {
                reveal_with_fuel(le_value, 5);
                assert(data@.subrange(0, 4) =~= seq![2u8, 0, 0, 0]);
            }
            let accounts = vec![
                AccountMeta { pubkey: self.from, is_signer: true, is_writable: true },
                AccountMeta { pubkey: self.to, is_signer: false, is_writable: true },
            ];
            Instruction { program_id: AccountKey { bytes: SYSTEM_PROGRAM_ID }, accounts, data }
        } else {
            let mut data: Vec<u8> = vec![TOKEN_TRANSFER];
            push_u64_le(&mut data, self.amount);
            assert(data@[0] == data@.subrange(0, 1)[0]);
            let accounts = vec![
                AccountMeta { pubkey: self.from, is_signer: false, is_writable: true },
                AccountMeta { pubkey: self.to, is_signer: false, is_writable: true },
                AccountMeta { pubkey: self.authority, is_signer: true, is_writable: false },
            ];
            Instruction { program_id: AccountKey { bytes: TOKEN_PROGRAM_ID }, accounts, data }
        }
    }
}

/// Whether `out` is the settlement of net table `tbl`: one transfer per
/// non-zero entry, in order, each signed by the authority recorded for its source.
pub open spec fn is_settlement(out: Seq<NetTransfer>, tbl: Seq<NetEntry>, authorities: Map<Seq<u8>, AccountKey>) -> bool {
    &&& out.len() == nonzero_entries(tbl).len()
    &&& forall|i: int| 0 <= i < out.len() ==> settles(#[trigger] out[i], nonzero_entries(tbl)[i])
        && authorities.contains_key(out[i].from@) && out[i].authority == authorities[out[i].from@]
}

impl TransferBundler {
    /// The settlement transfers: one per non-zero net sum, in ascending
    /// order of (sorted pair, asset); refused where a sum exceeds 64 bits.
    pub fn net_transfers(&self) -> (r: Result<Vec<NetTransfer>, BundleError>)
        requires
            self.wf(),
        ensures
            match r {
                Ok(out) => (forall|j: int| 0 <= j < net_table(self.history()).len()
                    ==> fits_amount(#[trigger] net_table(self.history())[j]))
                    && is_settlement(out@, net_table(self.history()), authority_map(self.history())),
                Err(e) => e == BundleError::AmountTooLarge && exists|j: int| 0 <= j < net_table(self.history()).len()
                    && !fits_amount(#[trigger] net_table(self.history())[j]),
            },
    {
        let ghost tbl = net_table(self.history@);
        proof {
            lemma_net_table_authority(self.history@);
        }
        let mut out: Vec<NetTransfer> = Vec::new();
        let mut i: usize = 0;
        while i < self.transfers.len()
            invariant
                self.wf(),
                tbl == net_table(self.history@),
                tbl == self.table_view(),
                i <= tbl.len(),
                forall|j: int| 0 <= j < i ==> fits_amount(#[trigger] tbl[j]),
                is_settlement(out@, tbl.take(i as int), self.authorities@),
                forall|j: int| 0 <= j < tbl.len() ==> (#[trigger] tbl[j].1 > 0
                    ==> self.authorities@.contains_key(tbl[j].0.0)) && (tbl[j].1 < 0
                    ==> self.authorities@.contains_key(tbl[j].0.1)),
            decreases tbl.len() - i,
        {
            let key = self.transfers[i].0;
            let s = self.transfers[i].1;
            assert(tbl[i as int] == (key@, s as int));
            assert(tbl.take(i + 1).drop_last() =~= tbl.take(i as int));
            assert(tbl.take(i + 1).last() == tbl[i as int]);
            if s > 0xffff_ffff_ffff_ffff || s < -0xffff_ffff_ffff_ffff {
                assert(!fits_amount(net_table(self.history())[i as int]));
                return Err(BundleError::AmountTooLarge);
            }
            if s != 0 {
                let (from, to, amount) = if s > 0 {
                    (key.lo, key.hi, s as u64)
                } else {
                    (key.hi, key.lo, (-s) as u64)
                };
                match self.authorities.get(&from.bytes) {
                    Some(authority) => {
                        let nt = NetTransfer { from, to, asset: key.asset, authority: *authority, amount };
                        let ghost prev = out@;
                        out.push(nt);
                        assert forall|k: int| 0 <= k < out@.len() implies settles(#[trigger] out@[k], nonzero_entries(tbl.take(i + 1))[k])
                            && self.authorities@.contains_key(out@[k].from@) && out@[k].authority == self.authorities@[out@[k].from@] by {
                            if k < prev.len() {
                                assert(out@[k] == prev[k]);
                            }
                        }
                    },
                    None => {},
                }
            }
            i = i + 1;
        }
        assert(tbl.take(tbl.len() as int) =~= tbl);
        Ok(out)
    }

    /// The settlement as base-chain instructions, one per settlement transfer.
    pub fn generate_final(&self) -> (r: Result<Vec<Instruction>, BundleError>)
        requires
            self.wf(),
        ensures
            match r {
                Ok(ixs) => (forall|j: int| 0 <= j < net_table(self.history()).len()
                    ==> fits_amount(#[trigger] net_table(self.history())[j]))
                    && exists|out: Seq<NetTransfer>| is_settlement(out, net_table(self.history()), authority_map(self.history()))
                    && out.len() == ixs@.len()
                    && forall|i: int| 0 <= i < ixs@.len() ==> is_instruction_for(#[trigger] ixs@[i], out[i]),
                Err(e) => e == BundleError::AmountTooLarge && exists|j: int| 0 <= j < net_table(self.history()).len()
                    && !fits_amount(#[trigger] net_table(self.history())[j]),
            },
    {
        let out = match self.net_transfers() {
            Ok(out) => out,
            Err(e) => { return Err(e); },
        };
        let mut ixs: Vec<Instruction> = Vec::new();
        let mut i: usize = 0;
        while i < out.len()
            invariant
                i <= out@.len(),
                ixs@.len() == i,
                forall|k: int| 0 <= k < i ==> is_instruction_for(#[trigger] ixs@[k], out@[k]),
            decreases out@.len() - i,
        {
            let ix = out[i].to_instruction();
            ixs.push(ix);
            i = i + 1;
        }
        assert(is_settlement(out@, net_table(self.history()), authority_map(self.history())));
        Ok(ixs)
    }
}

} // verus!

verus! {

proof fn lemma_settlement_delta_matches(out: Seq<NetTransfer>, nz: Seq<NetEntry>, p: Seq<u8>, a: Seq<u8>)
    requires
        out.len() == nz.len(),
        forall|i: int| 0 <= i < out.len() ==> settles(#[trigger] out[i], nz[i]),
    ensures
        settlement_delta(out, p, a) == table_delta(nz, p, a),
    decreases out.len(),
{
    if out.len() > 0 {
        let k = out.len() - 1;
        assert(settles(out[k], nz[k]));
        lemma_settlement_delta_matches(out.drop_last(), nz.drop_last(), p, a);
    }
}

/// Bundling is sound: for every participant `p` and asset `a`, a settlement
/// of the net table of `ts` changes the holding of `p` in `a` exactly as the
/// transfers `ts` do.
pub proof fn lemma_settlement_preserves_holdings(
    ts: Seq<ParsedTransfer>,
    out: Seq<NetTransfer>,
    authorities: Map<Seq<u8>, AccountKey>,
    p: Seq<u8>,
    a: Seq<u8>,
)
    requires
        is_settlement(out, net_table(ts), authorities),
    ensures
        settlement_delta(out, p, a) == total_delta(ts, p, a),
{
    let tbl = net_table(ts);
    lemma_settlement_delta_matches(out, nonzero_entries(tbl), p, a);
    lemma_nonzero_entries_delta(tbl, p, a);
    lemma_net_table_delta(ts, p, a);
}

/// Bundling no transfers settles nothing.
pub proof fn lemma_empty_log_settles_nothing(out: Seq<NetTransfer>, authorities: Map<Seq<u8>, AccountKey>)
    requires
        is_settlement(out, net_table(Seq::empty()), authorities),
    ensures
        out.len() == 0,
{
}

} // verus!

verus! {

/// Sum of the signed amounts of the transfers in `ts` whose key is `k`.
pub open spec fn key_sum(ts: Seq<ParsedTransfer>, k: NetKey) -> int
    decreases ts.len(),
{
    if ts.len() == 0 {
        0
    } else {
        key_sum(ts.drop_last(), k) + if net_key_of(ts.last()) == k { signed_amount(ts.last()) } else { 0 }
    }
}

/// Each entry of a net table holds the sum for its key, its pair is in
/// ascending order, and a key without an entry has sum zero.
proof fn lemma_net_table_sums(ts: Seq<ParsedTransfer>)
    ensures
        forall|j: int| 0 <= j < net_table(ts).len() ==> (#[trigger] net_table(ts)[j]).1 == key_sum(ts, net_table(ts)[j].0)
            && !crate::key::bytes_lt(net_table(ts)[j].0.1, net_table(ts)[j].0.0)
            && net_table(ts)[j].0.0.len() == 32 && net_table(ts)[j].0.1.len() == 32 && net_table(ts)[j].0.2.len() == 32,
        forall|k: NetKey| entry_index(net_table(ts), k) < 0 ==> #[trigger] key_sum(ts, k) == 0,
    decreases ts.len(),
{
    if ts.len() > 0 {
        let prefix = ts.drop_last();
        let t = ts.last();
        let prev = net_table(prefix);
        let kt = net_key_of(t);
        lemma_net_table_sums(prefix);
        lemma_net_table_unique(prefix);
        lemma_entry_index(prev, kt);
        crate::key::lemma_sorted_pair_ascending(t.from, t.to);
        let tbl = net_table(ts);
        let ei = entry_index(prev, kt);
        let p = crate::key::sorted_pair(t.from, t.to);
        assert(p.0.bytes@.len() == 32 && p.1.bytes@.len() == 32 && t.asset.bytes@.len() == 32);
        assert forall|k: NetKey| #[trigger] key_sum(ts, k) == key_sum(prefix, k) + if kt == k { signed_amount(t) } else { 0 } by {}
        lemma_add_transfer_shape(prev, t);
        let ip = insert_pos(prev, kt);
        assert forall|j: int| 0 <= j < tbl.len() implies (#[trigger] tbl[j]).1 == key_sum(ts, tbl[j].0)
            && !crate::key::bytes_lt(tbl[j].0.1, tbl[j].0.0) && tbl[j].0.0.len() == 32 && tbl[j].0.1.len() == 32
            && tbl[j].0.2.len() == 32 by {
            let o = if ei >= 0 { j } else if j < ip { j } else { j - 1 };
            if ei >= 0 && j == ei {
                assert(key_sum(ts, kt) == key_sum(prefix, kt) + signed_amount(t));
                assert(prev[ei].1 == key_sum(prefix, prev[ei].0));
            } else if ei < 0 && j == ip {
                assert(key_sum(prefix, kt) == 0);
                assert(key_sum(ts, kt) == key_sum(prefix, kt) + signed_amount(t));
            } else {
                assert(tbl[j] == prev[o]);
                if ei >= 0 {
                    assert(prev[o].0 != prev[ei].0);
                } else {
                    assert(prev[o].0 != kt);
                }
                assert(key_sum(ts, prev[o].0) == key_sum(prefix, prev[o].0));
            }
        }
        assert forall|k: NetKey| entry_index(tbl, k) < 0 implies #[trigger] key_sum(ts, k) == 0 by {
            lemma_entry_index(tbl, k);
            lemma_entry_index(prev, k);
            assert(key_sum(ts, k) == key_sum(prefix, k) + if kt == k { signed_amount(t) } else { 0 });
            if entry_index(prev, k) >= 0 {
                let j = entry_index(prev, k);
                if ei >= 0 {
                    assert(tbl[j].0 == prev[j].0);
                } else if j < ip {
                    assert(tbl[j] == prev[j]);
                } else {
                    assert(tbl[j + 1] == prev[j]);
                }
            }
            if k == kt {
                if entry_index(prev, kt) >= 0 {
                    assert(tbl[entry_index(prev, kt)].0 == kt);
                } else {
                    assert(tbl[ip].0 == kt);
                }
            }
        }
    }
}

proof fn lemma_nonzero_entries_member(tbl: Seq<NetEntry>)
    ensures
        forall|i: int| 0 <= i < nonzero_entries(tbl).len() ==> exists|j: int| 0 <= j < tbl.len()
            && tbl[j] == #[trigger] nonzero_entries(tbl)[i] && tbl[j].1 != 0,
    decreases tbl.len(),
{
    if tbl.len() > 0 {
        let prefix = tbl.drop_last();
        lemma_nonzero_entries_member(prefix);
        let nz = nonzero_entries(tbl);
        assert forall|i: int| 0 <= i < nz.len() implies exists|j: int| 0 <= j < tbl.len()
            && tbl[j] == #[trigger] nz[i] && tbl[j].1 != 0 by {
            if i < nonzero_entries(prefix).len() {
                let j = choose|j: int| 0 <= j < prefix.len() && prefix[j] == nonzero_entries(prefix)[i] && prefix[j].1 != 0;
                assert(tbl[j] == prefix[j]);
            } else {
                assert(tbl[tbl.len() - 1] == nz[i]);
            }
        }
    }
}

/// A pair whose transfers in one asset sum to zero gets no settlement
/// transfer between its two participants in that asset.
pub proof fn lemma_zero_sum_pair_settles_nothing(
    ts: Seq<ParsedTransfer>,
    out: Seq<NetTransfer>,
    authorities: Map<Seq<u8>, AccountKey>,
    k: NetKey,
)
    requires
        is_settlement(out, net_table(ts), authorities),
        k.0.len() == 32,
        k.1.len() == 32,
        !crate::key::bytes_lt(k.1, k.0),
        key_sum(ts, k) == 0,
    ensures
        forall|i: int| 0 <= i < out.len() ==> !((#[trigger] out[i]).asset@ == k.2
            && ((out[i].from@ == k.0 && out[i].to@ == k.1) || (out[i].from@ == k.1 && out[i].to@ == k.0))),
{
    let tbl = net_table(ts);
    lemma_net_table_sums(ts);
    lemma_nonzero_entries_member(tbl);
    assert forall|i: int| 0 <= i < out.len() implies !((#[trigger] out[i]).asset@ == k.2
        && ((out[i].from@ == k.0 && out[i].to@ == k.1) || (out[i].from@ == k.1 && out[i].to@ == k.0))) by {
        let e = nonzero_entries(tbl)[i];
        assert(settles(out[i], e));
        let j = choose|j: int| 0 <= j < tbl.len() && tbl[j] == e && tbl[j].1 != 0;
        if out[i].asset@ == k.2 && ((out[i].from@ == k.0 && out[i].to@ == k.1) || (out[i].from@ == k.1 && out[i].to@ == k.0)) {
            if e.0 == k {
                assert(tbl[j].1 == key_sum(ts, k));
            } else {
                assert(e.0.0 == k.1 && e.0.1 == k.0);
                if k.0 != k.1 {
                    crate::key::lemma_bytes_lt_total(k.0, k.1);
                }
            }
        }
    }
}

} // verus!

verus! {

/// A token-program transfer with fewer than two accounts or fewer than nine
/// data bytes is not read as a transfer.
pub proof fn lemma_short_token_transfer_skipped(
    ix: CompiledInstruction,
    keys: Seq<AccountKey>,
    mints: Map<Seq<u8>, AccountKey>,
)
    requires
        is_token_program_call(ix, keys),
        ix.accounts@.len() < 2 || ix.data@.len() < 9,
    ensures
        parse_spec(ix, keys, mints) is None,
{
}

} // verus!

verus! {

/// Whether the keys of `tbl` are strictly ascending.
pub open spec fn sorted_keys(tbl: Seq<NetEntry>) -> bool {
    forall|i: int, j: int| 0 <= i < j < tbl.len() ==> net_key_lt(#[trigger] tbl[i].0, #[trigger] tbl[j].0)
}

/// Whether each part of `k` is 32 bytes long.
pub open spec fn key_sized(k: NetKey) -> bool {
    k.0.len() == 32 && k.1.len() == 32 && k.2.len() == 32
}

proof fn lemma_net_key_lt_transitive(a: NetKey, b: NetKey, c: NetKey)
    requires
        net_key_lt(a, b),
        net_key_lt(b, c),
    ensures
        net_key_lt(a, c),
{
    if crate::key::bytes_lt(a.0, b.0) && crate::key::bytes_lt(b.0, c.0) {
        crate::key::lemma_bytes_lt_transitive(a.0, b.0, c.0);
    } else if a.0 == b.0 && b.0 == c.0 {
        if crate::key::bytes_lt(a.1, b.1) && crate::key::bytes_lt(b.1, c.1) {
            crate::key::lemma_bytes_lt_transitive(a.1, b.1, c.1);
        } else if a.1 == b.1 && b.1 == c.1 {
            crate::key::lemma_bytes_lt_transitive(a.2, b.2, c.2);
        }
    }
}

proof fn lemma_net_key_lt_total(a: NetKey, b: NetKey)
    requires
        key_sized(a),
        key_sized(b),
        a != b,
    ensures
        net_key_lt(a, b) || net_key_lt(b, a),
{
    if a.0 != b.0 {
        crate::key::lemma_bytes_lt_total(a.0, b.0);
    } else if a.1 != b.1 {
        crate::key::lemma_bytes_lt_total(a.1, b.1);
    } else {
        assert(a.2 != b.2);
        crate::key::lemma_bytes_lt_total(a.2, b.2);
    }
}

proof fn lemma_net_key_lt_irreflexive(a: NetKey)
    ensures
        !net_key_lt(a, a),
{
    if crate::key::bytes_lt(a.0, a.0) {
        crate::key::lemma_bytes_lt_asymmetric(a.0, a.0);
    }
    if crate::key::bytes_lt(a.1, a.1) {
        crate::key::lemma_bytes_lt_asymmetric(a.1, a.1);
    }
    if crate::key::bytes_lt(a.2, a.2) {
        crate::key::lemma_bytes_lt_asymmetric(a.2, a.2);
    }
}

/// In a sorted table without key `k`, the keys before `insert_pos` sort
/// before `k` and the others after it.
proof fn lemma_insert_pos_splits(tbl: Seq<NetEntry>, k: NetKey)
    requires
        sorted_keys(tbl),
        key_sized(k),
        forall|j: int| 0 <= j < tbl.len() ==> key_sized(#[trigger] tbl[j].0) && tbl[j].0 != k,
    ensures
        forall|j: int| 0 <= j < insert_pos(tbl, k) ==> net_key_lt(#[trigger] tbl[j].0, k),
        forall|j: int| insert_pos(tbl, k) <= j < tbl.len() ==> net_key_lt(k, #[trigger] tbl[j].0),
    decreases tbl.len(),
{
    if tbl.len() > 0 {
        let last = tbl.len() - 1;
        if net_key_lt(tbl[last].0, k) {
            assert forall|j: int| 0 <= j < tbl.len() implies net_key_lt(#[trigger] tbl[j].0, k) by {
                if j < last {
                    lemma_net_key_lt_transitive(tbl[j].0, tbl[last].0, k);
                }
            }
        } else {
            let prefix = tbl.drop_last();
            assert forall|i: int, j: int| 0 <= i < j < prefix.len() implies net_key_lt(#[trigger] prefix[i].0, #[trigger] prefix[j].0) by {
                assert(prefix[i] == tbl[i] && prefix[j] == tbl[j]);
            }
            assert forall|j: int| 0 <= j < prefix.len() implies key_sized(#[trigger] prefix[j].0) && prefix[j].0 != k by {
                assert(prefix[j] == tbl[j]);
            }
            lemma_insert_pos_splits(prefix, k);
            lemma_insert_pos_bounds(prefix, k);
            lemma_net_key_lt_total(tbl[last].0, k);
            assert forall|j: int| 0 <= j < insert_pos(tbl, k) implies net_key_lt(#[trigger] tbl[j].0, k) by {
                assert(prefix[j] == tbl[j]);
            }
            assert forall|j: int| insert_pos(tbl, k) <= j < tbl.len() implies net_key_lt(k, #[trigger] tbl[j].0) by {
                if j < last {
                    assert(prefix[j] == tbl[j]);
                }
            }
        }
    }
}

/// The net table is kept in ascending key order.
pub proof fn lemma_net_table_sorted(ts: Seq<ParsedTransfer>)
    ensures
        sorted_keys(net_table(ts)),
    decreases ts.len(),
{
    if ts.len() > 0 {
        let prefix = ts.drop_last();
        let t = ts.last();
        let prev = net_table(prefix);
        let kt = net_key_of(t);
        lemma_net_table_sorted(prefix);
        lemma_net_table_sums(prefix);
        lemma_add_transfer_shape(prev, t);
        let n = net_table(ts);
        let ei = entry_index(prev, kt);
        let ip = insert_pos(prev, kt);
        if ei >= 0 {
            assert forall|i: int, j: int| 0 <= i < j < n.len() implies net_key_lt(#[trigger] n[i].0, #[trigger] n[j].0) by {
                assert(n[i].0 == prev[i].0 && n[j].0 == prev[j].0);
            }
        } else {
            let p = crate::key::sorted_pair(t.from, t.to);
            assert(p.0.bytes@.len() == 32 && p.1.bytes@.len() == 32 && t.asset.bytes@.len() == 32);
            assert forall|j: int| 0 <= j < prev.len() implies key_sized(#[trigger] prev[j].0) && prev[j].0 != kt by {}
            lemma_insert_pos_splits(prev, kt);
            assert forall|i: int, j: int| 0 <= i < j < n.len() implies net_key_lt(#[trigger] n[i].0, #[trigger] n[j].0) by {
                let oi = if i < ip { i } else { i - 1 };
                let oj = if j < ip { j } else { j - 1 };
                if i == ip {
                    assert(n[j] == prev[oj]);
                } else if j == ip {
                    assert(n[i] == prev[oi]);
                } else {
                    assert(n[i] == prev[oi] && n[j] == prev[oj]);
                }
            }
        }
    }
}

proof fn lemma_nonzero_entries_sorted(tbl: Seq<NetEntry>)
    requires
        sorted_keys(tbl),
    ensures
        sorted_keys(nonzero_entries(tbl)),
    decreases tbl.len(),
{
    if tbl.len() > 0 {
        let prefix = tbl.drop_last();
        assert forall|i: int, j: int| 0 <= i < j < prefix.len() implies net_key_lt(#[trigger] prefix[i].0, #[trigger] prefix[j].0) by {
            assert(prefix[i] == tbl[i] && prefix[j] == tbl[j]);
        }
        lemma_nonzero_entries_sorted(prefix);
        lemma_nonzero_entries_member(prefix);
        let nz = nonzero_entries(tbl);
        let pz = nonzero_entries(prefix);
        if tbl.last().1 != 0 {
            assert forall|i: int, j: int| 0 <= i < j < nz.len() implies net_key_lt(#[trigger] nz[i].0, #[trigger] nz[j].0) by {
                if j == nz.len() - 1 {
                    let m = choose|m: int| 0 <= m < prefix.len() && prefix[m] == #[trigger] pz[i] && prefix[m].1 != 0;
                    assert(prefix[m] == tbl[m]);
                    assert(nz[i] == pz[i]);
                } else {
                    assert(nz[i] == pz[i] && nz[j] == pz[j]);
                }
            }
        }
    }
}

/// The key of a settlement transfer: its two participants in ascending order, then its asset.
pub open spec fn transfer_key(nt: NetTransfer) -> NetKey {
    if crate::key::bytes_lt(nt.to@, nt.from@) {
        (nt.to@, nt.from@, nt.asset@)
    } else {
        (nt.from@, nt.to@, nt.asset@)
    }
}

/// A settlement comes out in strictly ascending order of (sorted pair,
/// asset): its order depends on the net sums alone, not on the order in
/// which the transfers were netted.
pub proof fn lemma_settlement_sorted(ts: Seq<ParsedTransfer>, out: Seq<NetTransfer>, authorities: Map<Seq<u8>, AccountKey>)
    requires
        is_settlement(out, net_table(ts), authorities),
    ensures
        forall|i: int| 0 <= i < out.len() ==> #[trigger] transfer_key(out[i]) == nonzero_entries(net_table(ts))[i].0,
        forall|i: int, j: int| 0 <= i < j < out.len() ==> net_key_lt(#[trigger] transfer_key(out[i]), #[trigger] transfer_key(out[j])),
{
    let tbl = net_table(ts);
    let nz = nonzero_entries(tbl);
    lemma_net_table_sorted(ts);
    lemma_nonzero_entries_sorted(tbl);
    lemma_nonzero_entries_member(tbl);
    lemma_net_table_sums(ts);
    assert forall|i: int| 0 <= i < out.len() implies #[trigger] transfer_key(out[i]) == nz[i].0 by {
        let e = nz[i];
        assert(settles(out[i], e));
        let m = choose|m: int| 0 <= m < tbl.len() && tbl[m] == #[trigger] nz[i] && tbl[m].1 != 0;
        assert(!crate::key::bytes_lt(e.0.1, e.0.0) && key_sized(tbl[m].0));
        if e.1 < 0 && e.0.0 != e.0.1 {
            crate::key::lemma_bytes_lt_total(e.0.0, e.0.1);
        }
    }
    assert forall|i: int, j: int| 0 <= i < j < out.len() implies net_key_lt(#[trigger] transfer_key(out[i]), #[trigger] transfer_key(out[j])) by {
        assert(transfer_key(out[i]) == nz[i].0 && transfer_key(out[j]) == nz[j].0);
    }
}

} // verus!
