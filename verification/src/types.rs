//! Core data model: allocations, ledger records, and the error taxonomy.

use vstd::prelude::*;

verus! {

/// A ledger record as plain values, in field order:
/// (recipient, amount, new stake account address, finalized, blockhash).
pub type RecordView = (Seq<char>, u64, Seq<char>, bool, Seq<char>);

/// Allocations whose remaining amount is at or below this residue (half a
/// token in base units, with one token being 1_000_000_000 base units) are
/// dropped by reconciliation as leftover rounding noise.
pub const RESIDUE_EPSILON_LAMPORTS: u64 = 500_000_000;

/// A requested payout: `amount` base units owed to `recipient`.
#[derive(Debug)]
pub struct Allocation {
    pub recipient: String,
    pub amount: u64,
}

impl View for Allocation {
    type V = (Seq<char>, u64);

    open spec fn view(&self) -> (Seq<char>, u64) {
        (self.recipient@, self.amount)
    }
}

impl Allocation {
    /// An owned copy of the allocation.
    pub fn duplicate_allocation(&self) -> (r: Self)
        ensures
            r == *self,
    {
        Allocation { recipient: self.recipient.clone(), amount: self.amount }
    }
}

/// One record per submitted transaction, keyed in the ledger by the
/// transaction's signature. `new_stake_account_address` is empty unless the
/// submission created a new delegation account. `finalized` is monotonic:
/// once set it is never reset.
#[derive(Debug)]
pub struct TransactionInfo {
    pub recipient: String,
    pub amount: u64,
    pub new_stake_account_address: String,
    pub finalized: bool,
    pub blockhash: String,
}

impl View for TransactionInfo {
    type V = RecordView;

    open spec fn view(&self) -> RecordView {
        (
            self.recipient@,
            self.amount,
            self.new_stake_account_address@,
            self.finalized,
            self.blockhash@,
        )
    }
}

impl TransactionInfo {
    /// An owned copy of the record.
    pub fn duplicate(&self) -> (r: Self)
        ensures
            r == *self,
    {
        TransactionInfo {
            recipient: self.recipient.clone(),
            amount: self.amount,
            new_stake_account_address: self.new_stake_account_address.clone(),
            finalized: self.finalized,
            blockhash: self.blockhash.clone(),
        }
    }
}

impl PartialEq for TransactionInfo {
    fn eq(&self, other: &TransactionInfo) -> (r: bool) {
        self.recipient == other.recipient && self.amount == other.amount
            && self.new_stake_account_address == other.new_stake_account_address
            && self.finalized == other.finalized && self.blockhash == other.blockhash
    }
}

impl vstd::std_specs::cmp::PartialEqSpecImpl for TransactionInfo {
    open spec fn obeys_eq_spec() -> bool {
        true
    }

    open spec fn eq_spec(&self, other: &TransactionInfo) -> bool {
        self@ == other@
    }
}

impl Default for TransactionInfo {
    fn default() -> (r: Self)
        ensures
            r@ == (Seq::<char>::empty(), 0u64, Seq::<char>::empty(), false, Seq::<char>::empty()),
    {
        TransactionInfo {
            recipient: String::new(),
            amount: 0,
            new_stake_account_address: String::new(),
            finalized: false,
            blockhash: String::new(),
        }
    }
}

/// An audit-log row: a ledger record together with its signature key.
#[derive(Debug)]
pub struct SignedTransactionInfo {
    pub recipient: String,
    pub amount: u64,
    pub new_stake_account_address: String,
    pub finalized: bool,
    pub blockhash: String,
    pub signature: String,
}

impl View for SignedTransactionInfo {
    type V = (Seq<char>, u64, Seq<char>, bool, Seq<char>, Seq<char>);

    open spec fn view(&self) -> (Seq<char>, u64, Seq<char>, bool, Seq<char>, Seq<char>) {
        (
            self.recipient@,
            self.amount,
            self.new_stake_account_address@,
            self.finalized,
            self.blockhash@,
            self.signature@,
        )
    }
}

impl PartialEq for SignedTransactionInfo {
    fn eq(&self, other: &SignedTransactionInfo) -> (r: bool) {
        self.recipient == other.recipient && self.amount == other.amount
            && self.new_stake_account_address == other.new_stake_account_address
            && self.finalized == other.finalized && self.blockhash == other.blockhash
            && self.signature == other.signature
    }
}

impl vstd::std_specs::cmp::PartialEqSpecImpl for SignedTransactionInfo {
    open spec fn obeys_eq_spec() -> bool {
        true
    }

    open spec fn eq_spec(&self, other: &SignedTransactionInfo) -> bool {
        self@ == other@
    }
}

/// A transport-layer failure reported by a ledger client.
#[derive(Debug)]
pub enum ClientError {
    Custom(String),
}

/// The error taxonomy of the library. Input errors and the pre-flight guard
/// are fatal to a run; ledger errors are propagated; per-transaction send
/// failures are tolerated by the submitter and never surface here.
#[derive(Debug)]
pub enum Error {
    PickleDbError(String),
    TransportError(ClientError),
    AddressParseError(String),
    CorruptRecordError,
    NonZeroRecipientBalance(String, u64),
    AllocationBelowFeeReserve(String),
    SigningError(String),
    StatusCountMismatch,
}

/// String equality by contents.
pub fn string_eq(a: &String, b: &String) -> (r: bool)
    ensures
        r == (a@ == b@),
{
    <String as PartialEq>::eq(a, b)
}

} // verus!
