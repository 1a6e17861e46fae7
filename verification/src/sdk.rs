//! Trusted declarations of the ledger-native transaction types and thin
//! wrappers over the calls that build, sign and name transactions. The
//! values are opaque: transaction construction and signing are assumed
//! correct and consumed through these wrappers.

use vstd::prelude::*;

use crate::types::Error;
use solana_sdk::instruction::Instruction;
use solana_sdk::message::Message;
use solana_sdk::pubkey::Pubkey;
use solana_sdk::signature::Keypair;
use solana_sdk::signature::Signer;
use solana_sdk::transaction::Transaction;
use std::str::FromStr;

verus! {

#[verifier::external_type_specification]
#[verifier::external_body]
pub struct ExPubkey(Pubkey);

#[verifier::external_type_specification]
#[verifier::external_body]
pub struct ExKeypair(Keypair);

#[verifier::external_type_specification]
#[verifier::external_body]
pub struct ExHash(solana_sdk::hash::Hash);

#[verifier::external_type_specification]
#[verifier::external_body]
pub struct ExInstruction(Instruction);

#[verifier::external_type_specification]
#[verifier::external_body]
pub struct ExMessage(Message);

#[verifier::external_type_specification]
#[verifier::external_body]
pub struct ExTransaction(Transaction);

/// Relies on solana_sdk::signature::Keypair::new: a freshly generated key.
/// The result is random, so nothing is stated of it.
#[verifier::external_body]
pub fn new_keypair() -> (r: Keypair) {
    Keypair::new()
}

/// Relies on solana_sdk::signature::Signer::pubkey.
#[verifier::external_body]
pub fn keypair_pubkey(keypair: &Keypair) -> (r: Pubkey) {
    keypair.pubkey()
}

/// Relies on solana_sdk::pubkey::Pubkey::to_string (base58 of the key).
#[verifier::external_body]
pub fn pubkey_to_string(pubkey: &Pubkey) -> (r: String) {
    pubkey.to_string()
}

/// Relies on solana_sdk::pubkey::Pubkey::from_str: parses a base58 address.
#[verifier::external_body]
pub fn parse_pubkey(address: &String) -> (r: Result<Pubkey, Error>) {
    Pubkey::from_str(address.as_str()).map_err(|_| Error::AddressParseError(address.clone()))
}

/// Relies on solana_sdk::hash::Hash::to_string (base58 of the hash).
#[verifier::external_body]
pub fn hash_to_string(hash: &solana_sdk::hash::Hash) -> (r: String) {
    hash.to_string()
}

/// Relies on solana_sdk::system_instruction::transfer.
#[verifier::external_body]
pub fn transfer_instruction(from: &Pubkey, to: &Pubkey, lamports: u64) -> (r: Instruction) {
    solana_sdk::system_instruction::transfer(from, to, lamports)
}

/// Relies on solana_sdk::stake::instruction::split: the instructions that
/// move `lamports` from the stake account into a new delegation account.
#[verifier::external_body]
pub fn stake_split_instructions(
    stake_account: &Pubkey,
    stake_authority: &Pubkey,
    lamports: u64,
    new_account: &Pubkey,
) -> (r: Vec<Instruction>) {
    solana_sdk::stake::instruction::split(stake_account, stake_authority, lamports, new_account)
}

/// Relies on solana_sdk::stake::instruction::authorize, reassigning the
/// staker authority of the account to `new_authorized`.
#[verifier::external_body]
pub fn stake_authorize_staker_instruction(
    stake_account: &Pubkey,
    authority: &Pubkey,
    new_authorized: &Pubkey,
) -> (r: Instruction) {
    solana_sdk::stake::instruction::authorize(
        stake_account,
        authority,
        new_authorized,
        solana_sdk::stake::state::StakeAuthorize::Staker,
        None,
    )
}

/// Relies on solana_sdk::stake::instruction::authorize, reassigning the
/// withdraw authority of the account to `new_authorized`.
#[verifier::external_body]
pub fn stake_authorize_withdrawer_instruction(
    stake_account: &Pubkey,
    authority: &Pubkey,
    new_authorized: &Pubkey,
) -> (r: Instruction) {
    solana_sdk::stake::instruction::authorize(
        stake_account,
        authority,
        new_authorized,
        solana_sdk::stake::state::StakeAuthorize::Withdrawer,
        None,
    )
}

/// Relies on solana_sdk::message::Message::new with the given fee payer.
#[verifier::external_body]
pub fn message_with_payer(instructions: &Vec<Instruction>, payer: &Pubkey) -> (r: Message) {
    Message::new(instructions.as_slice(), Some(payer))
}

/// Relies on solana_sdk::transaction::Transaction::new_unsigned.
#[verifier::external_body]
pub fn transaction_new_unsigned(message: Message) -> (r: Transaction) {
    Transaction::new_unsigned(message)
}

/// Relies on solana_sdk::transaction::Transaction::try_sign: signs the
/// transaction against the blockhash with the given signers, or reports why
/// it cannot.
#[verifier::external_body]
pub fn transaction_try_sign(
    transaction: &mut Transaction,
    signers: &Vec<&Keypair>,
    recent_blockhash: &solana_sdk::hash::Hash,
) -> (r: Result<(), String>) {
    let refs: Vec<&dyn Signer> = signers.iter().map(|k| *k as &dyn Signer).collect();
    transaction.try_sign(&refs, *recent_blockhash).map_err(|e| e.to_string())
}

/// Relies on solana_sdk::transaction::Transaction::signatures: the first
/// signature of the transaction, which keys its ledger record; nothing when
/// the transaction carries no signature.
#[verifier::external_body]
pub fn transaction_first_signature(transaction: &Transaction) -> (r: Option<String>) {
    transaction.signatures.get(0).map(|s| s.to_string())
}

} // verus!
