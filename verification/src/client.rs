//! The abstract ledger client: the engine consumes the network through this
//! trait and never waits on it. Implementations adapt a concrete RPC or
//! in-process client; the engine is verified for every behaviour of them.

use vstd::prelude::*;

use crate::sdk::{
    keypair_pubkey, message_with_payer, transaction_new_unsigned, transaction_try_sign,
    transfer_instruction,
};
use crate::types::ClientError;
use solana_sdk::instruction::Instruction;
use solana_sdk::message::Message;
use solana_sdk::pubkey::Pubkey;
use solana_sdk::signature::Keypair;
use solana_sdk::transaction::Transaction;

verus! {

/// The status a client reports for a submitted transaction: how many
/// confirmations it has (none once it is rooted), and whether its execution
/// succeeded.
pub struct TransactionStatus {
    pub confirmations: Option<usize>,
    pub status: Result<(), String>,
}

impl TransactionStatus {
    /// An owned copy of the status.
    pub fn duplicate(&self) -> (r: Self)
        ensures
            r.confirmations == self.confirmations,
            r.status is Ok <==> self.status is Ok,
    {
        let status: Result<(), String> = match &self.status {
            Ok(()) => Ok(()),
            Err(m) => Err(m.clone()),
        };
        TransactionStatus { confirmations: self.confirmations, status }
    }
}

/// What the engine needs from a ledger client. Every call can fail at the
/// transport layer, and nothing is promised of what a call returns: the
/// engine states what holds of every outcome.
pub trait Client {
    /// Fire-and-forget send; returns the transaction's signature and does
    /// not wait for confirmation.
    fn async_send_transaction1(&self, transaction: Transaction) -> Result<String, ClientError>;

    /// Send and wait until the transaction is confirmed.
    fn send_and_confirm_transaction1(&self, transaction: Transaction) -> Result<
        String,
        ClientError,
    >;

    /// One status per signature, in the order given; none for a signature
    /// the ledger has no knowledge of.
    fn get_signature_statuses1(&self, signatures: &Vec<String>) -> Result<
        Vec<Option<TransactionStatus>>,
        ClientError,
    >;

    /// Block until the transaction with this signature is confirmed.
    fn poll_for_signature1(&self, signature: &String) -> Result<(), ClientError>;

    /// The balance of the account, in base units.
    fn get_balance1(&self, pubkey: &Pubkey) -> Result<u64, ClientError>;

    /// A reference block hash to build the next transaction against.
    fn get_recent_blockhash1(&self) -> Result<solana_sdk::hash::Hash, ClientError>;

    /// The currently valid recent block hashes, as strings: a transaction
    /// whose stored blockhash is no longer listed can never land.
    fn get_recent_blockhashes1(&self) -> Result<Vec<String>, ClientError>;
}

/// A thin convenience layer over a [`Client`].
pub struct ThinClient<C: Client>(pub C);

impl<C: Client> ThinClient<C> {
    pub fn async_send_transaction(&self, transaction: Transaction) -> (r: Result<
        String,
        ClientError,
    >) {
        self.0.async_send_transaction1(transaction)
    }

    pub fn get_signature_statuses(&self, signatures: &Vec<String>) -> (r: Result<
        Vec<Option<TransactionStatus>>,
        ClientError,
    >) {
        self.0.get_signature_statuses1(signatures)
    }

    pub fn send_transaction(&self, transaction: Transaction) -> (r: Result<String, ClientError>) {
        self.0.send_and_confirm_transaction1(transaction)
    }

    /// Signs a transaction for the message against a fresh reference
    /// blockhash and sends it, waiting for confirmation.
    pub fn send_message(&self, message: Message, signers: &Vec<&Keypair>) -> (r: Result<
        String,
        ClientError,
    >) {
        let blockhash = match self.get_recent_blockhash() {
            Ok(b) => b,
            Err(e) => {
                return Err(e);
            },
        };
        let mut transaction = transaction_new_unsigned(message);
        match transaction_try_sign(&mut transaction, signers, &blockhash) {
            Ok(()) => {},
            Err(m) => {
                return Err(ClientError::Custom(m));
            },
        }
        self.send_transaction(transaction)
    }

    /// Transfers `lamports` from the sender to `to_pubkey`, waiting for
    /// confirmation.
    pub fn transfer(&self, lamports: u64, sender_keypair: &Keypair, to_pubkey: &Pubkey) -> (r:
        Result<String, ClientError>) {
        let from = keypair_pubkey(sender_keypair);
        let instruction = transfer_instruction(&from, to_pubkey, lamports);
        let instructions: Vec<Instruction> = vec![instruction];
        let message = message_with_payer(&instructions, &from);
        let signers: Vec<&Keypair> = vec![sender_keypair];
        self.send_message(message, &signers)
    }

    pub fn poll_for_signature(&self, signature: &String) -> (r: Result<(), ClientError>) {
        self.0.poll_for_signature1(signature)
    }

    pub fn get_recent_blockhash(&self) -> (r: Result<solana_sdk::hash::Hash, ClientError>) {
        self.0.get_recent_blockhash1()
    }

    pub fn get_recent_blockhashes(&self) -> (r: Result<Vec<String>, ClientError>) {
        self.0.get_recent_blockhashes1()
    }

    pub fn get_balance(&self, pubkey: &Pubkey) -> (r: Result<u64, ClientError>) {
        self.0.get_balance1(pubkey)
    }
}

} // verus!
