use std::cell::RefCell;
use std::collections::HashMap;
use std::collections::HashSet;
use std::str::FromStr;

use solana_sdk::native_token::sol_to_lamports;
use solana_sdk::pubkey::Pubkey;
use solana_sdk::signature::{Keypair, Signer};
use solana_sdk::stake::instruction::StakeInstruction;
use solana_sdk::stake::state::{Authorized, Lockup};
use solana_sdk::system_instruction::SystemInstruction;
use solana_sdk::transaction::Transaction;

use solana_tokens::client::{Client, ThinClient, TransactionStatus};
use solana_tokens::engine::{
    process_distribute_tokens, update_finalized_transactions, DistributeTokensArgs, StakeArgs,
};
use solana_tokens::ledger::{open_db, read_transaction_infos};
use solana_tokens::types::{Allocation, ClientError, Error};

/// An in-process bank: tracks balances, applies transfer and stake-split
/// instructions on send, and reports every sent transaction as rooted.
struct BankSim {
    balances: RefCell<HashMap<Pubkey, u64>>,
    landed: RefCell<HashSet<String>>,
}

impl BankSim {
    fn new(genesis: &Keypair, lamports: u64) -> Self {
        let mut balances = HashMap::new();
        balances.insert(genesis.pubkey(), lamports);
        BankSim { balances: RefCell::new(balances), landed: RefCell::new(HashSet::new()) }
    }

    fn credit(&self, key: Pubkey, amount: u64) {
        let mut balances = self.balances.borrow_mut();
        let entry = balances.entry(key).or_insert(0);
        *entry += amount;
    }

    fn debit(&self, key: Pubkey, amount: u64) {
        let mut balances = self.balances.borrow_mut();
        let entry = balances.entry(key).or_insert(0);
        assert!(*entry >= amount, "overdraft in test bank");
        *entry -= amount;
    }

    fn apply(&self, transaction: &Transaction) {
        let message = &transaction.message;
        for instruction in &message.instructions {
            let program = message.account_keys[instruction.program_id_index as usize];
            let account = |i: usize| message.account_keys[instruction.accounts[i] as usize];
            if program == solana_sdk::system_program::id() {
                match bincode::deserialize::<SystemInstruction>(&instruction.data).unwrap() {
                    SystemInstruction::Transfer { lamports } => {
                        self.debit(account(0), lamports);
                        self.credit(account(1), lamports);
                    }
                    SystemInstruction::CreateAccount { lamports, .. } => {
                        self.debit(account(0), lamports);
                        self.credit(account(1), lamports);
                    }
                    _ => {}
                }
            } else if program == solana_sdk::stake::program::id() {
                match bincode::deserialize::<StakeInstruction>(&instruction.data).unwrap() {
                    StakeInstruction::Split(lamports) => {
                        self.debit(account(0), lamports);
                        self.credit(account(1), lamports);
                    }
                    _ => {}
                }
            }
        }
        self.landed.borrow_mut().insert(transaction.signatures[0].to_string());
    }
}

impl Client for BankSim {
    fn async_send_transaction1(&self, transaction: Transaction) -> Result<String, ClientError> {
        let signature = transaction.signatures[0].to_string();
        self.apply(&transaction);
        Ok(signature)
    }

    fn send_and_confirm_transaction1(
        &self,
        transaction: Transaction,
    ) -> Result<String, ClientError> {
        self.async_send_transaction1(transaction)
    }

    fn get_signature_statuses1(
        &self,
        signatures: &Vec<String>,
    ) -> Result<Vec<Option<TransactionStatus>>, ClientError> {
        Ok(signatures
            .iter()
            .map(|s| {
                if self.landed.borrow().contains(s) {
                    Some(TransactionStatus { confirmations: None, status: Ok(()) })
                } else {
                    None
                }
            })
            .collect())
    }

    fn poll_for_signature1(&self, _signature: &String) -> Result<(), ClientError> {
        Ok(())
    }

    fn get_balance1(&self, pubkey: &Pubkey) -> Result<u64, ClientError> {
        Ok(*self.balances.borrow().get(pubkey).unwrap_or(&0))
    }

    fn get_recent_blockhash1(&self) -> Result<solana_sdk::hash::Hash, ClientError> {
        Ok(solana_sdk::hash::Hash::default())
    }

    fn get_recent_blockhashes1(&self) -> Result<Vec<String>, ClientError> {
        Ok(vec![solana_sdk::hash::Hash::default().to_string()])
    }
}

fn temp_db_path(dir: &tempfile::TempDir) -> String {
    dir.path().join("transactions.db").to_str().unwrap().to_string()
}

fn plain_args(transactions_db: String, sender: Keypair, fee_payer: Keypair) -> DistributeTokensArgs {
    DistributeTokensArgs {
        sender_keypair: Some(sender),
        fee_payer: Some(fee_payer),
        dry_run: false,
        no_wait: false,
        transactions_db,
        force: false,
        stake_args: None,
    }
}

fn test_process_distribute_tokens_with_client<C: Client>(client: C, sender_keypair: Keypair) {
    let thin_client = ThinClient(client);
    let fee_payer = Keypair::new();
    thin_client
        .transfer(sol_to_lamports(1.0), &sender_keypair, &fee_payer.pubkey())
        .unwrap();

    let alice_pubkey = Pubkey::new_unique();
    let allocation =
        Allocation { recipient: alice_pubkey.to_string(), amount: sol_to_lamports(1000.0) };
    let expected_amount = allocation.amount;

    let dir = tempfile::tempdir().unwrap();
    let transactions_db = temp_db_path(&dir);
    let args = plain_args(transactions_db.clone(), sender_keypair, fee_payer);

    let allocations = vec![Allocation {
        recipient: allocation.recipient.clone(),
        amount: allocation.amount,
    }];
    let (mut db, mut confirmations) =
        process_distribute_tokens(&thin_client, allocations, &args).unwrap();
    while confirmations.is_some() {
        confirmations = update_finalized_transactions(&thin_client, &mut db).unwrap();
    }
    assert_eq!(confirmations, None);
    drop(db);

    let transaction_infos =
        read_transaction_infos(&open_db(&transactions_db, true).unwrap()).unwrap();
    assert_eq!(transaction_infos.len(), 1);
    assert_eq!(transaction_infos[0].recipient, alice_pubkey.to_string());
    assert_eq!(transaction_infos[0].amount, expected_amount);
    assert!(transaction_infos[0].finalized);
    // a plain transfer created no delegation account
    assert_eq!(transaction_infos[0].new_stake_account_address, "");
    assert_eq!(thin_client.get_balance(&alice_pubkey).unwrap(), expected_amount);

    // Now, run it again, and check there's no double-spend.
    let allocations = vec![Allocation {
        recipient: allocation.recipient.clone(),
        amount: allocation.amount,
    }];
    process_distribute_tokens(&thin_client, allocations, &args).unwrap();
    let transaction_infos =
        read_transaction_infos(&open_db(&transactions_db, true).unwrap()).unwrap();
    assert_eq!(transaction_infos.len(), 1);
    assert_eq!(transaction_infos[0].recipient, alice_pubkey.to_string());
    assert_eq!(transaction_infos[0].amount, expected_amount);
    assert_eq!(thin_client.get_balance(&alice_pubkey).unwrap(), expected_amount);
}

fn test_process_distribute_stake_with_client<C: Client>(client: C, sender_keypair: Keypair) {
    let thin_client = ThinClient(client);
    let fee_payer = Keypair::new();
    thin_client
        .transfer(sol_to_lamports(1.0), &sender_keypair, &fee_payer.pubkey())
        .unwrap();

    let stake_account_keypair = Keypair::new();
    let stake_account_address = stake_account_keypair.pubkey();
    let stake_authority = Keypair::new();
    let withdraw_authority = Keypair::new();

    let authorized = Authorized {
        staker: stake_authority.pubkey(),
        withdrawer: withdraw_authority.pubkey(),
    };
    let lockup = Lockup::default();
    let instructions = solana_sdk::stake::instruction::create_account(
        &sender_keypair.pubkey(),
        &stake_account_address,
        &authorized,
        &lockup,
        sol_to_lamports(3000.0),
    );
    let message = solana_sdk::message::Message::new(&instructions, Some(&sender_keypair.pubkey()));
    let signers = vec![&sender_keypair, &stake_account_keypair];
    thin_client.send_message(message, &signers).unwrap();

    let alice_pubkey = Pubkey::new_unique();
    let expected_amount = sol_to_lamports(1000.0);
    let allocations =
        vec![Allocation { recipient: alice_pubkey.to_string(), amount: expected_amount }];

    let dir = tempfile::tempdir().unwrap();
    let transactions_db = temp_db_path(&dir);

    let stake_args = StakeArgs {
        stake_account_address,
        stake_authority: Some(stake_authority),
        withdraw_authority: Some(withdraw_authority),
        fee_reserve_lamports: sol_to_lamports(1.0),
    };
    let args = DistributeTokensArgs {
        fee_payer: Some(fee_payer),
        dry_run: false,
        no_wait: false,
        transactions_db: transactions_db.clone(),
        stake_args: Some(stake_args),
        force: false,
        sender_keypair: Some(sender_keypair),
    };
    let (mut db, mut confirmations) =
        process_distribute_tokens(&thin_client, allocations, &args).unwrap();
    while confirmations.is_some() {
        confirmations = update_finalized_transactions(&thin_client, &mut db).unwrap();
    }
    assert_eq!(confirmations, None);
    drop(db);

    let transaction_infos =
        read_transaction_infos(&open_db(&transactions_db, true).unwrap()).unwrap();
    assert_eq!(transaction_infos.len(), 1);
    assert_eq!(transaction_infos[0].recipient, alice_pubkey.to_string());
    assert_eq!(transaction_infos[0].amount, expected_amount);

    assert_eq!(thin_client.get_balance(&alice_pubkey).unwrap(), sol_to_lamports(1.0));
    let new_stake_account_address =
        Pubkey::from_str(&transaction_infos[0].new_stake_account_address).unwrap();
    assert_eq!(
        thin_client.get_balance(&new_stake_account_address).unwrap(),
        expected_amount - sol_to_lamports(1.0),
    );

    // Now, run it again, and check there's no double-spend.
    let allocations =
        vec![Allocation { recipient: alice_pubkey.to_string(), amount: expected_amount }];
    process_distribute_tokens(&thin_client, allocations, &args).unwrap();
    let transaction_infos =
        read_transaction_infos(&open_db(&transactions_db, true).unwrap()).unwrap();
    assert_eq!(transaction_infos.len(), 1);
    assert_eq!(transaction_infos[0].recipient, alice_pubkey.to_string());
    assert_eq!(transaction_infos[0].amount, expected_amount);

    assert_eq!(thin_client.get_balance(&alice_pubkey).unwrap(), sol_to_lamports(1.0));
    assert_eq!(
        thin_client.get_balance(&new_stake_account_address).unwrap(),
        expected_amount - sol_to_lamports(1.0),
    );
}

#[test]
fn test_process_distribute_tokens() {
    let sender_keypair = Keypair::new();
    let bank_sim = BankSim::new(&sender_keypair, sol_to_lamports(9_000_000.0));
    test_process_distribute_tokens_with_client(bank_sim, sender_keypair);
}

#[test]
fn test_process_distribute_stake() {
    let sender_keypair = Keypair::new();
    let bank_sim = BankSim::new(&sender_keypair, sol_to_lamports(9_000_000.0));
    test_process_distribute_stake_with_client(bank_sim, sender_keypair);
}

#[test]
fn test_preflight_guard_rejects_funded_recipient() {
    let sender_keypair = Keypair::new();
    let bank_sim = BankSim::new(&sender_keypair, sol_to_lamports(100.0));
    let alice_pubkey = Pubkey::new_unique();
    bank_sim.credit(alice_pubkey, 7);
    let thin_client = ThinClient(bank_sim);
    let fee_payer = Keypair::new();

    let dir = tempfile::tempdir().unwrap();
    let args = plain_args(temp_db_path(&dir), sender_keypair, fee_payer);
    let allocations =
        vec![Allocation { recipient: alice_pubkey.to_string(), amount: sol_to_lamports(10.0) }];
    let result = process_distribute_tokens(&thin_client, allocations, &args);
    assert!(matches!(result, Err(Error::NonZeroRecipientBalance(_, 7))));
    // nothing was sent
    assert_eq!(thin_client.get_balance(&alice_pubkey).unwrap(), 7);
}

#[test]
fn test_preflight_guard_force_overrides() {
    let sender_keypair = Keypair::new();
    let bank_sim = BankSim::new(&sender_keypair, sol_to_lamports(100.0));
    let alice_pubkey = Pubkey::new_unique();
    bank_sim.credit(alice_pubkey, 7);
    let thin_client = ThinClient(bank_sim);
    let fee_payer = Keypair::new();

    let dir = tempfile::tempdir().unwrap();
    let mut args = plain_args(temp_db_path(&dir), sender_keypair, fee_payer);
    args.force = true;
    let amount = sol_to_lamports(10.0);
    let allocations = vec![Allocation { recipient: alice_pubkey.to_string(), amount }];
    process_distribute_tokens(&thin_client, allocations, &args).unwrap();
    assert_eq!(thin_client.get_balance(&alice_pubkey).unwrap(), amount + 7);
}

#[test]
fn test_bad_recipient_address_is_fatal() {
    let sender_keypair = Keypair::new();
    let bank_sim = BankSim::new(&sender_keypair, sol_to_lamports(100.0));
    let thin_client = ThinClient(bank_sim);
    let fee_payer = Keypair::new();

    let dir = tempfile::tempdir().unwrap();
    let args = plain_args(temp_db_path(&dir), sender_keypair, fee_payer);
    let allocations =
        vec![Allocation { recipient: "not-an-address".to_string(), amount: sol_to_lamports(1.0) }];
    let result = process_distribute_tokens(&thin_client, allocations, &args);
    assert!(matches!(result, Err(Error::AddressParseError(_))));
}

#[test]
fn test_dry_run_writes_and_sends_nothing() {
    let sender_keypair = Keypair::new();
    let sender_pubkey = sender_keypair.pubkey();
    let starting = sol_to_lamports(100.0);
    let bank_sim = BankSim::new(&sender_keypair, starting);
    let alice_pubkey = Pubkey::new_unique();
    let thin_client = ThinClient(bank_sim);

    let dir = tempfile::tempdir().unwrap();
    let transactions_db = temp_db_path(&dir);
    let args = DistributeTokensArgs {
        sender_keypair: Some(sender_keypair),
        fee_payer: None,
        dry_run: true,
        no_wait: false,
        transactions_db: transactions_db.clone(),
        force: false,
        stake_args: None,
    };
    let allocations =
        vec![Allocation { recipient: alice_pubkey.to_string(), amount: sol_to_lamports(10.0) }];
    let (db, confirmations) =
        process_distribute_tokens(&thin_client, allocations, &args).unwrap();
    assert_eq!(confirmations, None);
    assert_eq!(read_transaction_infos(&db).unwrap().len(), 0);
    assert_eq!(thin_client.get_balance(&alice_pubkey).unwrap(), 0);
    assert_eq!(thin_client.get_balance(&sender_pubkey).unwrap(), starting);
}

#[test]
fn test_stake_allocation_below_fee_reserve_is_fatal() {
    let sender_keypair = Keypair::new();
    let bank_sim = BankSim::new(&sender_keypair, sol_to_lamports(100.0));
    let thin_client = ThinClient(bank_sim);
    let fee_payer = Keypair::new();
    let alice_pubkey = Pubkey::new_unique();

    let dir = tempfile::tempdir().unwrap();
    let stake_args = StakeArgs {
        stake_account_address: Pubkey::new_unique(),
        stake_authority: Some(Keypair::new()),
        withdraw_authority: Some(Keypair::new()),
        fee_reserve_lamports: sol_to_lamports(2.0),
    };
    let args = DistributeTokensArgs {
        sender_keypair: Some(sender_keypair),
        fee_payer: Some(fee_payer),
        dry_run: false,
        no_wait: false,
        transactions_db: temp_db_path(&dir),
        force: false,
        stake_args: Some(stake_args),
    };
    let allocations =
        vec![Allocation { recipient: alice_pubkey.to_string(), amount: sol_to_lamports(1.0) }];
    let result = process_distribute_tokens(&thin_client, allocations, &args);
    assert!(matches!(result, Err(Error::AllocationBelowFeeReserve(_))));
    assert_eq!(thin_client.get_balance(&alice_pubkey).unwrap(), 0);
}
