use solana_sdk::native_token::sol_to_lamports;
use solana_sdk::signature::Signature;

use solana_tokens::client::TransactionStatus;
use solana_tokens::engine::{
    apply_status_updates, process_transaction_log, stake_payment_amounts,
    update_finalized_transaction, TransactionLogArgs,
};
use solana_tokens::ledger::{get_transaction_info, open_db, set_transaction_info};
use solana_tokens::merge::merge_allocations;
use solana_tokens::reconcile::apply_previous_transactions;
use solana_tokens::types::{Allocation, TransactionInfo, RESIDUE_EPSILON_LAMPORTS};

fn temp_db(dir: &tempfile::TempDir, name: &str) -> String {
    dir.path().join(name).to_str().unwrap().to_string()
}

fn default_record_db(dir: &tempfile::TempDir) -> (pickledb::PickleDb, String) {
    let mut db = open_db(&temp_db(dir, "transactions.db"), true).unwrap();
    let signature = Signature::default().to_string();
    let allocation = Allocation { recipient: "".to_string(), amount: 0 };
    set_transaction_info(&mut db, &allocation, &signature, &"".to_string(), None, false).unwrap();
    (db, signature)
}

#[test]
fn test_apply_previous_transactions() {
    let mut allocations = vec![
        Allocation { recipient: "a".to_string(), amount: sol_to_lamports(1.0) },
        Allocation { recipient: "b".to_string(), amount: sol_to_lamports(1.0) },
    ];
    let transaction_infos = vec![TransactionInfo {
        recipient: "b".to_string(),
        amount: sol_to_lamports(1.0),
        new_stake_account_address: "".to_string(),
        finalized: true,
        blockhash: solana_sdk::hash::Hash::default().to_string(),
    }];
    apply_previous_transactions(&mut allocations, &transaction_infos);
    assert_eq!(allocations.len(), 1);

    // Ensure that we applied the transaction to the allocation with
    // a matching recipient address (to "b", not "a").
    assert_eq!(allocations[0].recipient, "a");
}

#[test]
fn test_update_finalized_transaction_not_landed() {
    // Keep waiting for a transaction that hasn't landed yet.
    let dir = tempfile::tempdir().unwrap();
    let (mut db, signature) = default_record_db(&dir);
    let blockhash = solana_sdk::hash::Hash::default().to_string();
    assert_eq!(
        update_finalized_transaction(&mut db, &signature, &None, &blockhash, &vec![
            blockhash.clone()
        ])
        .unwrap(),
        Some(0)
    );

    // Unchanged
    assert_eq!(get_transaction_info(&db, &signature).unwrap(), TransactionInfo::default());

    // Same as before, but now with an expired blockhash
    assert_eq!(
        update_finalized_transaction(&mut db, &signature, &None, &blockhash, &vec![]).unwrap(),
        None
    );

    // Ensure the record has been purged.
    assert_eq!(get_transaction_info(&db, &signature), None);
}

#[test]
fn test_update_finalized_transaction_confirming() {
    // Keep waiting for a transaction that is still being confirmed.
    let dir = tempfile::tempdir().unwrap();
    let (mut db, signature) = default_record_db(&dir);
    let blockhash = solana_sdk::hash::Hash::default().to_string();
    let transaction_status =
        Some(TransactionStatus { confirmations: Some(1), status: Ok(()) });
    assert_eq!(
        update_finalized_transaction(&mut db, &signature, &transaction_status, &blockhash, &vec![
            blockhash.clone()
        ])
        .unwrap(),
        Some(1)
    );

    // Unchanged
    assert_eq!(get_transaction_info(&db, &signature).unwrap(), TransactionInfo::default());
}

#[test]
fn test_update_finalized_transaction_failed() {
    // Don't wait if the transaction failed to execute.
    let dir = tempfile::tempdir().unwrap();
    let (mut db, signature) = default_record_db(&dir);
    let blockhash = solana_sdk::hash::Hash::default().to_string();
    let transaction_status = Some(TransactionStatus {
        confirmations: None,
        status: Err("AccountNotFound".to_string()),
    });
    assert_eq!(
        update_finalized_transaction(&mut db, &signature, &transaction_status, &blockhash, &vec![
            blockhash.clone()
        ])
        .unwrap(),
        None
    );

    // Ensure the record has been purged.
    assert_eq!(get_transaction_info(&db, &signature), None);
}

#[test]
fn test_update_finalized_transaction_finalized() {
    // Don't wait once the transaction has been finalized.
    let dir = tempfile::tempdir().unwrap();
    let (mut db, signature) = default_record_db(&dir);
    let blockhash = solana_sdk::hash::Hash::default().to_string();
    let transaction_status = Some(TransactionStatus { confirmations: None, status: Ok(()) });
    assert_eq!(
        update_finalized_transaction(&mut db, &signature, &transaction_status, &blockhash, &vec![
            blockhash.clone()
        ])
        .unwrap(),
        None
    );

    let mut expected = TransactionInfo::default();
    expected.finalized = true;
    assert_eq!(get_transaction_info(&db, &signature).unwrap(), expected);
}

#[test]
fn test_merge_allocations_sums_and_keeps_first_order() {
    let allocations = vec![
        Allocation { recipient: "b".to_string(), amount: 100 },
        Allocation { recipient: "a".to_string(), amount: 1 },
        Allocation { recipient: "b".to_string(), amount: 10 },
    ];
    let merged = merge_allocations(&allocations);
    assert_eq!(merged.len(), 2);
    assert_eq!(merged[0].recipient, "b");
    assert_eq!(merged[0].amount, 110);
    assert_eq!(merged[1].recipient, "a");
    assert_eq!(merged[1].amount, 1);
}

#[test]
fn test_reconcile_partial_coverage_across_rows() {
    let one = sol_to_lamports(1.0);
    let mut allocations = vec![
        Allocation { recipient: "r".to_string(), amount: one },
        Allocation { recipient: "r".to_string(), amount: 2 * one },
    ];
    let transaction_infos = vec![TransactionInfo {
        recipient: "r".to_string(),
        amount: one + one / 2,
        new_stake_account_address: "".to_string(),
        finalized: true,
        blockhash: solana_sdk::hash::Hash::default().to_string(),
    }];
    // the first row is exhausted, the remainder comes off the second
    apply_previous_transactions(&mut allocations, &transaction_infos);
    assert_eq!(allocations.len(), 1);
    assert_eq!(allocations[0].amount, 2 * one - one / 2);
}

#[test]
fn test_reconcile_drops_residue_at_threshold() {
    let mut allocations = vec![
        Allocation { recipient: "a".to_string(), amount: RESIDUE_EPSILON_LAMPORTS },
        Allocation { recipient: "b".to_string(), amount: RESIDUE_EPSILON_LAMPORTS + 1 },
    ];
    let transaction_infos: Vec<TransactionInfo> = vec![];
    apply_previous_transactions(&mut allocations, &transaction_infos);
    // exactly half a token is dropped; one base unit above it survives
    assert_eq!(allocations.len(), 1);
    assert_eq!(allocations[0].recipient, "b");
}

#[test]
fn test_poll_cycle_reports_minimum_confirmations() {
    let dir = tempfile::tempdir().unwrap();
    let mut db = open_db(&temp_db(&dir, "transactions.db"), true).unwrap();
    let blockhash = solana_sdk::hash::Hash::default().to_string();
    for signature in ["sig1", "sig2"] {
        let allocation = Allocation { recipient: "r".to_string(), amount: 5 };
        set_transaction_info(
            &mut db,
            &allocation,
            &signature.to_string(),
            &blockhash,
            None,
            false,
        )
        .unwrap();
    }
    let pending = vec![
        ("sig1".to_string(), blockhash.clone()),
        ("sig2".to_string(), blockhash.clone()),
    ];
    let statuses = vec![
        Some(TransactionStatus { confirmations: Some(3), status: Ok(()) }),
        Some(TransactionStatus { confirmations: Some(1), status: Ok(()) }),
    ];
    let recent = vec![blockhash.clone()];
    let confirmations = apply_status_updates(&mut db, &pending, &statuses, &recent).unwrap();
    assert_eq!(confirmations, Some(1));

    // a discarded record is excluded from the aggregate: the expired one is
    // removed and the confirming one still counts
    let statuses = vec![
        None,
        Some(TransactionStatus { confirmations: Some(2), status: Ok(()) }),
    ];
    let recent: Vec<String> = vec![];
    let confirmations = apply_status_updates(&mut db, &pending, &statuses, &recent).unwrap();
    assert_eq!(confirmations, Some(2));
    assert_eq!(get_transaction_info(&db, &"sig1".to_string()), None);
}

#[test]
fn test_process_transaction_log_rows() {
    let dir = tempfile::tempdir().unwrap();
    let path = temp_db(&dir, "transactions.db");
    {
        let mut db = open_db(&path, false).unwrap();
        let allocation = Allocation { recipient: "alice".to_string(), amount: 42 };
        set_transaction_info(
            &mut db,
            &allocation,
            &"sig".to_string(),
            &"hash".to_string(),
            Some(&"stake".to_string()),
            true,
        )
        .unwrap();
    }
    let args = TransactionLogArgs { transactions_db: path, output_path: "out.csv".to_string() };
    let rows = process_transaction_log(&args).unwrap();
    assert_eq!(rows.len(), 1);
    assert_eq!(rows[0].recipient, "alice");
    assert_eq!(rows[0].amount, 42);
    assert_eq!(rows[0].new_stake_account_address, "stake");
    assert!(rows[0].finalized);
    assert_eq!(rows[0].blockhash, "hash");
    assert_eq!(rows[0].signature, "sig");
}

#[test]
fn test_stake_payment_amounts_split() {
    let amount = sol_to_lamports(1000.0);
    let fee = sol_to_lamports(1.0);
    let (split, fee_part) = stake_payment_amounts(amount, fee).unwrap();
    assert_eq!(split, amount - fee);
    assert_eq!(fee_part, fee);
    assert_eq!(split + fee_part, amount);
    // an allocation below the fee reserve cannot be planned
    assert_eq!(stake_payment_amounts(fee - 1, fee), None);
}
