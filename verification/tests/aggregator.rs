use stateless_bitcoin_l2::aggregator::{Aggregator, AggregatorState};
use stateless_bitcoin_l2::errors::StatelessBitcoinError;
use stateless_bitcoin_l2::rollup::mock_rollup_memory::MockRollupMemory;
use stateless_bitcoin_l2::types::transaction::TransactionBatch;
use stateless_bitcoin_l2::wallet::wallet::Wallet;

fn setup_with_unique_accounts_and_transactions(
    num_accounts: usize,
) -> (Aggregator, Vec<Wallet>, Vec<TransactionBatch>) {
    let mut rollup_state = MockRollupMemory::new();
    let mut aggregator = Aggregator::new();
    let mut accounts: Vec<Wallet> = (0..num_accounts).map(|_| Wallet::new()).collect();
    let receiver = Wallet::new();

    let batches: Vec<TransactionBatch> = accounts
        .iter_mut()
        .map(|account| {
            rollup_state
                .add_deposit(&account.public_key, 100)
                .unwrap();
            account.sync_rollup_state(&rollup_state).unwrap();

            account
                .append_transaction_to_batch(receiver.public_key.clone(), 100)
                .unwrap();

            let batch = account.produce_batch().unwrap();

            aggregator.add_batch(&batch).unwrap();

            batch
        })
        .collect();

    (aggregator, accounts, batches)
}

#[test]
fn test_can_setup_accounts_and_verify() {
    let (mut aggregator, _, batches) = setup_with_unique_accounts_and_transactions(10);

    aggregator.start_collecting_signatures().unwrap();

    for transaction in batches.iter() {
        let merkle_tree_proof = aggregator
            .generate_proof_for_pubkey(&transaction.from)
            .unwrap();

        let verify_result = merkle_tree_proof.verify();

        assert_eq!(verify_result, true);
    }
}

#[test]
fn aggregator_test_finalise() {
    let (mut aggregator, mut accounts, batches) = setup_with_unique_accounts_and_transactions(2);

    aggregator.start_collecting_signatures().unwrap();

    for (transaction, account) in batches.iter().zip(accounts.iter_mut()) {
        let merkle_tree_proof = aggregator
            .generate_proof_for_pubkey(&transaction.from)
            .unwrap();

        let signature = account.validate_and_sign_proof(&merkle_tree_proof).unwrap();

        aggregator.add_signature(&account.public_key, &signature).unwrap();
    }

    let finalised_block = aggregator.finalise().unwrap();

    assert_eq!(finalised_block.merkle_root, aggregator.root().unwrap());
    assert_eq!(
        aggregator.state,
        AggregatorState::Finalised(finalised_block.clone())
    );

    let verified = finalised_block.verify();

    match verified {
        Ok(_) => (),
        Err(e) => {
            assert!(
                false,
                "{}",
                format!("Aggregated signature verification failed: {:?}", e)
            );
        }
    }
}

#[test]
fn test_add_batch_rejects_duplicate_sender() {
    let (mut aggregator, _, batches) = setup_with_unique_accounts_and_transactions(1);

    let second = aggregator.add_batch(&batches[0]);

    assert_eq!(second, Err(StatelessBitcoinError::DuplicateSender));
    assert_eq!(aggregator.tx_hash_to_metadata.len(), 1);
}

#[test]
fn test_add_batch_rejected_after_collection_starts() {
    let (mut aggregator, _, _) = setup_with_unique_accounts_and_transactions(1);
    let mut other = Wallet::new();
    let mut rollup_state = MockRollupMemory::new();
    rollup_state.add_deposit(&other.public_key, 10).unwrap();
    other.sync_rollup_state(&rollup_state).unwrap();
    let receiver = Wallet::new();
    other
        .append_transaction_to_batch(receiver.public_key.clone(), 10)
        .unwrap();
    let late_batch = other.produce_batch().unwrap();

    aggregator.start_collecting_signatures().unwrap();

    assert_eq!(
        aggregator.add_batch(&late_batch),
        Err(StatelessBitcoinError::WrongState)
    );
}

#[test]
fn test_start_collecting_signatures_requires_batches() {
    let mut aggregator = Aggregator::new();

    assert_eq!(
        aggregator.start_collecting_signatures(),
        Err(StatelessBitcoinError::NoTransactions)
    );
}

#[test]
fn test_finalise_without_signatures_fails() {
    let (mut aggregator, _, _) = setup_with_unique_accounts_and_transactions(1);

    aggregator.start_collecting_signatures().unwrap();

    assert_eq!(
        aggregator.finalise(),
        Err(StatelessBitcoinError::NoSignatures)
    );
}

#[test]
fn test_add_signature_rejects_wrong_message() {
    let (mut aggregator, mut accounts, batches) = setup_with_unique_accounts_and_transactions(2);

    aggregator.start_collecting_signatures().unwrap();

    // Sign the proof of the first sender, then offer the signature as the
    // second sender's: the aggregator must refuse it.
    let proof = aggregator
        .generate_proof_for_pubkey(&batches[0].from)
        .unwrap();
    let signature = accounts[0].validate_and_sign_proof(&proof).unwrap();

    assert_eq!(
        aggregator.add_signature(&accounts[1].public_key, &signature),
        Err(StatelessBitcoinError::BadSignature)
    );
}

#[test]
fn test_dropped_signer_leaves_batch_pending() {
    // Two senders hand in batches; only the first signs. The block carries
    // only the first signer and the second wallet's batch stays pending.
    let (mut aggregator, mut accounts, batches) = setup_with_unique_accounts_and_transactions(2);

    aggregator.start_collecting_signatures().unwrap();

    let proof = aggregator
        .generate_proof_for_pubkey(&batches[0].from)
        .unwrap();
    let signature = accounts[0].validate_and_sign_proof(&proof).unwrap();
    aggregator
        .add_signature(&accounts[0].public_key, &signature)
        .unwrap();

    let block = aggregator.finalise().unwrap();

    assert!(block.contains_pubkey(&accounts[0].public_key));
    assert!(!block.contains_pubkey(&accounts[1].public_key));
    assert!(accounts[1].is_batch_pending());
    assert!(matches!(
        block.signature,
        stateless_bitcoin_l2::types::common::TransferBlockSignature::Individual(_, _)
    ));
}
