use stateless_bitcoin_l2::aggregator::Aggregator;
use stateless_bitcoin_l2::errors::StatelessBitcoinError;
use stateless_bitcoin_l2::rollup::mock_rollup_memory::MockRollupMemory;
use stateless_bitcoin_l2::wallet::wallet::Wallet;

fn setup(initial_deposit: u64) -> (Wallet, MockRollupMemory) {
    let mut client = Wallet::new();
    let mut rollup_state = MockRollupMemory::new();
    rollup_state
        .add_deposit(&client.public_key, initial_deposit)
        .unwrap();

    client.sync_rollup_state(&rollup_state).unwrap();

    (client, rollup_state)
}

#[test]
fn wallet_test_balance_increases_with_deposits_when_syncing_rollup_state() {
    let (client, _) = setup(100);

    assert_eq!(client.balance, 100);
}

#[test]
fn wallet_test_balance_decreases_with_withdrawals_when_syncing_rollup_state() {
    let (mut client, mut rollup_state) = setup(100);

    rollup_state.add_withdraw(&client.public_key, 50).unwrap();

    client.sync_rollup_state(&rollup_state).unwrap();

    assert_eq!(client.balance, 50);
}

#[test]
fn wallet_test_sync_rollup_state_errors_when_rollup_state_has_transaction_not_in_transaction_history()
{
    // Invalid transaction
}

#[test]
fn wallet_test_sync_rollup_state_errors_when_client_has_transaction_not_in_rollup_state() {
    // Invalid transaction
}

#[test]
fn wallet_test_create_transaction_succeeds() {
    let (mut client, _) = setup(100);

    let receiver = Wallet::new();

    let batch = client
        .append_transaction_to_batch(receiver.public_key.clone(), 100)
        .unwrap();

    assert_eq!(batch.from, client.public_key);
    assert_eq!(batch.transactions.len(), 1);

    let transaction = &batch.transactions[0];
    assert_eq!(transaction.to, receiver.public_key);
    assert_eq!(transaction.amount, 100);
    assert_eq!(client.transaction_batch.transactions.len(), 1);
    assert_eq!(client.balance, 0);
}

#[test]
fn wallet_test_create_transaction_fails_with_insufficient_balance() {
    let (mut client, _) = setup(100);

    let receiver = Wallet::new();

    let transaction = client.append_transaction_to_batch(receiver.public_key.clone(), 101);

    assert!(transaction.is_err());
    assert_eq!(client.transaction_batch.transactions.len(), 0);
    assert_eq!(client.balance, 100);
}

#[test]
fn test_append_transaction_rejects_self_send_and_zero_amount() {
    let (mut client, _) = setup(100);
    let receiver = Wallet::new();

    let to_self = client.public_key.clone();
    assert_eq!(
        client.append_transaction_to_batch(to_self, 10),
        Err(StatelessBitcoinError::SelfSend)
    );
    assert_eq!(
        client.append_transaction_to_batch(receiver.public_key.clone(), 0),
        Err(StatelessBitcoinError::ZeroAmount)
    );
    assert_eq!(client.transaction_batch.transactions.len(), 0);
}

#[test]
fn test_produce_batch_empty_fails_and_pending_blocks_appends() {
    let (mut client, _) = setup(100);
    let receiver = Wallet::new();

    assert_eq!(
        client.produce_batch(),
        Err(StatelessBitcoinError::EmptyBatch)
    );

    client
        .append_transaction_to_batch(receiver.public_key.clone(), 40)
        .unwrap();
    client.produce_batch().unwrap();

    assert_eq!(
        client.append_transaction_to_batch(receiver.public_key.clone(), 10),
        Err(StatelessBitcoinError::BatchPending)
    );
    assert_eq!(
        client.produce_batch(),
        Err(StatelessBitcoinError::BatchPending)
    );
}

#[test]
fn wallet_test_validate_and_sign_transaction_succeeds() {
    let (mut client, _) = setup(100);
    let mut aggregator = Aggregator::new();
    let receiver = Wallet::new();
    client
        .append_transaction_to_batch(receiver.public_key.clone(), 100)
        .unwrap();
    let batch = client.produce_batch().unwrap();

    aggregator.add_batch(&batch).unwrap();
    aggregator.start_collecting_signatures().unwrap();

    let merkle_tree_proof = aggregator.generate_proof_for_pubkey(&batch.from).unwrap();

    let signature = client.validate_and_sign_proof(&merkle_tree_proof).unwrap();

    assert_eq!(client.balance, 0);
    assert_eq!(client.transaction_batch.transactions.len(), 0);
    assert_eq!(client.balance_proof.len(), 1);

    let result = signature.verify(&client.public_key, &merkle_tree_proof.root);

    assert!(result.is_ok());
}

#[test]
fn test_validate_and_sign_rejects_foreign_proof() {
    let (mut client, _) = setup(100);
    let (mut other, _) = setup(100);
    let mut aggregator = Aggregator::new();
    let receiver = Wallet::new();

    client
        .append_transaction_to_batch(receiver.public_key.clone(), 10)
        .unwrap();
    other
        .append_transaction_to_batch(receiver.public_key.clone(), 10)
        .unwrap();
    let client_batch = client.produce_batch().unwrap();
    let other_batch = other.produce_batch().unwrap();
    aggregator.add_batch(&client_batch).unwrap();
    aggregator.add_batch(&other_batch).unwrap();
    aggregator.start_collecting_signatures().unwrap();

    let other_proof = aggregator
        .generate_proof_for_pubkey(&other_batch.from)
        .unwrap();

    assert_eq!(
        client.validate_and_sign_proof(&other_proof),
        Err(StatelessBitcoinError::ProofBatchMismatch)
    );
    assert!(client.is_batch_pending());
}

#[test]
fn test_adding_multiple_transactions_to_a_batch_succeeds() {
    let (mut client, _) = setup(300);
    let alice = Wallet::new();
    let mary = Wallet::new();
    let bobs_uncle = Wallet::new();

    client
        .append_transaction_to_batch(alice.public_key.clone(), 100)
        .unwrap();
    client
        .append_transaction_to_batch(bobs_uncle.public_key.clone(), 100)
        .unwrap();
    let batch = client
        .append_transaction_to_batch(mary.public_key.clone(), 100)
        .unwrap();

    assert_eq!(batch.transactions.len(), 3);
    assert_eq!(client.transaction_batch.transactions.len(), 3);
}

#[test]
fn wallet_test_add_receiving_transaction_succeeds() {
    let mut aggregator = Aggregator::new();
    let (mut client, mut rollup_state) = setup(300);
    let mut alice = Wallet::new();

    client
        .append_transaction_to_batch(alice.public_key.clone(), 100)
        .unwrap();
    let batch = client.produce_batch().unwrap();

    aggregator.add_batch(&batch).unwrap();
    aggregator.start_collecting_signatures().unwrap();
    let merkle_tree_proof = aggregator.generate_proof_for_pubkey(&batch.from).unwrap();

    let signature = client.validate_and_sign_proof(&merkle_tree_proof).unwrap();

    aggregator
        .add_signature(&client.public_key, &signature)
        .unwrap();

    let transfer_block = aggregator.finalise().unwrap();

    rollup_state.add_transfer_block(transfer_block).unwrap();

    alice
        .add_receiving_transaction(&merkle_tree_proof, &client.balance_proof, &rollup_state)
        .unwrap();

    assert_eq!(alice.balance, 100);
    assert_eq!(client.balance, 200);
}

fn complete_aggregator_round(
    sender: &mut Wallet,
    rollup_state: &mut MockRollupMemory,
    amount: u64,
) -> Wallet {
    let mut aggregator = Aggregator::new();

    let mut receiver = Wallet::new();

    sender
        .append_transaction_to_batch(receiver.public_key.clone(), amount)
        .unwrap();
    let batch = sender.produce_batch().unwrap();

    aggregator.add_batch(&batch).unwrap();
    aggregator.start_collecting_signatures().unwrap();
    let merkle_tree_proof = aggregator.generate_proof_for_pubkey(&batch.from).unwrap();
    let signature = sender.validate_and_sign_proof(&merkle_tree_proof).unwrap();

    aggregator
        .add_signature(&sender.public_key, &signature)
        .unwrap();

    let transfer_block = aggregator.finalise().unwrap();

    rollup_state.add_transfer_block(transfer_block).unwrap();

    receiver
        .add_receiving_transaction(&merkle_tree_proof, &sender.balance_proof, rollup_state)
        .unwrap();

    receiver
}

#[test]
fn test_long_chain_of_transactions_still_can_be_spent() {
    let amount = 100;

    let (client, mut rollup_state) = setup(amount);

    let mut next_sender = client;

    for _ in 0..10 {
        let receiver = complete_aggregator_round(&mut next_sender, &mut rollup_state, amount);

        assert_eq!(receiver.balance, amount);
        assert_eq!(next_sender.balance, 0);

        next_sender = receiver;
    }
}

#[test]
fn wallet_test_add_receiving_transaction_fails_when_transaction_not_in_rollup_state() {
    let amount = 100;

    let (mut client, rollup_state) = setup(amount);

    let mut aggregator = Aggregator::new();

    let mut receiver = Wallet::new();

    client
        .append_transaction_to_batch(receiver.public_key.clone(), amount)
        .unwrap();

    let batch = client.produce_batch().unwrap();

    aggregator.add_batch(&batch).unwrap();
    aggregator.start_collecting_signatures().unwrap();
    let merkle_tree_proof = aggregator.generate_proof_for_pubkey(&batch.from).unwrap();
    let signature = client.validate_and_sign_proof(&merkle_tree_proof).unwrap();

    aggregator
        .add_signature(&client.public_key, &signature)
        .unwrap();

    // Produce the transfer block, but don't add it to the rollup state
    aggregator.finalise().unwrap();

    let value =
        receiver.add_receiving_transaction(&merkle_tree_proof, &client.balance_proof, &rollup_state);

    match value {
        Err(err) => {
            assert_eq!(
                err,
                StatelessBitcoinError::BatchNotInATransferBlock(batch.clone())
            );
        }
        _ => assert!(false, "Expected an error"),
    }
}

#[test]
fn test_validate_and_sign_without_pending_batch_fails() {
    let (mut client, _) = setup(100);
    let proof = {
        let (mut other, _) = setup(100);
        let receiver = Wallet::new();
        let mut aggregator = Aggregator::new();
        other
            .append_transaction_to_batch(receiver.public_key.clone(), 10)
            .unwrap();
        let batch = other.produce_batch().unwrap();
        aggregator.add_batch(&batch).unwrap();
        aggregator.start_collecting_signatures().unwrap();
        aggregator.generate_proof_for_pubkey(&other.public_key).unwrap()
    };

    assert_eq!(
        client.validate_and_sign_proof(&proof),
        Err(StatelessBitcoinError::NoBatchToSign)
    );
}

#[test]
fn test_validate_and_sign_rejects_tampered_proof() {
    let (mut client, _) = setup(100);
    let receiver = Wallet::new();
    let mut aggregator = Aggregator::new();
    client
        .append_transaction_to_batch(receiver.public_key.clone(), 10)
        .unwrap();
    let batch = client.produce_batch().unwrap();
    aggregator.add_batch(&batch).unwrap();
    aggregator.start_collecting_signatures().unwrap();
    let mut proof = aggregator.generate_proof_for_pubkey(&batch.from).unwrap();

    proof.root[0] = proof.root[0].wrapping_add(1);

    assert_eq!(
        client.validate_and_sign_proof(&proof),
        Err(StatelessBitcoinError::InvalidProof)
    );
    assert!(client.is_batch_pending());
}

#[test]
fn test_add_receiving_transaction_rejects_unrelated_wallet() {
    // The proof addresses one receiver; a bystander cannot integrate it.
    let mut aggregator = Aggregator::new();
    let (mut client, mut rollup_state) = setup(100);
    let receiver = Wallet::new();
    let mut bystander = Wallet::new();

    client
        .append_transaction_to_batch(receiver.public_key.clone(), 40)
        .unwrap();
    let batch = client.produce_batch().unwrap();
    aggregator.add_batch(&batch).unwrap();
    aggregator.start_collecting_signatures().unwrap();
    let proof = aggregator.generate_proof_for_pubkey(&batch.from).unwrap();
    let signature = client.validate_and_sign_proof(&proof).unwrap();
    aggregator.add_signature(&client.public_key, &signature).unwrap();
    let block = aggregator.finalise().unwrap();
    rollup_state.add_transfer_block(block).unwrap();

    assert_eq!(
        bystander.add_receiving_transaction(&proof, &client.balance_proof, &rollup_state),
        Err(StatelessBitcoinError::NotForUs)
    );
}

#[test]
fn test_add_receiving_transaction_requires_senders_balance_proof() {
    let mut aggregator = Aggregator::new();
    let (mut client, mut rollup_state) = setup(100);
    let mut receiver = Wallet::new();

    client
        .append_transaction_to_batch(receiver.public_key.clone(), 40)
        .unwrap();
    let batch = client.produce_batch().unwrap();
    aggregator.add_batch(&batch).unwrap();
    aggregator.start_collecting_signatures().unwrap();
    let proof = aggregator.generate_proof_for_pubkey(&batch.from).unwrap();
    let signature = client.validate_and_sign_proof(&proof).unwrap();
    aggregator.add_signature(&client.public_key, &signature).unwrap();
    let block = aggregator.finalise().unwrap();
    rollup_state.add_transfer_block(block).unwrap();

    let empty = stateless_bitcoin_l2::types::balance::BalanceProof::new();
    assert_eq!(
        receiver.add_receiving_transaction(&proof, &empty, &rollup_state),
        Err(StatelessBitcoinError::NotInSenderProof)
    );
}
