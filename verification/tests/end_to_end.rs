use stateless_bitcoin_l2::aggregator::Aggregator;
use stateless_bitcoin_l2::rollup::mock_rollup_memory::MockRollupMemory;
use stateless_bitcoin_l2::wallet::wallet::Wallet;

#[test]
fn test_two_concurrent_senders_aggregate_to_one_root() {
    // Two senders in one round: the block carries one aggregated signature
    // over the shared root, and the receiver collects both amounts.
    let mut rollup_state = MockRollupMemory::new();
    let mut aggregator = Aggregator::new();
    let mut a = Wallet::new();
    let mut b = Wallet::new();
    let mut c = Wallet::new();

    rollup_state.add_deposit(&a.public_key, 100).unwrap();
    rollup_state.add_deposit(&b.public_key, 100).unwrap();
    a.sync_rollup_state(&rollup_state).unwrap();
    b.sync_rollup_state(&rollup_state).unwrap();

    a.append_transaction_to_batch(c.public_key.clone(), 40)
        .unwrap();
    b.append_transaction_to_batch(c.public_key.clone(), 60)
        .unwrap();
    let batch_a = a.produce_batch().unwrap();
    let batch_b = b.produce_batch().unwrap();
    aggregator.add_batch(&batch_a).unwrap();
    aggregator.add_batch(&batch_b).unwrap();
    aggregator.start_collecting_signatures().unwrap();

    let proof_a = aggregator.generate_proof_for_pubkey(&a.public_key).unwrap();
    let proof_b = aggregator.generate_proof_for_pubkey(&b.public_key).unwrap();
    assert_eq!(proof_a.root, proof_b.root);

    let sig_a = a.validate_and_sign_proof(&proof_a).unwrap();
    let sig_b = b.validate_and_sign_proof(&proof_b).unwrap();
    aggregator.add_signature(&a.public_key, &sig_a).unwrap();
    aggregator.add_signature(&b.public_key, &sig_b).unwrap();

    let block = aggregator.finalise().unwrap();
    assert!(matches!(
        block.signature,
        stateless_bitcoin_l2::types::common::TransferBlockSignature::Aggregated(_, _)
    ));
    assert!(block.verify().is_ok());
    rollup_state.add_transfer_block(block).unwrap();

    c.add_receiving_transaction(&proof_a, &a.balance_proof, &rollup_state)
        .unwrap();
    c.add_receiving_transaction(&proof_b, &b.balance_proof, &rollup_state)
        .unwrap();

    assert_eq!(c.balance, 100);
    assert_eq!(a.balance, 60);
    assert_eq!(b.balance, 40);
}
