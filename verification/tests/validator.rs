use stateless_bitcoin_l2::aggregator::Aggregator;
use stateless_bitcoin_l2::errors::StatelessBitcoinError;
use stateless_bitcoin_l2::types::common::{TransferBlock, TransferBlockSignature};
use stateless_bitcoin_l2::types::signatures::BlsSignature;
use stateless_bitcoin_l2::rollup::mock_rollup_memory::MockRollupMemory;
use stateless_bitcoin_l2::types::balance::BalanceProof;
use stateless_bitcoin_l2::wallet::utils::{
    calculate_balances_and_validate_balance_proof, merge_balance_proofs,
};
use stateless_bitcoin_l2::wallet::wallet::Wallet;

// One committed round: `sender` pays `receiver_key` the given amount and the
// transfer block lands on the settlement view. The sender's balance proof
// afterwards justifies the transfer.
fn committed_round(
    sender: &mut Wallet,
    receiver_key: &stateless_bitcoin_l2::types::public_key::BlsPublicKey,
    rollup_state: &mut MockRollupMemory,
    amount: u64,
) {
    let mut aggregator = Aggregator::new();
    sender
        .append_transaction_to_batch(receiver_key.clone(), amount)
        .unwrap();
    let batch = sender.produce_batch().unwrap();
    aggregator.add_batch(&batch).unwrap();
    aggregator.start_collecting_signatures().unwrap();
    let proof = aggregator
        .generate_proof_for_pubkey(&sender.public_key)
        .unwrap();
    let signature = sender.validate_and_sign_proof(&proof).unwrap();
    aggregator
        .add_signature(&sender.public_key, &signature)
        .unwrap();
    let block = aggregator.finalise().unwrap();
    rollup_state.add_transfer_block(block).unwrap();
}

#[test]
fn test_calculate_balances_reconstructs_both_sides() {
    let mut rollup_state = MockRollupMemory::new();
    let mut sender = Wallet::new();
    let receiver = Wallet::new();
    rollup_state.add_deposit(&sender.public_key, 100).unwrap();
    sender.sync_rollup_state(&rollup_state).unwrap();

    committed_round(&mut sender, &receiver.public_key, &mut rollup_state, 30);

    let balances =
        calculate_balances_and_validate_balance_proof(&rollup_state, &sender.balance_proof)
            .unwrap();

    assert_eq!(balances.get_amount(&sender.public_key), 70);
    assert_eq!(balances.get_amount(&receiver.public_key), 30);
}

#[test]
fn test_balances_never_exceed_deposits() {
    // Balance conservation on concrete values: the reconstructed balances sum
    // to no more than deposits less withdrawals.
    let mut rollup_state = MockRollupMemory::new();
    let mut sender = Wallet::new();
    let receiver = Wallet::new();
    rollup_state.add_deposit(&sender.public_key, 100).unwrap();
    rollup_state.add_withdraw(&sender.public_key, 20).unwrap();
    sender.sync_rollup_state(&rollup_state).unwrap();
    assert_eq!(sender.balance, 80);

    committed_round(&mut sender, &receiver.public_key, &mut rollup_state, 50);

    let balances =
        calculate_balances_and_validate_balance_proof(&rollup_state, &sender.balance_proof)
            .unwrap();

    let total = balances.get_amount(&sender.public_key) + balances.get_amount(&receiver.public_key);
    assert_eq!(total, 80);
    assert!(total <= 100 - 20);
}

#[test]
fn test_empty_balance_proof_validates_to_no_accounts() {
    let rollup_state = MockRollupMemory::new();
    let empty = BalanceProof::new();

    let balances = calculate_balances_and_validate_balance_proof(&rollup_state, &empty).unwrap();
    let probe = Wallet::new();

    assert_eq!(balances.get_amount(&probe.public_key), 0);
}

#[test]
fn test_merge_balance_proofs_is_idempotent() {
    let mut rollup_state = MockRollupMemory::new();
    let mut sender = Wallet::new();
    let receiver = Wallet::new();
    rollup_state.add_deposit(&sender.public_key, 100).unwrap();
    sender.sync_rollup_state(&rollup_state).unwrap();
    committed_round(&mut sender, &receiver.public_key, &mut rollup_state, 10);

    let merged =
        merge_balance_proofs(sender.balance_proof.clone(), sender.balance_proof.clone()).unwrap();

    assert_eq!(merged, sender.balance_proof);
}

#[test]
fn test_merge_balance_proofs_is_commutative_on_disjoint_proofs() {
    let mut rollup_state = MockRollupMemory::new();
    let mut a = Wallet::new();
    let mut b = Wallet::new();
    let receiver = Wallet::new();
    rollup_state.add_deposit(&a.public_key, 100).unwrap();
    rollup_state.add_deposit(&b.public_key, 100).unwrap();
    a.sync_rollup_state(&rollup_state).unwrap();
    b.sync_rollup_state(&rollup_state).unwrap();
    committed_round(&mut a, &receiver.public_key, &mut rollup_state, 10);
    committed_round(&mut b, &receiver.public_key, &mut rollup_state, 20);

    let ab = merge_balance_proofs(a.balance_proof.clone(), b.balance_proof.clone()).unwrap();
    let ba = merge_balance_proofs(b.balance_proof.clone(), a.balance_proof.clone()).unwrap();

    // The two orders list the same entries; only the order differs.
    assert_eq!(ab.len(), 2);
    assert_eq!(ba.len(), 2);
    for i in 0..ab.len() {
        let (key, proof) = ab.entry_at(i);
        assert_eq!(ba.get(key), Some(proof));
    }
}

#[test]
fn test_withdraw_beyond_deposits_is_refused() {
    let mut rollup_state = MockRollupMemory::new();
    let wallet = Wallet::new();
    rollup_state.add_deposit(&wallet.public_key, 30).unwrap();

    assert!(rollup_state.add_withdraw(&wallet.public_key, 31).is_err());
    assert!(rollup_state.add_withdraw(&wallet.public_key, 30).is_ok());
    assert_eq!(rollup_state.get_account_withdraw_amount(&wallet.public_key), 30);
}

#[test]
fn test_generate_proof_for_unknown_sender_fails() {
    let mut rollup_state = MockRollupMemory::new();
    let mut sender = Wallet::new();
    let stranger = Wallet::new();
    let receiver = Wallet::new();
    rollup_state.add_deposit(&sender.public_key, 100).unwrap();
    sender.sync_rollup_state(&rollup_state).unwrap();

    let mut aggregator = Aggregator::new();
    sender
        .append_transaction_to_batch(receiver.public_key.clone(), 10)
        .unwrap();
    let batch = sender.produce_batch().unwrap();
    aggregator.add_batch(&batch).unwrap();
    aggregator.start_collecting_signatures().unwrap();

    assert_eq!(
        aggregator.generate_proof_for_pubkey(&stranger.public_key),
        Err(StatelessBitcoinError::NotFound)
    );
}

#[test]
fn test_forged_transfer_block_is_rejected() {
    // A block on the settlement view whose signature certifies nothing fails
    // validation with the bad-block error.
    let mut rollup_state = MockRollupMemory::new();
    let mut sender = Wallet::new();
    let receiver = Wallet::new();
    rollup_state.add_deposit(&sender.public_key, 100).unwrap();
    sender.sync_rollup_state(&rollup_state).unwrap();

    let mut aggregator = Aggregator::new();
    sender
        .append_transaction_to_batch(receiver.public_key.clone(), 10)
        .unwrap();
    let batch = sender.produce_batch().unwrap();
    aggregator.add_batch(&batch).unwrap();
    aggregator.start_collecting_signatures().unwrap();
    let proof = aggregator
        .generate_proof_for_pubkey(&sender.public_key)
        .unwrap();
    sender.validate_and_sign_proof(&proof).unwrap();

    let forged = TransferBlock {
        signature: TransferBlockSignature::Individual(
            BlsSignature { bytes: vec![1, 2, 3] },
            sender.public_key.clone(),
        ),
        merkle_root: proof.root,
    };
    rollup_state.add_transfer_block(forged).unwrap();

    assert_eq!(
        calculate_balances_and_validate_balance_proof(&rollup_state, &sender.balance_proof),
        Err(StatelessBitcoinError::BadTransferBlock)
    );
}

#[test]
fn test_withdrawal_after_spend_drives_balance_negative() {
    // The settlement view checks withdrawals only against deposits; a spend
    // already committed off-chain then leaves the account unreconstructable,
    // and the validator refuses with the account named.
    let mut rollup_state = MockRollupMemory::new();
    let mut sender = Wallet::new();
    let receiver = Wallet::new();
    rollup_state.add_deposit(&sender.public_key, 100).unwrap();
    sender.sync_rollup_state(&rollup_state).unwrap();

    committed_round(&mut sender, &receiver.public_key, &mut rollup_state, 60);

    rollup_state.add_withdraw(&sender.public_key, 100).unwrap();

    match calculate_balances_and_validate_balance_proof(&rollup_state, &sender.balance_proof) {
        Err(StatelessBitcoinError::BalanceNegative(pk)) => {
            assert_eq!(pk, sender.public_key);
        }
        other => panic!("expected a negative balance, got {:?}", other),
    }
}
