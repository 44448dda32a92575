use sha2::Digest;
use stateless_bitcoin_l2::types::public_key::BlsPublicKey;
use stateless_bitcoin_l2::types::transaction::SimpleTransaction;
use stateless_bitcoin_l2::aggregator::Aggregator;
use stateless_bitcoin_l2::hashing::{hash_tx_hash_with_salt, Sha256Algorithm};
use stateless_bitcoin_l2::rollup::mock_rollup_memory::MockRollupMemory;
use stateless_bitcoin_l2::wallet::wallet::Wallet;

#[test]
fn test_hash_matches_reference_digest() {
    let expected: [u8; 32] = sha2::Sha256::digest(b"abc").into();

    assert_eq!(Sha256Algorithm::hash(b"abc"), expected);
    assert_ne!(Sha256Algorithm::hash(b"abd"), expected);
}

#[test]
fn test_salted_hash_matches_reference_digest() {
    let txhash = [7u8; 32];
    let salt = [9u8; 32];

    let mut reference = sha2::Sha256::new();
    reference.update(&txhash);
    reference.update(&salt);
    let expected: [u8; 32] = reference.finalize().into();

    assert_eq!(hash_tx_hash_with_salt(&txhash, &salt), expected);
}

#[test]
fn test_batch_hash_depends_on_contents() {
    let mut rollup_state = MockRollupMemory::new();
    let mut wallet = Wallet::new();
    let receiver = Wallet::new();
    rollup_state.add_deposit(&wallet.public_key, 100).unwrap();
    wallet.sync_rollup_state(&rollup_state).unwrap();

    let empty_hash = wallet.transaction_batch.tx_hash();
    wallet
        .append_transaction_to_batch(receiver.public_key.clone(), 5)
        .unwrap();
    let one_tx_hash = wallet.transaction_batch.tx_hash();

    assert_ne!(empty_hash, one_tx_hash);
}

fn proof_for_one_sender() -> stateless_bitcoin_l2::types::transaction::TransactionProof {
    let mut rollup_state = MockRollupMemory::new();
    let mut aggregator = Aggregator::new();
    let mut wallet = Wallet::new();
    let receiver = Wallet::new();
    rollup_state.add_deposit(&wallet.public_key, 100).unwrap();
    wallet.sync_rollup_state(&rollup_state).unwrap();
    wallet
        .append_transaction_to_batch(receiver.public_key.clone(), 100)
        .unwrap();
    let batch = wallet.produce_batch().unwrap();
    aggregator.add_batch(&batch).unwrap();
    aggregator.start_collecting_signatures().unwrap();
    aggregator.generate_proof_for_pubkey(&wallet.public_key).unwrap()
}

#[test]
fn test_tampered_proof_fails_verification() {
    let mut proof = proof_for_one_sender();

    assert!(proof.verify());

    proof.root[0] = proof.root[0].wrapping_add(1);
    assert!(!proof.verify());
}

#[test]
fn test_signature_does_not_verify_other_message() {
    let mut wallet = Wallet::new();
    let mut rollup_state = MockRollupMemory::new();
    let mut aggregator = Aggregator::new();
    let receiver = Wallet::new();
    rollup_state.add_deposit(&wallet.public_key, 100).unwrap();
    wallet.sync_rollup_state(&rollup_state).unwrap();
    wallet
        .append_transaction_to_batch(receiver.public_key.clone(), 100)
        .unwrap();
    let batch = wallet.produce_batch().unwrap();
    aggregator.add_batch(&batch).unwrap();
    aggregator.start_collecting_signatures().unwrap();
    let proof = aggregator.generate_proof_for_pubkey(&wallet.public_key).unwrap();

    let signature = wallet.validate_and_sign_proof(&proof).unwrap();

    assert!(signature.verify(&wallet.public_key, &proof.root).is_ok());

    let mut other_message = proof.root;
    other_message[0] = other_message[0].wrapping_add(1);
    assert!(signature.verify(&wallet.public_key, &other_message).is_err());
    assert!(signature.verify(&receiver.public_key, &proof.root).is_err());
}

#[test]
fn test_tampered_transfer_block_fails_verification() {
    let mut rollup_state = MockRollupMemory::new();
    let mut aggregator = Aggregator::new();
    let mut a = Wallet::new();
    let mut b = Wallet::new();
    let receiver = Wallet::new();
    for w in [&a, &b] {
        rollup_state.add_deposit(&w.public_key, 100).unwrap();
    }
    a.sync_rollup_state(&rollup_state).unwrap();
    b.sync_rollup_state(&rollup_state).unwrap();
    for w in [&mut a, &mut b] {
        w.append_transaction_to_batch(receiver.public_key.clone(), 100)
            .unwrap();
        let batch = w.produce_batch().unwrap();
        aggregator.add_batch(&batch).unwrap();
    }
    aggregator.start_collecting_signatures().unwrap();
    for w in [&mut a, &mut b] {
        let proof = aggregator.generate_proof_for_pubkey(&w.public_key).unwrap();
        let signature = w.validate_and_sign_proof(&proof).unwrap();
        aggregator.add_signature(&w.public_key, &signature).unwrap();
    }

    let mut block = aggregator.finalise().unwrap();
    assert!(block.verify().is_ok());

    block.merkle_root[0] = block.merkle_root[0].wrapping_add(1);
    assert!(block.verify().is_err());
}

#[test]
fn test_wallet_rebuilt_from_secret_key_keeps_its_key() {
    let wallet = Wallet::new();
    let secret = wallet.secret_key_bytes();

    let rebuilt = Wallet::from_secret_key(
        stateless_bitcoin_l2::types::signatures::BlsSecretKey::from_bytes(secret),
        stateless_bitcoin_l2::types::balance::BalanceProof::new(),
    )
    .unwrap();

    assert_eq!(rebuilt.public_key, wallet.public_key);
}

#[test]
fn test_tx_hash_formula_matches_reference_digest() {
    // tx_hash = SHA256(SHA256(len(to) ‖ to ‖ len(from) ‖ from ‖ amount_le ‖ salt) ‖ salt)
    let tx = SimpleTransaction {
        to: BlsPublicKey { bytes: vec![1, 2, 3] },
        from: BlsPublicKey { bytes: vec![4, 5] },
        amount: 0x0102_0304_0506_0708,
        salt: [9u8; 32],
    };

    let mut canonical: Vec<u8> = Vec::new();
    canonical.extend_from_slice(&3u64.to_le_bytes());
    canonical.extend_from_slice(&[1, 2, 3]);
    canonical.extend_from_slice(&2u64.to_le_bytes());
    canonical.extend_from_slice(&[4, 5]);
    canonical.extend_from_slice(&0x0102_0304_0506_0708u64.to_le_bytes());
    canonical.extend_from_slice(&[9u8; 32]);

    let inner: [u8; 32] = sha2::Sha256::digest(&canonical).into();
    let mut outer = sha2::Sha256::new();
    outer.update(inner);
    outer.update([9u8; 32]);
    let expected: [u8; 32] = outer.finalize().into();

    assert_eq!(tx.tx_hash(), expected);
}

#[test]
fn test_signature_over_no_pairs_is_refused() {
    let result = stateless_bitcoin_l2::types::common::TransferBlockSignature::new(vec![]);

    assert_eq!(
        result,
        Err(stateless_bitcoin_l2::errors::StatelessBitcoinError::AggregateError)
    );
}

#[test]
fn test_rebuilt_wallet_signs_a_round() {
    // A wallet hydrated from persisted key bytes carries a usable key: the
    // whole produce–prove–sign round goes through.
    let original = Wallet::new();
    let mut wallet = Wallet::from_secret_key(
        stateless_bitcoin_l2::types::signatures::BlsSecretKey::from_bytes(
            original.secret_key_bytes(),
        ),
        stateless_bitcoin_l2::types::balance::BalanceProof::new(),
    )
    .unwrap();

    let mut rollup_state = MockRollupMemory::new();
    let receiver = Wallet::new();
    rollup_state.add_deposit(&wallet.public_key, 10).unwrap();
    wallet.sync_rollup_state(&rollup_state).unwrap();
    wallet
        .append_transaction_to_batch(receiver.public_key.clone(), 10)
        .unwrap();
    let batch = wallet.produce_batch().unwrap();
    let mut aggregator = Aggregator::new();
    aggregator.add_batch(&batch).unwrap();
    aggregator.start_collecting_signatures().unwrap();
    let proof = aggregator.generate_proof_for_pubkey(&wallet.public_key).unwrap();

    let signature = wallet.validate_and_sign_proof(&proof).unwrap();

    assert!(signature.verify(&wallet.public_key, &proof.root).is_ok());
}
