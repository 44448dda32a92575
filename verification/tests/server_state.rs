use stateless_bitcoin_l2::rollup::mock_rollup_memory::{new_transfer_blocks, MockRollupMemory};
use stateless_bitcoin_l2::server::server_state::ServerState;
use stateless_bitcoin_l2::wallet::wallet::Wallet;

fn setup() -> (ServerState, Wallet, MockRollupMemory) {
    let server = ServerState::new().unwrap();
    let mut rollup_state = MockRollupMemory::new();
    let mut client = Wallet::new();
    rollup_state.add_deposit(&client.public_key, 100).unwrap();
    client.sync_rollup_state(&rollup_state).unwrap();

    (server, client, rollup_state)
}

#[test]
fn test_connection_is_added() {
    let (mut server, client, _) = setup();

    server.add_connection(client.public_key.clone());

    assert_eq!(server.connections.len(), 1);
    assert_eq!(server.connections[0], client.public_key);
}

#[test]
fn test_add_batch() {
    let (mut server, mut client, _) = setup();
    let receiver = Wallet::new();
    server.add_connection(client.public_key.clone());

    client
        .append_transaction_to_batch(receiver.public_key.clone(), 10)
        .unwrap();

    let batch = client.produce_batch().unwrap();

    server.add_batch(&batch).unwrap();

    assert_eq!(server.aggregator.tx_hash_to_metadata.len(), 1);

    assert_eq!(
        server
            .connections_with_tx
            .iter()
            .any(|(pk, _)| *pk == client.public_key),
        true
    );
}

#[test]
fn test_add_signature() {
    let (mut server, mut client, _) = setup();
    let receiver = Wallet::new();
    server.add_connection(client.public_key.clone());

    client
        .append_transaction_to_batch(receiver.public_key.clone(), 10)
        .unwrap();

    let batch = client.produce_batch().unwrap();

    server.add_batch(&batch).unwrap();

    let proofs = server.start_collecting_signatures().unwrap().unwrap();
    assert_eq!(proofs.len(), 1);
    assert_eq!(proofs[0].0, client.public_key);

    let signature = client.validate_and_sign_proof(&proofs[0].1).unwrap();

    server
        .add_signature(&client.public_key, &signature)
        .unwrap();

    assert_eq!(
        server
            .connections_with_tx
            .iter()
            .find(|(pk, _)| *pk == client.public_key)
            .map(|(_, signed)| *signed),
        Some(true)
    );
}

#[test]
fn server_state_test_finalise() {
    let (mut server, mut client, mut rollup_state) = setup();
    let receiver = Wallet::new();
    server.add_connection(client.public_key.clone());
    server.add_connection(receiver.public_key.clone());

    client
        .append_transaction_to_batch(receiver.public_key.clone(), 10)
        .unwrap();

    let batch = client.produce_batch().unwrap();

    server.add_batch(&batch).unwrap();

    let proofs = server.start_collecting_signatures().unwrap().unwrap();
    let merkle_proof = proofs[0].1.clone();

    let signature = client.validate_and_sign_proof(&merkle_proof).unwrap();

    server
        .add_signature(&client.public_key, &signature)
        .unwrap();

    let block = server.finalise().unwrap();
    rollup_state.add_transfer_block(block).unwrap();

    assert_eq!(server.aggregator.tx_hash_to_metadata.len(), 0);
    assert_eq!(
        server.connections_with_tx.len(),
        0,
        "Connections with tx should be empty"
    );
    assert_eq!(rollup_state.get_transfer_blocks().len(), 1);

    // The committed batch fans out to its one connected recipient.
    let receivers = server.connected_receivers(&merkle_proof);
    assert_eq!(receivers.len(), 1);
    assert_eq!(receivers[0], receiver.public_key);
}

#[test]
fn test_start_collecting_signatures_with_no_batches_is_a_no_op() {
    let (mut server, _, _) = setup();

    assert!(server.start_collecting_signatures().unwrap().is_none());
}

#[test]
fn test_remove_connection_drops_receiver_fanout() {
    let (mut server, mut client, _) = setup();
    let receiver = Wallet::new();
    server.add_connection(client.public_key.clone());
    server.add_connection(receiver.public_key.clone());

    client
        .append_transaction_to_batch(receiver.public_key.clone(), 10)
        .unwrap();
    let batch = client.produce_batch().unwrap();
    server.add_batch(&batch).unwrap();
    let proofs = server.start_collecting_signatures().unwrap().unwrap();

    server.remove_connection(&receiver.public_key).unwrap();

    let receivers = server.connected_receivers(&proofs[0].1);
    assert_eq!(receivers.len(), 0);
}

#[test]
fn test_new_transfer_blocks_reports_only_unseen_blocks() {
    let (mut server, mut client, _) = setup();
    let receiver = Wallet::new();
    server.add_connection(client.public_key.clone());

    client
        .append_transaction_to_batch(receiver.public_key.clone(), 10)
        .unwrap();
    let batch = client.produce_batch().unwrap();
    server.add_batch(&batch).unwrap();
    let proofs = server.start_collecting_signatures().unwrap().unwrap();
    let signature = client.validate_and_sign_proof(&proofs[0].1).unwrap();
    server
        .add_signature(&client.public_key, &signature)
        .unwrap();
    let block = server.finalise().unwrap();

    let before: Vec<_> = vec![];
    let after = vec![block.clone()];

    assert_eq!(new_transfer_blocks(&before, &after).len(), 1);
    assert_eq!(new_transfer_blocks(&after, &after).len(), 0);
}
