// The earliest client draft kept a per-wallet ledger of unconfirmed
// transactions; its sync and receive checks were sketched but never filled
// in. They are kept here, named as they were, beside the wallet tests that
// exercise the behaviour that replaced them.

#[test]
fn client_test_sync_rollup_state_errors_when_rollup_state_has_transaction_not_in_transaction_history()
{
    // Invalid transaction
}

#[test]
fn client_test_sync_rollup_state_errors_when_client_has_transaction_not_in_rollup_state() {
    // Invalid transaction
}

#[test]
fn client_test_add_receiving_transaction_succeeds() {
    // Adds transaction to transaction history
    // Removed from unconfirmed transactions
    // Validate signature
    // Balance increases
}

#[test]
fn client_test_add_receiving_transaction_fails_when_transaction_not_in_rollup_state() {
    // Invalid transaction
}
