//! Merging balance proofs, and the balance-proof validator: the procedure
//! that checks every inclusion proof in a balance proof against the
//! settlement view and reconstructs the balances the proof justifies.

use vstd::prelude::*;

use crate::assoc::{al_contains, al_map, al_wf, lemma_al_map_props};
use crate::errors::StatelessBitcoinError;
use crate::rollup::mock_rollup_memory::{
    spec_amount, spec_find_block, AccountTotals, MockRollupMemory, TotalsEntryView,
};
use crate::types::balance::{bp_as_map, bp_contains, bp_wf, BalanceProof, BalanceProofEntryView};
use crate::types::common::TransferBlockView;
use crate::types::public_key::BlsPublicKey;
use crate::types::transaction::{BatchView, TxView};

verus! {

/// The most transactions one balance proof may carry. The accumulator below
/// is 128 bits wide; this cap, far beyond what a machine can hold, keeps its
/// arithmetic in range.
pub const TX_TOTAL_LIMIT: u64 = 0x1_0000_0000_0000;

/// What one transaction does to one account: credits its recipient and debits
/// the batch's sender.
pub open spec fn tx_flow(t: TxView, from: Seq<u8>, pk: Seq<u8>) -> int {
    (if t.to == pk {
        t.amount as int
    } else {
        0
    }) - (if from == pk {
        t.amount as int
    } else {
        0
    })
}

/// What a batch's transactions, in order, do to one account.
pub open spec fn txs_flow(txs: Seq<TxView>, from: Seq<u8>, pk: Seq<u8>) -> int
    decreases txs.len(),
{
    if txs.len() == 0 {
        0
    } else {
        txs_flow(txs.drop_last(), from, pk) + tx_flow(txs.last(), from, pk)
    }
}

/// What all batches of a balance proof do to one account.
pub open spec fn net_flow(entries: Seq<BalanceProofEntryView>, pk: Seq<u8>) -> int
    decreases entries.len(),
{
    if entries.len() == 0 {
        0
    } else {
        net_flow(entries.drop_last(), pk) + txs_flow(
            entries.last().1.batch.transactions,
            entries.last().1.batch.from,
            pk,
        )
    }
}

/// How many transactions a balance proof carries in all.
pub open spec fn spec_tx_total(entries: Seq<BalanceProofEntryView>) -> int
    decreases entries.len(),
{
    if entries.len() == 0 {
        0
    } else {
        spec_tx_total(entries.drop_last()) + entries.last().1.batch.transactions.len()
    }
}

/// Whether an entry's transaction at one position touches an account, as its
/// sender or its recipient.
pub open spec fn entry_touches(e: BalanceProofEntryView, j: int, pk: Seq<u8>) -> bool {
    0 <= j < e.1.batch.transactions.len() && (e.1.batch.from == pk
        || e.1.batch.transactions[j].to == pk)
}

/// Whether an account is touched by any transaction of the balance proof,
/// as its sender or its recipient.
pub open spec fn spec_participant(entries: Seq<BalanceProofEntryView>, pk: Seq<u8>) -> bool {
    exists|i: int, j: int| 0 <= i < entries.len() && #[trigger] entry_touches(entries[i], j, pk)
}

/// How validating one balance-proof entry can fail.
pub ghost enum ValidationErrView {
    /// The entry's inclusion proof does not check out.
    InvalidProof,
    /// No transfer block on the settlement view carries the entry's root with
    /// its sender.
    MissingBlock(BatchView),
    /// The matching transfer block's signature does not certify its root.
    BadBlock,
}

/// One entry checks out: its proof verifies, a transfer block on the
/// settlement view carries its root and sender, and that block certifies its
/// root.
pub open spec fn spec_entry_ok(e: BalanceProofEntryView, blocks: Seq<TransferBlockView>) -> bool {
    &&& e.1.valid()
    &&& spec_find_block(blocks, e.1.root, e.1.batch.from) matches Some(b) && b.certifies()
}

/// The first failure validating one entry, if any.
pub open spec fn spec_entry_err(
    e: BalanceProofEntryView,
    blocks: Seq<TransferBlockView>,
) -> Option<ValidationErrView> {
    if !e.1.valid() {
        Some(ValidationErrView::InvalidProof)
    } else {
        match spec_find_block(blocks, e.1.root, e.1.batch.from) {
            None => Some(ValidationErrView::MissingBlock(e.1.batch)),
            Some(b) => if !b.certifies() {
                Some(ValidationErrView::BadBlock)
            } else {
                None
            },
        }
    }
}

/// The first failure validating the entries in order, if any.
pub open spec fn spec_scan(
    entries: Seq<BalanceProofEntryView>,
    blocks: Seq<TransferBlockView>,
) -> Option<ValidationErrView>
    decreases entries.len(),
{
    if entries.len() == 0 {
        None
    } else {
        match spec_entry_err(entries[0], blocks) {
            Some(e) => Some(e),
            None => spec_scan(entries.drop_first(), blocks),
        }
    }
}

/// A prefix of entries that all check out leaves the scan's outcome to the
/// rest.
proof fn lemma_scan_skip(
    entries: Seq<BalanceProofEntryView>,
    blocks: Seq<TransferBlockView>,
    i: int,
)
    requires
        0 <= i <= entries.len(),
        forall|j: int| 0 <= j < i ==> spec_entry_err(#[trigger] entries[j], blocks) is None,
    ensures
        spec_scan(entries, blocks) == spec_scan(entries.skip(i), blocks),
    decreases i,
{
    if i > 0 {
        lemma_scan_skip(entries, blocks, i - 1);
        let t = entries.skip(i - 1);
        assert(t.len() > 0);
        assert(t[0] == entries[i - 1]);
        assert(spec_entry_err(entries[i - 1], blocks) is None);
        assert(t.drop_first() =~= entries.skip(i));
    } else {
        assert(entries.skip(0) =~= entries);
    }
}

/// The running account deltas while a balance proof is replayed.
pub type DeltaEntryView = (Seq<u8>, i128);

/// The delta a running accumulation records for an account; absent accounts
/// hold 0.
pub open spec fn delta_value(s: Seq<DeltaEntryView>, pk: Seq<u8>) -> int {
    if al_contains(s, pk) {
        al_map(s)[pk] as int
    } else {
        0
    }
}

/// Shifts one account's running delta by a signed amount.
fn delta_apply(delta: &mut Vec<(BlsPublicKey, i128)>, public_key: &BlsPublicKey, amount: i128)
    requires
        al_wf(old(delta)@.map_values(|e: (BlsPublicKey, i128)| (e.0@, e.1))),
        i128::MIN <= delta_value(
            old(delta)@.map_values(|e: (BlsPublicKey, i128)| (e.0@, e.1)),
            public_key@,
        ) + amount <= i128::MAX,
    ensures
        ({
            let old_view = old(delta)@.map_values(|e: (BlsPublicKey, i128)| (e.0@, e.1));
            let new_view = final(delta)@.map_values(|e: (BlsPublicKey, i128)| (e.0@, e.1));
            &&& al_wf(new_view)
            &&& delta_value(new_view, public_key@) == delta_value(old_view, public_key@) + amount
            &&& forall|q: Seq<u8>|
                q != public_key@ ==> #[trigger] delta_value(new_view, q) == delta_value(
                    old_view,
                    q,
                )
            &&& forall|q: Seq<u8>|
                #[trigger] al_contains(new_view, q) <==> (al_contains(old_view, q) || q
                    == public_key@)
        }),
{
    let ghost old_view = delta@.map_values(|e: (BlsPublicKey, i128)| (e.0@, e.1));
    let n = delta.len();
    let mut i: usize = 0;
    while i < n
        invariant
            i <= n,
            n == delta@.len(),
            old_view == delta@.map_values(|e: (BlsPublicKey, i128)| (e.0@, e.1)),
            old_view == old(delta)@.map_values(|e: (BlsPublicKey, i128)| (e.0@, e.1)),
            al_wf(old_view),
            i128::MIN <= delta_value(old_view, public_key@) + amount <= i128::MAX,
            forall|j: int| 0 <= j < i ==> old_view[j].0 != public_key@,
        decreases n - i,
    {
        if (&delta[i].0).key_eq(public_key) {
            let current = delta[i].1;
            proof {
                lemma_al_map_props(old_view);
                assert(old_view[i as int].0 == public_key@);
                assert(al_contains(old_view, public_key@));
                assert(al_map(old_view)[old_view[i as int].0] == old_view[i as int].1);
                assert(current == old_view[i as int].1);
            }
            delta.set(i, (public_key.clone(), current + amount));
            proof {
                let new_view = delta@.map_values(|e: (BlsPublicKey, i128)| (e.0@, e.1));
                assert(new_view =~= old_view.update(
                    i as int,
                    (public_key@, (current + amount) as i128),
                ));
                crate::assoc::lemma_al_map_update(old_view, new_view, i as int);
                lemma_al_map_props(new_view);
                assert(al_contains(new_view, public_key@)) by {
                    assert(new_view[i as int].0 == public_key@);
                }
                assert(al_map(new_view)[new_view[i as int].0] == new_view[i as int].1);
                assert forall|q: Seq<u8>| q != public_key@ implies #[trigger] delta_value(
                    new_view,
                    q,
                ) == delta_value(old_view, q) by {
                    assert(al_contains(new_view, q) <==> al_contains(old_view, q));
                }
                assert forall|q: Seq<u8>| #[trigger] al_contains(new_view, q) <==> (al_contains(
                    old_view,
                    q,
                ) || q == public_key@) by {
                    assert(al_contains(new_view, q) <==> al_map(new_view).dom().contains(q));
                    assert(al_contains(old_view, q) <==> al_map(old_view).dom().contains(q));
                }
                assert(delta_value(old_view, public_key@) == current);
                assert(delta_value(new_view, public_key@) == current + amount);
            }
            return ;
        }
        i = i + 1;
    }
    proof {
        assert(!al_contains(old_view, public_key@));
    }
    delta.push((public_key.clone(), amount));
    proof {
        let new_view = delta@.map_values(|e: (BlsPublicKey, i128)| (e.0@, e.1));
        assert(new_view =~= old_view.push((public_key@, amount)));
        crate::assoc::lemma_al_map_push(old_view, public_key@, amount);
        lemma_al_map_props(new_view);
        assert(al_contains(new_view, public_key@)) by {
            assert(new_view[old_view.len() as int].0 == public_key@);
        }
        assert(al_map(new_view)[new_view[old_view.len() as int].0]
            == new_view[old_view.len() as int].1);
        assert forall|q: Seq<u8>| q != public_key@ implies #[trigger] delta_value(new_view, q)
            == delta_value(old_view, q) by {
            assert(al_contains(new_view, q) <==> al_contains(old_view, q)) by {
                if al_contains(new_view, q) {
                    let j = choose|j: int| 0 <= j < new_view.len() && new_view[j].0 == q;
                    assert(j < old_view.len());
                    assert(old_view[j].0 == q);
                }
                if al_contains(old_view, q) {
                    let j = choose|j: int| 0 <= j < old_view.len() && old_view[j].0 == q;
                    assert(new_view[j].0 == q);
                }
            }
        }
        assert forall|q: Seq<u8>| #[trigger] al_contains(new_view, q) <==> (al_contains(
            old_view,
            q,
        ) || q == public_key@) by {
            if q != public_key@ {
                if al_contains(new_view, q) {
                    let j = choose|j: int| 0 <= j < new_view.len() && new_view[j].0 == q;
                    assert(j < old_view.len());
                    assert(old_view[j].0 == q);
                }
                if al_contains(old_view, q) {
                    let j = choose|j: int| 0 <= j < old_view.len() && old_view[j].0 == q;
                    assert(new_view[j].0 == q);
                }
            }
        }
        assert(delta_value(old_view, public_key@) == 0);
        assert(delta_value(new_view, public_key@) == amount);
    }
}

/// A total transaction count is never negative.
pub proof fn lemma_tx_total_nonneg(entries: Seq<BalanceProofEntryView>)
    ensures
        spec_tx_total(entries) >= 0,
    decreases entries.len(),
{
    if entries.len() > 0 {
        lemma_tx_total_nonneg(entries.drop_last());
    }
}

/// The transaction count of one more entry.
pub proof fn lemma_tx_total_take_step(entries: Seq<BalanceProofEntryView>, i: int)
    requires
        0 < i <= entries.len(),
    ensures
        spec_tx_total(entries.take(i)) == spec_tx_total(entries.take(i - 1))
            + entries[i - 1].1.batch.transactions.len(),
{
    let t = entries.take(i);
    assert(t.drop_last() =~= entries.take(i - 1));
    assert(t.last() == entries[i - 1]);
}

/// A prefix carries no more transactions than the whole.
pub proof fn lemma_tx_total_take_le(entries: Seq<BalanceProofEntryView>, i: int)
    requires
        0 <= i <= entries.len(),
    ensures
        spec_tx_total(entries.take(i)) <= spec_tx_total(entries),
    decreases entries.len() - i,
{
    if i == entries.len() {
        assert(entries.take(i) =~= entries);
    } else {
        lemma_tx_total_take_le(entries, i + 1);
        lemma_tx_total_take_step(entries, i + 1);
    }
}

/// The merge of two balance proofs: the receiver's entries, then each sender
/// entry whose key is still absent, in the sender's order.
pub open spec fn spec_merge(
    cur: Seq<BalanceProofEntryView>,
    snd: Seq<BalanceProofEntryView>,
) -> Seq<BalanceProofEntryView>
    decreases snd.len(),
{
    if snd.len() == 0 {
        cur
    } else {
        let prev = spec_merge(cur, snd.drop_last());
        if al_contains(prev, snd.last().0) {
            prev
        } else {
            prev.push(snd.last())
        }
    }
}

/// Merges a sender's balance proof into the receiver's: entries of the
/// receiver win, fresh entries of the sender are appended in the sender's
/// order.
pub fn merge_balance_proofs(
    current_client_balance_proof: BalanceProof,
    sender_balance_proof: BalanceProof,
) -> (r: Result<BalanceProof, StatelessBitcoinError>)
    requires
        current_client_balance_proof.wf(),
        sender_balance_proof.wf(),
    ensures
        r is Ok,
        r matches Ok(merged) ==> merged@ == spec_merge(
            current_client_balance_proof@,
            sender_balance_proof@,
        ),
        r matches Ok(merged) ==> merged.wf() && bp_as_map(merged@) == bp_as_map(
            sender_balance_proof@,
        ).union_prefer_right(bp_as_map(current_client_balance_proof@)) && spec_tx_total(merged@)
            <= spec_tx_total(current_client_balance_proof@) + spec_tx_total(
            sender_balance_proof@,
        ),
{
    let ghost cur = current_client_balance_proof@;
    let ghost snd = sender_balance_proof@;
    let mut merged = current_client_balance_proof;
    let n = sender_balance_proof.len();
    let mut i: usize = 0;
    proof {
        assert(snd.take(0) =~= Seq::<BalanceProofEntryView>::empty());
        assert(spec_merge(cur, snd.take(0)) == cur);
        assert(bp_as_map(merged@) =~= bp_as_map(snd.take(0)).union_prefer_right(bp_as_map(cur)));
    }
    while i < n
        invariant
            i <= n,
            n == snd.len(),
            snd == sender_balance_proof@,
            bp_wf(cur),
            bp_wf(snd),
            merged.wf(),
            merged@ == spec_merge(cur, snd.take(i as int)),
            bp_as_map(merged@) == bp_as_map(snd.take(i as int)).union_prefer_right(bp_as_map(cur)),
            spec_tx_total(merged@) <= spec_tx_total(cur) + spec_tx_total(snd.take(i as int)),
            forall|k: crate::types::balance::BalanceProofKeyView|
                #[trigger] bp_contains(merged@, k) <==> (bp_contains(cur, k) || bp_contains(
                    snd.take(i as int),
                    k,
                )),
        decreases n - i,
    {
        let ghost prefix = snd.take(i as int);
        let ghost old_merged = merged@;
        let (key, proof_value) = sender_balance_proof.entry_at(i);
        proof {
            lemma_al_map_props(prefix);
            lemma_al_map_props(old_merged);
            lemma_al_map_props(cur);
        }
        if !merged.contains_key(key) {
            merged.insert(key.clone(), proof_value.clone());
            proof {
                assert(merged@ =~= old_merged.push((key@, proof_value@)));
                lemma_tx_total_push(old_merged, (key@, proof_value@));
            }
        }
        i = i + 1;
        proof {
            let next = snd.take(i as int);
            assert(next.drop_last() =~= prefix);
            assert(next.last() == snd[i - 1]);
            assert(snd[i - 1].0 == key@ && snd[i - 1].1 == proof_value@);
            assert(spec_merge(cur, next) == if al_contains(spec_merge(cur, prefix), key@) {
                spec_merge(cur, prefix)
            } else {
                spec_merge(cur, prefix).push(snd[i - 1])
            });
            assert(bp_as_map(next) == bp_as_map(prefix).insert(key@, proof_value@));
            lemma_al_map_props(next);
            lemma_tx_total_take_step(snd, i as int);
            if bp_contains(old_merged, key@) {
                assert(bp_contains(cur, key@) || bp_contains(prefix, key@));
                assert(bp_contains(cur, key@)) by {
                    if bp_contains(prefix, key@) {
                        let a = choose|a: int| 0 <= a < prefix.len() && prefix[a].0 == key@;
                        assert(snd[a].0 == key@);
                        assert(snd[i - 1].0 == key@);
                        assert(a < i - 1);
                        assert(false);
                    }
                }
                assert(bp_as_map(merged@) =~= bp_as_map(next).union_prefer_right(bp_as_map(cur)));
            } else {
                assert(!bp_contains(cur, key@));
                assert(bp_as_map(merged@) =~= bp_as_map(next).union_prefer_right(bp_as_map(cur)));
            }
            assert forall|k: crate::types::balance::BalanceProofKeyView|
                #[trigger] bp_contains(merged@, k) <==> (bp_contains(cur, k) || bp_contains(
                    next,
                    k,
                )) by {
                lemma_al_map_props(merged@);
                assert(bp_contains(merged@, k) <==> bp_as_map(merged@).dom().contains(k));
                assert(bp_contains(cur, k) <==> bp_as_map(cur).dom().contains(k));
                assert(bp_contains(next, k) <==> bp_as_map(next).dom().contains(k));
            }
        }
    }
    proof {
        assert(snd.take(n as int) =~= snd);
    }
    Ok(merged)
}

/// The transaction count of one appended entry.
proof fn lemma_tx_total_push(entries: Seq<BalanceProofEntryView>, e: BalanceProofEntryView)
    ensures
        spec_tx_total(entries.push(e)) == spec_tx_total(entries)
            + e.1.batch.transactions.len(),
{
    assert(entries.push(e).drop_last() =~= entries);
    assert(entries.push(e).last() == e);
}


/// The running deltas read at spec level.
pub open spec fn delta_view(v: Seq<(BlsPublicKey, i128)>) -> Seq<DeltaEntryView> {
    v.map_values(|e: (BlsPublicKey, i128)| (e.0@, e.1))
}

/// One more batch's flow.
proof fn lemma_net_flow_take_step(entries: Seq<BalanceProofEntryView>, i: int, pk: Seq<u8>)
    requires
        0 < i <= entries.len(),
    ensures
        net_flow(entries.take(i), pk) == net_flow(entries.take(i - 1), pk) + txs_flow(
            entries[i - 1].1.batch.transactions,
            entries[i - 1].1.batch.from,
            pk,
        ),
{
    let t = entries.take(i);
    assert(t.drop_last() =~= entries.take(i - 1));
    assert(t.last() == entries[i - 1]);
}

/// One more transaction's flow.
proof fn lemma_txs_flow_take_step(txs: Seq<TxView>, from: Seq<u8>, j: int, pk: Seq<u8>)
    requires
        0 < j <= txs.len(),
    ensures
        txs_flow(txs.take(j), from, pk) == txs_flow(txs.take(j - 1), from, pk) + tx_flow(
            txs[j - 1],
            from,
            pk,
        ),
{
    let t = txs.take(j);
    assert(t.drop_last() =~= txs.take(j - 1));
    assert(t.last() == txs[j - 1]);
}

/// Where a prefix's participants come from: the shorter prefix, plus the last
/// entry's sender and recipients.
proof fn lemma_participant_take_step(entries: Seq<BalanceProofEntryView>, i: int, pk: Seq<u8>)
    requires
        0 < i <= entries.len(),
    ensures
        spec_participant(entries.take(i), pk) <==> (spec_participant(entries.take(i - 1), pk) || (
        entries[i - 1].1.batch.transactions.len() > 0 && entries[i - 1].1.batch.from == pk) || (
        exists|j: int|
            0 <= j < entries[i - 1].1.batch.transactions.len() && #[trigger] entries[i
                - 1].1.batch.transactions[j].to == pk)),
{
    let t = entries.take(i);
    let p = entries.take(i - 1);
    assert(forall|a: int| 0 <= a < t.len() ==> #[trigger] t[a] == entries[a]);
    assert(forall|a: int| 0 <= a < p.len() ==> #[trigger] p[a] == entries[a]);
    if spec_participant(t, pk) {
        let (a, b) = choose|a: int, b: int|
            0 <= a < t.len() && #[trigger] entry_touches(t[a], b, pk);
        if a < i - 1 {
            assert(entry_touches(p[a], b, pk));
            assert(spec_participant(p, pk));
        } else {
            assert(t[a] == entries[i - 1]);
            if entries[i - 1].1.batch.from != pk {
                assert(entries[i - 1].1.batch.transactions[b].to == pk);
            }
        }
    }
    if spec_participant(p, pk) {
        let (a, b) = choose|a: int, b: int|
            0 <= a < p.len() && #[trigger] entry_touches(p[a], b, pk);
        assert(entry_touches(t[a], b, pk));
        assert(spec_participant(t, pk));
    }
    if entries[i - 1].1.batch.transactions.len() > 0 && entries[i - 1].1.batch.from == pk {
        assert(entry_touches(t[i - 1], 0, pk));
        assert(spec_participant(t, pk));
    }
    if exists|j: int|
        0 <= j < entries[i - 1].1.batch.transactions.len() && #[trigger] entries[i
            - 1].1.batch.transactions[j].to == pk {
        let j = choose|j: int|
            0 <= j < entries[i - 1].1.batch.transactions.len() && #[trigger] entries[i
                - 1].1.batch.transactions[j].to == pk;
        assert(entry_touches(t[i - 1], j, pk));
        assert(spec_participant(t, pk));
    }
}

/// Validates every entry of a balance proof against the settlement view and
/// reconstructs the balances it justifies.
///
/// Each entry's inclusion proof must verify, a transfer block on the view
/// must carry its root and sender, and that block must certify its root.
/// Every transaction then credits its recipient and debits its sender, over a
/// signed 128-bit accumulator so that iteration order cannot feign underflow,
/// and each touched account's final balance is its accumulated flow plus its
/// deposits less its withdrawals, refused if out of the 64-bit range.
pub fn calculate_balances_and_validate_balance_proof(
    rollup_state: &MockRollupMemory,
    balance_proof: &BalanceProof,
) -> (r: Result<AccountTotals, StatelessBitcoinError>)
    requires
        rollup_state.wf(),
        spec_tx_total(balance_proof@) <= TX_TOTAL_LIMIT,
    ensures
        ({
            let entries = balance_proof@;
            let blocks = rollup_state@.transfer_blocks;
            let dep = rollup_state@.deposit_totals;
            let wd = rollup_state@.withdraw_totals;
            &&& (r is Ok <==> spec_scan(entries, blocks) is None && (forall|pk: Seq<u8>|
                #[trigger] spec_participant(entries, pk) ==> 0 <= net_flow(entries, pk)
                    + spec_amount(dep, pk) - spec_amount(wd, pk) <= u64::MAX))
            &&& (r matches Ok(balances) ==> balances.wf() && (forall|pk: Seq<u8>|
                #[trigger] al_contains(balances@, pk) <==> spec_participant(entries, pk)) && (
            forall|pk: Seq<u8>|
                #[trigger] spec_participant(entries, pk) ==> spec_amount(balances@, pk)
                    == net_flow(entries, pk) + spec_amount(dep, pk) - spec_amount(wd, pk)))
            &&& (spec_scan(entries, blocks) == Some(ValidationErrView::InvalidProof) ==> r
                == Err::<AccountTotals, StatelessBitcoinError>(StatelessBitcoinError::InvalidProof))
            &&& (spec_scan(entries, blocks) matches Some(ValidationErrView::MissingBlock(b)) ==> (
            r matches Err(e) && e matches StatelessBitcoinError::BatchNotInATransferBlock(bb)
                && bb@ == b))
            &&& (spec_scan(entries, blocks) == Some(ValidationErrView::BadBlock) ==> r == Err::<
                AccountTotals,
                StatelessBitcoinError,
            >(StatelessBitcoinError::BadTransferBlock))
            &&& (spec_scan(entries, blocks) is None && r is Err ==> (r matches Err(e)
                && e matches StatelessBitcoinError::BalanceNegative(p) && spec_participant(
                entries,
                p@,
            ) && !(0 <= net_flow(entries, p@) + spec_amount(dep, p@) - spec_amount(wd, p@)
                <= u64::MAX)))
        }),
{
    let ghost entries = balance_proof@;
    let ghost blocks = rollup_state@.transfer_blocks;
    let n = balance_proof.len();
    let mut delta: Vec<(BlsPublicKey, i128)> = Vec::new();
    let ghost mut applied: int = 0;
    let mut idx: usize = 0;
    proof {
        assert(entries.take(0) =~= Seq::<BalanceProofEntryView>::empty());
    }
    while idx < n
        invariant
            idx <= n,
            n == entries.len(),
            entries == balance_proof@,
            blocks == rollup_state@.transfer_blocks,
            rollup_state.wf(),
            spec_tx_total(entries) <= TX_TOTAL_LIMIT,
            forall|j: int| 0 <= j < idx ==> spec_entry_err(#[trigger] entries[j], blocks) is None,
            al_wf(delta_view(delta@)),
            applied == 2 * spec_tx_total(entries.take(idx as int)),
            0 <= applied,
            forall|pk: Seq<u8>|
                #[trigger] delta_value(delta_view(delta@), pk) == net_flow(
                    entries.take(idx as int),
                    pk,
                ),
            forall|pk: Seq<u8>|
                #[trigger] al_contains(delta_view(delta@), pk) <==> spec_participant(
                    entries.take(idx as int),
                    pk,
                ),
            forall|pk: Seq<u8>|
                -applied * 0xffff_ffff_ffff_ffff <= #[trigger] delta_value(delta_view(delta@), pk)
                    <= applied * 0xffff_ffff_ffff_ffff,
        decreases n - idx,
    {
        proof {
            lemma_tx_total_take_step(entries, idx + 1);
            lemma_tx_total_take_le(entries, idx + 1);
            lemma_tx_total_nonneg(entries.take(idx as int));
        }
        let (_, tx_proof) = balance_proof.entry_at(idx);
        if !tx_proof.verify() {
            proof {
                lemma_scan_skip(entries, blocks, idx as int);
                assert(entries.skip(idx as int)[0] == entries[idx as int]);
                assert(spec_entry_err(entries[idx as int], blocks) == Some(
                    ValidationErrView::InvalidProof,
                ));
            }
            return Err(StatelessBitcoinError::InvalidProof);
        }
        let found = rollup_state.get_transfer_block_for_merkle_root_and_pubkey(
            &tx_proof.root,
            &tx_proof.batch.from,
        );
        let block = match found {
            Some(block) => block,
            None => {
                proof {
                    lemma_scan_skip(entries, blocks, idx as int);
                    assert(entries.skip(idx as int)[0] == entries[idx as int]);
                    assert(spec_entry_err(entries[idx as int], blocks) == Some(
                        ValidationErrView::MissingBlock(entries[idx as int].1.batch),
                    ));
                }
                return Err(
                    StatelessBitcoinError::BatchNotInATransferBlock(tx_proof.batch.clone()),
                );
            },
        };
        match block.verify() {
            Ok(()) => {},
            Err(_) => {
                proof {
                    lemma_scan_skip(entries, blocks, idx as int);
                    assert(entries.skip(idx as int)[0] == entries[idx as int]);
                    assert(spec_entry_err(entries[idx as int], blocks) == Some(
                        ValidationErrView::BadBlock,
                    ));
                }
                return Err(StatelessBitcoinError::BadTransferBlock);
            },
        }
        proof {
            assert(spec_entry_err(entries[idx as int], blocks) is None);
        }
        let ghost txs = entries[idx as int].1.batch.transactions;
        let ghost from = entries[idx as int].1.batch.from;
        let m = tx_proof.batch.transactions.len();
        let mut j: usize = 0;
        proof {
            assert(txs.take(0) =~= Seq::<TxView>::empty());
        }
        while j < m
            invariant
                j <= m,
                m == txs.len(),
                idx < n,
                n == entries.len(),
                entries == balance_proof@,
                txs == entries[idx as int].1.batch.transactions,
                from == entries[idx as int].1.batch.from,
                txs == tx_proof@.batch.transactions,
                from == tx_proof@.batch.from,
                tx_proof@ == entries[idx as int].1,
                al_wf(delta_view(delta@)),
                applied == 2 * spec_tx_total(entries.take(idx as int)) + 2 * j,
                0 <= applied,
                applied + 2 * (m - j) <= 2 * TX_TOTAL_LIMIT,
                forall|pk: Seq<u8>|
                    #[trigger] delta_value(delta_view(delta@), pk) == net_flow(
                        entries.take(idx as int),
                        pk,
                    ) + txs_flow(txs.take(j as int), from, pk),
                forall|pk: Seq<u8>|
                    #[trigger] al_contains(delta_view(delta@), pk) <==> (spec_participant(
                        entries.take(idx as int),
                        pk,
                    ) || (j > 0 && from == pk) || (exists|jj: int|
                        0 <= jj < j && txs[jj].to == pk)),
                forall|pk: Seq<u8>|
                    -applied * 0xffff_ffff_ffff_ffff <= #[trigger] delta_value(
                        delta_view(delta@),
                        pk,
                    ) <= applied * 0xffff_ffff_ffff_ffff,
            decreases m - j,
        {
            let tx = &tx_proof.batch.transactions[j];
            proof {
                assert(tx@ == txs[j as int]);
            }
            let ghost view0 = delta_view(delta@);
            delta_apply(&mut delta, &tx_proof.batch.from, -(tx.amount as i128));
            proof {
                applied = applied + 1;
            }
            let ghost view1 = delta_view(delta@);
            delta_apply(&mut delta, &tx.to, tx.amount as i128);
            proof {
                applied = applied + 1;
            }
            let ghost view2 = delta_view(delta@);
            j = j + 1;
            proof {
                assert forall|pk: Seq<u8>| #[trigger] delta_value(view2, pk) == delta_value(
                    view0,
                    pk,
                ) + tx_flow(txs[j - 1], from, pk) by {
                    if pk == from && pk == txs[j - 1].to {
                        assert(delta_value(view1, pk) == delta_value(view0, pk) - txs[j
                            - 1].amount);
                        assert(delta_value(view2, pk) == delta_value(view1, pk) + txs[j
                            - 1].amount);
                    } else if pk == from {
                        assert(delta_value(view1, pk) == delta_value(view0, pk) - txs[j
                            - 1].amount);
                        assert(delta_value(view2, pk) == delta_value(view1, pk));
                    } else if pk == txs[j - 1].to {
                        assert(delta_value(view1, pk) == delta_value(view0, pk));
                        assert(delta_value(view2, pk) == delta_value(view1, pk) + txs[j
                            - 1].amount);
                    } else {
                        assert(delta_value(view1, pk) == delta_value(view0, pk));
                        assert(delta_value(view2, pk) == delta_value(view1, pk));
                    }
                }
                assert forall|pk: Seq<u8>| #[trigger] delta_value(view2, pk) == net_flow(
                    entries.take(idx as int),
                    pk,
                ) + txs_flow(txs.take(j as int), from, pk) by {
                    lemma_txs_flow_take_step(txs, from, j as int, pk);
                }
                assert forall|pk: Seq<u8>| #[trigger] al_contains(view2, pk) <==> (
                spec_participant(entries.take(idx as int), pk) || (j > 0 && from == pk) || (
                exists|jj: int| 0 <= jj < j && txs[jj].to == pk)) by {
                    if al_contains(view2, pk) {
                        if !al_contains(view1, pk) {
                            assert(pk == txs[j - 1].to);
                            assert(0 <= j - 1 < j && txs[j - 1].to == pk);
                        } else if !al_contains(view0, pk) {
                            assert(pk == from);
                        }
                    }
                    if exists|jj: int| 0 <= jj < j && txs[jj].to == pk {
                        let jj = choose|jj: int| 0 <= jj < j && txs[jj].to == pk;
                        if jj < j - 1 {
                            assert(al_contains(view0, pk));
                        }
                    }
                }
            }
        }
        idx = idx + 1;
        proof {
            assert(txs.take(m as int) =~= txs);
            assert forall|pk: Seq<u8>| #[trigger] delta_value(delta_view(delta@), pk) == net_flow(
                entries.take(idx as int),
                pk,
            ) by {
                lemma_net_flow_take_step(entries, idx as int, pk);
            }
            assert forall|pk: Seq<u8>| #[trigger] al_contains(delta_view(delta@), pk)
                <==> spec_participant(entries.take(idx as int), pk) by {
                lemma_participant_take_step(entries, idx as int, pk);
            }
        }
    }
    proof {
        assert(entries.take(n as int) =~= entries);
        lemma_scan_skip(entries, blocks, n as int);
        assert(entries.skip(n as int) =~= Seq::<BalanceProofEntryView>::empty());
        lemma_tx_total_nonneg(entries);
    }
    let ghost dv = delta_view(delta@);
    let mut balances = AccountTotals::new();
    let dn = delta.len();
    let mut k: usize = 0;
    while k < dn
        invariant
            k <= dn,
            dn == delta@.len(),
            dv == delta_view(delta@),
            rollup_state.wf(),
            entries == balance_proof@,
            blocks == rollup_state@.transfer_blocks,
            al_wf(dv),
            balances.wf(),
            spec_scan(entries, blocks) is None,
            forall|pk: Seq<u8>| #[trigger] delta_value(dv, pk) == net_flow(entries, pk),
            forall|pk: Seq<u8>|
                #[trigger] al_contains(dv, pk) <==> spec_participant(entries, pk),
            forall|pk: Seq<u8>|
                -0x2_0000_0000_0000 * 0xffff_ffff_ffff_ffff <= #[trigger] delta_value(dv, pk)
                    <= 0x2_0000_0000_0000 * 0xffff_ffff_ffff_ffff,
            forall|a: int|
                0 <= a < k ==> 0 <= net_flow(entries, #[trigger] dv[a].0) + spec_amount(
                    rollup_state@.deposit_totals,
                    dv[a].0,
                ) - spec_amount(rollup_state@.withdraw_totals, dv[a].0) <= u64::MAX,
            forall|a: int|
                0 <= a < k ==> #[trigger] spec_amount(balances@, dv[a].0) == net_flow(
                    entries,
                    dv[a].0,
                ) + spec_amount(rollup_state@.deposit_totals, dv[a].0) - spec_amount(
                    rollup_state@.withdraw_totals,
                    dv[a].0,
                ),
            forall|pk: Seq<u8>|
                #[trigger] al_contains(balances@, pk) <==> (exists|a: int|
                    0 <= a < k && dv[a].0 == pk),
        decreases dn - k,
    {
        let public_key = &delta[k].0;
        let d = delta[k].1;
        proof {
            lemma_al_map_props(dv);
            assert(dv[k as int].0 == public_key@ && dv[k as int].1 == d);
            assert(al_contains(dv, public_key@)) by {
                assert(dv[k as int].0 == public_key@);
            }
            assert(al_map(dv)[dv[k as int].0] == dv[k as int].1);
            assert(delta_value(dv, public_key@) == d);
        }
        let dep = rollup_state.get_account_deposit_amount(public_key);
        let wdr = rollup_state.get_account_withdraw_amount(public_key);
        let fin: i128 = d + dep as i128 - wdr as i128;
        if fin < 0 || fin > u64::MAX as i128 {
            proof {
                assert(spec_participant(entries, public_key@));
            }
            return Err(StatelessBitcoinError::BalanceNegative(public_key.clone()));
        }
        proof {
            assert(!al_contains(balances@, public_key@)) by {
                if exists|a: int| 0 <= a < k && dv[a].0 == public_key@ {
                    let a = choose|a: int| 0 <= a < k && dv[a].0 == public_key@;
                    assert(dv[a].0 == dv[k as int].0);
                    assert(false);
                }
            }
            assert(spec_amount(balances@, public_key@) == 0);
        }
        let ghost old_balances = balances@;
        balances.add_amount(public_key, fin as u64);
        k = k + 1;
        proof {
            assert forall|a: int| 0 <= a < k implies #[trigger] spec_amount(balances@, dv[a].0)
                == net_flow(entries, dv[a].0) + spec_amount(
                rollup_state@.deposit_totals,
                dv[a].0,
            ) - spec_amount(rollup_state@.withdraw_totals, dv[a].0) by {
                if a < k - 1 {
                    assert(dv[a].0 != public_key@);
                    assert(spec_amount(balances@, dv[a].0) == spec_amount(old_balances, dv[a].0));
                }
            }
            assert forall|pk: Seq<u8>| #[trigger] al_contains(balances@, pk) <==> (exists|a: int|
                0 <= a < k && dv[a].0 == pk) by {
                if al_contains(balances@, pk) {
                    if pk == public_key@ {
                        assert(0 <= k - 1 < k && dv[k - 1].0 == pk);
                    } else {
                        assert(al_contains(old_balances, pk));
                        let a = choose|a: int| 0 <= a < k - 1 && dv[a].0 == pk;
                        assert(0 <= a < k && dv[a].0 == pk);
                    }
                } else {
                    if exists|a: int| 0 <= a < k && dv[a].0 == pk {
                        let a = choose|a: int| 0 <= a < k && dv[a].0 == pk;
                        if a < k - 1 {
                            assert(al_contains(old_balances, pk));
                        } else {
                            assert(pk == public_key@);
                        }
                        assert(false);
                    }
                }
            }
        }
    }
    proof {
        assert forall|pk: Seq<u8>| #[trigger] spec_participant(entries, pk) implies 0 <= net_flow(
            entries,
            pk,
        ) + spec_amount(rollup_state@.deposit_totals, pk) - spec_amount(
            rollup_state@.withdraw_totals,
            pk,
        ) <= u64::MAX && spec_amount(balances@, pk) == net_flow(entries, pk) + spec_amount(
            rollup_state@.deposit_totals,
            pk,
        ) - spec_amount(rollup_state@.withdraw_totals, pk) by {
            assert(al_contains(dv, pk));
            let a = choose|a: int| 0 <= a < dv.len() && dv[a].0 == pk;
            assert(0 <= a < dn && dv[a].0 == pk);
        }
        assert forall|pk: Seq<u8>| #[trigger] al_contains(balances@, pk) implies spec_participant(
            entries,
            pk,
        ) by {
            let a = choose|a: int| 0 <= a < dn && dv[a].0 == pk;
            assert(al_contains(dv, pk)) by {
                assert(dv[a].0 == pk);
            }
        }
        assert forall|pk: Seq<u8>| #[trigger] spec_participant(entries, pk) implies al_contains(
            balances@,
            pk,
        ) by {
            assert(al_contains(dv, pk));
            let a = choose|a: int| 0 <= a < dv.len() && dv[a].0 == pk;
            assert(0 <= a < dn && dv[a].0 == pk);
        }
    }
    Ok(balances)
}


/// Law: merging a balance proof into itself is a no-op.
pub proof fn lemma_merge_idempotent(a: Seq<BalanceProofEntryView>)
    ensures
        spec_merge(a, a) == a,
{
    lemma_merge_self_prefix(a, a.len() as int);
    assert(a.take(a.len() as int) =~= a);
}

/// Merging any prefix of a proof into the whole changes nothing.
proof fn lemma_merge_self_prefix(a: Seq<BalanceProofEntryView>, k: int)
    requires
        0 <= k <= a.len(),
    ensures
        spec_merge(a, a.take(k)) == a,
    decreases k,
{
    if k == 0 {
        assert(a.take(0) =~= Seq::<BalanceProofEntryView>::empty());
    } else {
        lemma_merge_self_prefix(a, k - 1);
        let t = a.take(k);
        assert(t.drop_last() =~= a.take(k - 1));
        assert(t.last() == a[k - 1]);
        assert(al_contains(a, a[k - 1].0)) by {
            assert(0 <= k - 1 < a.len() && a[k - 1].0 == a[k - 1].0);
        }
    }
}

/// The merge of two well-formed balance proofs reads as the sender's map laid
/// under the receiver's.
pub proof fn lemma_merge_as_map(
    cur: Seq<BalanceProofEntryView>,
    snd: Seq<BalanceProofEntryView>,
)
    requires
        al_wf(cur),
        al_wf(snd),
    ensures
        al_wf(spec_merge(cur, snd)),
        bp_as_map(spec_merge(cur, snd)) == bp_as_map(snd).union_prefer_right(bp_as_map(cur)),
    decreases snd.len(),
{
    lemma_al_map_props(cur);
    lemma_al_map_props(snd);
    if snd.len() == 0 {
        assert(bp_as_map(spec_merge(cur, snd)) =~= bp_as_map(snd).union_prefer_right(
            bp_as_map(cur),
        ));
    } else {
        let s = snd.drop_last();
        let e = snd.last();
        assert(al_wf(s));
        lemma_merge_as_map(cur, s);
        lemma_al_map_props(s);
        let prev = spec_merge(cur, s);
        lemma_al_map_props(prev);
        assert(bp_as_map(snd) == bp_as_map(s).insert(e.0, e.1));
        if al_contains(prev, e.0) {
            assert(spec_merge(cur, snd) == prev);
            assert(bp_as_map(prev).dom().contains(e.0));
            assert(!al_contains(s, e.0)) by {
                if al_contains(s, e.0) {
                    let j = choose|j: int| 0 <= j < s.len() && s[j].0 == e.0;
                    assert(snd[j].0 == snd[snd.len() - 1].0);
                    assert(false);
                }
            }
            assert(al_contains(cur, e.0));
            assert(bp_as_map(spec_merge(cur, snd)) =~= bp_as_map(snd).union_prefer_right(
                bp_as_map(cur),
            ));
        } else {
            assert(spec_merge(cur, snd) == prev.push(e));
            crate::assoc::lemma_al_map_push(prev, e.0, e.1);
            assert(!al_contains(cur, e.0));
            assert(bp_as_map(spec_merge(cur, snd)) =~= bp_as_map(snd).union_prefer_right(
                bp_as_map(cur),
            ));
        }
    }
}

/// Law: merging is commutative as a key-value map, provided the two proofs
/// agree wherever their keys meet.
pub proof fn lemma_merge_commutative(
    a: Seq<BalanceProofEntryView>,
    b: Seq<BalanceProofEntryView>,
)
    requires
        al_wf(a),
        al_wf(b),
        forall|k: crate::types::balance::BalanceProofKeyView|
            al_contains(a, k) && al_contains(b, k) ==> al_map(a)[k] == #[trigger] al_map(b)[k],
    ensures
        bp_as_map(spec_merge(a, b)) == bp_as_map(spec_merge(b, a)),
{
    lemma_merge_as_map(a, b);
    lemma_merge_as_map(b, a);
    lemma_al_map_props(a);
    lemma_al_map_props(b);
    let ma = al_map(a);
    let mb = al_map(b);
    assert forall|k: crate::types::balance::BalanceProofKeyView|
        #[trigger] mb.union_prefer_right(ma).dom().contains(k) implies ma.union_prefer_right(
        mb,
    ).dom().contains(k) && mb.union_prefer_right(ma)[k] == ma.union_prefer_right(mb)[k] by {
        if ma.dom().contains(k) && mb.dom().contains(k) {
            assert(al_map(b)[k] == al_map(a)[k]);
        }
    }
    assert forall|k: crate::types::balance::BalanceProofKeyView|
        #[trigger] ma.union_prefer_right(mb).dom().contains(k) implies mb.union_prefer_right(
        ma,
    ).dom().contains(k) by {}
    assert(mb.union_prefer_right(ma) =~= ma.union_prefer_right(mb));
}


/// The keys of a totals table, in order.
pub open spec fn keys_of(s: Seq<TotalsEntryView>) -> Seq<Seq<u8>> {
    s.map_values(|e: TotalsEntryView| e.0)
}

/// The sum of a totals table's values.
pub open spec fn sum_values(s: Seq<TotalsEntryView>) -> int
    decreases s.len(),
{
    if s.len() == 0 {
        0
    } else {
        sum_values(s.drop_last()) + s.last().1
    }
}

/// The accumulated flow of each listed account, summed.
pub open spec fn sum_flows(keys: Seq<Seq<u8>>, entries: Seq<BalanceProofEntryView>) -> int
    decreases keys.len(),
{
    if keys.len() == 0 {
        0
    } else {
        sum_flows(keys.drop_last(), entries) + net_flow(entries, keys.last())
    }
}

/// One batch's flow into each listed account, summed.
pub open spec fn sum_txflows(keys: Seq<Seq<u8>>, txs: Seq<TxView>, from: Seq<u8>) -> int
    decreases keys.len(),
{
    if keys.len() == 0 {
        0
    } else {
        sum_txflows(keys.drop_last(), txs, from) + txs_flow(txs, from, keys.last())
    }
}

/// One transaction's flow into each listed account, summed.
pub open spec fn sum_single(keys: Seq<Seq<u8>>, t: TxView, from: Seq<u8>) -> int
    decreases keys.len(),
{
    if keys.len() == 0 {
        0
    } else {
        sum_single(keys.drop_last(), t, from) + tx_flow(t, from, keys.last())
    }
}

/// A table's amount for each listed account, summed.
pub open spec fn sum_amounts(keys: Seq<Seq<u8>>, table: Seq<TotalsEntryView>) -> int
    decreases keys.len(),
{
    if keys.len() == 0 {
        0
    } else {
        sum_amounts(keys.drop_last(), table) + spec_amount(table, keys.last())
    }
}

/// A table's value over the entries whose account is not listed, summed.
pub open spec fn sum_outside(table: Seq<TotalsEntryView>, keys: Seq<Seq<u8>>) -> int
    decreases table.len(),
{
    if table.len() == 0 {
        0
    } else {
        sum_outside(table.drop_last(), keys) + if keys.contains(table.last().0) {
            0
        } else {
            table.last().1 as int
        }
    }
}

/// Flows over a list of accounts split at the last batch.
proof fn lemma_sum_flows_split(keys: Seq<Seq<u8>>, entries: Seq<BalanceProofEntryView>)
    requires
        entries.len() > 0,
    ensures
        sum_flows(keys, entries) == sum_flows(keys, entries.drop_last()) + sum_txflows(
            keys,
            entries.last().1.batch.transactions,
            entries.last().1.batch.from,
        ),
    decreases keys.len(),
{
    if keys.len() > 0 {
        lemma_sum_flows_split(keys.drop_last(), entries);
    }
}

/// Flows of a batch over a list of accounts split at the last transaction.
proof fn lemma_sum_txflows_split(keys: Seq<Seq<u8>>, txs: Seq<TxView>, from: Seq<u8>)
    requires
        txs.len() > 0,
    ensures
        sum_txflows(keys, txs, from) == sum_txflows(keys, txs.drop_last(), from) + sum_single(
            keys,
            txs.last(),
            from,
        ),
    decreases keys.len(),
{
    if keys.len() > 0 {
        lemma_sum_txflows_split(keys.drop_last(), txs, from);
    }
}

/// An empty batch flows nothing.
proof fn lemma_sum_txflows_empty(keys: Seq<Seq<u8>>, txs: Seq<TxView>, from: Seq<u8>)
    requires
        txs.len() == 0,
    ensures
        sum_txflows(keys, txs, from) == 0,
    decreases keys.len(),
{
    if keys.len() > 0 {
        lemma_sum_txflows_empty(keys.drop_last(), txs, from);
    }
}

/// Pushing an account onto a list of distinct accounts keeps it distinct and
/// extends what the list contains by that account.
proof fn lemma_distinct_push(keys: Seq<Seq<u8>>, k: Seq<u8>)
    requires
        crate::server::server_state::pks_distinct(keys),
        !keys.contains(k),
    ensures
        crate::server::server_state::pks_distinct(keys.push(k)),
        forall|q: Seq<u8>| keys.push(k).contains(q) <==> (keys.contains(q) || q == k),
{
    let t = keys.push(k);
    assert forall|i: int, j: int| 0 <= i < j < t.len() implies t[i] != t[j] by {
        if j < keys.len() {
            assert(t[i] == keys[i] && t[j] == keys[j]);
        } else {
            assert(t[i] == keys[i]);
            assert(keys.contains(keys[i]));
        }
    }
    assert forall|q: Seq<u8>| t.contains(q) <==> (keys.contains(q) || q == k) by {
        if t.contains(q) {
            let i = choose|i: int| 0 <= i < t.len() && t[i] == q;
            if i < keys.len() {
                assert(keys[i] == q);
            }
        }
        if keys.contains(q) {
            let i = choose|i: int| 0 <= i < keys.len() && keys[i] == q;
            assert(t[i] == q);
        }
        if q == k {
            assert(t[t.len() - 1] == q);
        }
    }
}

/// One transaction's flow summed over distinct accounts: its amount in if the
/// recipient is listed, its amount out if the sender is.
proof fn lemma_sum_single_value(keys: Seq<Seq<u8>>, t: TxView, from: Seq<u8>)
    requires
        crate::server::server_state::pks_distinct(keys),
    ensures
        sum_single(keys, t, from) == (if keys.contains(t.to) {
            t.amount as int
        } else {
            0
        }) - (if keys.contains(from) {
            t.amount as int
        } else {
            0
        }),
    decreases keys.len(),
{
    if keys.len() == 0 {
        assert(!keys.contains(t.to));
        assert(!keys.contains(from));
    } else {
        let p = keys.drop_last();
        let x = keys.last();
        assert(crate::server::server_state::pks_distinct(p)) by {
            assert(forall|i: int| 0 <= i < p.len() ==> #[trigger] p[i] == keys[i]);
        }
        lemma_sum_single_value(p, t, from);
        assert(!p.contains(x)) by {
            if p.contains(x) {
                let i = choose|i: int| 0 <= i < p.len() && p[i] == x;
                assert(keys[i] == keys[keys.len() - 1]);
                assert(false);
            }
        }
        assert forall|q: Seq<u8>| #[trigger] keys.contains(q) <==> (p.contains(q) || q == x) by {
            if keys.contains(q) {
                let i = choose|i: int| 0 <= i < keys.len() && keys[i] == q;
                if i < keys.len() - 1 {
                    assert(p[i] == q);
                }
            }
            if p.contains(q) {
                let i = choose|i: int| 0 <= i < p.len() && p[i] == q;
                assert(keys[i] == q);
            }
            if q == x {
                assert(keys[keys.len() - 1] == q);
            }
        }
    }
}

/// An account no transaction touches accumulates no flow.
proof fn lemma_net_flow_absent(entries: Seq<BalanceProofEntryView>, pk: Seq<u8>)
    requires
        !spec_participant(entries, pk),
    ensures
        net_flow(entries, pk) == 0,
    decreases entries.len(),
{
    if entries.len() > 0 {
        let p = entries.drop_last();
        assert(!spec_participant(p, pk)) by {
            if spec_participant(p, pk) {
                let (a, b) = choose|a: int, b: int|
                    0 <= a < p.len() && #[trigger] entry_touches(p[a], b, pk);
                assert(entry_touches(entries[a], b, pk));
                assert(spec_participant(entries, pk));
            }
        }
        lemma_net_flow_absent(p, pk);
        let last = entries[entries.len() - 1];
        assert(txs_flow(last.1.batch.transactions, last.1.batch.from, pk) == 0) by {
            assert(last.1.batch.transactions.take(last.1.batch.transactions.len() as int)
                =~= last.1.batch.transactions);
            lemma_txs_flow_absent(
                last.1.batch.transactions,
                last.1.batch.transactions,
                last.1.batch.from,
                pk,
                entries,
            );
        }
    }
}

/// Transactions that neither come from nor go to an account flow nothing to
/// it. The batch is the last entry's, untouched by the account.
proof fn lemma_txs_flow_absent(
    txs: Seq<TxView>,
    all_txs: Seq<TxView>,
    from: Seq<u8>,
    pk: Seq<u8>,
    entries: Seq<BalanceProofEntryView>,
)
    requires
        entries.len() > 0,
        all_txs == entries.last().1.batch.transactions,
        from == entries.last().1.batch.from,
        txs.len() <= all_txs.len(),
        txs == all_txs.take(txs.len() as int),
        !spec_participant(entries, pk),
    ensures
        txs_flow(txs, from, pk) == 0,
    decreases txs.len(),
{
    if txs.len() > 0 {
        let t = txs.last();
        assert(t == all_txs[txs.len() - 1]);
        assert(!entry_touches(entries.last(), txs.len() - 1, pk)) by {
            if entry_touches(entries.last(), txs.len() - 1, pk) {
                assert(0 <= entries.len() - 1 < entries.len() && entry_touches(
                    entries[entries.len() - 1],
                    txs.len() - 1,
                    pk,
                ));
                assert(spec_participant(entries, pk));
            }
        }
        assert(from != pk && t.to != pk);
        assert(txs.drop_last() =~= all_txs.take(txs.len() - 1));
        lemma_txs_flow_absent(txs.drop_last(), all_txs, from, pk, entries);
    }
}

/// The flow summed over the accounts a balance proof touches is zero: every
/// amount leaves one account and enters another.
proof fn lemma_sum_flows_zero(keys: Seq<Seq<u8>>, entries: Seq<BalanceProofEntryView>)
    requires
        crate::server::server_state::pks_distinct(keys),
        forall|pk: Seq<u8>| #[trigger] spec_participant(entries, pk) ==> keys.contains(pk),
    ensures
        sum_flows(keys, entries) == 0,
    decreases entries.len(),
{
    if entries.len() == 0 {
        lemma_sum_flows_trivial(keys, entries);
    } else {
        let p = entries.drop_last();
        let last = entries.last();
        lemma_sum_flows_split(keys, entries);
        assert forall|pk: Seq<u8>| #[trigger] spec_participant(p, pk) implies keys.contains(
            pk,
        ) by {
            let (a, b) = choose|a: int, b: int|
                0 <= a < p.len() && #[trigger] entry_touches(p[a], b, pk);
            assert(entry_touches(entries[a], b, pk));
            assert(spec_participant(entries, pk));
        }
        lemma_sum_flows_zero(keys, p);
        lemma_sum_txflows_zero(
            keys,
            last.1.batch.transactions,
            last.1.batch.transactions.len() as int,
            last.1.batch.from,
            entries,
        );
        assert(last.1.batch.transactions.take(last.1.batch.transactions.len() as int)
            =~= last.1.batch.transactions);
    }
}

/// Flows of an empty proof sum to zero over any account list.
proof fn lemma_sum_flows_trivial(keys: Seq<Seq<u8>>, entries: Seq<BalanceProofEntryView>)
    requires
        entries.len() == 0,
    ensures
        sum_flows(keys, entries) == 0,
    decreases keys.len(),
{
    if keys.len() > 0 {
        lemma_sum_flows_trivial(keys.drop_last(), entries);
    }
}

/// The last batch's first transactions, summed over the touched accounts,
/// flow zero.
proof fn lemma_sum_txflows_zero(
    keys: Seq<Seq<u8>>,
    all_txs: Seq<TxView>,
    j: int,
    from: Seq<u8>,
    entries: Seq<BalanceProofEntryView>,
)
    requires
        crate::server::server_state::pks_distinct(keys),
        entries.len() > 0,
        all_txs == entries.last().1.batch.transactions,
        from == entries.last().1.batch.from,
        0 <= j <= all_txs.len(),
        forall|pk: Seq<u8>| #[trigger] spec_participant(entries, pk) ==> keys.contains(pk),
    ensures
        sum_txflows(keys, all_txs.take(j), from) == 0,
    decreases j,
{
    if j == 0 {
        lemma_sum_txflows_empty(keys, all_txs.take(0), from);
    } else {
        let txs = all_txs.take(j);
        assert(txs.drop_last() =~= all_txs.take(j - 1));
        assert(txs.last() == all_txs[j - 1]);
        lemma_sum_txflows_split(keys, txs, from);
        lemma_sum_txflows_zero(keys, all_txs, j - 1, from, entries);
        lemma_sum_single_value(keys, all_txs[j - 1], from);
        assert(spec_participant(entries, all_txs[j - 1].to)) by {
            assert(0 <= entries.len() - 1 < entries.len() && entry_touches(
                entries[entries.len() - 1],
                j - 1,
                all_txs[j - 1].to,
            ));
        }
        assert(spec_participant(entries, from)) by {
            assert(0 <= entries.len() - 1 < entries.len() && entry_touches(
                entries[entries.len() - 1],
                j - 1,
                from,
            ));
        }
        assert(keys.contains(all_txs[j - 1].to));
        assert(keys.contains(from));
    }
}


/// A balance table whose every entry carries the validator's formula sums to
/// its accounts' flows plus deposits less withdrawals.
proof fn lemma_sum_balances_decompose(
    balances: Seq<TotalsEntryView>,
    entries: Seq<BalanceProofEntryView>,
    dep: Seq<TotalsEntryView>,
    wd: Seq<TotalsEntryView>,
)
    requires
        forall|i: int|
            0 <= i < balances.len() ==> #[trigger] balances[i].1 == net_flow(
                entries,
                balances[i].0,
            ) + spec_amount(dep, balances[i].0) - spec_amount(wd, balances[i].0),
    ensures
        sum_values(balances) == sum_flows(keys_of(balances), entries) + sum_amounts(
            keys_of(balances),
            dep,
        ) - sum_amounts(keys_of(balances), wd),
    decreases balances.len(),
{
    if balances.len() > 0 {
        let p = balances.drop_last();
        assert(forall|i: int| 0 <= i < p.len() ==> #[trigger] p[i] == balances[i]);
        lemma_sum_balances_decompose(p, entries, dep, wd);
        assert(keys_of(balances).drop_last() =~= keys_of(p));
        assert(keys_of(balances).last() == balances[balances.len() - 1].0);
    }
}

/// In a well-formed table with one more entry, each account's amount is the
/// shorter table's, except the new account's, which is the new value.
proof fn lemma_spec_amount_push(table: Seq<TotalsEntryView>, pk: Seq<u8>)
    requires
        al_wf(table),
        table.len() > 0,
    ensures
        pk == table.last().0 ==> spec_amount(table, pk) == table.last().1,
        pk != table.last().0 ==> spec_amount(table, pk) == spec_amount(table.drop_last(), pk),
{
    let p = table.drop_last();
    assert(al_wf(p)) by {
        assert(forall|i: int| 0 <= i < p.len() ==> #[trigger] p[i] == table[i]);
    }
    lemma_al_map_props(table);
    lemma_al_map_props(p);
    assert(al_map(table) == al_map(p).insert(table.last().0, table.last().1));
    if pk == table.last().0 {
        assert(al_contains(table, pk)) by {
            assert(table[table.len() - 1].0 == pk);
        }
        assert(al_map(table)[table[table.len() - 1].0] == table[table.len() - 1].1);
    } else {
        assert(al_contains(table, pk) <==> al_contains(p, pk)) by {
            if al_contains(table, pk) {
                let i = choose|i: int| 0 <= i < table.len() && table[i].0 == pk;
                assert(i < table.len() - 1);
                assert(p[i].0 == pk);
            }
            if al_contains(p, pk) {
                let i = choose|i: int| 0 <= i < p.len() && p[i].0 == pk;
                assert(table[i].0 == pk);
            }
        }
    }
}

/// Amounts from a table with one more entry, summed over distinct accounts,
/// grow by the new value exactly when its account is listed.
proof fn lemma_sum_amounts_push(keys: Seq<Seq<u8>>, table: Seq<TotalsEntryView>)
    requires
        crate::server::server_state::pks_distinct(keys),
        al_wf(table),
        table.len() > 0,
    ensures
        sum_amounts(keys, table) == sum_amounts(keys, table.drop_last()) + if keys.contains(
            table.last().0,
        ) {
            table.last().1 as int
        } else {
            0
        },
    decreases keys.len(),
{
    if keys.len() == 0 {
        assert(!keys.contains(table.last().0));
    } else {
        let p = keys.drop_last();
        let x = keys.last();
        assert(crate::server::server_state::pks_distinct(p)) by {
            assert(forall|i: int| 0 <= i < p.len() ==> #[trigger] p[i] == keys[i]);
        }
        lemma_sum_amounts_push(p, table);
        lemma_spec_amount_push(table, x);
        assert(!p.contains(x)) by {
            if p.contains(x) {
                let i = choose|i: int| 0 <= i < p.len() && p[i] == x;
                assert(keys[i] == keys[keys.len() - 1]);
            }
        }
        assert forall|q: Seq<u8>| #[trigger] keys.contains(q) <==> (p.contains(q) || q == x) by {
            if keys.contains(q) {
                let i = choose|i: int| 0 <= i < keys.len() && keys[i] == q;
                if i < keys.len() - 1 {
                    assert(p[i] == q);
                }
            }
            if p.contains(q) {
                let i = choose|i: int| 0 <= i < p.len() && p[i] == q;
                assert(keys[i] == q);
            }
            if q == x {
                assert(keys[keys.len() - 1] == q);
            }
        }
    }
}

/// A well-formed table's total is what the listed accounts hold plus what the
/// rest hold.
proof fn lemma_sum_split_outside(table: Seq<TotalsEntryView>, keys: Seq<Seq<u8>>)
    requires
        al_wf(table),
        crate::server::server_state::pks_distinct(keys),
    ensures
        sum_values(table) == sum_amounts(keys, table) + sum_outside(table, keys),
    decreases table.len(),
{
    if table.len() == 0 {
        lemma_sum_amounts_trivial(keys, table);
    } else {
        let p = table.drop_last();
        assert(al_wf(p)) by {
            assert(forall|i: int| 0 <= i < p.len() ==> #[trigger] p[i] == table[i]);
        }
        lemma_sum_split_outside(p, keys);
        lemma_sum_amounts_push(keys, table);
    }
}

/// Amounts from an empty table sum to zero.
proof fn lemma_sum_amounts_trivial(keys: Seq<Seq<u8>>, table: Seq<TotalsEntryView>)
    requires
        table.len() == 0,
    ensures
        sum_amounts(keys, table) == 0,
    decreases keys.len(),
{
    if keys.len() > 0 {
        lemma_sum_amounts_trivial(keys.drop_last(), table);
    }
}

/// Listing one more account moves its amount from the outside sum to the
/// listed sum.
proof fn lemma_sum_outside_push_key(table: Seq<TotalsEntryView>, keys: Seq<Seq<u8>>, k: Seq<u8>)
    requires
        al_wf(table),
        !keys.contains(k),
    ensures
        sum_outside(table, keys) == sum_outside(table, keys.push(k)) + spec_amount(table, k),
    decreases table.len(),
{
    if table.len() == 0 {
        assert(!al_contains(table, k));
    } else {
        let p = table.drop_last();
        assert(al_wf(p)) by {
            assert(forall|i: int| 0 <= i < p.len() ==> #[trigger] p[i] == table[i]);
        }
        lemma_sum_outside_push_key(p, keys, k);
        lemma_spec_amount_push(table, k);
        let e = table.last();
        assert(keys.push(k).contains(e.0) <==> (keys.contains(e.0) || e.0 == k)) by {
            if keys.push(k).contains(e.0) {
                let i = choose|i: int| 0 <= i < keys.push(k).len() && keys.push(k)[i] == e.0;
                if i < keys.len() {
                    assert(keys[i] == e.0);
                }
            }
            if keys.contains(e.0) {
                let i = choose|i: int| 0 <= i < keys.len() && keys[i] == e.0;
                assert(keys.push(k)[i] == e.0);
            }
            if e.0 == k {
                assert(keys.push(k)[keys.len() as int] == e.0);
            }
        }
        if e.0 == k {
            assert(spec_amount(p, k) == 0) by {
                if al_contains(p, k) {
                    let i = choose|i: int| 0 <= i < p.len() && p[i].0 == k;
                    assert(table[i].0 == table[table.len() - 1].0);
                }
            }
        }
    }
}

/// What unlisted accounts have withdrawn never passes what they deposited.
proof fn lemma_sum_outside_le(
    wd: Seq<TotalsEntryView>,
    dep: Seq<TotalsEntryView>,
    keys: Seq<Seq<u8>>,
)
    requires
        al_wf(wd),
        al_wf(dep),
        crate::server::server_state::pks_distinct(keys),
        forall|pk: Seq<u8>| #[trigger] spec_amount(wd, pk) <= spec_amount(dep, pk),
    ensures
        sum_outside(wd, keys) <= sum_outside(dep, keys),
    decreases wd.len(),
{
    if wd.len() == 0 {
        lemma_sum_outside_nonneg(dep, keys);
    } else {
        let p = wd.drop_last();
        let e = wd.last();
        assert(al_wf(p)) by {
            assert(forall|i: int| 0 <= i < p.len() ==> #[trigger] p[i] == wd[i]);
        }
        assert forall|pk: Seq<u8>| #[trigger] spec_amount(p, pk) <= spec_amount(dep, pk) by {
            lemma_spec_amount_push(wd, pk);
            if pk == e.0 {
                assert(spec_amount(p, pk) == 0) by {
                    if al_contains(p, pk) {
                        let i = choose|i: int| 0 <= i < p.len() && p[i].0 == pk;
                        assert(wd[i].0 == wd[wd.len() - 1].0);
                    }
                }
            }
        }
        if keys.contains(e.0) {
            lemma_sum_outside_le(p, dep, keys);
            assert(sum_outside(wd, keys) == sum_outside(p, keys));
            assert(sum_outside(p, keys) <= sum_outside(dep, keys));
        } else {
            lemma_distinct_push(keys, e.0);
            lemma_sum_outside_le(p, dep, keys.push(e.0));
            assert(sum_outside(p, keys.push(e.0)) == sum_outside(p, keys)) by {
                lemma_sum_outside_push_key(p, keys, e.0);
                assert(spec_amount(p, e.0) == 0) by {
                    if al_contains(p, e.0) {
                        let i = choose|i: int| 0 <= i < p.len() && p[i].0 == e.0;
                        assert(wd[i].0 == wd[wd.len() - 1].0);
                    }
                }
            }
            lemma_sum_outside_push_key(dep, keys, e.0);
            lemma_spec_amount_push(wd, e.0);
            assert(spec_amount(wd, e.0) == e.1);
            assert(e.1 <= spec_amount(dep, e.0));
            assert(sum_outside(wd, keys) == sum_outside(p, keys) + e.1);
            assert(sum_outside(p, keys) == sum_outside(p, keys.push(e.0)));
            assert(sum_outside(p, keys.push(e.0)) <= sum_outside(dep, keys.push(e.0)));
            assert(sum_outside(dep, keys) == sum_outside(dep, keys.push(e.0)) + spec_amount(
                dep,
                e.0,
            ));
        }
    }
}

/// A sum of unsigned values over any account list is never negative.
proof fn lemma_sum_outside_nonneg(table: Seq<TotalsEntryView>, keys: Seq<Seq<u8>>)
    ensures
        sum_outside(table, keys) >= 0,
    decreases table.len(),
{
    if table.len() > 0 {
        lemma_sum_outside_nonneg(table.drop_last(), keys);
    }
}

/// Law: balance conservation. The balances the validator reconstructs never
/// sum to more than the settlement view holds: total deposits less total
/// withdrawals.
pub proof fn lemma_balance_conservation(
    entries: Seq<BalanceProofEntryView>,
    dep: Seq<TotalsEntryView>,
    wd: Seq<TotalsEntryView>,
    balances: Seq<TotalsEntryView>,
)
    requires
        al_wf(dep),
        al_wf(wd),
        al_wf(balances),
        forall|pk: Seq<u8>| #[trigger] spec_amount(wd, pk) <= spec_amount(dep, pk),
        forall|pk: Seq<u8>| #[trigger] al_contains(balances, pk) <==> spec_participant(entries, pk),
        forall|pk: Seq<u8>|
            #[trigger] spec_participant(entries, pk) ==> spec_amount(balances, pk) == net_flow(
                entries,
                pk,
            ) + spec_amount(dep, pk) - spec_amount(wd, pk),
    ensures
        sum_values(balances) <= sum_values(dep) - sum_values(wd),
{
    let keys = keys_of(balances);
    lemma_al_map_props(balances);
    assert(crate::server::server_state::pks_distinct(keys)) by {
        assert forall|i: int, j: int| 0 <= i < j < keys.len() implies keys[i] != keys[j] by {
            assert(keys[i] == balances[i].0 && keys[j] == balances[j].0);
        }
    }
    assert forall|i: int| 0 <= i < balances.len() implies #[trigger] balances[i].1 == net_flow(
        entries,
        balances[i].0,
    ) + spec_amount(dep, balances[i].0) - spec_amount(wd, balances[i].0) by {
        assert(al_contains(balances, balances[i].0)) by {
            assert(balances[i].0 == balances[i].0);
        }
        assert(spec_participant(entries, balances[i].0));
        assert(al_map(balances)[balances[i].0] == balances[i].1);
        assert(spec_amount(balances, balances[i].0) == balances[i].1);
    }
    lemma_sum_balances_decompose(balances, entries, dep, wd);
    assert forall|pk: Seq<u8>| #[trigger] spec_participant(entries, pk) implies keys.contains(
        pk,
    ) by {
        assert(al_contains(balances, pk));
        let i = choose|i: int| 0 <= i < balances.len() && balances[i].0 == pk;
        assert(keys[i] == pk);
    }
    lemma_sum_flows_zero(keys, entries);
    lemma_sum_split_outside(dep, keys);
    lemma_sum_split_outside(wd, keys);
    lemma_sum_outside_le(wd, dep, keys);
}

} // verus!
