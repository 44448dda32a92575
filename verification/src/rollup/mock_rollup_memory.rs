//! An in-memory settlement view: the canonical deposit and withdrawal totals
//! and the chronological log of transfer blocks.

use vstd::prelude::*;

use crate::assoc::{al_contains, al_map, al_wf, lemma_al_map_props, lemma_al_map_push, lemma_al_map_update};
use crate::errors::StatelessBitcoinError;
use crate::types::common::{u8_32_eq, TransferBlock, TransferBlockView, U8_32};
use crate::types::public_key::BlsPublicKey;

verus! {

/// One account's entry in a totals table.
pub type TotalsEntryView = (Seq<u8>, u64);

/// The amount a totals table records for an account; absent accounts hold 0.
pub open spec fn spec_amount(s: Seq<TotalsEntryView>, pk: Seq<u8>) -> u64 {
    if al_contains(s, pk) {
        al_map(s)[pk]
    } else {
        0
    }
}

/// A per-account table of 64-bit totals.
#[derive(Debug, PartialEq, Eq)]
pub struct AccountTotals {
    entries: Vec<(BlsPublicKey, u64)>,
}

impl View for AccountTotals {
    type V = Seq<TotalsEntryView>;

    closed spec fn view(&self) -> Seq<TotalsEntryView> {
        self.entries@.map_values(|e: (BlsPublicKey, u64)| (e.0@, e.1))
    }
}

impl AccountTotals {
    /// A totals table is well formed when its accounts are pairwise distinct.
    pub open spec fn wf(&self) -> bool {
        al_wf(self@)
    }

    /// An empty table.
    pub fn new() -> (r: Self)
        ensures
            r@.len() == 0,
            r.wf(),
    {
        AccountTotals { entries: Vec::new() }
    }

    /// The position of an account, if it is present.
    fn index_of(&self, public_key: &BlsPublicKey) -> (r: Option<usize>)
        ensures
            r matches Some(i) ==> i < self@.len() && self@[i as int].0 == public_key@,
            r is None ==> !al_contains(self@, public_key@),
    {
        let n = self.entries.len();
        let mut i: usize = 0;
        while i < n
            invariant
                i <= n,
                n == self@.len(),
                self@.len() == self.entries@.len(),
                forall|j: int| 0 <= j < i ==> self@[j].0 != public_key@,
                forall|j: int| 0 <= j < self@.len() ==> self@[j].0 == self.entries@[j].0@,
            decreases n - i,
        {
            if (&self.entries[i].0).key_eq(public_key) {
                return Some(i);
            }
            i = i + 1;
        }
        None
    }

    /// How many accounts the table lists.
    pub fn len(&self) -> (r: usize)
        ensures
            r == self@.len(),
    {
        self.entries.len()
    }

    /// The account and total at one position.
    pub fn entry_at(&self, i: usize) -> (r: (&BlsPublicKey, u64))
        requires
            i < self@.len(),
        ensures
            r.0@ == self@[i as int].0,
            r.1 == self@[i as int].1,
    {
        let e = &self.entries[i];
        (&e.0, e.1)
    }

    /// Whether the table holds an entry for the account.
    pub fn contains_account(&self, public_key: &BlsPublicKey) -> (r: bool)
        ensures
            r == al_contains(self@, public_key@),
    {
        match self.index_of(public_key) {
            Some(i) => {
                proof {
                    assert(self@[i as int].0 == public_key@);
                }
                true
            },
            None => false,
        }
    }

    /// The total recorded for an account, 0 when none is.
    pub fn get_amount(&self, public_key: &BlsPublicKey) -> (r: u64)
        requires
            self.wf(),
        ensures
            r == spec_amount(self@, public_key@),
    {
        proof {
            lemma_al_map_props(self@);
        }
        match self.index_of(public_key) {
            Some(i) => {
                proof {
                    assert(al_contains(self@, public_key@)) by {
                        assert(self@[i as int].0 == public_key@);
                    }
                    assert(al_map(self@)[self@[i as int].0] == self@[i as int].1);
                }
                self.entries[i].1
            },
            None => 0,
        }
    }

    /// Raises an account's total by an amount.
    pub fn add_amount(&mut self, public_key: &BlsPublicKey, amount: u64)
        requires
            old(self).wf(),
            spec_amount(old(self)@, public_key@) + amount <= u64::MAX,
        ensures
            final(self).wf(),
            al_map(final(self)@) == al_map(old(self)@).insert(
                public_key@,
                (spec_amount(old(self)@, public_key@) + amount) as u64,
            ),
            al_contains(final(self)@, public_key@),
            forall|q: Seq<u8>|
                #[trigger] al_contains(final(self)@, q) <==> (al_contains(old(self)@, q) || q
                    == public_key@),
            forall|q: Seq<u8>|
                q != public_key@ ==> #[trigger] spec_amount(final(self)@, q) == spec_amount(
                    old(self)@,
                    q,
                ),
            spec_amount(final(self)@, public_key@) == spec_amount(old(self)@, public_key@)
                + amount,
    {
        proof {
            lemma_al_map_props(self@);
        }
        let ghost old_view = self@;
        match self.index_of(public_key) {
            Some(i) => {
                let current = self.entries[i].1;
                proof {
                    assert(al_contains(old_view, public_key@)) by {
                        assert(old_view[i as int].0 == public_key@);
                    }
                    assert(al_map(old_view)[old_view[i as int].0] == old_view[i as int].1);
                }
                self.entries.set(i, (public_key.clone(), current + amount));
                proof {
                    assert(self@ =~= old_view.update(
                        i as int,
                        (public_key@, (current + amount) as u64),
                    ));
                    lemma_al_map_update(old_view, self@, i as int);
                    lemma_al_map_props(self@);
                    assert(al_contains(self@, public_key@)) by {
                        assert(self@[i as int].0 == public_key@);
                    }
                }
            },
            None => {
                self.entries.push((public_key.clone(), amount));
                proof {
                    assert(self@ =~= old_view.push((public_key@, amount)));
                    lemma_al_map_push(old_view, public_key@, amount);
                    lemma_al_map_props(self@);
                    assert(al_contains(self@, public_key@)) by {
                        assert(self@[old_view.len() as int].0 == public_key@);
                    }
                }
            },
        }
        proof {
            lemma_al_map_props(self@);
            assert forall|q: Seq<u8>| #[trigger] al_contains(self@, q) <==> (al_contains(
                old_view,
                q,
            ) || q == public_key@) by {
                assert(al_contains(self@, q) <==> al_map(self@).dom().contains(q));
                assert(al_contains(old_view, q) <==> al_map(old_view).dom().contains(q));
            }
            assert forall|q: Seq<u8>| q != public_key@ implies #[trigger] spec_amount(self@, q)
                == spec_amount(old_view, q) by {
                assert(al_contains(self@, q) <==> al_contains(old_view, q));
            }
        }
    }
}

impl Clone for AccountTotals {
    fn clone(&self) -> (r: Self)
        ensures
            r@ == self@,
    {
        let n = self.entries.len();
        let mut entries: Vec<(BlsPublicKey, u64)> = Vec::new();
        let mut i: usize = 0;
        while i < n
            invariant
                i <= n,
                n == self.entries@.len(),
                entries@.len() == i,
                forall|j: int|
                    0 <= j < i ==> entries@[j].0@ == self.entries@[j].0@ && entries@[j].1
                        == self.entries@[j].1,
            decreases n - i,
        {
            let e = &self.entries[i];
            entries.push((e.0.clone(), e.1));
            i = i + 1;
        }
        let r = AccountTotals { entries };
        proof {
            assert(r@ =~= self@);
        }
        r
    }
}

/// The views of a sequence of transfer blocks.
pub open spec fn blocks_view(s: Seq<TransferBlock>) -> Seq<TransferBlockView> {
    s.map_values(|b: TransferBlock| b@)
}

/// Copies a vector of transfer blocks.
pub fn clone_blocks(v: &Vec<TransferBlock>) -> (r: Vec<TransferBlock>)
    ensures
        blocks_view(r@) == blocks_view(v@),
        r@.len() == v@.len(),
{
    let n = v.len();
    let mut out: Vec<TransferBlock> = Vec::new();
    let mut i: usize = 0;
    while i < n
        invariant
            i <= n,
            n == v@.len(),
            out@.len() == i,
            forall|j: int| 0 <= j < i ==> out@[j]@ == v@[j]@,
        decreases n - i,
    {
        out.push((&v[i]).clone());
        i = i + 1;
    }
    assert(blocks_view(out@) =~= blocks_view(v@));
    out
}

/// The mathematical shape of the settlement view.
pub ghost struct RollupView {
    pub withdraw_totals: Seq<TotalsEntryView>,
    pub deposit_totals: Seq<TotalsEntryView>,
    pub transfer_blocks: Seq<TransferBlockView>,
}

/// The first transfer block carrying the root whose signers include the key,
/// if any does.
pub open spec fn spec_find_block(
    blocks: Seq<TransferBlockView>,
    root: Seq<u8>,
    pk: Seq<u8>,
) -> Option<TransferBlockView>
    decreases blocks.len(),
{
    if blocks.len() == 0 {
        None
    } else if blocks[0].merkle_root == root && blocks[0].signers().contains(pk) {
        Some(blocks[0])
    } else {
        spec_find_block(blocks.drop_first(), root, pk)
    }
}

/// Skipping entries that do not match leaves the first match unchanged.
proof fn lemma_find_block_skip(blocks: Seq<TransferBlockView>, root: Seq<u8>, pk: Seq<u8>, i: int)
    requires
        0 <= i <= blocks.len(),
        forall|j: int|
            0 <= j < i ==> !(blocks[j].merkle_root == root && #[trigger] blocks[j].signers().contains(
                pk,
            )),
    ensures
        spec_find_block(blocks, root, pk) == spec_find_block(blocks.skip(i), root, pk),
    decreases i,
{
    if i > 0 {
        lemma_find_block_skip(blocks, root, pk, i - 1);
        let t = blocks.skip(i - 1);
        assert(t.len() > 0);
        assert(t[0] == blocks[i - 1]);
        assert(!(blocks[i - 1].merkle_root == root && blocks[i - 1].signers().contains(pk)));
        assert(t.drop_first() =~= blocks.skip(i));
        assert(spec_find_block(t, root, pk) == spec_find_block(t.drop_first(), root, pk));
    } else {
        assert(blocks.skip(0) =~= blocks);
    }
}

/// An in-memory settlement store, the mock of the rollup contract.
#[derive(Debug, PartialEq, Eq)]
pub struct MockRollupMemory {
    pub withdraw_totals: AccountTotals,
    pub deposit_totals: AccountTotals,
    pub transfer_blocks: Vec<TransferBlock>,
}

impl View for MockRollupMemory {
    type V = RollupView;

    open spec fn view(&self) -> RollupView {
        RollupView {
            withdraw_totals: self.withdraw_totals@,
            deposit_totals: self.deposit_totals@,
            transfer_blocks: blocks_view(self.transfer_blocks@),
        }
    }
}

impl MockRollupMemory {
    /// Totals tables hold each account once, and no account has withdrawn
    /// more than it deposited.
    pub open spec fn wf(&self) -> bool {
        &&& al_wf(self@.withdraw_totals)
        &&& al_wf(self@.deposit_totals)
        &&& forall|pk: Seq<u8>|
            #[trigger] spec_amount(self@.withdraw_totals, pk) <= spec_amount(
                self@.deposit_totals,
                pk,
            )
    }

    /// An empty settlement view.
    pub fn new() -> (r: Self)
        ensures
            r.wf(),
            r@.withdraw_totals.len() == 0,
            r@.deposit_totals.len() == 0,
            r@.transfer_blocks.len() == 0,
    {
        let r = MockRollupMemory {
            withdraw_totals: AccountTotals::new(),
            deposit_totals: AccountTotals::new(),
            transfer_blocks: Vec::new(),
        };
        proof {
            assert forall|pk: Seq<u8>| #[trigger] spec_amount(r@.withdraw_totals, pk)
                <= spec_amount(r@.deposit_totals, pk) by {
                assert(!al_contains(r@.withdraw_totals, pk));
                assert(!al_contains(r@.deposit_totals, pk));
            }
        }
        r
    }

    /// Records a deposit for an account.
    pub fn add_deposit(&mut self, public_key: &BlsPublicKey, amount: u64) -> (r: Result<
        (),
        StatelessBitcoinError,
    >)
        requires
            old(self).wf(),
            spec_amount(old(self)@.deposit_totals, public_key@) + amount <= u64::MAX,
        ensures
            r is Ok,
            final(self).wf(),
            spec_amount(final(self)@.deposit_totals, public_key@) == spec_amount(
                old(self)@.deposit_totals,
                public_key@,
            ) + amount,
            forall|q: Seq<u8>|
                q != public_key@ ==> #[trigger] spec_amount(final(self)@.deposit_totals, q)
                    == spec_amount(old(self)@.deposit_totals, q),
            final(self)@.withdraw_totals == old(self)@.withdraw_totals,
            final(self)@.transfer_blocks == old(self)@.transfer_blocks,
    {
        self.deposit_totals.add_amount(public_key, amount);
        proof {
            assert forall|pk: Seq<u8>| #[trigger] spec_amount(self@.withdraw_totals, pk)
                <= spec_amount(self@.deposit_totals, pk) by {
                if pk != public_key@ {
                    assert(spec_amount(self@.deposit_totals, pk) == spec_amount(
                        old(self)@.deposit_totals,
                        pk,
                    ));
                }
            }
        }
        Ok(())
    }

    /// Records a withdrawal for an account, refused when it would pass the
    /// account's deposits.
    pub fn add_withdraw(&mut self, public_key: &BlsPublicKey, amount: u64) -> (r: Result<
        (),
        StatelessBitcoinError,
    >)
        requires
            old(self).wf(),
        ensures
            final(self).wf(),
            r is Err <==> amount > spec_amount(old(self)@.deposit_totals, public_key@)
                - spec_amount(old(self)@.withdraw_totals, public_key@),
            r is Err ==> r == Err::<(), StatelessBitcoinError>(
                StatelessBitcoinError::InsufficientFunds,
            ) && *final(self) == *old(self),
            r is Ok ==> spec_amount(final(self)@.withdraw_totals, public_key@) == spec_amount(
                old(self)@.withdraw_totals,
                public_key@,
            ) + amount && (forall|q: Seq<u8>|
                q != public_key@ ==> #[trigger] spec_amount(final(self)@.withdraw_totals, q)
                    == spec_amount(old(self)@.withdraw_totals, q)),
            final(self)@.deposit_totals == old(self)@.deposit_totals,
            final(self)@.transfer_blocks == old(self)@.transfer_blocks,
    {
        let deposit_amount = self.deposit_totals.get_amount(public_key);
        let withdraw_amount = self.withdraw_totals.get_amount(public_key);
        let headroom = deposit_amount - withdraw_amount;
        if amount > headroom {
            return Err(StatelessBitcoinError::InsufficientFunds);
        }
        self.withdraw_totals.add_amount(public_key, amount);
        proof {
            assert forall|pk: Seq<u8>| #[trigger] spec_amount(self@.withdraw_totals, pk)
                <= spec_amount(self@.deposit_totals, pk) by {
                if pk != public_key@ {
                    assert(spec_amount(self@.withdraw_totals, pk) == spec_amount(
                        old(self)@.withdraw_totals,
                        pk,
                    ));
                }
            }
        }
        Ok(())
    }

    /// Appends a transfer block to the chronological log.
    pub fn add_transfer_block(&mut self, transfer_block: TransferBlock) -> (r: Result<
        (),
        StatelessBitcoinError,
    >)
        requires
            old(self).wf(),
        ensures
            r is Ok,
            final(self).wf(),
            final(self)@.transfer_blocks == old(self)@.transfer_blocks.push(transfer_block@),
            final(self)@.deposit_totals == old(self)@.deposit_totals,
            final(self)@.withdraw_totals == old(self)@.withdraw_totals,
    {
        let ghost old_blocks = blocks_view(self.transfer_blocks@);
        self.transfer_blocks.push(transfer_block);
        proof {
            assert(blocks_view(self.transfer_blocks@) =~= old_blocks.push(
                self.transfer_blocks@.last()@,
            ));
        }
        Ok(())
    }

    /// The whole transfer-block log, oldest first.
    pub fn get_transfer_blocks(&self) -> (r: Vec<TransferBlock>)
        ensures
            blocks_view(r@) == self@.transfer_blocks,
    {
        clone_blocks(&self.transfer_blocks)
    }

    /// The deposit totals table.
    pub fn get_deposit_totals(&self) -> (r: AccountTotals)
        ensures
            r@ == self@.deposit_totals,
    {
        self.deposit_totals.clone()
    }

    /// The withdrawal totals table.
    pub fn get_withdraw_totals(&self) -> (r: AccountTotals)
        ensures
            r@ == self@.withdraw_totals,
    {
        self.withdraw_totals.clone()
    }

    /// The total an account has deposited.
    pub fn get_account_deposit_amount(&self, public_key: &BlsPublicKey) -> (r: u64)
        requires
            self.wf(),
        ensures
            r == spec_amount(self@.deposit_totals, public_key@),
    {
        self.deposit_totals.get_amount(public_key)
    }

    /// The total an account has withdrawn.
    pub fn get_account_withdraw_amount(&self, public_key: &BlsPublicKey) -> (r: u64)
        requires
            self.wf(),
        ensures
            r == spec_amount(self@.withdraw_totals, public_key@),
    {
        self.withdraw_totals.get_amount(public_key)
    }

    /// The subsequence of blocks whose signer set includes the key.
    pub fn get_account_transfer_blocks(&self, public_key: &BlsPublicKey) -> (r: Vec<TransferBlock>)
        ensures
            blocks_view(r@) == self@.transfer_blocks.filter(
                |b: TransferBlockView| b.signers().contains(public_key@),
            ),
    {
        let ghost pred = |b: TransferBlockView| b.signers().contains(public_key@);
        let n = self.transfer_blocks.len();
        let mut out: Vec<TransferBlock> = Vec::new();
        let mut i: usize = 0;
        while i < n
            invariant
                i <= n,
                n == self.transfer_blocks@.len(),
                blocks_view(out@) == self@.transfer_blocks.take(i as int).filter(pred),
                pred == (|b: TransferBlockView| b.signers().contains(public_key@)),
            decreases n - i,
        {
            let ghost prefix = self@.transfer_blocks.take(i as int);
            let ghost old_out = blocks_view(out@);
            let block = &self.transfer_blocks[i];
            if block.contains_pubkey(public_key) {
                out.push(block.clone());
                proof {
                    assert(blocks_view(out@) =~= old_out.push(block@));
                }
            }
            i = i + 1;
            proof {
                let next = self@.transfer_blocks.take(i as int);
                assert(next.drop_last() =~= prefix);
                assert(next.last() == block@);
                reveal_with_fuel(Seq::filter, 2);
                assert(next.filter(pred) == prefix.filter(pred) + if pred(block@) {
                    seq![block@]
                } else {
                    Seq::<TransferBlockView>::empty()
                });
                if pred(block@) {
                    assert(blocks_view(out@) =~= prefix.filter(pred) + seq![block@]);
                } else {
                    assert(blocks_view(out@) =~= prefix.filter(pred)
                        + Seq::<TransferBlockView>::empty());
                }
            }
        }
        proof {
            assert(self@.transfer_blocks.take(n as int) =~= self@.transfer_blocks);
        }
        out
    }

    /// The first block carrying the root whose signers include the key.
    pub fn get_transfer_block_for_merkle_root_and_pubkey(
        &self,
        merkle_root: &U8_32,
        public_key: &BlsPublicKey,
    ) -> (r: Option<TransferBlock>)
        ensures
            r matches Some(b) ==> spec_find_block(self@.transfer_blocks, merkle_root@, public_key@)
                == Some(b@),
            r is None ==> spec_find_block(self@.transfer_blocks, merkle_root@, public_key@)
                is None,
    {
        let n = self.transfer_blocks.len();
        let mut i: usize = 0;
        while i < n
            invariant
                i <= n,
                n == self.transfer_blocks@.len(),
                forall|j: int|
                    0 <= j < i ==> !(self@.transfer_blocks[j].merkle_root == merkle_root@
                        && #[trigger] self@.transfer_blocks[j].signers().contains(public_key@)),
            decreases n - i,
        {
            let block = &self.transfer_blocks[i];
            let root_matches = u8_32_eq(&block.merkle_root, merkle_root);
            if root_matches && block.contains_pubkey(public_key) {
                proof {
                    lemma_find_block_skip(self@.transfer_blocks, merkle_root@, public_key@, i as int);
                    let rest = self@.transfer_blocks.skip(i as int);
                    assert(rest[0] == self@.transfer_blocks[i as int]);
                }
                return Some(block.clone());
            }
            i = i + 1;
        }
        proof {
            lemma_find_block_skip(self@.transfer_blocks, merkle_root@, public_key@, n as int);
            assert(self@.transfer_blocks.skip(n as int) =~= Seq::<TransferBlockView>::empty());
        }
        None
    }
}

/// Whether a list of blocks holds this block.
pub fn blocks_contain(blocks: &Vec<TransferBlock>, block: &TransferBlock) -> (r: bool)
    ensures
        r == blocks_view(blocks@).contains(block@),
{
    let n = blocks.len();
    let mut i: usize = 0;
    while i < n
        invariant
            i <= n,
            n == blocks@.len(),
            forall|j: int| 0 <= j < i ==> blocks@[j]@ != block@,
        decreases n - i,
    {
        if (&blocks[i]).block_eq(block) {
            proof {
                assert(blocks_view(blocks@)[i as int] == block@);
            }
            return true;
        }
        i = i + 1;
    }
    proof {
        if blocks_view(blocks@).contains(block@) {
            let j = choose|j: int|
                0 <= j < blocks_view(blocks@).len() && blocks_view(blocks@)[j] == block@;
            assert(blocks@[j]@ == block@);
        }
    }
    false
}

/// The blocks of the newer log that the older log does not hold: what a
/// wallet's settlement sync has not seen yet.
pub fn new_transfer_blocks(
    previous: &Vec<TransferBlock>,
    current: &Vec<TransferBlock>,
) -> (r: Vec<TransferBlock>)
    ensures
        blocks_view(r@) == blocks_view(current@).filter(
            |b: TransferBlockView| !blocks_view(previous@).contains(b),
        ),
{
    let ghost pred = |b: TransferBlockView| !blocks_view(previous@).contains(b);
    let n = current.len();
    let mut out: Vec<TransferBlock> = Vec::new();
    let mut i: usize = 0;
    proof {
        assert(blocks_view(current@).take(0) =~= Seq::<TransferBlockView>::empty());
    }
    while i < n
        invariant
            i <= n,
            n == current@.len(),
            pred == (|b: TransferBlockView| !blocks_view(previous@).contains(b)),
            blocks_view(out@) == blocks_view(current@).take(i as int).filter(pred),
        decreases n - i,
    {
        let ghost prefix = blocks_view(current@).take(i as int);
        let ghost old_out = blocks_view(out@);
        let block = &current[i];
        let seen = blocks_contain(previous, block);
        if !seen {
            out.push(block.clone());
            proof {
                assert(blocks_view(out@) =~= old_out.push(block@));
            }
        }
        i = i + 1;
        proof {
            let next = blocks_view(current@).take(i as int);
            assert(next.drop_last() =~= prefix);
            assert(next.last() == block@);
            reveal_with_fuel(Seq::filter, 2);
            if pred(block@) {
                assert(blocks_view(out@) =~= prefix.filter(pred).push(block@));
            } else {
                assert(blocks_view(out@) =~= prefix.filter(pred));
            }
        }
    }
    proof {
        assert(blocks_view(current@).take(n as int) =~= blocks_view(current@));
    }
    out
}

impl Clone for MockRollupMemory {
    fn clone(&self) -> (r: Self)
        ensures
            r@ == self@,
    {
        MockRollupMemory {
            withdraw_totals: self.withdraw_totals.clone(),
            deposit_totals: self.deposit_totals.clone(),
            transfer_blocks: clone_blocks(&self.transfer_blocks),
        }
    }
}

} // verus!
