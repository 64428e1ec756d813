//! Chain construction, appending, and validation.

use crate::block::{fingerprint, hash_ok, preimage};
use crate::model::{
    Block, BlockView, Blockchain, Transaction, TransactionView, pow_prefix_ok, txs_view,
    with_nonce,
};
use vstd::prelude::*;
use vstd::string::*;

verus! {

/// Every non-genesis block links to its immediate predecessor's hash.
pub open spec fn chain_linked(c: Seq<BlockView>) -> bool {
    forall|i: int| 0 < i < c.len() ==> (#[trigger] c[i]).previous_hash == c[i - 1].hash
}

/// What validation checks: every non-genesis block's stored hash matches its
/// recomputed fingerprint, and every non-genesis block links to its
/// predecessor.  The genesis block is exempt, and no proof-of-work target is
/// re-checked — a consistently re-digested chain still validates.
pub open spec fn chain_valid(c: Seq<BlockView>) -> bool {
    forall|i: int|
        0 < i < c.len() ==> (#[trigger] c[i]).hash == fingerprint(c[i])
            && c[i].previous_hash == c[i - 1].hash
}

impl Blockchain {
    /// A ledger always holds at least its genesis block.
    pub open spec fn wf(&self) -> bool {
        self@.chain.len() >= 1
    }

    /// A fresh ledger: a single genesis block carrying the given timestamp,
    /// the sentinel predecessor link "0", and no transactions, sealed at the
    /// configured difficulty 2.  The seal clause is a disjunction because the
    /// nonce search is bounded: either the genesis fingerprint meets the
    /// target, or the whole nonce space was searched in vain.
    pub fn new(timestamp: i64) -> (bc: Blockchain)
        ensures
            bc.wf(),
            bc@.difficulty == 2,
            bc@.chain.len() == 1,
            bc@.chain[0].timestamp == timestamp,
            bc@.chain[0].previous_hash == "0"@,
            bc@.chain[0].transactions.len() == 0,
            hash_ok(bc@.chain[0]),
            pow_prefix_ok(bc@.chain[0].hash, 2) || (bc@.chain[0].nonce == u64::MAX
                && !pow_prefix_ok(fingerprint(with_nonce(bc@.chain[0], u64::MAX)), 2)),
            chain_valid(bc@.chain),
    {
        let mut genesis = Block::new(Vec::new(), "0".to_owned(), timestamp);
        let ghost unsealed = genesis@;
        let sealed = genesis.mine_block(2);
        let bc = Blockchain { chain: vec![genesis], difficulty: 2 };
        proof {
            assert(bc@.chain =~= seq![genesis@]);
            if !sealed {
                assert(preimage(with_nonce(unsealed, u64::MAX)) =~= preimage(
                    with_nonce(genesis@, u64::MAX),
                ));
                assert(fingerprint(with_nonce(unsealed, u64::MAX)) == fingerprint(
                    with_nonce(genesis@, u64::MAX),
                ));
            }
        }
        bc
    }

    /// Appends one sealed block carrying `transactions` and the given
    /// timestamp: its predecessor link is the current last block's hash, and
    /// its fingerprint meets the ledger's difficulty.  Returns false —
    /// leaving the ledger unchanged — only where the difficulty cannot be
    /// met: always when it exceeds the digest's 64 hex characters, otherwise
    /// only when the whole nonce space was searched in vain; at difficulty 0
    /// it always succeeds.
    pub fn add_block(&mut self, transactions: Vec<Transaction>, timestamp: i64) -> (added: bool)
        requires
            old(self).wf(),
        ensures
            final(self).wf(),
            final(self)@.difficulty == old(self)@.difficulty,
            old(self)@.difficulty > 64 ==> !added,
            old(self)@.difficulty == 0 ==> added,
            !added ==> final(self)@ == old(self)@,
            added ==> final(self)@.chain.len() == old(self)@.chain.len() + 1,
            added ==> final(self)@.chain.subrange(0, old(self)@.chain.len() as int) == old(
                self,
            )@.chain,
            added ==> final(self)@.chain.last().timestamp == timestamp,
            added ==> final(self)@.chain.last().transactions == txs_view(transactions@),
            added ==> final(self)@.chain.last().previous_hash == old(self)@.chain.last().hash,
            added ==> hash_ok(final(self)@.chain.last()),
            added ==> pow_prefix_ok(
                final(self)@.chain.last().hash,
                old(self)@.difficulty as int,
            ),
            added && chain_linked(old(self)@.chain) ==> chain_linked(final(self)@.chain),
            added && chain_valid(old(self)@.chain) ==> chain_valid(final(self)@.chain),
    {
        if self.difficulty > 64 {
            return false;
        }
        let idx = self.chain.len() - 1;
        let prev_hash = self.chain[idx].hash.clone();
        let mut new_block = Block::new(transactions, prev_hash, timestamp);
        let ghost unsealed = new_block@;
        let found = new_block.mine_block(self.difficulty);
        if !found {
            proof {
                // At difficulty 0 the empty prefix target holds of every
                // digest, so the search cannot have failed.
                if self.difficulty == 0 {
                    assert(pow_prefix_ok(fingerprint(with_nonce(unsealed, u64::MAX)), 0));
                }
            }
            return false;
        }
        proof {
            assert(self@.chain.push(new_block@).subrange(0, self@.chain.len() as int) =~= self@.chain);
        }
        let ghost oldc = self@.chain;
        self.chain.push(new_block);
        proof {
            assert(self@.chain =~= oldc.push(new_block@));
            let newc = self@.chain;
            assert(newc.last() == new_block@);
            if chain_valid(oldc) {
                assert forall|i: int|
                    0 < i < newc.len() implies (#[trigger] newc[i]).hash == fingerprint(newc[i])
                    && newc[i].previous_hash == newc[i - 1].hash by {
                    if i < oldc.len() {
                        assert(newc[i] == oldc[i]);
                        assert(newc[i - 1] == oldc[i - 1]);
                        assert((#[trigger] oldc[i]).hash == fingerprint(oldc[i]));
                    } else {
                        assert(newc[i] == new_block@);
                        assert(newc[i - 1] == oldc.last());
                    }
                }
            }
            if chain_linked(oldc) {
                assert forall|i: int|
                    0 < i < newc.len() implies (#[trigger] newc[i]).previous_hash == newc[i
                    - 1].hash by {
                    if i < oldc.len() {
                        assert(newc[i] == oldc[i]);
                        assert(newc[i - 1] == oldc[i - 1]);
                        assert((#[trigger] oldc[i]).previous_hash == oldc[i - 1].hash);
                    } else {
                        assert(newc[i] == new_block@);
                        assert(newc[i - 1] == oldc.last());
                    }
                }
            }
        }
        true
    }

    /// Recomputes every non-genesis block's fingerprint against its stored
    /// hash and checks every predecessor link; true exactly where the whole
    /// chain is consistent.
    pub fn is_chain_valid(&self) -> (r: bool)
        ensures
            r == chain_valid(self@.chain),
    {
        let n = self.chain.len();
        let mut i: usize = 1;
        while i < n
            invariant
                1 <= i,
                n == self.chain.len(),
                forall|j: int|
                    0 < j < i ==> (#[trigger] self@.chain[j]).hash == fingerprint(self@.chain[j])
                        && self@.chain[j].previous_hash == self@.chain[j - 1].hash,
            decreases n - i,
        {
            let h = self.chain[i].calculate_hash();
            let hash_matches = self.chain[i].hash == h;
            if !hash_matches {
                proof {
                    if chain_valid(self@.chain) {
                        assert((#[trigger] self@.chain[i as int]).hash == fingerprint(
                            self@.chain[i as int],
                        ));
                    }
                }
                return false;
            }
            let link_matches = self.chain[i].previous_hash == self.chain[i - 1].hash;
            if !link_matches {
                proof {
                    if chain_valid(self@.chain) {
                        assert((#[trigger] self@.chain[i as int]).previous_hash == self@.chain[i
                            - 1].hash);
                    }
                }
                return false;
            }
            i = i + 1;
        }
        true
    }
}

/// A chain that validates keeps the linkage invariant: every non-genesis
/// block names its immediate predecessor's hash.
pub proof fn lemma_valid_implies_linked(c: Seq<BlockView>)
    requires
        chain_valid(c),
    ensures
        chain_linked(c),
{
    assert forall|i: int| 0 < i < c.len() implies (#[trigger] c[i]).previous_hash == c[i - 1].hash by {
        assert((#[trigger] c[i]).hash == fingerprint(c[i]) && c[i].previous_hash == c[i - 1].hash);
    }
}

/// Altering a non-genesis block's stored hash defeats validation: the stored
/// value no longer matches the recomputed fingerprint, which does not read
/// the hash field.
pub proof fn lemma_tamper_hash_detected(c: Seq<BlockView>, i: int, h: Seq<char>)
    requires
        chain_valid(c),
        0 < i < c.len(),
        h != c[i].hash,
    ensures
        !chain_valid(c.update(i, BlockView { hash: h, ..c[i] })),
{
    let c2 = c.update(i, BlockView { hash: h, ..c[i] });
    assert(preimage(c2[i]) =~= preimage(c[i]));
    assert(fingerprint(c2[i]) == fingerprint(c[i]));
    assert((#[trigger] c[i]).hash == fingerprint(c[i]));
    if chain_valid(c2) {
        assert((#[trigger] c2[i]).hash == fingerprint(c2[i]));
    }
}

/// Altering a non-genesis block's predecessor link defeats validation: the
/// predecessor's hash is untouched and no longer matches.
pub proof fn lemma_tamper_link_detected(c: Seq<BlockView>, i: int, p: Seq<char>)
    requires
        chain_valid(c),
        0 < i < c.len(),
        p != c[i].previous_hash,
    ensures
        !chain_valid(c.update(i, BlockView { previous_hash: p, ..c[i] })),
{
    let c2 = c.update(i, BlockView { previous_hash: p, ..c[i] });
    assert((#[trigger] c[i]).previous_hash == c[i - 1].hash);
    if chain_valid(c2) {
        assert((#[trigger] c2[i]).previous_hash == c2[i - 1].hash);
        assert(c2[i - 1] == c[i - 1]);
    }
}

/// Altering a non-genesis block's transactions defeats validation, provided
/// the altered serialization's digest differs — validation cannot see past a
/// digest collision.
pub proof fn lemma_tamper_transactions_detected(c: Seq<BlockView>, i: int, ts: Seq<TransactionView>)
    requires
        chain_valid(c),
        0 < i < c.len(),
        fingerprint(BlockView { transactions: ts, ..c[i] }) != fingerprint(c[i]),
    ensures
        !chain_valid(c.update(i, BlockView { transactions: ts, ..c[i] })),
{
    let c2 = c.update(i, BlockView { transactions: ts, ..c[i] });
    assert((#[trigger] c[i]).hash == fingerprint(c[i]));
    if chain_valid(c2) {
        assert((#[trigger] c2[i]).hash == fingerprint(c2[i]));
    }
}

} // verus!
