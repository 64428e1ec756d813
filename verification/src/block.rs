//! Block fingerprinting and proof-of-work sealing.

use crate::codec::{enc_str, enc_txs, push_str_field, push_txs};
use crate::digest::{sha256_digest, sha256_of};
use crate::hex::{bytes_to_hex, hex16_chars, hex_of_bytes, push_hex16};
use crate::model::{Block, BlockView, Transaction, pow_prefix_ok, txs_view, with_nonce};
use vstd::prelude::*;
use vstd::string::*;

verus! {

/// The canonical serialization a block is fingerprinted over: timestamp,
/// nonce, predecessor link, and the transactions in stored order.  The cached
/// `hash` field takes no part in it.
pub open spec fn preimage(b: BlockView) -> Seq<char> {
    hex16_chars(b.timestamp as u64) + hex16_chars(b.nonce) + enc_str(b.previous_hash) + enc_txs(
        b.transactions,
    )
}

/// A block's fingerprint: the SHA-256 digest of its canonical serialization,
/// rendered as 64 hex characters.
pub open spec fn fingerprint(b: BlockView) -> Seq<char> {
    hex_of_bytes(sha256_of(preimage(b)))
}

/// The stored `hash` field is exactly the block's recomputed fingerprint.
/// (Its length is pinned as well: the digest is 32 bytes, so 64 characters.)
pub open spec fn hash_ok(b: BlockView) -> bool {
    b.hash == fingerprint(b) && b.hash.len() == 64
}

/// Whether the first `difficulty` characters of `h` are all '0'.
pub fn check_pow(h: &str, difficulty: usize) -> (r: bool)
    requires
        difficulty <= h@.len(),
    ensures
        r == pow_prefix_ok(h@, difficulty as int),
{
    let mut i: usize = 0;
    while i < difficulty
        invariant
            i <= difficulty <= h@.len(),
            forall|j: int| 0 <= j < i ==> h@[j] == '0',
        decreases difficulty - i,
    {
        if h.get_char(i) != '0' {
            return false;
        }
        i = i + 1;
    }
    true
}

impl Block {
    /// A fresh, not yet sealed block: the given timestamp (the caller draws
    /// it from its clock), the given transactions, the given predecessor
    /// link, nonce zero, and a consistent fingerprint cache.
    pub fn new(transactions: Vec<Transaction>, previous_hash: String, timestamp: i64) -> (b: Block)
        ensures
            b@.timestamp == timestamp,
            b@.transactions == txs_view(transactions@),
            b@.previous_hash == previous_hash@,
            b@.nonce == 0,
            hash_ok(b@),
    {
        let mut block = Block {
            timestamp,
            transactions,
            previous_hash,
            nonce: 0,
            hash: String::new(),
        };
        let h = block.calculate_hash();
        block.hash = h;
        block
    }

    /// The block's fingerprint, recomputed from its stored fields.
    pub fn calculate_hash(&self) -> (r: String)
        ensures
            r@ == fingerprint(self@),
            r@.len() == 64,
    {
        let mut pre = String::new();
        push_hex16(&mut pre, #[verifier::truncate] (self.timestamp as u64));
        push_hex16(&mut pre, self.nonce);
        push_str_field(&mut pre, self.previous_hash.as_str());
        push_txs(&mut pre, &self.transactions);
        proof {
            assert(pre@ =~= preimage(self@));
        }
        let digest = sha256_digest(pre.as_str());
        bytes_to_hex(&digest)
    }

    /// Seals the block: starting from the current nonce, recomputes the
    /// fingerprint after each increment until its first `difficulty` hex
    /// characters are all '0'.  Unlike an unbounded search, the walk gives up
    /// once the nonce space is exhausted and says so — a deliberate bound on
    /// an otherwise non-terminating computation; every nonce from the
    /// starting one up to the final one was tried and found wanting.
    pub fn mine_block(&mut self, difficulty: usize) -> (found: bool)
        requires
            difficulty <= 64,
            hash_ok(old(self)@),
        ensures
            final(self)@.timestamp == old(self)@.timestamp,
            final(self)@.transactions == old(self)@.transactions,
            final(self)@.previous_hash == old(self)@.previous_hash,
            final(self)@.nonce >= old(self)@.nonce,
            hash_ok(final(self)@),
            forall|n: u64|
                old(self)@.nonce <= n < final(self)@.nonce ==> !pow_prefix_ok(
                    fingerprint(with_nonce(old(self)@, n)),
                    difficulty as int,
                ),
            found ==> pow_prefix_ok(final(self)@.hash, difficulty as int),
            !found ==> final(self)@.nonce == u64::MAX && !pow_prefix_ok(
                fingerprint(with_nonce(old(self)@, u64::MAX)),
                difficulty as int,
            ),
    {
        loop
            invariant
                difficulty <= 64,
                hash_ok(self@),
                self@.timestamp == old(self)@.timestamp,
                self@.transactions == old(self)@.transactions,
                self@.previous_hash == old(self)@.previous_hash,
                self@.nonce >= old(self)@.nonce,
                forall|n: u64|
                    old(self)@.nonce <= n < self@.nonce ==> !pow_prefix_ok(
                        fingerprint(with_nonce(old(self)@, n)),
                        difficulty as int,
                    ),
            decreases u64::MAX - self.nonce,
        {
            proof {
                assert(preimage(with_nonce(old(self)@, self@.nonce)) =~= preimage(self@));
                assert(fingerprint(with_nonce(old(self)@, self@.nonce)) == fingerprint(self@));
            }
            if check_pow(self.hash.as_str(), difficulty) {
                return true;
            }
            if self.nonce == u64::MAX {
                return false;
            }
            self.nonce = self.nonce + 1;
            let h = self.calculate_hash();
            self.hash = h;
        }
    }
}

} // verus!
