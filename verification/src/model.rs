//! The ledger's data: transaction records, sealed blocks, and the chain.

use vstd::prelude::*;

verus! {

/// One transfer: who sends, who receives, and how much.  Neither identity
/// nor sufficiency of funds is checked anywhere; a record is immutable once
/// placed in a block.
#[derive(Clone)]
pub struct Transaction {
    pub sender: String,
    pub receiver: String,
    pub amount: u64,
}

/// One sealed unit of the ledger.  `hash` caches the block's fingerprint;
/// `previous_hash` links the block to its predecessor, with the sentinel "0"
/// on the genesis block.
#[derive(Clone)]
pub struct Block {
    pub timestamp: i64,
    pub transactions: Vec<Transaction>,
    pub previous_hash: String,
    pub nonce: u64,
    pub hash: String,
}

/// The ordered, append-only sequence of sealed blocks, with the number of
/// leading zero hex characters a freshly sealed block's fingerprint must
/// carry.
#[derive(Clone)]
pub struct Blockchain {
    pub chain: Vec<Block>,
    pub difficulty: usize,
}

/// The mathematical value of a transaction record.
#[verifier::ext_equal]
pub struct TransactionView {
    pub sender: Seq<char>,
    pub receiver: Seq<char>,
    pub amount: u64,
}

/// The mathematical value of a block.
#[verifier::ext_equal]
pub struct BlockView {
    pub timestamp: i64,
    pub transactions: Seq<TransactionView>,
    pub previous_hash: Seq<char>,
    pub nonce: u64,
    pub hash: Seq<char>,
}

/// The mathematical value of a ledger.
#[verifier::ext_equal]
pub struct BlockchainView {
    pub chain: Seq<BlockView>,
    pub difficulty: usize,
}

impl View for Transaction {
    type V = TransactionView;

    open spec fn view(&self) -> TransactionView {
        TransactionView {
            sender: self.sender@,
            receiver: self.receiver@,
            amount: self.amount,
        }
    }
}

/// The values of a sequence of transaction records.
pub open spec fn txs_view(ts: Seq<Transaction>) -> Seq<TransactionView> {
    Seq::new(ts.len(), |i: int| ts[i]@)
}

impl View for Block {
    type V = BlockView;

    open spec fn view(&self) -> BlockView {
        BlockView {
            timestamp: self.timestamp,
            transactions: txs_view(self.transactions@),
            previous_hash: self.previous_hash@,
            nonce: self.nonce,
            hash: self.hash@,
        }
    }
}

/// The values of a sequence of blocks.
pub open spec fn blocks_view(bs: Seq<Block>) -> Seq<BlockView> {
    Seq::new(bs.len(), |i: int| bs[i]@)
}

impl View for Blockchain {
    type V = BlockchainView;

    open spec fn view(&self) -> BlockchainView {
        BlockchainView { chain: blocks_view(self.chain@), difficulty: self.difficulty }
    }
}

/// The proof-of-work target: the first `d` characters of `h` are all '0'.
pub open spec fn pow_prefix_ok(h: Seq<char>, d: int) -> bool {
    forall|i: int| 0 <= i < d ==> h[i] == '0'
}

/// `b`, with its nonce replaced: the candidate that sealing tries next.
pub open spec fn with_nonce(b: BlockView, n: u64) -> BlockView {
    BlockView { nonce: n, ..b }
}

} // verus!
