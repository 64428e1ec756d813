//! Snapshot persistence: the whole ledger as one canonical text, and back.
//!
//! The snapshot is the difficulty followed by the block list, each block
//! being its fingerprint preimage followed by its stored hash; lists use the
//! same '+'/'.' tags as transaction lists.  Reading a written snapshot gives
//! the ledger back field for field — the round trip is proved below.

use crate::block::preimage;
use crate::codec::{
    dec_str_at, dec_txs_at, enc_str, enc_txs, lemma_split_concat, lemma_str_round_trip,
    lemma_txs_round_trip, parse_str_field, parse_txs, push_str_field, push_txs, str_encodable,
    txs_encodable,
};
use crate::hex::{hex16_chars, lemma_hex16_round_trip, parse_hex16, parse_hex16_at, push_hex16};
use crate::model::{Block, BlockView, Blockchain, BlockchainView, blocks_view};
use vstd::prelude::*;
use vstd::string::*;

verus! {

/// Why a snapshot was rejected: it does not read back as a ledger.
pub enum SnapshotError {
    Malformed,
}

/// A block: its fingerprint preimage (timestamp, nonce, predecessor link,
/// transactions), then its stored hash.
pub open spec fn enc_block(b: BlockView) -> Seq<char> {
    preimage(b) + enc_str(b.hash)
}

pub open spec fn block_encodable(b: BlockView) -> bool {
    str_encodable(b.previous_hash) && str_encodable(b.hash) && txs_encodable(b.transactions)
}

/// Reading a block at `pos`.
pub open spec fn dec_block_at(s: Seq<char>, pos: int) -> Option<(BlockView, int)> {
    match parse_hex16_at(s, pos) {
        Some((tsbits, p1)) => match parse_hex16_at(s, p1) {
            Some((nonce, p2)) => match dec_str_at(s, p2) {
                Some((prev, p3)) => match dec_txs_at(s, p3) {
                    Some((txs, p4)) => match dec_str_at(s, p4) {
                        Some((hash, p5)) => Some(
                            (
                                BlockView {
                                    timestamp: tsbits as i64,
                                    transactions: txs,
                                    previous_hash: prev,
                                    nonce,
                                    hash,
                                },
                                p5,
                            ),
                        ),
                        None => None,
                    },
                    None => None,
                },
                None => None,
            },
            None => None,
        },
        None => None,
    }
}

/// A block list: each block behind a '+' tag, closed by a '.' tag.
pub open spec fn enc_blocks(bs: Seq<BlockView>) -> Seq<char>
    decreases bs.len(),
{
    if bs.len() == 0 {
        seq!['.']
    } else {
        seq!['+'] + enc_block(bs[0]) + enc_blocks(bs.drop_first())
    }
}

pub open spec fn blocks_encodable(bs: Seq<BlockView>) -> bool {
    forall|i: int| 0 <= i < bs.len() ==> block_encodable(#[trigger] bs[i])
}

/// Reading a block list at `pos`.
pub open spec fn dec_blocks_at(s: Seq<char>, pos: int) -> Option<(Seq<BlockView>, int)>
    decreases s.len() - pos,
{
    if pos < 0 || pos >= s.len() {
        None
    } else if s[pos] == '.' {
        Some((Seq::empty(), pos + 1))
    } else if s[pos] == '+' {
        match dec_block_at(s, pos + 1) {
            Some((b, p)) => {
                if pos < p && p <= s.len() {
                    match dec_blocks_at(s, p) {
                        Some((bs, p2)) => Some((seq![b] + bs, p2)),
                        None => None,
                    }
                } else {
                    None
                }
            },
            None => None,
        }
    } else {
        None
    }
}

/// A whole ledger: the difficulty, then the block list.
pub open spec fn enc_ledger(led: BlockchainView) -> Seq<char> {
    hex16_chars(led.difficulty as u64) + enc_blocks(led.chain)
}

pub open spec fn ledger_encodable(led: BlockchainView) -> bool {
    blocks_encodable(led.chain)
}

/// Reading a whole snapshot: the ledger it holds, or nothing where the text
/// is not exactly one well-formed, non-empty ledger.
pub open spec fn dec_snapshot(s: Seq<char>) -> Option<BlockchainView> {
    match parse_hex16_at(s, 0) {
        Some((d, p)) => {
            if d <= usize::MAX as u64 {
                match dec_blocks_at(s, p) {
                    Some((bs, p2)) => {
                        if p2 == s.len() && bs.len() >= 1 {
                            Some(BlockchainView { chain: bs, difficulty: d as usize })
                        } else {
                            None
                        }
                    },
                    None => None,
                }
            } else {
                None
            }
        },
        None => None,
    }
}

/// A written block reads back as the block it was written from.
#[verifier::rlimit(80)]
pub proof fn lemma_block_round_trip(s: Seq<char>, pos: int, b: BlockView)
    requires
        0 <= pos,
        block_encodable(b),
        pos + enc_block(b).len() <= s.len(),
        s.subrange(pos, pos + enc_block(b).len()) == enc_block(b),
    ensures
        dec_block_at(s, pos) == Some((b, pos + enc_block(b).len())),
{
    let ts = hex16_chars(b.timestamp as u64);
    let non = hex16_chars(b.nonce);
    let prev = enc_str(b.previous_hash);
    let txs = enc_txs(b.transactions);
    let hash = enc_str(b.hash);
    assert(enc_block(b) =~= ts + (non + (prev + (txs + hash))));
    lemma_split_concat(s, pos, ts, non + (prev + (txs + hash)));
    lemma_hex16_round_trip(s, pos, b.timestamp as u64);
    let p1 = pos + 16;
    lemma_split_concat(s, p1, non, prev + (txs + hash));
    lemma_hex16_round_trip(s, p1, b.nonce);
    let p2 = p1 + 16;
    lemma_split_concat(s, p2, prev, txs + hash);
    lemma_str_round_trip(s, p2, b.previous_hash);
    let p3 = p2 + prev.len();
    lemma_split_concat(s, p3, txs, hash);
    lemma_txs_round_trip(s, p3, b.transactions);
    let p4 = p3 + txs.len();
    lemma_str_round_trip(s, p4, b.hash);
    let tsb = b.timestamp;
    assert((tsb as u64) as i64 == tsb) by (bit_vector);
    assert(dec_block_at(s, pos) == Some((b, pos + enc_block(b).len())));
}

/// A written block list reads back as the list it was written from.
#[verifier::rlimit(50)]
pub proof fn lemma_blocks_round_trip(s: Seq<char>, pos: int, bs: Seq<BlockView>)
    requires
        0 <= pos,
        blocks_encodable(bs),
        pos + enc_blocks(bs).len() <= s.len(),
        s.subrange(pos, pos + enc_blocks(bs).len()) == enc_blocks(bs),
    ensures
        dec_blocks_at(s, pos) == Some((bs, pos + enc_blocks(bs).len())),
    decreases bs.len(),
{
    if bs.len() == 0 {
        assert(s[pos] == '.') by {
            assert(s.subrange(pos, pos + enc_blocks(bs).len())[0] == enc_blocks(bs)[0]);
        }
        assert(Seq::<BlockView>::empty() =~= bs);
    } else {
        let head = enc_block(bs[0]);
        let tail = enc_blocks(bs.drop_first());
        assert(enc_blocks(bs) =~= seq!['+'] + (head + tail));
        lemma_split_concat(s, pos, seq!['+'], head + tail);
        assert(s[pos] == '+') by {
            assert(s.subrange(pos, pos + 1)[0] == seq!['+'][0]);
        }
        lemma_split_concat(s, pos + 1, head, tail);
        lemma_block_round_trip(s, pos + 1, bs[0]);
        let p = pos + 1 + head.len();
        assert(blocks_encodable(bs.drop_first())) by {
            assert forall|i: int| 0 <= i < bs.drop_first().len() implies block_encodable(
                #[trigger] bs.drop_first()[i],
            ) by {
                assert(bs.drop_first()[i] == bs[i + 1]);
            }
        }
        lemma_blocks_round_trip(s, p, bs.drop_first());
        assert(seq![bs[0]] + bs.drop_first() =~= bs);
        assert(dec_blocks_at(s, pos) == Some((bs, pos + enc_blocks(bs).len())));
    }
}

/// Reading a written snapshot gives the ledger back, field for field: the
/// same block count, timestamps, transactions, links, nonces, hashes, and
/// difficulty.
pub proof fn lemma_snapshot_round_trip(led: BlockchainView)
    requires
        led.chain.len() >= 1,
        ledger_encodable(led),
    ensures
        dec_snapshot(enc_ledger(led)) == Some(led),
{
    let s = enc_ledger(led);
    let dif = hex16_chars(led.difficulty as u64);
    assert(s.subrange(0, s.len() as int) =~= s);
    lemma_split_concat(s, 0, dif, enc_blocks(led.chain));
    lemma_hex16_round_trip(s, 0, led.difficulty as u64);
    lemma_blocks_round_trip(s, 16, led.chain);
    assert((led.difficulty as u64) as usize == led.difficulty);
    assert(dec_snapshot(s) == Some(BlockchainView { chain: led.chain, difficulty: led.difficulty }));
    assert(BlockchainView { chain: led.chain, difficulty: led.difficulty } =~= led);
}

/// Appends one block to `out`.
fn push_block(out: &mut String, b: &Block)
    ensures
        final(out)@ == old(out)@ + enc_block(b@),
{
    push_hex16(out, #[verifier::truncate] (b.timestamp as u64));
    push_hex16(out, b.nonce);
    push_str_field(out, b.previous_hash.as_str());
    push_txs(out, &b.transactions);
    push_str_field(out, b.hash.as_str());
    proof {
        assert(out@ =~= old(out)@ + enc_block(b@));
    }
}

/// Reads one block of `s` starting at `pos`.
fn parse_block(s: &str, pos: usize) -> (r: Option<(Block, usize)>)
    ensures
        match r {
            Some((b, p)) => dec_block_at(s@, pos as int) == Some((b@, p as int)) && pos < p && p
                <= s@.len(),
            None => dec_block_at(s@, pos as int) is None,
        },
{
    let (tsbits, p1) = match parse_hex16(s, pos) {
        Some(x) => x,
        None => { return None; },
    };
    let (nonce, p2) = match parse_hex16(s, p1) {
        Some(x) => x,
        None => { return None; },
    };
    let (previous_hash, p3) = match parse_str_field(s, p2) {
        Some(x) => x,
        None => { return None; },
    };
    let (transactions, p4) = match parse_txs(s, p3) {
        Some(x) => x,
        None => { return None; },
    };
    let (hash, p5) = match parse_str_field(s, p4) {
        Some(x) => x,
        None => { return None; },
    };
    let b = Block {
        timestamp: #[verifier::truncate] (tsbits as i64),
        transactions,
        previous_hash,
        nonce,
        hash,
    };
    proof {
        assert(b@ =~= BlockView {
            timestamp: tsbits as i64,
            transactions: crate::model::txs_view(transactions@),
            previous_hash: previous_hash@,
            nonce,
            hash: hash@,
        });
    }
    Some((b, p5))
}

/// Appends a block list to `out`.
fn push_blocks(out: &mut String, bs: &Vec<Block>)
    ensures
        final(out)@ == old(out)@ + enc_blocks(blocks_view(bs@)),
{
    proof {
        reveal_strlit("+");
        reveal_strlit(".");
    }
    let ghost full = blocks_view(bs@);
    let mut i: usize = 0;
    proof {
        assert(full.subrange(0, full.len() as int) =~= full);
    }
    while i < bs.len()
        invariant
            i <= bs@.len(),
            full == blocks_view(bs@),
            out@ + enc_blocks(full.subrange(i as int, full.len() as int)) == old(out)@
                + enc_blocks(full),
        decreases bs@.len() - i,
    {
        proof {
            reveal_strlit("+");
        }
        let ghost before = out@;
        let ghost suffix = full.subrange(i as int, full.len() as int);
        out.append("+");
        push_block(out, &bs[i]);
        proof {
            assert("+"@ =~= seq!['+']);
            assert(suffix[0] == full[i as int]);
            assert(suffix.drop_first() =~= full.subrange(i + 1, full.len() as int));
            assert(enc_blocks(suffix) =~= seq!['+'] + enc_block(full[i as int]) + enc_blocks(
                full.subrange(i + 1, full.len() as int),
            ));
            assert(out@ + enc_blocks(full.subrange(i + 1, full.len() as int)) =~= before
                + enc_blocks(suffix));
        }
        i = i + 1;
    }
    out.append(".");
    proof {
        assert("."@ =~= seq!['.']);
        assert(full.subrange(bs@.len() as int, full.len() as int) =~= Seq::<BlockView>::empty());
        assert(out@ =~= old(out)@ + enc_blocks(full));
    }
}

/// Reads a block list of `s` starting at `pos`.
#[verifier::rlimit(50)]
fn parse_blocks(s: &str, pos: usize) -> (r: Option<(Vec<Block>, usize)>)
    ensures
        match r {
            Some((bs, p)) => dec_blocks_at(s@, pos as int) == Some((blocks_view(bs@), p as int))
                && pos < p && p <= s@.len(),
            None => dec_blocks_at(s@, pos as int) is None,
        },
{
    let len = s.unicode_len();
    if pos > len {
        return None;
    }
    let mut acc: Vec<Block> = Vec::new();
    let mut cur: usize = pos;
    proof {
        assert(blocks_view(acc@) =~= Seq::<BlockView>::empty());
        if let Some((rest, p)) = dec_blocks_at(s@, pos as int) {
            assert(blocks_view(acc@) + rest =~= rest);
        }
    }
    loop
        invariant
            pos <= cur <= len,
            len == s@.len(),
            (match dec_blocks_at(s@, cur as int) {
                Some((rest, p)) => dec_blocks_at(s@, pos as int) == Some(
                    (blocks_view(acc@) + rest, p),
                ),
                None => dec_blocks_at(s@, pos as int) is None,
            }),
        decreases len - cur,
    {
        if cur >= len {
            return None;
        }
        let c = s.get_char(cur);
        if c == '.' {
            proof {
                assert(blocks_view(acc@) + Seq::<BlockView>::empty() =~= blocks_view(acc@));
            }
            return Some((acc, cur + 1));
        }
        if c != '+' {
            return None;
        }
        match parse_block(s, cur + 1) {
            Some((b, p)) => {
                proof {
                    let prev = blocks_view(acc@);
                    assert(blocks_view(acc@.push(b)) =~= prev + seq![b@]);
                    if let Some((rest2, p2)) = dec_blocks_at(s@, p as int) {
                        assert(prev + (seq![b@] + rest2) =~= (prev + seq![b@]) + rest2);
                    }
                }
                acc.push(b);
                cur = p;
            },
            None => { return None; },
        }
    }
}

impl Blockchain {
    /// The whole ledger as one snapshot text.
    pub fn to_snapshot(&self) -> (r: String)
        ensures
            r@ == enc_ledger(self@),
    {
        let mut out = String::new();
        push_hex16(&mut out, self.difficulty as u64);
        push_blocks(&mut out, &self.chain);
        proof {
            assert(out@ =~= enc_ledger(self@));
        }
        out
    }

    /// Reads a snapshot text back into a ledger, or says why it cannot be
    /// one: anything but exactly one non-empty, well-formed ledger is
    /// malformed.
    pub fn from_snapshot(s: &str) -> (r: Result<Blockchain, SnapshotError>)
        ensures
            match r {
                Ok(bc) => dec_snapshot(s@) == Some(bc@) && bc.wf(),
                Err(_) => dec_snapshot(s@) is None,
            },
    {
        let (d, p) = match parse_hex16(s, 0) {
            Some(x) => x,
            None => { return Err(SnapshotError::Malformed); },
        };
        if d > usize::MAX as u64 {
            return Err(SnapshotError::Malformed);
        }
        let (chain, p2) = match parse_blocks(s, p) {
            Some(x) => x,
            None => { return Err(SnapshotError::Malformed); },
        };
        if p2 != s.unicode_len() {
            return Err(SnapshotError::Malformed);
        }
        if chain.len() == 0 {
            return Err(SnapshotError::Malformed);
        }
        let bc = Blockchain { chain, difficulty: d as usize };
        proof {
            assert(bc@ =~= BlockchainView { chain: blocks_view(chain@), difficulty: d as usize });
        }
        Ok(bc)
    }
}

} // verus!
