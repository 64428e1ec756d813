//! Canonical text encoding of fields, records, and record lists.
//!
//! A character string is written as its length (sixteen hex characters)
//! followed by its characters verbatim; a transaction is its sender,
//! receiver, and amount in order; a list of transactions is each item behind
//! a '+' tag, closed by a '.' tag.  Every encoder has a decoder and a proved
//! round trip.

use crate::hex::{hex16_chars, lemma_hex16_round_trip, parse_hex16, parse_hex16_at, push_hex16};
use crate::model::{Transaction, TransactionView, txs_view};
use vstd::prelude::*;
use vstd::string::*;

verus! {

/// A string field: its length, then its characters.
pub open spec fn enc_str(s: Seq<char>) -> Seq<char> {
    hex16_chars(s.len() as u64) + s
}

/// A length that the sixteen-character header can carry.
pub open spec fn str_encodable(s: Seq<char>) -> bool {
    s.len() <= u64::MAX
}

/// Reading a string field at `pos`.
pub open spec fn dec_str_at(s: Seq<char>, pos: int) -> Option<(Seq<char>, int)> {
    match parse_hex16_at(s, pos) {
        Some((nlen, p)) => {
            if p + nlen <= s.len() {
                Some((s.subrange(p, p + nlen as int), p + nlen as int))
            } else {
                None
            }
        },
        None => None,
    }
}

/// A transaction: sender, receiver, amount.
pub open spec fn enc_tx(t: TransactionView) -> Seq<char> {
    enc_str(t.sender) + enc_str(t.receiver) + hex16_chars(t.amount)
}

pub open spec fn tx_encodable(t: TransactionView) -> bool {
    str_encodable(t.sender) && str_encodable(t.receiver)
}

/// Reading a transaction at `pos`.
pub open spec fn dec_tx_at(s: Seq<char>, pos: int) -> Option<(TransactionView, int)> {
    match dec_str_at(s, pos) {
        Some((sender, p1)) => match dec_str_at(s, p1) {
            Some((receiver, p2)) => match parse_hex16_at(s, p2) {
                Some((amount, p3)) => Some((TransactionView { sender, receiver, amount }, p3)),
                None => None,
            },
            None => None,
        },
        None => None,
    }
}

/// A list of transactions: each behind a '+' tag, closed by a '.' tag.
pub open spec fn enc_txs(ts: Seq<TransactionView>) -> Seq<char>
    decreases ts.len(),
{
    if ts.len() == 0 {
        seq!['.']
    } else {
        seq!['+'] + enc_tx(ts[0]) + enc_txs(ts.drop_first())
    }
}

pub open spec fn txs_encodable(ts: Seq<TransactionView>) -> bool {
    forall|i: int| 0 <= i < ts.len() ==> tx_encodable(#[trigger] ts[i])
}

/// Reading a list of transactions at `pos`.
pub open spec fn dec_txs_at(s: Seq<char>, pos: int) -> Option<(Seq<TransactionView>, int)>
    decreases s.len() - pos,
{
    if pos < 0 || pos >= s.len() {
        None
    } else if s[pos] == '.' {
        Some((Seq::empty(), pos + 1))
    } else if s[pos] == '+' {
        match dec_tx_at(s, pos + 1) {
            Some((t, p)) => {
                if pos < p && p <= s.len() {
                    match dec_txs_at(s, p) {
                        Some((ts, p2)) => Some((seq![t] + ts, p2)),
                        None => None,
                    }
                } else {
                    None
                }
            },
            None => None,
        }
    } else {
        None
    }
}

/// A prefix equality over a concatenation splits into one over each part.
pub proof fn lemma_split_concat(s: Seq<char>, pos: int, a: Seq<char>, b: Seq<char>)
    requires
        0 <= pos,
        pos + a.len() + b.len() <= s.len(),
        s.subrange(pos, pos + a.len() + b.len()) == a + b,
    ensures
        s.subrange(pos, pos + a.len()) == a,
        s.subrange(pos + a.len(), pos + a.len() + b.len()) == b,
{
    assert(s.subrange(pos, pos + a.len()) =~= a) by {
        assert forall|i: int| 0 <= i < a.len() implies s.subrange(pos, pos + a.len())[i] == a[i] by {
            assert(s.subrange(pos, pos + a.len() + b.len())[i] == (a + b)[i]);
        }
    }
    assert(s.subrange(pos + a.len(), pos + a.len() + b.len()) =~= b) by {
        assert forall|j: int|
            0 <= j < b.len() implies s.subrange(pos + a.len(), pos + a.len() + b.len())[j]
            == b[j] by {
            assert(s.subrange(pos + a.len(), pos + a.len() + b.len())[j] == s[pos + a.len() + j]);
            assert(s.subrange(pos, pos + a.len() + b.len())[a.len() + j] == s[pos + a.len() + j]);
            assert((a + b)[a.len() + j] == b[j]);
        }
    }
}

/// A written string field reads back as the string it was written from.
pub proof fn lemma_str_round_trip(s: Seq<char>, pos: int, t: Seq<char>)
    requires
        0 <= pos,
        str_encodable(t),
        pos + 16 + t.len() <= s.len(),
        s.subrange(pos, pos + 16 + t.len()) == enc_str(t),
    ensures
        dec_str_at(s, pos) == Some((t, pos + 16 + t.len())),
{
    let n = t.len() as u64;
    lemma_split_concat(s, pos, hex16_chars(n), t);
    lemma_hex16_round_trip(s, pos, n);
    assert(dec_str_at(s, pos) == Some((t, pos + 16 + t.len())));
}

/// A written transaction reads back as the record it was written from.
pub proof fn lemma_tx_round_trip(s: Seq<char>, pos: int, t: TransactionView)
    requires
        0 <= pos,
        tx_encodable(t),
        pos + enc_tx(t).len() <= s.len(),
        s.subrange(pos, pos + enc_tx(t).len()) == enc_tx(t),
    ensures
        dec_tx_at(s, pos) == Some((t, pos + enc_tx(t).len())),
{
    let a = enc_str(t.sender);
    let bc = enc_str(t.receiver) + hex16_chars(t.amount);
    assert(enc_tx(t) =~= a + bc);
    lemma_split_concat(s, pos, a, bc);
    lemma_str_round_trip(s, pos, t.sender);
    let p1 = pos + a.len();
    lemma_split_concat(s, p1, enc_str(t.receiver), hex16_chars(t.amount));
    lemma_str_round_trip(s, p1, t.receiver);
    let p2 = p1 + enc_str(t.receiver).len();
    lemma_hex16_round_trip(s, p2, t.amount);
    assert(dec_tx_at(s, pos) == Some((t, pos + enc_tx(t).len())));
}

/// A written transaction list reads back as the list it was written from.
#[verifier::rlimit(50)]
pub proof fn lemma_txs_round_trip(s: Seq<char>, pos: int, ts: Seq<TransactionView>)
    requires
        0 <= pos,
        txs_encodable(ts),
        pos + enc_txs(ts).len() <= s.len(),
        s.subrange(pos, pos + enc_txs(ts).len()) == enc_txs(ts),
    ensures
        dec_txs_at(s, pos) == Some((ts, pos + enc_txs(ts).len())),
    decreases ts.len(),
{
    if ts.len() == 0 {
        assert(s[pos] == '.') by {
            assert(s.subrange(pos, pos + enc_txs(ts).len())[0] == enc_txs(ts)[0]);
        }
        assert(Seq::<TransactionView>::empty() =~= ts);
    } else {
        let head = enc_tx(ts[0]);
        let tail = enc_txs(ts.drop_first());
        assert(enc_txs(ts) =~= seq!['+'] + (head + tail));
        lemma_split_concat(s, pos, seq!['+'], head + tail);
        assert(s[pos] == '+') by {
            assert(s.subrange(pos, pos + 1)[0] == seq!['+'][0]);
        }
        lemma_split_concat(s, pos + 1, head, tail);
        lemma_tx_round_trip(s, pos + 1, ts[0]);
        let p = pos + 1 + head.len();
        assert(txs_encodable(ts.drop_first())) by {
            assert forall|i: int| 0 <= i < ts.drop_first().len() implies tx_encodable(
                #[trigger] ts.drop_first()[i],
            ) by {
                assert(ts.drop_first()[i] == ts[i + 1]);
            }
        }
        lemma_txs_round_trip(s, p, ts.drop_first());
        assert(seq![ts[0]] + ts.drop_first() =~= ts);
        assert(dec_txs_at(s, pos) == Some((ts, pos + enc_txs(ts).len())));
    }
}

/// Appends a string field to `out`.
pub fn push_str_field(out: &mut String, s: &str)
    ensures
        final(out)@ == old(out)@ + enc_str(s@),
{
    let len = s.unicode_len();
    push_hex16(out, len as u64);
    out.append(s);
    proof {
        assert(out@ =~= old(out)@ + enc_str(s@));
    }
}

/// Reads a string field of `s` starting at `pos`.
pub fn parse_str_field(s: &str, pos: usize) -> (r: Option<(String, usize)>)
    ensures
        match r {
            Some((t, p)) => dec_str_at(s@, pos as int) == Some((t@, p as int)) && pos < p && p
                <= s@.len(),
            None => dec_str_at(s@, pos as int) is None,
        },
{
    let (nlen, p) = match parse_hex16(s, pos) {
        Some(x) => x,
        None => { return None; },
    };
    let len = s.unicode_len();
    if nlen > (len - p) as u64 {
        return None;
    }
    let end = p + (nlen as usize);
    let sub = s.substring_char(p, end);
    Some((sub.to_owned(), end))
}

/// Appends a transaction to `out`.
pub fn push_tx(out: &mut String, t: &Transaction)
    ensures
        final(out)@ == old(out)@ + enc_tx(t@),
{
    push_str_field(out, t.sender.as_str());
    push_str_field(out, t.receiver.as_str());
    push_hex16(out, t.amount);
    proof {
        assert(out@ =~= old(out)@ + enc_tx(t@));
    }
}

/// Reads a transaction of `s` starting at `pos`.
pub fn parse_tx(s: &str, pos: usize) -> (r: Option<(Transaction, usize)>)
    ensures
        match r {
            Some((t, p)) => dec_tx_at(s@, pos as int) == Some((t@, p as int)) && pos < p && p
                <= s@.len(),
            None => dec_tx_at(s@, pos as int) is None,
        },
{
    let (sender, p1) = match parse_str_field(s, pos) {
        Some(x) => x,
        None => { return None; },
    };
    let (receiver, p2) = match parse_str_field(s, p1) {
        Some(x) => x,
        None => { return None; },
    };
    let (amount, p3) = match parse_hex16(s, p2) {
        Some(x) => x,
        None => { return None; },
    };
    let t = Transaction { sender, receiver, amount };
    proof {
        assert(t@ =~= TransactionView { sender: sender@, receiver: receiver@, amount });
    }
    Some((t, p3))
}

/// Appends a transaction list to `out`.
pub fn push_txs(out: &mut String, ts: &Vec<Transaction>)
    ensures
        final(out)@ == old(out)@ + enc_txs(txs_view(ts@)),
{
    proof {
        reveal_strlit("+");
        reveal_strlit(".");
    }
    let ghost full = txs_view(ts@);
    let mut i: usize = 0;
    proof {
        assert(full.subrange(0, full.len() as int) =~= full);
    }
    while i < ts.len()
        invariant
            i <= ts@.len(),
            full == txs_view(ts@),
            out@ + enc_txs(full.subrange(i as int, full.len() as int)) == old(out)@ + enc_txs(
                full,
            ),
        decreases ts@.len() - i,
    {
        proof {
            reveal_strlit("+");
        }
        let ghost before = out@;
        let ghost suffix = full.subrange(i as int, full.len() as int);
        out.append("+");
        push_tx(out, &ts[i]);
        proof {
            assert("+"@ =~= seq!['+']);
            assert(suffix[0] == full[i as int]);
            assert(suffix.drop_first() =~= full.subrange(i + 1, full.len() as int));
            assert(enc_txs(suffix) =~= seq!['+'] + enc_tx(full[i as int]) + enc_txs(
                full.subrange(i + 1, full.len() as int),
            ));
            assert(out@ + enc_txs(full.subrange(i + 1, full.len() as int)) =~= before + enc_txs(
                suffix,
            ));
        }
        i = i + 1;
    }
    out.append(".");
    proof {
        assert("."@ =~= seq!['.']);
        assert(full.subrange(ts@.len() as int, full.len() as int) =~= Seq::<
            TransactionView,
        >::empty());
        assert(out@ =~= old(out)@ + enc_txs(full));
    }
}

/// Reads a transaction list of `s` starting at `pos`.
#[verifier::rlimit(50)]
pub fn parse_txs(s: &str, pos: usize) -> (r: Option<(Vec<Transaction>, usize)>)
    ensures
        match r {
            Some((ts, p)) => dec_txs_at(s@, pos as int) == Some((txs_view(ts@), p as int)) && pos
                < p && p <= s@.len(),
            None => dec_txs_at(s@, pos as int) is None,
        },
{
    let len = s.unicode_len();
    if pos > len {
        return None;
    }
    let mut acc: Vec<Transaction> = Vec::new();
    let mut cur: usize = pos;
    proof {
        assert(txs_view(acc@) =~= Seq::<TransactionView>::empty());
        if let Some((rest, p)) = dec_txs_at(s@, pos as int) {
            assert(txs_view(acc@) + rest =~= rest);
        }
    }
    loop
        invariant
            pos <= cur <= len,
            len == s@.len(),
            (match dec_txs_at(s@, cur as int) {
                Some((rest, p)) => dec_txs_at(s@, pos as int) == Some(
                    (txs_view(acc@) + rest, p),
                ),
                None => dec_txs_at(s@, pos as int) is None,
            }),
        decreases len - cur,
    {
        if cur >= len {
            return None;
        }
        let c = s.get_char(cur);
        if c == '.' {
            proof {
                assert(txs_view(acc@) + Seq::<TransactionView>::empty() =~= txs_view(acc@));
            }
            return Some((acc, cur + 1));
        }
        if c != '+' {
            return None;
        }
        match parse_tx(s, cur + 1) {
            Some((t, p)) => {
                proof {
                    let prev = txs_view(acc@);
                    assert(txs_view(acc@.push(t)) =~= prev + seq![t@]);
                    if let Some((rest2, p2)) = dec_txs_at(s@, p as int) {
                        assert(prev + (seq![t@] + rest2) =~= (prev + seq![t@]) + rest2);
                    }
                }
                acc.push(t);
                cur = p;
            },
            None => { return None; },
        }
    }
}

} // verus!
