use blockchain::{Block, Blockchain, SnapshotError, Transaction};

fn tx(sender: &str, receiver: &str, amount: u64) -> Transaction {
    Transaction { sender: sender.to_string(), receiver: receiver.to_string(), amount }
}

fn assert_ledgers_equal(a: &Blockchain, b: &Blockchain) {
    assert_eq!(a.difficulty, b.difficulty);
    assert_eq!(a.chain.len(), b.chain.len());
    for (x, y) in a.chain.iter().zip(b.chain.iter()) {
        assert_eq!(x.timestamp, y.timestamp);
        assert_eq!(x.previous_hash, y.previous_hash);
        assert_eq!(x.nonce, y.nonce);
        assert_eq!(x.hash, y.hash);
        assert_eq!(x.transactions.len(), y.transactions.len());
        for (t, u) in x.transactions.iter().zip(y.transactions.iter()) {
            assert_eq!(t.sender, u.sender);
            assert_eq!(t.receiver, u.receiver);
            assert_eq!(t.amount, u.amount);
        }
    }
}

#[test]
fn round_trip_fresh_ledger() {
    let bc = Blockchain::new(1_700_000_000);
    let text = bc.to_snapshot();
    let back = Blockchain::from_snapshot(&text).unwrap_or_else(|_| panic!("snapshot rejected"));
    assert_ledgers_equal(&bc, &back);
    assert!(back.is_chain_valid());
}

#[test]
fn round_trip_after_appends() {
    let mut bc = Blockchain::new(1_700_000_000);
    assert!(bc.add_block(vec![tx("A", "B", 10), tx("B", "C", 2)], 1_700_000_100));
    assert!(bc.add_block(vec![], 1_700_000_100));
    assert!(bc.add_block(vec![tx("", "empty sender is kept", u64::MAX)], 1_700_000_100));
    let text = bc.to_snapshot();
    let back = Blockchain::from_snapshot(&text).unwrap_or_else(|_| panic!("snapshot rejected"));
    assert_ledgers_equal(&bc, &back);
    assert!(back.is_chain_valid());
}

#[test]
fn round_trip_at_zero_difficulty() {
    let mut bc = Blockchain::new(1_700_000_000);
    bc.difficulty = 0;
    assert!(bc.add_block(vec![tx("x", "y", 1)], 1_700_000_100));
    let back = Blockchain::from_snapshot(&bc.to_snapshot())
        .unwrap_or_else(|_| panic!("snapshot rejected"));
    assert_ledgers_equal(&bc, &back);
}

#[test]
fn round_trip_keeps_odd_characters() {
    let mut bc = Blockchain::new(1_700_000_000);
    bc.difficulty = 0;
    assert!(bc.add_block(vec![tx("new\nline and . plus +", "\u{00e9}\u{6f22}\u{1f600}", 42)], 1_700_000_100));
    let back = Blockchain::from_snapshot(&bc.to_snapshot())
        .unwrap_or_else(|_| panic!("snapshot rejected"));
    assert_ledgers_equal(&bc, &back);
}

#[test]
fn snapshot_text_is_canonical() {
    let bc = Blockchain {
        chain: vec![Block {
            timestamp: 0,
            transactions: vec![],
            previous_hash: "0".to_string(),
            nonce: 0,
            hash: "2f94989bb1a02128595cc3e4842063ced7031dbce94ccf957aaae5e759726555".to_string(),
        }],
        difficulty: 2,
    };
    assert_eq!(
        bc.to_snapshot(),
        "0000000000000002+0000000000000000000000000000000000000000000000010.\
         00000000000000402f94989bb1a02128595cc3e4842063ced7031dbce94ccf957aaae5e759726555."
    );
}

#[test]
fn malformed_snapshots_are_rejected() {
    for bad in [
        "",
        "garbage",
        "0000000000000002",
        "0000000000000002.",
        "000000000000000g+",
        "0000000000000002+",
    ] {
        assert!(matches!(
            Blockchain::from_snapshot(bad),
            Err(SnapshotError::Malformed)
        ));
    }
}

#[test]
fn empty_chain_snapshot_is_rejected() {
    // A difficulty followed by an empty block list parses but holds no
    // genesis block, so it is no ledger.
    assert!(Blockchain::from_snapshot("0000000000000000.").is_err());
}

#[test]
fn trailing_text_is_rejected() {
    let bc = Blockchain::new(1_700_000_000);
    let mut text = bc.to_snapshot();
    text.push('x');
    assert!(Blockchain::from_snapshot(&text).is_err());
}
