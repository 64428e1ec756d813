use blockchain::{Block, Blockchain, Transaction};

fn tx(sender: &str, receiver: &str, amount: u64) -> Transaction {
    Transaction { sender: sender.to_string(), receiver: receiver.to_string(), amount }
}

fn starts_with_zeros(h: &str, d: usize) -> bool {
    h.chars().take(d).filter(|c| *c == '0').count() == d && h.chars().count() >= d
}

#[test]
fn fresh_ledger_is_valid() {
    let bc = Blockchain::new(1_700_000_000);
    assert_eq!(bc.chain.len(), 1);
    assert_eq!(bc.difficulty, 2);
    assert_eq!(bc.chain[0].previous_hash, "0");
    assert_eq!(bc.chain[0].transactions.len(), 0);
    assert!(bc.is_chain_valid());
}

#[test]
fn genesis_is_sealed_at_difficulty_two() {
    let bc = Blockchain::new(1_700_000_000);
    assert_eq!(bc.chain[0].hash.len(), 64);
    assert!(starts_with_zeros(&bc.chain[0].hash, 2));
}

#[test]
fn concrete_scenario() {
    let mut bc = Blockchain::new(1_700_000_000);
    assert_eq!(bc.difficulty, 2);
    assert!(bc.add_block(vec![tx("A", "B", 10)], 1_700_000_100));
    assert!(bc.add_block(vec![], 1_700_000_100));
    assert_eq!(bc.chain.len(), 3);
    assert!(bc.is_chain_valid());
    assert_eq!(bc.chain[1].previous_hash, bc.chain[0].hash);
    assert_eq!(bc.chain[2].previous_hash, bc.chain[1].hash);
    assert!(bc.chain[1].hash.starts_with("00"));
    assert!(bc.chain[2].hash.starts_with("00"));
}

#[test]
fn blocks_carry_the_given_timestamp() {
    let mut bc = Blockchain::new(1_700_000_000);
    assert_eq!(bc.chain[0].timestamp, 1_700_000_000);
    assert!(bc.add_block(vec![tx("A", "B", 1)], 1_700_000_777));
    assert_eq!(bc.chain[1].timestamp, 1_700_000_777);
}

#[test]
fn appended_block_keeps_transactions() {
    let mut bc = Blockchain::new(1_700_000_000);
    assert!(bc.add_block(vec![tx("alice", "bob", 7), tx("bob", "carol", 3)], 1_700_000_100));
    let b = &bc.chain[1];
    assert_eq!(b.transactions.len(), 2);
    assert_eq!(b.transactions[0].sender, "alice");
    assert_eq!(b.transactions[0].receiver, "bob");
    assert_eq!(b.transactions[0].amount, 7);
    assert_eq!(b.transactions[1].sender, "bob");
    assert_eq!(b.transactions[1].receiver, "carol");
    assert_eq!(b.transactions[1].amount, 3);
}

#[test]
fn serialized_appends_link_distinctly() {
    let mut bc = Blockchain::new(1_700_000_000);
    for i in 0..3u64 {
        assert!(bc.add_block(vec![tx("s", "r", i)], 1_700_000_100));
    }
    assert_eq!(bc.chain.len(), 4);
    assert!(bc.is_chain_valid());
    for i in 1..bc.chain.len() {
        assert_eq!(bc.chain[i].previous_hash, bc.chain[i - 1].hash);
    }
    for i in 0..bc.chain.len() {
        for j in 0..i {
            assert_ne!(bc.chain[i].previous_hash, bc.chain[j].previous_hash);
        }
    }
}

#[test]
fn zero_difficulty_seals_at_nonce_zero() {
    let mut b = Block::new(vec![], "0".to_string(), 1_700_000_000);
    assert_eq!(b.nonce, 0);
    assert!(b.mine_block(0));
    assert_eq!(b.nonce, 0);
    assert_eq!(b.hash, b.calculate_hash());
}

#[test]
fn tamper_with_amount_is_detected() {
    let mut bc = Blockchain::new(1_700_000_000);
    assert!(bc.add_block(vec![tx("A", "B", 10)], 1_700_000_100));
    assert!(bc.is_chain_valid());
    bc.chain[1].transactions[0].amount = 11;
    assert!(!bc.is_chain_valid());
}

#[test]
fn tamper_with_sender_is_detected() {
    let mut bc = Blockchain::new(1_700_000_000);
    assert!(bc.add_block(vec![tx("A", "B", 10)], 1_700_000_100));
    bc.chain[1].transactions[0].sender = "M".to_string();
    assert!(!bc.is_chain_valid());
}

#[test]
fn tamper_with_receiver_is_detected() {
    let mut bc = Blockchain::new(1_700_000_000);
    assert!(bc.add_block(vec![tx("A", "B", 10)], 1_700_000_100));
    bc.chain[1].transactions[0].receiver = "M".to_string();
    assert!(!bc.is_chain_valid());
}

#[test]
fn tamper_with_previous_hash_is_detected() {
    let mut bc = Blockchain::new(1_700_000_000);
    assert!(bc.add_block(vec![tx("A", "B", 10)], 1_700_000_100));
    bc.chain[1].previous_hash = "deadbeef".to_string();
    assert!(!bc.is_chain_valid());
}

#[test]
fn tamper_with_hash_is_detected() {
    let mut bc = Blockchain::new(1_700_000_000);
    assert!(bc.add_block(vec![tx("A", "B", 10)], 1_700_000_100));
    let mut h = bc.chain[1].hash.clone();
    h.replace_range(63..64, if h.ends_with('0') { "1" } else { "0" });
    bc.chain[1].hash = h;
    assert!(!bc.is_chain_valid());
}

#[test]
fn recomputed_hash_matches_known_digest() {
    let b = Block {
        timestamp: 0,
        transactions: vec![],
        previous_hash: "0".to_string(),
        nonce: 0,
        hash: String::new(),
    };
    assert_eq!(
        b.calculate_hash(),
        "2f94989bb1a02128595cc3e4842063ced7031dbce94ccf957aaae5e759726555"
    );
}

#[test]
fn hash_depends_on_nonce() {
    let mut b = Block::new(vec![], "0".to_string(), 1_700_000_000);
    let h0 = b.calculate_hash();
    assert_eq!(h0.len(), 64);
    b.nonce = 1;
    let h1 = b.calculate_hash();
    assert_eq!(h1.len(), 64);
    assert_ne!(h0, h1);
}
