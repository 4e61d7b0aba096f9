use sha2::Digest;
use distributed_ledger::block::Block;
use distributed_ledger::ledger::{DistributedLedger, BATCH_SIZE, DIFFICULTY, QUEUE_CAPACITY};
use distributed_ledger::performance::PerformanceMonitor;
use distributed_ledger::{LedgerError, Transaction};

fn credit(to: &str, amount: u64) -> Transaction {
    Transaction::new(String::new(), to.to_string(), amount)
}

fn transfer(from: &str, to: &str, amount: u64) -> Transaction {
    Transaction::new(from.to_string(), to.to_string(), amount)
}

fn funded_ledger() -> (DistributedLedger, Transaction) {
    let mut ledger = DistributedLedger::new();
    let tx = credit("alice", 1_000_000);
    ledger.add_transaction(tx.clone()).unwrap();
    ledger.process_transactions(10).unwrap();
    (ledger, tx)
}

#[test]
fn genesis_credit_lands_in_a_new_block() {
    let (ledger, tx) = funded_ledger();
    assert_eq!(ledger.get_balance("alice"), 1_000_000);
    assert_eq!(ledger.chain_length(), 2);
    let latest = ledger.get_latest_block();
    assert_eq!(latest.transactions.len(), 1);
    assert_eq!(latest.transactions[0].id, tx.id);
    assert_eq!(latest.previous_hash, ledger.block_at(0).hash);
    assert_eq!(ledger.get_transaction_count(), 1);
}

#[test]
fn transfer_moves_value_between_accounts() {
    let (mut ledger, _) = funded_ledger();
    ledger.add_transaction(transfer("alice", "bob", 250)).unwrap();
    ledger.process_transactions(10).unwrap();
    assert_eq!(ledger.get_balance("alice"), 999_750);
    assert_eq!(ledger.get_balance("bob"), 250);
    assert_eq!(ledger.chain_length(), 3);
    assert_eq!(ledger.get_transaction_count(), 2);
}

#[test]
fn insufficient_balance_is_rejected_and_not_pooled() {
    let mut ledger = DistributedLedger::new();
    let tx = transfer("alice", "bob", 1);
    let r = ledger.add_transaction(tx.clone());
    assert!(matches!(r, Err(LedgerError::InsufficientBalance)));
    assert!(!ledger.in_pool(tx.id));
    assert_eq!(ledger.chain_length(), 1);
    assert_eq!(ledger.pending_count(), 0);
}

#[test]
fn resubmitting_the_same_transaction_is_a_duplicate() {
    let (mut ledger, tx) = funded_ledger();
    let r = ledger.add_transaction(tx);
    assert!(matches!(r, Err(LedgerError::DuplicateTransaction)));
}

#[test]
fn duplicate_id_right_after_admission() {
    let mut ledger = DistributedLedger::new();
    let tx = credit("carol", 5);
    assert!(ledger.add_transaction(tx.clone()).is_ok());
    assert!(matches!(ledger.add_transaction(tx), Err(LedgerError::DuplicateTransaction)));
    assert_eq!(ledger.pending_count(), 1);
}

#[test]
fn zero_amount_is_invalid() {
    let mut ledger = DistributedLedger::new();
    let r = ledger.add_transaction(credit("alice", 0));
    match r {
        Err(LedgerError::InvalidTransaction(s)) => assert_eq!(s, "Amount must be greater than zero"),
        _ => panic!("expected an invalid transaction"),
    }
}

#[test]
fn self_transfer_is_invalid() {
    let (mut ledger, _) = funded_ledger();
    let r = ledger.add_transaction(transfer("alice", "alice", 10));
    match r {
        Err(LedgerError::InvalidTransaction(s)) => {
            assert_eq!(s, "Sender and receiver cannot be the same")
        }
        _ => panic!("expected an invalid transaction"),
    }
}

#[test]
fn empty_receiver_is_invalid() {
    let tx = transfer("alice", "", 10);
    match tx.validate() {
        Err(LedgerError::InvalidTransaction(s)) => assert_eq!(s, "Receiver address cannot be empty"),
        _ => panic!("expected an invalid transaction"),
    }
}

#[test]
fn tampered_amount_breaks_the_signature() {
    let mut tx = transfer("alice", "bob", 10);
    assert!(tx.validate().is_ok());
    tx.amount = 11;
    match tx.validate() {
        Err(LedgerError::InvalidTransaction(s)) => assert_eq!(s, "Invalid transaction signature"),
        _ => panic!("expected an invalid transaction"),
    }
}

#[test]
fn genesis_issuance_validates() {
    assert!(credit("alice", 1).validate().is_ok());
}

#[test]
fn full_queue_reports_the_limit() {
    let mut ledger = DistributedLedger::with_queue_capacity(3);
    for _ in 0..3 {
        assert!(ledger.add_transaction(credit("dave", 1)).is_ok());
    }
    let extra = credit("dave", 1);
    match ledger.add_transaction(extra.clone()) {
        Err(LedgerError::PerformanceLimitExceeded(s)) => assert_eq!(s, "Transaction queue is full"),
        _ => panic!("expected the queue limit"),
    }
    assert!(ledger.in_pool(extra.id));
    assert_eq!(ledger.pending_count(), 3);
}

#[test]
fn standard_queue_takes_its_capacity_and_no_more() {
    let mut ledger = DistributedLedger::new();
    for i in 0..QUEUE_CAPACITY {
        let tx = Transaction::with_fields(i as u128, String::new(), "erin".to_string(), 1, 0);
        assert!(ledger.add_transaction(tx).is_ok());
    }
    let last = Transaction::with_fields(QUEUE_CAPACITY as u128, String::new(), "erin".to_string(), 1, 0);
    assert!(matches!(ledger.add_transaction(last), Err(LedgerError::PerformanceLimitExceeded(_))));
}

#[test]
fn processing_an_empty_queue_changes_nothing() {
    let mut ledger = DistributedLedger::new();
    assert!(ledger.process_transactions(BATCH_SIZE).is_ok());
    assert_eq!(ledger.chain_length(), 1);
    assert_eq!(ledger.get_transaction_count(), 0);
}

#[test]
fn batches_drain_in_order_up_to_the_batch_size() {
    let mut ledger = DistributedLedger::new();
    let a = credit("a1", 1);
    let b = credit("b1", 2);
    let c = credit("c1", 3);
    ledger.add_transaction(a.clone()).unwrap();
    ledger.add_transaction(b.clone()).unwrap();
    ledger.add_transaction(c.clone()).unwrap();
    ledger.process_transactions(2).unwrap();
    let block = ledger.get_latest_block();
    assert_eq!(block.transactions.len(), 2);
    assert_eq!(block.transactions[0].id, a.id);
    assert_eq!(block.transactions[1].id, b.id);
    assert_eq!(ledger.pending_count(), 1);
    ledger.process_transactions(2).unwrap();
    assert_eq!(ledger.get_latest_block().transactions[0].id, c.id);
    assert_eq!(ledger.get_transaction_count(), 3);
}

#[test]
fn every_sealed_block_links_recomputes_and_meets_difficulty() {
    let (mut ledger, _) = funded_ledger();
    ledger.add_transaction(transfer("alice", "bob", 7)).unwrap();
    ledger.process_transactions(10).unwrap();
    for i in 1..ledger.chain_length() {
        let b = ledger.block_at(i);
        assert_eq!(b.previous_hash, ledger.block_at(i - 1).hash);
        assert_eq!(b.hash, b.calculate_hash());
        assert!(b.hash.starts_with("00"));
        assert!(b.validate(Some(ledger.block_at(i - 1))).is_ok());
    }
    let genesis = ledger.block_at(0);
    assert_eq!(genesis.previous_hash, "");
    assert!(genesis.transactions.is_empty());
    assert!(genesis.validate(None).is_ok());
}

#[test]
fn conservation_on_concrete_transfers() {
    let (mut ledger, _) = funded_ledger();
    ledger.add_transaction(transfer("alice", "bob", 300)).unwrap();
    ledger.process_transactions(10).unwrap();
    ledger.add_transaction(transfer("bob", "alice", 100)).unwrap();
    ledger.process_transactions(10).unwrap();
    // alice: credited 1_000_000 + 100, debited 300
    assert_eq!(ledger.get_balance("alice"), 1_000_000 + 100 - 300);
    // bob: credited 300, debited 100
    assert_eq!(ledger.get_balance("bob"), 300 - 100);
    assert_eq!(ledger.get_balance("nobody"), 0);
}

#[test]
fn overspend_admitted_before_apply_floors_at_zero() {
    let mut ledger = DistributedLedger::new();
    ledger.add_transaction(credit("frank", 100)).unwrap();
    ledger.process_transactions(10).unwrap();
    ledger.add_transaction(transfer("frank", "gina", 80)).unwrap();
    ledger.add_transaction(transfer("frank", "hank", 80)).unwrap();
    ledger.process_transactions(10).unwrap();
    assert_eq!(ledger.get_balance("frank"), 0);
    assert_eq!(ledger.get_balance("gina"), 80);
    assert_eq!(ledger.get_balance("hank"), 80);
}

#[test]
fn identical_fields_give_identical_signatures() {
    let t1 = Transaction::with_fields(42, "alice".to_string(), "bob".to_string(), 9, 1_700_000_000);
    let t2 = Transaction::with_fields(42, "alice".to_string(), "bob".to_string(), 9, 1_700_000_000);
    assert_eq!(t1.signature, t2.signature);
    assert_eq!(t1.hash(), t2.hash());
    let t3 = Transaction::with_fields(43, "alice".to_string(), "bob".to_string(), 9, 1_700_000_000);
    assert_ne!(t1.signature, t3.signature);
}

#[test]
fn signature_is_sha256_of_the_field_bytes() {
    let tx = Transaction::with_fields(0, String::new(), String::new(), 0, 0);
    // SHA-256 of 16 + 8 + 8 zero bytes.
    let zeros = [0u8; 32];
    let expected = format!("{:x}", sha2::Sha256::digest(zeros));
    assert_eq!(tx.signature, expected);
    assert_eq!(tx.signature.len(), 64);
}

#[test]
fn canonical_bytes_layout() {
    let tx = Transaction::with_fields(1, "a".to_string(), "bc".to_string(), 258, -1);
    let bytes = tx.to_bytes();
    let mut expected = vec![0u8; 15];
    expected.push(1);
    expected.extend_from_slice(&[1, 0, 0, 0, 0, 0, 0, 0, b'a']);
    expected.extend_from_slice(&[2, 0, 0, 0, 0, 0, 0, 0, b'b', b'c']);
    expected.extend_from_slice(&[2, 1, 0, 0, 0, 0, 0, 0]);
    expected.extend_from_slice(&[0xff; 8]);
    expected.extend_from_slice(&[64, 0, 0, 0, 0, 0, 0, 0]);
    expected.extend_from_slice(tx.signature.as_bytes());
    assert_eq!(bytes, expected);
    assert_ne!(tx.hash(), tx.signature);
}

#[test]
fn mining_is_deterministic_and_meets_difficulty() {
    let txs = vec![Transaction::with_fields(7, String::new(), "ivy".to_string(), 5, 100)];
    let mut b1 = Block::with_fields(11, "prev".to_string(), txs.clone(), 200);
    let mut b2 = Block::with_fields(11, "prev".to_string(), txs, 200);
    assert_eq!(b1.hash, b2.hash);
    b1.mine(DIFFICULTY);
    b2.mine(DIFFICULTY);
    assert_eq!(b1.nonce, b2.nonce);
    assert_eq!(b1.hash, b2.hash);
    assert!(b1.hash.starts_with("00"));
    assert!(b1.meets_difficulty(DIFFICULTY));
    assert_eq!(b1.hash, b1.calculate_hash());
}

#[test]
fn block_validation_reports_each_defect() {
    let mut b = Block::with_fields(1, String::new(), Vec::new(), 0);
    assert!(b.validate(None).is_ok());
    let prev = Block::with_fields(2, String::new(), Vec::new(), 0);
    match b.validate(Some(&prev)) {
        Err(LedgerError::BlockValidationFailed(s)) => assert_eq!(s, "Invalid previous hash"),
        _ => panic!("expected a link failure"),
    }
    let c = Block::with_fields(3, "x".to_string(), Vec::new(), 0);
    match c.validate(None) {
        Err(LedgerError::BlockValidationFailed(s)) => {
            assert_eq!(s, "Genesis block should have empty previous hash")
        }
        _ => panic!("expected a genesis link failure"),
    }
    b.nonce = 5;
    match b.validate(None) {
        Err(LedgerError::BlockValidationFailed(s)) => assert_eq!(s, "Invalid block hash"),
        _ => panic!("expected a hash failure"),
    }
    let mut bad = Transaction::with_fields(1, String::new(), "z".to_string(), 1, 0);
    bad.amount = 0;
    let d = Block::with_fields(4, String::new(), vec![bad], 0);
    match d.validate(None) {
        Err(LedgerError::BlockValidationFailed(s)) => assert_eq!(s, "Amount must be greater than zero"),
        _ => panic!("expected a transaction failure"),
    }
}

#[test]
fn append_refuses_an_unmined_block() {
    let mut ledger = DistributedLedger::new();
    let tip = ledger.get_latest_block().hash;
    let mut b = Block::with_fields(9, tip, Vec::new(), 0);
    while b.hash.starts_with("00") {
        b.nonce += 1;
        b.hash = b.calculate_hash();
    }
    match ledger.append_block(b, 0) {
        Err(LedgerError::BlockValidationFailed(s)) => {
            assert_eq!(s, "Block hash does not meet the difficulty")
        }
        _ => panic!("expected a difficulty failure"),
    }
    assert_eq!(ledger.chain_length(), 1);
}

#[test]
fn monitor_keeps_totals_window_and_peak() {
    let mut m = PerformanceMonitor::new();
    let s = m.get_stats();
    assert_eq!(s.total_transactions, 0);
    assert_eq!(s.average_batch_nanos, 0);
    assert_eq!((s.peak_batch_size, s.peak_batch_nanos), (0, 1));
    m.record_batch(10, 100);
    m.record_batch(30, 100);
    m.record_batch(5, 0);
    let s = m.get_stats();
    assert_eq!(s.total_transactions, 45);
    assert_eq!(s.average_batch_nanos, 200 / 3);
    assert_eq!((s.peak_batch_size, s.peak_batch_nanos), (30, 100));
    m.record_batch(20, 100);
    assert_eq!(m.get_stats().peak_batch_size, 30);
}

#[test]
fn monitor_window_drops_the_oldest() {
    let mut m = PerformanceMonitor::new();
    m.record_batch(1, 1_000_000);
    for _ in 0..100 {
        m.record_batch(1, 10);
    }
    let s = m.get_stats();
    assert_eq!(s.average_batch_nanos, 10);
    assert_eq!(s.total_transactions, 101);
}

#[test]
fn peak_rate_is_at_least_the_lifetime_rate() {
    let mut ledger = DistributedLedger::new();
    for i in 0..5u64 {
        ledger.add_transaction(credit("jack", i + 1)).unwrap();
        ledger.process_transactions(BATCH_SIZE).unwrap();
    }
    let s = ledger.get_performance_stats();
    assert_eq!(s.total_transactions, 5);
    let lifetime = s.total_transactions as f64 / s.elapsed_nanos as f64;
    let peak = s.peak_batch_size as f64 / s.peak_batch_nanos as f64;
    assert!(peak >= lifetime);
}

#[test]
fn transaction_survives_a_byte_round_trip_and_still_validates() {
    let tx = transfer("alice", "bøb", 77);
    let bytes = tx.to_bytes();
    let back = Transaction::from_bytes(&bytes).unwrap();
    assert_eq!(back.id, tx.id);
    assert_eq!(back.from, tx.from);
    assert_eq!(back.to, tx.to);
    assert_eq!(back.amount, tx.amount);
    assert_eq!(back.timestamp, tx.timestamp);
    assert_eq!(back.signature, tx.signature);
    assert!(back.validate().is_ok());
    assert_eq!(back.hash(), tx.hash());
}

#[test]
fn transaction_bytes_must_be_exact() {
    let tx = Transaction::with_fields(3, "a".to_string(), "b".to_string(), 1, -5);
    let bytes = tx.to_bytes();
    assert!(Transaction::from_bytes(&bytes[..bytes.len() - 1]).is_none());
    let mut longer = bytes.clone();
    longer.push(0);
    assert!(Transaction::from_bytes(&longer).is_none());
    assert!(Transaction::from_bytes(&[]).is_none());
    assert_eq!(Transaction::from_bytes(&bytes).unwrap().timestamp, -5);
}

#[test]
fn mined_block_survives_a_byte_round_trip_and_still_validates() {
    let (mut ledger, _) = funded_ledger();
    ledger.add_transaction(transfer("alice", "bob", 3)).unwrap();
    ledger.add_transaction(transfer("alice", "carl", 4)).unwrap();
    ledger.process_transactions(10).unwrap();
    let block = ledger.get_latest_block();
    let bytes = block.to_bytes();
    let back = Block::from_bytes(&bytes).unwrap();
    assert_eq!(back.hash, block.hash);
    assert_eq!(back.nonce, block.nonce);
    assert_eq!(back.transactions.len(), 2);
    assert!(back.validate(Some(ledger.block_at(1))).is_ok());
    assert!(Block::from_bytes(&bytes[..bytes.len() - 3]).is_none());
}

#[test]
fn monitor_total_counts_every_sealed_transaction() {
    let (mut ledger, _) = funded_ledger();
    ledger.add_transaction(transfer("alice", "bob", 1)).unwrap();
    ledger.add_transaction(transfer("alice", "bob", 2)).unwrap();
    ledger.process_transactions(10).unwrap();
    let s = ledger.get_performance_stats();
    assert_eq!(s.total_transactions, ledger.get_transaction_count() as u64);
    assert_eq!(s.total_transactions, 3);
}

#[test]
fn fresh_ledger_has_a_bare_genesis_block() {
    let ledger = DistributedLedger::new();
    let g = ledger.get_latest_block();
    assert_eq!(g.previous_hash, "");
    assert!(g.transactions.is_empty());
    assert_eq!(g.nonce, 0);
    assert_eq!(g.hash, g.calculate_hash());
    assert_eq!(g.hash.len(), 64);
    assert_eq!(ledger.get_performance_stats().total_transactions, 0);
}

#[test]
fn pooled_value_is_the_submitted_transaction() {
    let mut ledger = DistributedLedger::with_queue_capacity(1);
    ledger.add_transaction(credit("kim", 1)).unwrap();
    let spare = credit("kim", 2);
    assert!(ledger.add_transaction(spare.clone()).is_err());
    assert!(ledger.in_pool(spare.id));
    assert!(matches!(ledger.add_transaction(spare), Err(LedgerError::DuplicateTransaction)));
}

#[test]
fn digests_are_sixty_four_hex_characters() {
    let tx = Transaction::with_fields(5, "a".to_string(), "b".to_string(), 1, 0);
    let h = tx.hash();
    assert_eq!(h.len(), 64);
    assert!(h.chars().all(|c| c.is_ascii_hexdigit() && !c.is_ascii_uppercase()));
    assert_eq!(tx.signature.len(), 64);
}
