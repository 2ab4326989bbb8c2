use securerx::blockchain::Blockchain;
use securerx::crypto::{generate_keypair, sign_message};
use securerx::transaction::{issue, Transaction};

fn signed(drug: &str) -> Transaction {
    issue("doctor1".to_string(), "patient1".to_string(), drug.to_string()).0
}

#[test]
fn test_blockchain_initialization() {
    let blockchain = Blockchain::new();
    assert_eq!(blockchain.chain.len(), 1, "Blockchain should start with genesis block");
    assert_eq!(blockchain.chain[0].index, 0, "Genesis block should have index 0");
    assert_eq!(blockchain.chain[0].prev_hash, "0", "Genesis block should have prev_hash '0'");
}

#[test]
fn test_add_block() {
    let mut blockchain = Blockchain::new();
    let keypair = generate_keypair();
    let sig = sign_message(&keypair, b"Aspirin");

    let tx = Transaction {
        doctor_id: "doctor1".to_string(),
        patient_id: "patient1".to_string(),
        drug: "Aspirin".to_string(),
        signature: sig.to_vec(),
        pubkey: keypair.public_key().to_vec(),
    };

    let genesis_hash = blockchain.chain[0].calculate_hash();
    let block_index = {
        let block = blockchain.add_block(vec![tx]);
        block.index
    };
    assert_eq!(blockchain.chain.len(), 2, "Blockchain should have 2 blocks after adding one");
    assert_eq!(block_index, 1, "New block should have index 1");
    assert_eq!(
        blockchain.chain[1].prev_hash, genesis_hash,
        "New block should reference previous block hash"
    );
}

#[test]
fn test_validate_valid_chain() {
    let mut blockchain = Blockchain::new();
    let keypair = generate_keypair();
    let sig = sign_message(&keypair, b"Aspirin");

    let tx = Transaction {
        doctor_id: "doctor1".to_string(),
        patient_id: "patient1".to_string(),
        drug: "Aspirin".to_string(),
        signature: sig.to_vec(),
        pubkey: keypair.public_key().to_vec(),
    };

    blockchain.add_block(vec![tx]);
    assert!(blockchain.validate_chain(), "Valid chain should pass validation");
}

#[test]
fn test_validate_invalid_chain_broken_link() {
    let mut blockchain = Blockchain::new();
    let keypair = generate_keypair();
    let sig = sign_message(&keypair, b"Aspirin");

    let tx = Transaction {
        doctor_id: "doctor1".to_string(),
        patient_id: "patient1".to_string(),
        drug: "Aspirin".to_string(),
        signature: sig.to_vec(),
        pubkey: keypair.public_key().to_vec(),
    };

    blockchain.add_block(vec![tx]);
    // Corrupt the chain by modifying prev_hash
    blockchain.chain[1].prev_hash = "corrupted".to_string();
    assert!(!blockchain.validate_chain(), "Chain with broken link should fail validation");
}

#[test]
fn test_validate_invalid_chain_invalid_transaction() {
    let mut blockchain = Blockchain::new();
    let keypair = generate_keypair();
    let sig = sign_message(&keypair, b"Aspirin");

    let mut tx = Transaction {
        doctor_id: "doctor1".to_string(),
        patient_id: "patient1".to_string(),
        drug: "Aspirin".to_string(),
        signature: sig.to_vec(),
        pubkey: keypair.public_key().to_vec(),
    };

    blockchain.add_block(vec![tx.clone()]);
    // Corrupt the transaction signature
    tx.signature[0] = tx.signature[0].wrapping_add(1);
    blockchain.chain[1].transactions[0] = tx;

    assert!(
        !blockchain.validate_chain(),
        "Chain with invalid transaction should fail validation"
    );
}

#[test]
fn test_multiple_blocks() {
    let mut blockchain = Blockchain::new();
    let keypair1 = generate_keypair();
    let keypair2 = generate_keypair();

    let sig1 = sign_message(&keypair1, b"Aspirin");
    let tx1 = Transaction {
        doctor_id: "doctor1".to_string(),
        patient_id: "patient1".to_string(),
        drug: "Aspirin".to_string(),
        signature: sig1.to_vec(),
        pubkey: keypair1.public_key().to_vec(),
    };

    let sig2 = sign_message(&keypair2, b"Ibuprofen");
    let tx2 = Transaction {
        doctor_id: "doctor2".to_string(),
        patient_id: "patient2".to_string(),
        drug: "Ibuprofen".to_string(),
        signature: sig2.to_vec(),
        pubkey: keypair2.public_key().to_vec(),
    };

    blockchain.add_block(vec![tx1]);
    blockchain.add_block(vec![tx2]);

    assert_eq!(blockchain.chain.len(), 3, "Blockchain should have 3 blocks");
    assert!(blockchain.validate_chain(), "Multi-block chain should be valid");
}

#[test]
fn new_ledger_is_valid_and_holds_genesis_only() {
    let blockchain = Blockchain::new();
    assert!(blockchain.validate_chain());
    assert_eq!(blockchain.len(), 1);
    let genesis = &blockchain.chain[0];
    assert_eq!(genesis.index, 0);
    assert_eq!(genesis.prev_hash, "0");
    assert!(genesis.transactions.is_empty());
    assert_eq!(genesis.nonce, 0);
    assert!(genesis.timestamp > 1_600_000_000);
}

#[test]
fn genesis_takes_the_given_timestamp() {
    let blockchain = Blockchain::with_genesis_at(1700000000);
    assert_eq!(blockchain.len(), 1);
    let genesis = &blockchain.chain[0];
    assert_eq!(genesis.index, 0);
    assert_eq!(genesis.prev_hash, "0");
    assert_eq!(genesis.timestamp, 1700000000);
    assert!(genesis.transactions.is_empty());
    assert_eq!(genesis.nonce, 0);
    assert_eq!(
        genesis.calculate_hash(),
        "46f8dfcf5ba347bb176302b8ec46f9a986d0c17e094632fd95c20ae0364070ec"
    );
}

#[test]
fn append_builds_the_successor_block() {
    let mut blockchain = Blockchain::with_genesis_at(1700000000);
    let tx = signed("Aspirin");
    let expected_signature = tx.signature.clone();
    let block = blockchain.add_block_at(vec![tx], 1700000001);
    assert_eq!(block.index, 1);
    assert_eq!(
        block.prev_hash,
        "46f8dfcf5ba347bb176302b8ec46f9a986d0c17e094632fd95c20ae0364070ec"
    );
    assert_eq!(block.timestamp, 1700000001);
    assert_eq!(block.nonce, 0);
    assert_eq!(block.transactions.len(), 1);
    assert_eq!(block.transactions[0].signature, expected_signature);
    assert_eq!(blockchain.len(), 2);
    assert_eq!(blockchain.chain[0].timestamp, 1700000000);
}

#[test]
fn appends_grow_the_ledger_one_block_at_a_time() {
    let mut blockchain = Blockchain::new();
    for n in 1..=6u64 {
        let tail_hash = blockchain.chain.last().unwrap().calculate_hash();
        let before: Vec<String> = blockchain.chain.iter().map(|b| b.calculate_hash()).collect();
        let index = blockchain.add_block(vec![signed("Aspirin"), signed("Ibuprofen")]).index;
        assert_eq!(index, n);
        assert_eq!(blockchain.len() as u64, n + 1);
        assert_eq!(blockchain.chain[n as usize].prev_hash, tail_hash);
        assert_eq!(blockchain.chain[n as usize].index, blockchain.chain[n as usize - 1].index + 1);
        assert_eq!(blockchain.chain[n as usize].nonce, 0);
        let after: Vec<String> = blockchain.chain.iter().map(|b| b.calculate_hash()).collect();
        assert_eq!(&after[..n as usize], &before[..]);
        assert!(blockchain.validate_chain());
    }
}

#[test]
fn append_does_not_check_signatures() {
    let mut blockchain = Blockchain::new();
    let mut tx = signed("Aspirin");
    tx.signature[5] ^= 1;
    let index = blockchain.add_block(vec![tx]).index;
    assert_eq!(index, 1);
    assert_eq!(blockchain.len(), 2);
    assert!(!blockchain.validate_chain());
}

#[test]
fn append_of_no_transactions_is_valid() {
    let mut blockchain = Blockchain::new();
    blockchain.add_block(vec![]);
    assert_eq!(blockchain.len(), 2);
    assert!(blockchain.validate_chain());
}

#[test]
fn tampering_with_any_later_link_is_detected() {
    for position in 1..4 {
        let mut blockchain = Blockchain::new();
        for _ in 0..3 {
            blockchain.add_block(vec![signed("Aspirin")]);
        }
        assert!(blockchain.validate_chain());
        blockchain.chain[position].prev_hash.push('0');
        assert!(!blockchain.validate_chain(), "position {}", position);
    }
}

#[test]
fn tampering_with_an_earlier_block_breaks_the_next_link() {
    let mut blockchain = Blockchain::new();
    blockchain.add_block(vec![signed("Aspirin")]);
    blockchain.add_block(vec![signed("Ibuprofen")]);
    blockchain.chain[1].timestamp += 1;
    assert!(!blockchain.validate_chain());

    let mut blockchain = Blockchain::new();
    blockchain.add_block(vec![signed("Aspirin")]);
    blockchain.chain[0].prev_hash = "1".to_string();
    assert!(!blockchain.validate_chain());
}

#[test]
fn tampering_with_any_transaction_is_detected() {
    for position in 1..3 {
        for slot in 0..2 {
            let mut blockchain = Blockchain::new();
            blockchain.add_block(vec![signed("Aspirin"), signed("Ibuprofen")]);
            blockchain.add_block(vec![signed("Codeine"), signed("Morphine")]);
            let hash_before = blockchain.chain[position].calculate_hash();
            blockchain.chain[position].transactions[slot].signature[63] ^= 0x80;
            assert_ne!(blockchain.chain[position].calculate_hash(), hash_before);
            assert!(!blockchain.validate_chain(), "position {} slot {}", position, slot);
        }
    }
}

#[test]
fn genesis_alone_is_valid_whatever_it_holds() {
    let mut blockchain = Blockchain::new();
    blockchain.chain[0].prev_hash = "tampered".to_string();
    assert!(blockchain.validate_chain());
}

#[test]
fn lookup_tells_found_from_out_of_range() {
    let mut blockchain = Blockchain::new();
    blockchain.add_block(vec![signed("Aspirin")]);
    assert_eq!(blockchain.get_block(0).unwrap().index, 0);
    assert_eq!(blockchain.get_block(1).unwrap().index, 1);
    assert_eq!(blockchain.get_block(1).unwrap().transactions[0].drug, "Aspirin");
    assert!(blockchain.get_block(2).is_none());
    assert!(blockchain.get_block(999).is_none());
    assert!(blockchain.get_block(usize::MAX).is_none());
}

#[test]
fn snapshot_copies_every_block() {
    let mut blockchain = Blockchain::new();
    blockchain.add_block(vec![signed("Aspirin")]);
    blockchain.add_block(vec![signed("Ibuprofen")]);
    let snapshot = blockchain.snapshot();
    assert_eq!(snapshot.len(), 3);
    for (copy, block) in snapshot.iter().zip(blockchain.chain.iter()) {
        assert_eq!(copy.canonical_bytes(), block.canonical_bytes());
    }
}

#[test]
fn replace_takes_over_any_sequence() {
    let mut source = Blockchain::new();
    source.add_block(vec![signed("Aspirin")]);
    source.chain[1].prev_hash = "broken".to_string();
    let expected: Vec<Vec<u8>> = source.chain.iter().map(|b| b.canonical_bytes()).collect();

    let mut target = Blockchain::new();
    target.replace(source.snapshot());
    let got: Vec<Vec<u8>> = target.chain.iter().map(|b| b.canonical_bytes()).collect();
    assert_eq!(got, expected);
    assert!(!target.validate_chain());

    target.replace(vec![]);
    assert_eq!(target.len(), 0);
    assert!(target.validate_chain());
}
