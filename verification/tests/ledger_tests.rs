use blockchain::ledger::{block_bytes, Block, BlockHash, Blockchain, BlockchainError, Transaction};
use sha2::Digest;

fn tx_equal(a: &Transaction, b: &Transaction) -> bool {
    a.sender == b.sender && a.recipient == b.recipient && a.amount_bits == b.amount_bits
}

fn block_equal(a: &Block, b: &Block) -> bool {
    a.index == b.index
        && a.timestamp == b.timestamp
        && a.proof == b.proof
        && a.previous_hash.equals(&b.previous_hash)
        && a.transactions.len() == b.transactions.len()
        && a
            .transactions
            .iter()
            .zip(b.transactions.iter())
            .all(|(x, y)| tx_equal(x, y))
}

fn chain_equal(a: &[Block], b: &[Block]) -> bool {
    a.len() == b.len() && a.iter().zip(b.iter()).all(|(x, y)| block_equal(x, y))
}

#[test]
fn genesis_ledger_shape() {
    let ledger = Blockchain::new();
    assert_eq!(ledger.len(), 1);
    assert_eq!(ledger.chain[0].index, 1);
    assert_eq!(ledger.chain[0].proof, 100);
    assert_eq!(ledger.chain[0].transactions.len(), 0);
    assert_eq!(ledger.chain[0].previous_hash.bytes(), &vec![0u8; 32]);
    assert_eq!(ledger.transactions.len(), 0);
    assert_eq!(ledger.nodes.len(), 0);
}

#[test]
fn append_then_mine_seals_pool() {
    let mut ledger = Blockchain::new();
    let genesis = ledger.chain[0].clone();
    ledger.new_transaction("a", "b", 10.0f32.to_bits());
    let mined = ledger.mine().unwrap();
    assert_eq!(ledger.len(), 2);
    let sealed = &ledger.chain[1];
    assert_eq!(sealed.transactions.len(), 1);
    assert_eq!(sealed.transactions[0].sender, "a");
    assert_eq!(sealed.transactions[0].recipient, "b");
    assert_eq!(f32::from_bits(sealed.transactions[0].amount_bits), 10.0f32);
    let genesis_hash = Blockchain::hash(&genesis).unwrap();
    assert!(sealed.previous_hash.equals(&genesis_hash));
    assert!(mined.equals(&genesis_hash));
    assert_eq!(ledger.transactions.len(), 0);
}

#[test]
fn pool_drains_in_call_order() {
    let mut ledger = Blockchain::new();
    ledger.new_transaction("a", "b", 1.0f32.to_bits());
    ledger.new_transaction("b", "c", 2.0f32.to_bits());
    ledger.new_transaction("c", "a", 3.0f32.to_bits());
    assert_eq!(ledger.transactions.len(), 3);
    ledger.mine().unwrap();
    let sealed = &ledger.chain[1];
    assert_eq!(sealed.transactions.len(), 3);
    assert_eq!(sealed.transactions[0].sender, "a");
    assert_eq!(sealed.transactions[1].sender, "b");
    assert_eq!(sealed.transactions[2].sender, "c");
    assert_eq!(ledger.transactions.len(), 0);
}

#[test]
fn advisory_index_is_last_block_index_plus_one() {
    let mut ledger = Blockchain::new();
    assert_eq!(ledger.new_transaction("a", "b", 0), 2);
    assert_eq!(ledger.new_transaction("b", "c", 0), 2);
    assert_eq!(ledger.chain[0].index, 1);
}

#[test]
fn proof_of_work_meets_target() {
    let ledger = Blockchain::new();
    let proof = ledger.proof_of_work(100).unwrap();
    assert!(ledger.valid_proof(100, proof));
    if proof > 0 {
        assert!(!ledger.valid_proof(100, 0));
    }
}

#[test]
fn proof_of_work_finds_smallest() {
    let ledger = Blockchain::new();
    let proof = ledger.proof_of_work(42).unwrap();
    for candidate in 0..proof {
        assert!(!ledger.valid_proof(42, candidate));
    }
    assert!(ledger.valid_proof(42, proof));
}

#[test]
fn mined_chain_is_valid() {
    let mut ledger = Blockchain::new();
    ledger.new_transaction("a", "b", 1.0f32.to_bits());
    ledger.mine().unwrap();
    ledger.mine().unwrap();
    assert!(ledger.valid_chain(&ledger.chain));
}

#[test]
fn tampered_previous_hash_detected() {
    let mut ledger = Blockchain::new();
    ledger.mine().unwrap();
    ledger.mine().unwrap();
    assert!(ledger.valid_chain(&ledger.chain));
    let mut bytes = ledger.chain[1].previous_hash.bytes().clone();
    bytes[7] ^= 0x01;
    let mut tampered = ledger.chain.clone();
    tampered[1].previous_hash = BlockHash::from_bytes(bytes).unwrap();
    assert!(!ledger.valid_chain(&tampered));
}

#[test]
fn hash_is_deterministic_and_content_sensitive() {
    let ledger = Blockchain::new();
    let block = ledger.chain[0].clone();
    let h1 = Blockchain::hash(&block).unwrap();
    let h2 = Blockchain::hash(&block).unwrap();
    assert!(h1.equals(&h2));
    let mut shifted = block.clone();
    shifted.timestamp += 1;
    let h3 = Blockchain::hash(&shifted).unwrap();
    assert!(!h1.equals(&h3));
    let mut reproofed = block.clone();
    reproofed.proof += 1;
    let h4 = Blockchain::hash(&reproofed).unwrap();
    assert!(!h1.equals(&h4));
}

#[test]
fn hash_is_sha256_of_canonical_bytes() {
    let ledger = Blockchain::new();
    let block = &ledger.chain[0];
    let expected = sha2::Sha256::digest(block_bytes(block)).to_vec();
    let got = Blockchain::hash(block).unwrap();
    assert_eq!(got.bytes(), &expected);
}

#[test]
fn resolve_adopts_longer_valid_chain() {
    let mut peer_a = Blockchain::new();
    peer_a.new_transaction("a", "b", 10.0f32.to_bits());
    peer_a.mine().unwrap();
    peer_a.mine().unwrap();
    assert_eq!(peer_a.len(), 3);
    let mut peer_b = Blockchain::new();
    peer_b.mine().unwrap();
    assert_eq!(peer_b.len(), 2);
    let mut local = Blockchain::new();
    assert_eq!(local.len(), 1);
    let replaced = local.resolve_conflicts(vec![peer_a.chain.clone(), peer_b.chain.clone()]);
    assert!(replaced);
    assert!(chain_equal(&local.chain, &peer_a.chain));
}

#[test]
fn resolve_rejects_tampered_chain() {
    let mut peer = Blockchain::new();
    peer.mine().unwrap();
    peer.mine().unwrap();
    peer.mine().unwrap();
    peer.mine().unwrap();
    assert_eq!(peer.len(), 5);
    let mut tampered = peer.chain.clone();
    let mut bytes = tampered[2].previous_hash.bytes().clone();
    bytes[0] ^= 0xff;
    tampered[2].previous_hash = BlockHash::from_bytes(bytes).unwrap();
    let mut local = Blockchain::new();
    let before = local.chain.clone();
    let replaced = local.resolve_conflicts(vec![tampered]);
    assert!(!replaced);
    assert!(chain_equal(&local.chain, &before));
}

#[test]
fn resolve_skips_chains_that_are_not_longer() {
    let mut local = Blockchain::new();
    local.mine().unwrap();
    let before = local.chain.clone();
    let mut same_length = Blockchain::new();
    same_length.mine().unwrap();
    let shorter = Blockchain::new();
    let replaced = local.resolve_conflicts(vec![same_length.chain.clone(), shorter.chain.clone()]);
    assert!(!replaced);
    assert!(chain_equal(&local.chain, &before));
}

#[test]
fn resolve_last_qualifying_peer_wins() {
    let mut peer_a = Blockchain::new();
    peer_a.mine().unwrap();
    let mut peer_b = Blockchain::new();
    peer_b.mine().unwrap();
    peer_b.mine().unwrap();
    let mut local = Blockchain::new();
    let replaced = local.resolve_conflicts(vec![peer_a.chain.clone(), peer_b.chain.clone()]);
    assert!(replaced);
    assert!(chain_equal(&local.chain, &peer_b.chain));
}

#[test]
fn resolve_never_shortens_local_chain() {
    let mut local = Blockchain::new();
    local.mine().unwrap();
    local.mine().unwrap();
    let before_len = local.len();
    let one = Blockchain::new();
    let mut two = Blockchain::new();
    two.mine().unwrap();
    let replaced = local.resolve_conflicts(vec![one.chain.clone(), two.chain.clone()]);
    assert!(!replaced);
    assert!(local.len() >= before_len);
    assert_eq!(local.len(), before_len);
}

#[test]
fn mine_on_empty_chain_reports_missing_genesis() {
    let mut broken = Blockchain { chain: vec![], transactions: vec![], nodes: vec![] };
    let outcome = broken.mine();
    assert_eq!(outcome.unwrap_err(), BlockchainError::NoGenesisBlock);
    assert_eq!(broken.chain.len(), 0);
}

#[test]
fn register_node_appends_address() {
    let mut ledger = Blockchain::new();
    ledger.register_node("http://localhost:8001");
    ledger.register_node("http://localhost:8002");
    assert_eq!(ledger.nodes, vec!["http://localhost:8001", "http://localhost:8002"]);
}

#[test]
fn last_block_accessors() {
    let mut ledger = Blockchain::new();
    assert_eq!(ledger.last_block().unwrap().index, 1);
    assert_eq!(ledger.last_block_mut().unwrap().index, 1);
    let empty = Blockchain { chain: vec![], transactions: vec![], nodes: vec![] };
    assert!(empty.last_block().is_none());
}

#[test]
fn block_hash_wrapping_and_equality() {
    assert!(BlockHash::from_bytes(vec![0u8; 31]).is_none());
    assert!(BlockHash::from_bytes(vec![0u8; 33]).is_none());
    let a = BlockHash::from_bytes(vec![1u8; 32]).unwrap();
    let b = BlockHash::from_bytes(vec![1u8; 32]).unwrap();
    let c = BlockHash::from_bytes(vec![2u8; 32]).unwrap();
    assert!(a.equals(&b));
    assert!(!a.equals(&c));
    assert!(BlockHash::zero().equals(&BlockHash::zero()));
}

#[test]
fn transaction_new_copies_fields() {
    let tx = Transaction::new("alice", "bob", 2.5f32.to_bits());
    assert_eq!(tx.sender, "alice");
    assert_eq!(tx.recipient, "bob");
    assert_eq!(f32::from_bits(tx.amount_bits), 2.5f32);
}

#[test]
fn canonical_bytes_distinguish_blocks() {
    let ledger = Blockchain::new();
    let block = ledger.chain[0].clone();
    let mut other = block.clone();
    other.index += 1;
    assert_ne!(block_bytes(&block), block_bytes(&other));
    let mut with_tx = block.clone();
    with_tx.transactions.push(Transaction::new("a", "b", 0));
    assert_ne!(block_bytes(&block), block_bytes(&with_tx));
}

#[test]
fn valid_chain_accepts_trivial_chains() {
    let ledger = Blockchain::new();
    assert!(ledger.valid_chain(&vec![]));
    assert!(ledger.valid_chain(&ledger.chain));
}
