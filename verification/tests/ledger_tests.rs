use ledger::block::{genesis_block, Block, GENESIS_TIMESTAMP_NANOS, HASH_SIZE};
use ledger::chain::{Blockchain, ChainError, STARTING_BALANCE};
use ledger::transaction::Transaction;

fn tx(sender: &str, receiver: &str, amount: u64) -> Transaction {
    Transaction::new(sender.to_string(), receiver.to_string(), amount)
}

#[test]
fn genesis_block_fields() {
    let g = genesis_block();
    assert_eq!(g.index(), 0);
    assert_eq!(g.nonce(), 0);
    assert_eq!(g.timestamp(), GENESIS_TIMESTAMP_NANOS);
    assert_eq!(g.previous_hash(), vec![0u8; HASH_SIZE]);
    assert_eq!(g.hash().len(), HASH_SIZE);
    let t = g.transaction();
    assert_eq!(t.sender(), String::new());
    assert_eq!(t.receiver(), String::new());
    assert_eq!(t.amount(), 0);
}

#[test]
fn genesis_hash_known_vector() {
    // SHA-256 over: timestamp, sender, receiver, amount, previous hash,
    // index, nonce; numbers little-endian fixed width, ids as UTF-8.
    let expected: Vec<u8> = vec![
        0, 150, 88, 119, 48, 85, 26, 222, 253, 6, 31, 37, 5, 38, 90, 214, 103, 93, 77, 207, 169,
        0, 223, 183, 177, 188, 161, 170, 47, 89, 238, 88,
    ];
    assert_eq!(genesis_block().hash(), expected);
}

#[test]
fn genesis_timestamp_matches_rfc3339() {
    let parsed = chrono::DateTime::parse_from_rfc3339("2020-10-11T08:49:15Z").unwrap();
    assert_eq!(
        parsed.timestamp_nanos_opt().unwrap(),
        GENESIS_TIMESTAMP_NANOS as i64
    );
}

#[test]
fn hash_deterministic_for_fixed_fields() {
    let a = Block::from_parts(tx("alice", "bob", 7), 3, vec![9u8; 32], 123456789, 42);
    let b = Block::from_parts(tx("alice", "bob", 7), 3, vec![9u8; 32], 123456789, 42);
    assert_eq!(a.hash(), b.hash());
}

#[test]
fn hash_changes_on_timestamp() {
    let a = Block::from_parts(tx("alice", "bob", 7), 3, vec![9u8; 32], 123456789, 42);
    let b = Block::from_parts(tx("alice", "bob", 7), 3, vec![9u8; 32], 123456790, 42);
    assert_ne!(a.hash(), b.hash());
}

#[test]
fn hash_changes_on_sender() {
    let a = Block::from_parts(tx("alice", "bob", 7), 3, vec![9u8; 32], 123456789, 42);
    let b = Block::from_parts(tx("alicf", "bob", 7), 3, vec![9u8; 32], 123456789, 42);
    assert_ne!(a.hash(), b.hash());
}

#[test]
fn hash_changes_on_receiver() {
    let a = Block::from_parts(tx("alice", "bob", 7), 3, vec![9u8; 32], 123456789, 42);
    let b = Block::from_parts(tx("alice", "bpb", 7), 3, vec![9u8; 32], 123456789, 42);
    assert_ne!(a.hash(), b.hash());
}

#[test]
fn hash_changes_on_amount() {
    let a = Block::from_parts(tx("alice", "bob", 7), 3, vec![9u8; 32], 123456789, 42);
    let b = Block::from_parts(tx("alice", "bob", 8), 3, vec![9u8; 32], 123456789, 42);
    assert_ne!(a.hash(), b.hash());
}

#[test]
fn hash_changes_on_previous_hash() {
    let mut other = vec![9u8; 32];
    other[31] = 8;
    let a = Block::from_parts(tx("alice", "bob", 7), 3, vec![9u8; 32], 123456789, 42);
    let b = Block::from_parts(tx("alice", "bob", 7), 3, other, 123456789, 42);
    assert_ne!(a.hash(), b.hash());
}

#[test]
fn hash_changes_on_index() {
    let a = Block::from_parts(tx("alice", "bob", 7), 3, vec![9u8; 32], 123456789, 42);
    let b = Block::from_parts(tx("alice", "bob", 7), 4, vec![9u8; 32], 123456789, 42);
    assert_ne!(a.hash(), b.hash());
}

#[test]
fn hash_changes_on_nonce() {
    let a = Block::from_parts(tx("alice", "bob", 7), 3, vec![9u8; 32], 123456789, 42);
    let b = Block::from_parts(tx("alice", "bob", 7), 3, vec![9u8; 32], 123456789, 43);
    assert_ne!(a.hash(), b.hash());
}

#[test]
fn increment_nonce_recomputes_hash() {
    let mut a = Block::from_parts(tx("alice", "bob", 7), 3, vec![9u8; 32], 123456789, 42);
    let reference = Block::from_parts(tx("alice", "bob", 7), 3, vec![9u8; 32], 123456789, 43);
    a.increment_nonce();
    assert_eq!(a.nonce(), 43);
    assert_eq!(a.hash(), reference.hash());
}

#[test]
fn block_clone_preserves_fields_and_hash() {
    let a = Block::from_parts(tx("alice", "bob", 7), 3, vec![9u8; 32], 123456789, 42);
    let b = a.clone();
    assert_eq!(a.hash(), b.hash());
    assert_eq!(a.index(), b.index());
    assert_eq!(a.nonce(), b.nonce());
    assert_eq!(a.timestamp(), b.timestamp());
    assert_eq!(a.previous_hash(), b.previous_hash());
}

#[test]
fn transaction_accessors() {
    let t = tx("alice", "bob", 250);
    assert_eq!(t.sender(), "alice".to_string());
    assert_eq!(t.receiver(), "bob".to_string());
    assert_eq!(t.amount(), 250);
}

#[test]
fn starting_balance_for_unknown_account() {
    let chain = Blockchain::new(0);
    assert_eq!(chain.get_balance("nobody".to_string()), STARTING_BALANCE);
}

#[test]
fn single_transaction_at_difficulty_zero() {
    let mut chain = Blockchain::new(0);
    let committed = chain.add_transaction(tx("A", "B", 100));
    assert!(committed.is_some());
    assert_eq!(chain.block_chain().len(), 2);
    assert_eq!(chain.get_balance("A".to_string()), STARTING_BALANCE - 100);
    assert_eq!(chain.get_balance("B".to_string()), STARTING_BALANCE + 100);
}

#[test]
fn sequential_transactions_balances() {
    let mut chain = Blockchain::new(0);
    assert!(chain.add_transaction(tx("A", "B", 100)).is_some());
    assert!(chain.add_transaction(tx("B", "A", 50)).is_some());
    assert_eq!(chain.get_balance("A".to_string()), STARTING_BALANCE - 50);
    assert_eq!(chain.get_balance("B".to_string()), STARTING_BALANCE + 50);
}

#[test]
fn self_transfer_keeps_balance() {
    let mut chain = Blockchain::new(0);
    assert!(chain.add_transaction(tx("A", "A", 75)).is_some());
    assert_eq!(chain.get_balance("A".to_string()), STARTING_BALANCE);
}

#[test]
fn negative_balance_is_permitted() {
    // Sender solvency is deliberately not checked: an unfunded debit is
    // committed and the balance goes negative.
    let mut chain = Blockchain::new(0);
    assert!(chain.add_transaction(tx("A", "B", 6000)).is_some());
    assert_eq!(chain.get_balance("A".to_string()), STARTING_BALANCE - 6000);
    assert_eq!(chain.get_balance("B".to_string()), STARTING_BALANCE + 6000);
}

#[test]
fn difficulty_one_transaction_mines() {
    let mut chain = Blockchain::new(1);
    let committed = chain.add_transaction(tx("A", "B", 1));
    let block = committed.expect("mining at difficulty 1 must terminate and succeed here");
    assert_eq!(block.hash()[0], 0);
    assert!(chain.block_meets_difficulty(&block));
}

#[test]
fn index_skip_is_fatal_contiguity_error() {
    let mut chain = Blockchain::new(0);
    let (tip_index, tip_hash) = {
        let tip = chain.latest_block();
        (tip.index(), tip.hash())
    };
    // The next valid index is 1; this one skips ahead by 2.
    let stray = Block::new(tx("A", "B", 5), tip_index + 3, tip_hash);
    let result = chain.add_block(stray);
    assert_eq!(result, Err(ChainError::IndexContiguity));
    // Never silent corruption: nothing was appended, no balance moved.
    assert_eq!(chain.block_chain().len(), 1);
    assert_eq!(chain.get_balance("A".to_string()), STARTING_BALANCE);
    assert_eq!(chain.get_balance("B".to_string()), STARTING_BALANCE);
}

#[test]
fn nonce_exhaustion_is_reported() {
    // At a difficulty no 32-byte digest can meet, a block whose nonce is
    // already at the top of the search space fails immediately instead of
    // wrapping around, and the ledger is left unchanged.
    let mut chain = Blockchain::new((HASH_SIZE as u8) + 1);
    let tip_hash = chain.latest_block().hash();
    let stray = Block::from_parts(tx("A", "B", 5), 1, tip_hash, 321, u64::MAX);
    assert_eq!(chain.add_block(stray), Err(ChainError::NonceExhausted));
    assert_eq!(chain.block_chain().len(), 1);
    assert_eq!(chain.get_balance("A".to_string()), STARTING_BALANCE);
}

#[test]
fn add_block_mines_incoming_block_to_difficulty() {
    // A block handed in below the difficulty target is mined further before
    // it is committed.
    let mut chain = Blockchain::new(1);
    let (tip_index, tip_hash) = {
        let tip = chain.latest_block();
        (tip.index(), tip.hash())
    };
    let incoming = Block::from_parts(tx("peer", "me", 3), tip_index + 1, tip_hash, 654, 0);
    assert!(chain.is_valid_next_block(&incoming));
    assert_eq!(chain.add_block(incoming), Ok(()));
    let tip = chain.latest_block();
    assert_eq!(tip.hash()[0], 0);
    assert_eq!(tip.index(), 1);
}

#[test]
fn chain_links_after_transactions() {
    let mut chain = Blockchain::new(0);
    assert!(chain.add_transaction(tx("A", "B", 10)).is_some());
    assert!(chain.add_transaction(tx("B", "C", 20)).is_some());
    assert!(chain.add_transaction(tx("C", "A", 30)).is_some());
    let blocks = chain.block_chain();
    assert_eq!(blocks.len(), 4);
    for i in 0..blocks.len() {
        assert_eq!(blocks[i].index(), i as u64);
        if i > 0 {
            assert_eq!(blocks[i].previous_hash(), blocks[i - 1].hash());
        }
    }
}

#[test]
fn mined_blocks_meet_difficulty() {
    let mut chain = Blockchain::new(1);
    assert!(chain.add_transaction(tx("A", "B", 10)).is_some());
    assert!(chain.add_transaction(tx("B", "A", 5)).is_some());
    let blocks = chain.block_chain();
    assert_eq!(blocks.len(), 3);
    for block in blocks.iter().skip(1) {
        assert_eq!(block.hash()[0], 0);
    }
}

#[test]
fn add_block_accepts_network_block() {
    // A remotely received block is validated against the tip and committed
    // directly, with no local mining needed at difficulty 0.
    let mut chain = Blockchain::new(0);
    let (tip_index, tip_hash) = {
        let tip = chain.latest_block();
        (tip.index(), tip.hash())
    };
    let incoming = Block::from_parts(tx("peer", "me", 11), tip_index + 1, tip_hash, 777, 0);
    assert!(chain.is_valid_next_block(&incoming));
    assert_eq!(chain.add_block(incoming), Ok(()));
    assert_eq!(chain.block_chain().len(), 2);
    assert_eq!(chain.get_balance("peer".to_string()), STARTING_BALANCE - 11);
    assert_eq!(chain.get_balance("me".to_string()), STARTING_BALANCE + 11);
}

#[test]
fn validation_rejects_unlinked_and_stale_blocks() {
    let mut chain = Blockchain::new(0);
    assert!(chain.add_transaction(tx("A", "B", 1)).is_some());
    let (tip_index, tip_hash) = {
        let tip = chain.latest_block();
        (tip.index(), tip.hash())
    };
    // Proper successor: accepted.
    let good = Block::new(tx("B", "A", 1), tip_index + 1, tip_hash.clone());
    assert!(chain.is_valid_next_block(&good));
    // Wrong previous hash: rejected.
    let unlinked = Block::new(tx("B", "A", 1), tip_index + 1, vec![7u8; 32]);
    assert!(!chain.is_valid_next_block(&unlinked));
    // Stale index (a duplicate of the tip position): rejected.
    let stale = Block::new(tx("B", "A", 1), tip_index, tip_hash);
    assert!(!chain.is_valid_next_block(&stale));
}

#[test]
fn add_peer_registers_starting_balance_once() {
    let mut chain = Blockchain::new(0);
    chain.add_peer("X".to_string());
    assert_eq!(chain.get_balance("X".to_string()), STARTING_BALANCE);
    assert!(chain.add_transaction(tx("X", "Y", 300)).is_some());
    // Registering again must not reset the moved balance.
    chain.add_peer("X".to_string());
    assert_eq!(chain.get_balance("X".to_string()), STARTING_BALANCE - 300);
}

#[test]
fn difficulty_beyond_digest_is_never_met() {
    let chain = Blockchain::new((HASH_SIZE as u8) + 1);
    let g = genesis_block();
    assert!(!chain.block_meets_difficulty(&g));
}

#[test]
fn genesis_exempt_from_difficulty() {
    // Genesis carries nonce 0 and need not meet the difficulty; the chain
    // still starts with it.
    let chain = Blockchain::new(3);
    assert_eq!(chain.block_chain().len(), 1);
    assert_eq!(chain.latest_block().index(), 0);
}
