use naivecoin::block::{calculate_hash, calculate_merkle_root, Block};
use naivecoin::chain::{is_valid_chain, is_valid_new_block, BlockChain};
use naivecoin::consensus::replace_chain;
use naivecoin::transaction::{Transaction, TxOut};

fn next_block(prev: &Block, timestamp: u64, difficulty: u64) -> Block {
    let index = prev.index + 1;
    let root = calculate_merkle_root(&[]);
    let hash = calculate_hash(index, &prev.hash, timestamp, &[], &root, 0, difficulty, 0, "m");
    Block::new(index, hash, prev.hash.clone(), timestamp, vec![], difficulty, 0, "m".to_string())
}

fn chain_of(len: usize) -> Vec<Block> {
    let mut chain = BlockChain::new(1_700_000_000);
    for i in 1..len {
        let block = next_block(chain.get_latest_block(), 1_700_000_000 + 10 * i as u64, 1);
        chain.add_block(block);
    }
    chain.blocks
}

#[test]
fn genesis_block_fields() {
    let chain = BlockChain::new(1_700_000_000);
    assert_eq!(chain.blocks.len(), 1);
    let genesis = chain.get_latest_block();
    assert_eq!(genesis.index, 0);
    assert_eq!(genesis.previous_hash, "0");
    assert_eq!(genesis.timestamp, 1_700_000_000);
    assert_eq!(genesis.difficulty, 1);
    assert_eq!(genesis.nonce, 0);
    assert_eq!(genesis.minter_balance, 0);
    assert_eq!(genesis.minter_address, "genesis");
    assert_eq!(genesis.merkle_root, "e3b0c44298fc1c149afbf4c8996fb92427ae41e4649b934ca495991b7852b855");
    assert_eq!(genesis.hash, "70014ad9970aeb5f750fa91e725486d68a5d8a32c6eaa9d3bca4f73c0bbcee70");
    assert!(chain.is_valid_chain());
}

#[test]
fn block_new_sets_merkle_root_and_nonce() {
    let block = Block::new(3, "h".to_string(), "p".to_string(), 9, vec![], 4, 5, "a".to_string());
    assert_eq!(block.merkle_root, calculate_merkle_root(&[]));
    assert_eq!(block.nonce, 0);
    assert_eq!(block.index, 3);
    assert_eq!(block.minter_balance, 5);
}

#[test]
fn new_block_must_follow_its_parent() {
    let chain = chain_of(2);
    assert!(is_valid_new_block(&chain[1], &chain[0]));

    let mut wrong_index = chain[1].clone();
    wrong_index.index = 2;
    assert!(!is_valid_new_block(&wrong_index, &chain[0]));

    let mut wrong_parent = chain[1].clone();
    wrong_parent.previous_hash = "x".to_string();
    assert!(!is_valid_new_block(&wrong_parent, &chain[0]));

    let mut tampered = chain[1].clone();
    tampered.timestamp += 1;
    assert!(!is_valid_new_block(&tampered, &chain[0]));

    // a transaction slipped in after the block was made: the Merkle root no
    // longer matches, though the hash still does
    let mut changed_data = chain[1].clone();
    changed_data.data.push(Transaction::new("x".to_string(), vec![], vec![]));
    assert_eq!(
        calculate_hash(
            changed_data.index, &changed_data.previous_hash, changed_data.timestamp, &changed_data.data,
            &changed_data.merkle_root, changed_data.nonce, changed_data.difficulty,
            changed_data.minter_balance, &changed_data.minter_address,
        ),
        changed_data.hash
    );
    assert!(!is_valid_new_block(&changed_data, &chain[0]));

    let mut index_zero = chain[1].clone();
    index_zero.index = 0;
    assert!(!is_valid_new_block(&index_zero, &chain[0]));
}

#[test]
fn chain_validity() {
    assert!(!is_valid_chain(&[]));
    let chain = chain_of(5);
    assert!(is_valid_chain(&chain));
    let mut broken = chain.clone();
    broken[2].minter_balance = 7;
    assert!(!is_valid_chain(&broken));
    assert!(is_valid_chain(&chain[..3]));
}

#[test]
fn add_block_appends() {
    let mut chain = BlockChain::new(5);
    let block = next_block(chain.get_latest_block(), 15, 1);
    chain.add_block(block.clone());
    assert_eq!(chain.blocks.len(), 2);
    assert_eq!(chain.get_latest_block().hash, block.hash);
    assert!(chain.is_valid_chain());
}

#[test]
fn longer_valid_chain_replaces() {
    let mut current = chain_of(2);
    let longer = chain_of(4);
    replace_chain(&mut current, longer.clone());
    assert_eq!(current.len(), 4);
    assert_eq!(current[3].hash, longer[3].hash);
}

#[test]
fn shorter_or_equal_chain_does_not_replace() {
    let mut current = chain_of(3);
    let copy = current.clone();
    replace_chain(&mut current, chain_of(2));
    assert_eq!(current.len(), 3);
    replace_chain(&mut current, copy);
    assert_eq!(current.len(), 3);
}

#[test]
fn invalid_longer_chain_does_not_replace() {
    let mut current = chain_of(2);
    let mut longer = chain_of(4);
    longer[3].difficulty = 9;
    replace_chain(&mut current, longer);
    assert_eq!(current.len(), 2);
}

#[test]
fn heights_count_up_in_a_valid_chain() {
    let chain = chain_of(6);
    assert!(is_valid_chain(&chain));
    for (i, block) in chain.iter().enumerate() {
        assert_eq!(block.index, i as u64);
        if i > 0 {
            assert_eq!(block.previous_hash, chain[i - 1].hash);
        }
    }
}

#[test]
fn tampered_transaction_breaks_the_chain() {
    let mut chain = BlockChain::new(1_700_000_000);
    let txs = vec![Transaction::new("t".to_string(), vec![], vec![TxOut::new("a".to_string(), 5)])];
    let prev = chain.get_latest_block().clone();
    let root = calculate_merkle_root(&txs);
    let hash = calculate_hash(1, &prev.hash, 1_700_000_010, &txs, &root, 0, 1, 0, "m");
    chain.add_block(Block::new(1, hash, prev.hash.clone(), 1_700_000_010, txs, 1, 0, "m".to_string()));
    let next = next_block(chain.get_latest_block(), 1_700_000_020, 1);
    chain.add_block(next);
    assert!(chain.is_valid_chain());
    chain.blocks[1].data[0].tx_outs[0].amount = 500;
    assert!(!chain.is_valid_chain());
}
