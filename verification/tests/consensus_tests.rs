use naivecoin::block::{calculate_hash, calculate_merkle_root, Block};
use naivecoin::chain::is_valid_new_block;
use naivecoin::consensus::{
    find_block_step, get_adjusted_difficulty, get_difficulty, is_block_staking_valid,
    is_valid_timestamp, stake_meets_target, MintAttempt,
};

fn block_at(index: u64, timestamp: u64, difficulty: u64) -> Block {
    Block::new(index, String::new(), String::new(), timestamp, vec![], difficulty, 0, String::new())
}

/// Blocks 0..=10, block i stamped `start + i * step`, all of difficulty 5.
fn chain_with_step(step: u64) -> Vec<Block> {
    (0..=10u64).map(|i| block_at(i, 1000 + i * step, 5)).collect()
}

#[test]
fn difficulty_rises_when_blocks_come_fast() {
    // blocks 1..=10 span 9 * 1 = 9 seconds < 50
    let chain = chain_with_step(1);
    assert_eq!(get_difficulty(&chain), 6);
    assert_eq!(get_adjusted_difficulty(chain.last().unwrap(), &chain), 6);
}

#[test]
fn difficulty_falls_when_blocks_come_slowly() {
    // 9 * 30 = 270 seconds > 200
    let chain = chain_with_step(30);
    assert_eq!(get_difficulty(&chain), 4);
}

#[test]
fn difficulty_stays_within_the_window() {
    // 9 * 10 = 90 seconds, between 50 and 200
    let chain = chain_with_step(10);
    assert_eq!(get_difficulty(&chain), 5);
    // the edges: exactly 50 and exactly 200 seconds leave it unchanged
    let mut edge = chain_with_step(10);
    edge[10].timestamp = edge[1].timestamp + 50;
    assert_eq!(get_difficulty(&edge), 5);
    edge[10].timestamp = edge[1].timestamp + 200;
    assert_eq!(get_difficulty(&edge), 5);
    edge[10].timestamp = edge[1].timestamp + 49;
    assert_eq!(get_difficulty(&edge), 6);
    edge[10].timestamp = edge[1].timestamp + 201;
    assert_eq!(get_difficulty(&edge), 4);
}

#[test]
fn difficulty_between_adjustments_is_the_latest() {
    let mut chain = chain_with_step(1);
    chain.pop();
    chain.last_mut().unwrap().difficulty = 8;
    assert_eq!(get_difficulty(&chain), 8);
    let genesis_only = vec![block_at(0, 0, 3)];
    assert_eq!(get_difficulty(&genesis_only), 3);
}

#[test]
fn short_chain_adjusts_to_one() {
    let chain: Vec<Block> = (0..5u64).map(|i| block_at(i * 10, i, 7)).collect();
    // latest index 40 is an adjustment height, but the chain has 5 blocks
    assert_eq!(get_difficulty(&chain), 1);
    assert_eq!(get_adjusted_difficulty(&chain[4], &chain), 1);
}

#[test]
fn staking_condition() {
    // SHA-256("prev" "addr" be(42)) has its top bit set; that of be(43) does not.
    // Past height 10, balance 1 and difficulty 2 give the target 2^255.
    assert!(!is_block_staking_valid("prev", "addr", 42, 1, 2, 11));
    assert!(is_block_staking_valid("prev", "addr", 43, 1, 2, 11));
    // balance 1 and difficulty 1 give 2^256: every digest
    assert!(is_block_staking_valid("prev", "addr", 42, 1, 1, 11));
    // up to height 10 the stake counts one more coin: 2^256 * 2 / 2
    assert!(is_block_staking_valid("prev", "addr", 42, 1, 2, 5));
    // no stake past height 10: only a zero digest would do
    assert!(!is_block_staking_valid("prev", "addr", 43, 0, 1, 11));
    // a larger balance at the same difficulty
    assert!(is_block_staking_valid("prev", "addr", 42, 2, 2, 11));
}

#[test]
fn mint_step_repeats_nothing_for_an_old_reading() {
    match find_block_step(1, "parent", vec![], 1, 77, 77) {
        MintAttempt::Pending { data, past_timestamp } => {
            assert!(data.is_empty());
            assert_eq!(past_timestamp, 77);
        }
        MintAttempt::Minted(_) => panic!("an old reading must not mint"),
    }
}

#[test]
fn mint_step_mints_early_blocks() {
    // at height 1 the stake is 1 coin against difficulty 2: target 2^255
    let timestamp = (100..200u64)
        .find(|ts| {
            let root = calculate_merkle_root(&[]);
            let hash = calculate_hash(1, "parent", *ts, &[], &root, 0, 2, 0, "");
            is_block_staking_valid("parent", &hash, *ts, 0, 2, 1)
        })
        .expect("some reading is below 2^255");
    match find_block_step(1, "parent", vec![], 2, 0, timestamp) {
        MintAttempt::Minted(block) => {
            assert_eq!(block.index, 1);
            assert_eq!(block.previous_hash, "parent");
            assert_eq!(block.timestamp, timestamp);
            assert_eq!(block.difficulty, 2);
            assert_eq!(block.minter_address, "");
            let root = calculate_merkle_root(&[]);
            assert_eq!(block.hash, calculate_hash(1, "parent", timestamp, &[], &root, 0, 2, 0, ""));
            let parent = Block::new(0, "parent".to_string(), "0".to_string(), 1, vec![], 1, 0, String::new());
            assert!(is_valid_new_block(&block, &parent));
        }
        MintAttempt::Pending { .. } => panic!("a valid stake must mint"),
    }
}

#[test]
fn mint_step_rejects_a_reading_above_the_target() {
    // the same stake as above, at a reading whose digest is above 2^255
    let timestamp = (100..200u64)
        .find(|ts| {
            let root = calculate_merkle_root(&[]);
            let hash = calculate_hash(1, "parent", *ts, &[], &root, 0, 2, 0, "");
            !is_block_staking_valid("parent", &hash, *ts, 0, 2, 1)
        })
        .expect("some reading is above 2^255");
    match find_block_step(1, "parent", vec![], 2, 0, timestamp) {
        MintAttempt::Pending { past_timestamp, .. } => assert_eq!(past_timestamp, timestamp),
        MintAttempt::Minted(_) => panic!("a digest above the target must not mint"),
    }
}

#[test]
fn mint_step_without_stake_waits() {
    match find_block_step(11, "parent", vec![], 1, 0, 5) {
        MintAttempt::Pending { past_timestamp, .. } => assert_eq!(past_timestamp, 5),
        MintAttempt::Minted(_) => panic!("no stake past height 10"),
    }
}

#[test]
fn timestamps_must_increase() {
    assert!(is_valid_timestamp(&block_at(1, 11, 1), &block_at(0, 10, 1)));
    assert!(!is_valid_timestamp(&block_at(1, 10, 1), &block_at(0, 10, 1)));
    assert!(!is_valid_timestamp(&block_at(1, 9, 1), &block_at(0, 10, 1)));
}

#[test]
fn stake_target_boundary() {
    // 2^256 * 1 / 2 = 2^255 past height 10
    let mut at_target = vec![0u8; 32];
    at_target[0] = 0x80;
    assert!(stake_meets_target(&at_target, 1, 2, 11));
    let mut above = at_target.clone();
    above[31] = 1;
    assert!(!stake_meets_target(&above, 1, 2, 11));
    // a digest above 2^255 meets the target 2^256 * 1 / 1
    assert!(stake_meets_target(&above, 1, 1, 11));
    // at height 10 the stake is 2: target 2^256 takes every 32-byte digest
    assert!(stake_meets_target(&[0xff; 32], 1, 2, 10));
    // stake 0 past height 10: only the zero digest
    assert!(stake_meets_target(&[0u8; 32], 0, 5, 11));
    assert!(!stake_meets_target(&[0, 1], 0, 5, 11));
    // 2^256 * 3 / 7
    let target = [0x6du8, 0xb6, 0xdb, 0x6d, 0xb6, 0xdb, 0x6d, 0xb6, 0xdb, 0x6d, 0xb6, 0xdb, 0x6d, 0xb6, 0xdb, 0x6d,
        0xb6, 0xdb, 0x6d, 0xb6, 0xdb, 0x6d, 0xb6, 0xdb, 0x6d, 0xb6, 0xdb, 0x6d, 0xb6, 0xdb, 0x6d, 0xb6];
    assert!(stake_meets_target(&target, 3, 7, 11));
    let mut over = target;
    over[31] += 1;
    assert!(!stake_meets_target(&over, 3, 7, 11));
}
