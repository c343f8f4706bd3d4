//! Consensus: the proof-of-stake condition a new block must meet, the step
//! of the minting loop, the longest-valid-chain rule and the difficulty
//! adjustment.
use vstd::prelude::*;
use vstd::arithmetic::power::{lemma_pow_positive, pow};
use vstd::arithmetic::div_mod::{lemma_div_is_ordered, lemma_div_is_ordered_by_denominator};
use vstd::arithmetic::mul::lemma_mul_left_inequality;
use crate::block::{Block, block_hash, calculate_hash, calculate_merkle_root, merkle_root};
use crate::chain::{chain_valid, is_valid_chain, links_to};
use crate::codec::{be_bytes_u64, be_value, push_text, push_u64_be, utf8};
use crate::crypto::{
    biguint_div, biguint_from_bytes_be, biguint_from_u64, biguint_le, biguint_mul, biguint_pow,
    biguint_value, sha256, sha256_digest,
};
use crate::transaction::Transaction;

verus! {

/// Up to this height a minter stakes one coin more than its balance, so that
/// the first blocks can be minted without coins.
pub const MINTING_WITHOUT_COIN_INDEX: u64 = 10;

/// The number of seconds the chain aims to take per block.
pub const BLOCK_GENERATION_INTERVAL: u64 = 10;

/// The number of blocks between two difficulty adjustments.
pub const DIFFICULTY_ADJUSTMENT_INTERVAL: u64 = 10;

/// The digest a minter's stake is judged by: SHA-256 of the parent hash, the
/// minter's address and the timestamp (eight big-endian bytes).
pub open spec fn staking_digest(previous_hash: Seq<char>, address: Seq<char>, timestamp: u64) -> Seq<u8> {
    sha256(utf8(previous_hash) + utf8(address) + be_bytes_u64(timestamp))
}

/// The balance that counts as stake at height `index`.
pub open spec fn stake(balance: u64, index: u64) -> nat {
    if index <= MINTING_WITHOUT_COIN_INDEX {
        (balance + 1) as nat
    } else {
        balance as nat
    }
}

/// The target that a staking digest must not exceed: 2^256 * stake / difficulty.
pub open spec fn staking_target(stake: nat, difficulty: nat) -> nat {
    (pow(2, 256) * stake / (difficulty as int)) as nat
}

/// The proof-of-stake condition: the staking digest, read as a big-endian
/// number, is at most the target for the stake and the difficulty.
pub open spec fn staking_valid(
    previous_hash: Seq<char>,
    address: Seq<char>,
    timestamp: u64,
    balance: u64,
    difficulty: u64,
    index: u64,
) -> bool {
    be_value(staking_digest(previous_hash, address, timestamp)) <= staking_target(
        stake(balance, index),
        difficulty as nat,
    )
}

/// Whether a staking digest, read as a big-endian number, is at most
/// 2^256 * stake / difficulty, where the stake is the balance, one more up to
/// height `MINTING_WITHOUT_COIN_INDEX`. The difficulty must be positive.
pub fn stake_meets_target(digest: &[u8], balance: u64, difficulty: u64, index: u64) -> (ok: bool)
    requires
        difficulty > 0,
        index <= MINTING_WITHOUT_COIN_INDEX ==> balance < u64::MAX,
    ensures
        ok == (be_value(digest@) <= staking_target(stake(balance, index), difficulty as nat)),
{
    let mut balance = balance;
    if index <= MINTING_WITHOUT_COIN_INDEX {
        balance = balance + 1;
    }
    let two = biguint_from_u64(2);
    let max_hash = biguint_pow(&two, 256);
    let balance_big = biguint_from_u64(balance);
    let difficulty_big = biguint_from_u64(difficulty);
    let target = biguint_div(biguint_mul(max_hash, balance_big), difficulty_big);
    let hash_num = biguint_from_bytes_be(digest);
    proof {
        lemma_pow_positive(2, 256);
    }
    biguint_le(&hash_num, &target)
}

/// Whether a minter with `address` and `balance` may mint the block at height
/// `index` on top of `previous_hash` at `timestamp`: its staking digest, as a
/// 256-bit number, is at most 2^256 * balance / difficulty, the balance
/// counting one more up to height `MINTING_WITHOUT_COIN_INDEX`. The
/// difficulty must be positive.
pub fn is_block_staking_valid(
    previous_hash: &str,
    address: &str,
    timestamp: u64,
    balance: u64,
    difficulty: u64,
    index: u64,
) -> (ok: bool)
    requires
        difficulty > 0,
        index <= MINTING_WITHOUT_COIN_INDEX ==> balance < u64::MAX,
    ensures
        ok == staking_valid(previous_hash@, address@, timestamp, balance, difficulty, index),
{
    let mut data: Vec<u8> = Vec::new();
    push_text(&mut data, previous_hash);
    push_text(&mut data, address);
    push_u64_be(&mut data, timestamp);
    let digest = sha256_digest(data.as_slice());
    stake_meets_target(digest.as_slice(), balance, difficulty, index)
}

/// A larger balance never turns a valid stake invalid.
pub proof fn lemma_staking_monotone_in_balance(
    previous_hash: Seq<char>,
    address: Seq<char>,
    timestamp: u64,
    balance: u64,
    larger_balance: u64,
    difficulty: u64,
    index: u64,
)
    requires
        difficulty > 0,
        balance <= larger_balance,
        staking_valid(previous_hash, address, timestamp, balance, difficulty, index),
    ensures
        staking_valid(previous_hash, address, timestamp, larger_balance, difficulty, index),
{
    let p = pow(2, 256);
    lemma_pow_positive(2, 256);
    let s1 = stake(balance, index) as int;
    let s2 = stake(larger_balance, index) as int;
    lemma_mul_left_inequality(p, s1, s2);
    lemma_div_is_ordered(p * s1, p * s2, difficulty as int);
}

/// A lower difficulty never turns a valid stake invalid.
pub proof fn lemma_staking_antitone_in_difficulty(
    previous_hash: Seq<char>,
    address: Seq<char>,
    timestamp: u64,
    balance: u64,
    lower_difficulty: u64,
    difficulty: u64,
    index: u64,
)
    requires
        0 < lower_difficulty <= difficulty,
        staking_valid(previous_hash, address, timestamp, balance, difficulty, index),
    ensures
        staking_valid(previous_hash, address, timestamp, balance, lower_difficulty, index),
{
    let p = pow(2, 256);
    lemma_pow_positive(2, 256);
    let s = stake(balance, index) as int;
    assert(p * s >= 0) by (nonlinear_arith)
        requires
            p > 0,
            s >= 0,
    ;
    lemma_div_is_ordered_by_denominator(p * s, lower_difficulty as int, difficulty as int);
}

/// The hash of the block that the minting loop tries at `timestamp`.
pub open spec fn candidate_hash(
    index: u64,
    previous_hash: Seq<char>,
    timestamp: u64,
    data: Seq<Transaction>,
    difficulty: u64,
) -> Seq<char> {
    block_hash(index, previous_hash, timestamp, merkle_root(data), 0, difficulty, 0, seq![])
}

/// The block minted at `timestamp`: the candidate's fields, the
/// transactions, nonce 0, no balance and an empty minter address.
pub open spec fn minted_block(
    b: Block,
    index: u64,
    previous_hash: Seq<char>,
    timestamp: u64,
    data: Vec<Transaction>,
    difficulty: u64,
) -> bool {
    &&& b.index == index
    &&& b.hash@ == candidate_hash(index, previous_hash, timestamp, data@, difficulty)
    &&& b.previous_hash@ == previous_hash
    &&& b.timestamp == timestamp
    &&& b.data == data
    &&& b.merkle_root@ == merkle_root(data@)
    &&& b.difficulty == difficulty
    &&& b.nonce == 0
    &&& b.minter_balance == 0
    &&& b.minter_address@ == Seq::<char>::empty()
}

/// What one turn of the minting loop gives: a block, or the transactions back
/// with the last timestamp tried.
pub enum MintAttempt {
    Minted(Block),
    Pending { data: Vec<Transaction>, past_timestamp: u64 },
}

/// One turn of the minting loop at the clock reading `timestamp`. A reading
/// already tried (`past_timestamp`) gives the transactions back unchanged.
/// Otherwise the candidate block's hash stands in as the minter address with
/// balance 0; the difficulty must be positive; if that stake is valid the block is minted, else the reading is
/// remembered.
pub fn find_block_step(
    index: u64,
    previous_hash: &str,
    data: Vec<Transaction>,
    difficulty: u64,
    past_timestamp: u64,
    timestamp: u64,
) -> (r: MintAttempt)
    requires
        difficulty > 0,
    ensures
        timestamp == past_timestamp ==> r == (MintAttempt::Pending { data, past_timestamp }),
        timestamp != past_timestamp && staking_valid(
            previous_hash@,
            candidate_hash(index, previous_hash@, timestamp, data@, difficulty),
            timestamp,
            0,
            difficulty,
            index,
        ) ==> (r matches MintAttempt::Minted(b) && minted_block(
            b,
            index,
            previous_hash@,
            timestamp,
            data,
            difficulty,
        )),
        timestamp != past_timestamp && !staking_valid(
            previous_hash@,
            candidate_hash(index, previous_hash@, timestamp, data@, difficulty),
            timestamp,
            0,
            difficulty,
            index,
        ) ==> r == (MintAttempt::Pending { data, past_timestamp: timestamp }),
{
    if past_timestamp == timestamp {
        return MintAttempt::Pending { data, past_timestamp };
    }
    proof {
        reveal_strlit("");
    }
    let merkle_root = calculate_merkle_root(data.as_slice());
    let hash = calculate_hash(
        index,
        previous_hash,
        timestamp,
        data.as_slice(),
        merkle_root.as_str(),
        0,
        difficulty,
        0,
        "",
    );
    if is_block_staking_valid(previous_hash, hash.as_str(), timestamp, 0, difficulty, index) {
        let ghost expected_hash = hash@;
        let block = Block::new(
            index,
            hash,
            String::from_str(previous_hash),
            timestamp,
            data,
            difficulty,
            0,
            String::new(),
        );
        MintAttempt::Minted(block)
    } else {
        MintAttempt::Pending { data, past_timestamp: timestamp }
    }
}

/// A block minted on top of `parent` (at the next height, naming its hash)
/// is a valid next block for it: its hash is the one its own fields give.
pub proof fn lemma_minted_block_extends_parent(
    b: Block,
    parent: Block,
    timestamp: u64,
    data: Vec<Transaction>,
    difficulty: u64,
)
    requires
        minted_block(b, (parent.index + 1) as u64, parent.hash@, timestamp, data, difficulty),
        parent.index < u64::MAX,
    ensures
        links_to(b, parent),
{
}

/// The chain that the longest-valid-chain rule keeps: `new_chain` when it is
/// valid and longer, else the current one.
pub open spec fn chain_after_replace(chain: Seq<Block>, new_chain: Seq<Block>) -> Seq<Block> {
    if chain_valid(new_chain) && chain.len() < new_chain.len() {
        new_chain
    } else {
        chain
    }
}

/// Replaces `chain` by `new_chain` when `new_chain` is valid and longer.
pub fn replace_chain(chain: &mut Vec<Block>, new_chain: Vec<Block>)
    ensures
        final(chain)@ == chain_after_replace(old(chain)@, new_chain@),
{
    if is_valid_chain(new_chain.as_slice()) && chain.len() < new_chain.len() {
        *chain = new_chain;
    }
}

/// The longest-valid-chain rule keeps a valid chain valid and never makes it
/// shorter; it switches only to a valid chain that is strictly longer.
pub proof fn lemma_replace_chain_keeps_valid(chain: Seq<Block>, new_chain: Seq<Block>)
    requires
        chain_valid(chain),
    ensures
        chain_valid(chain_after_replace(chain, new_chain)),
        chain_after_replace(chain, new_chain).len() >= chain.len(),
        chain_after_replace(chain, new_chain) != chain ==> chain_valid(new_chain) && new_chain.len()
            > chain.len(),
{
}

/// The number of seconds that `DIFFICULTY_ADJUSTMENT_INTERVAL` blocks are
/// expected to take.
pub open spec fn time_expected() -> int {
    BLOCK_GENERATION_INTERVAL * DIFFICULTY_ADJUSTMENT_INTERVAL
}

/// The block `DIFFICULTY_ADJUSTMENT_INTERVAL` blocks from the end, whose
/// difficulty the adjustment starts from.
pub open spec fn adjustment_base(chain: Seq<Block>) -> Block {
    chain[chain.len() - DIFFICULTY_ADJUSTMENT_INTERVAL]
}

/// The inputs on which the adjustment computes without underflow or overflow:
/// time does not run backwards since the base block, and its difficulty can
/// move by one in the direction the adjustment takes.
pub open spec fn adjustment_defined(latest_block: Block, chain: Seq<Block>) -> bool {
    chain.len() >= DIFFICULTY_ADJUSTMENT_INTERVAL + 1 ==> {
        let base = adjustment_base(chain);
        let time_taken = latest_block.timestamp - base.timestamp;
        &&& latest_block.timestamp >= base.timestamp
        &&& time_taken < time_expected() / 2 ==> base.difficulty < u64::MAX
        &&& time_taken > time_expected() * 2 ==> base.difficulty > 0
    }
}

/// The adjusted difficulty: 1 on a chain too short to adjust; else the base
/// block's difficulty, one higher if the last interval went faster than half
/// the expected time, one lower if it went slower than twice.
pub open spec fn adjusted_difficulty(latest_block: Block, chain: Seq<Block>) -> int {
    if chain.len() < DIFFICULTY_ADJUSTMENT_INTERVAL + 1 {
        1
    } else {
        let base = adjustment_base(chain);
        let time_taken = latest_block.timestamp - base.timestamp;
        if time_taken < time_expected() / 2 {
            base.difficulty + 1
        } else if time_taken > time_expected() * 2 {
            base.difficulty - 1
        } else {
            base.difficulty as int
        }
    }
}

/// The adjusted difficulty for a chain whose latest block is `latest_block`.
pub fn get_adjusted_difficulty(latest_block: &Block, chain: &[Block]) -> (difficulty: u64)
    requires
        adjustment_defined(*latest_block, chain@),
    ensures
        difficulty == adjusted_difficulty(*latest_block, chain@),
{
    if chain.len() < DIFFICULTY_ADJUSTMENT_INTERVAL as usize + 1 {
        return 1;
    }
    let prev_adjustment_block = &chain[chain.len() - DIFFICULTY_ADJUSTMENT_INTERVAL as usize];
    let time_expected = BLOCK_GENERATION_INTERVAL * DIFFICULTY_ADJUSTMENT_INTERVAL;
    let time_taken = latest_block.timestamp - prev_adjustment_block.timestamp;
    if time_taken < time_expected / 2 {
        return prev_adjustment_block.difficulty + 1;
    } else if time_taken > time_expected * 2 {
        return prev_adjustment_block.difficulty - 1;
    }
    prev_adjustment_block.difficulty
}

/// Every `DIFFICULTY_ADJUSTMENT_INTERVAL` blocks, except at height 0, the
/// difficulty is adjusted.
pub open spec fn at_adjustment_height(latest_block: Block) -> bool {
    latest_block.index % DIFFICULTY_ADJUSTMENT_INTERVAL == 0 && latest_block.index != 0
}

/// The difficulty for the next block: adjusted at adjustment heights, else
/// the latest block's.
pub open spec fn next_difficulty(chain: Seq<Block>) -> int {
    if at_adjustment_height(chain.last()) {
        adjusted_difficulty(chain.last(), chain)
    } else {
        chain.last().difficulty as int
    }
}

/// Whether `get_difficulty` computes on `chain` without running past the
/// ends of `u64`: the chain is not empty and, at an adjustment height, the
/// adjustment is defined.
pub fn difficulty_computable(chain: &[Block]) -> (ok: bool)
    ensures
        ok == (chain@.len() > 0 && (at_adjustment_height(chain@.last()) ==> adjustment_defined(
            chain@.last(),
            chain@,
        ))),
{
    if chain.len() == 0 {
        return false;
    }
    let latest_block = &chain[chain.len() - 1];
    if !(latest_block.index % DIFFICULTY_ADJUSTMENT_INTERVAL == 0 && latest_block.index != 0) {
        return true;
    }
    if chain.len() < DIFFICULTY_ADJUSTMENT_INTERVAL as usize + 1 {
        return true;
    }
    let base = &chain[chain.len() - DIFFICULTY_ADJUSTMENT_INTERVAL as usize];
    if latest_block.timestamp < base.timestamp {
        return false;
    }
    let time_expected = BLOCK_GENERATION_INTERVAL * DIFFICULTY_ADJUSTMENT_INTERVAL;
    let time_taken = latest_block.timestamp - base.timestamp;
    if time_taken < time_expected / 2 && base.difficulty == u64::MAX {
        return false;
    }
    if time_taken > time_expected * 2 && base.difficulty == 0 {
        return false;
    }
    true
}

/// The difficulty for the next block of `chain`.
pub fn get_difficulty(chain: &[Block]) -> (difficulty: u64)
    requires
        chain@.len() > 0,
        at_adjustment_height(chain@.last()) ==> adjustment_defined(chain@.last(), chain@),
    ensures
        difficulty == next_difficulty(chain@),
{
    let latest_block = &chain[chain.len() - 1];
    if latest_block.index % DIFFICULTY_ADJUSTMENT_INTERVAL == 0 && latest_block.index != 0 {
        return get_adjusted_difficulty(latest_block, chain);
    }
    latest_block.difficulty
}

/// The difficulty moves by at most one per adjustment, and only at
/// adjustment heights; a chain too short to adjust falls back to 1.
pub proof fn lemma_difficulty_moves_by_at_most_one(chain: Seq<Block>)
    requires
        chain.len() > 0,
    ensures
        !at_adjustment_height(chain.last()) ==> next_difficulty(chain) == chain.last().difficulty,
        at_adjustment_height(chain.last()) && chain.len() < DIFFICULTY_ADJUSTMENT_INTERVAL + 1
            ==> next_difficulty(chain) == 1,
        at_adjustment_height(chain.last()) && chain.len() >= DIFFICULTY_ADJUSTMENT_INTERVAL + 1
            ==> adjustment_base(chain).difficulty - 1 <= next_difficulty(chain)
            <= adjustment_base(chain).difficulty + 1,
{
}

/// Whether `new_block` is stamped strictly later than `prev_block`.
pub fn is_valid_timestamp(new_block: &Block, prev_block: &Block) -> (ok: bool)
    ensures
        ok == (new_block.timestamp > prev_block.timestamp),
{
    new_block.timestamp > prev_block.timestamp
}

/// `h <= x / d` exactly when `h * d <= x`, for a positive divisor.
proof fn lemma_at_most_quotient(h: int, x: int, d: int)
    requires
        d > 0,
        x >= 0,
        h >= 0,
    ensures
        (h <= x / d) <==> (h * d <= x),
{
    let q = x / d;
    let r = x % d;
    assert(x == d * q + r && 0 <= r < d) by (nonlinear_arith)
        requires
            d > 0,
            q == x / d,
            r == x % d,
    ;
    assert(h <= q ==> h * d <= d * q) by (nonlinear_arith)
        requires
            d > 0,
    ;
    assert(h > q ==> h * d >= d * q + d) by (nonlinear_arith)
        requires
            d > 0,
    ;
}

/// The staking rule: a minter may mint when SHA-256 of the parent hash, then
/// its address, then the eight big-endian bytes of the timestamp, read as a
/// big-endian number and multiplied by the difficulty, is at most 2^256 times
/// its balance (one coin more up to height 10).
pub proof fn lemma_staking_rule(
    previous_hash: Seq<char>,
    address: Seq<char>,
    timestamp: u64,
    balance: u64,
    difficulty: u64,
    index: u64,
)
    requires
        difficulty > 0,
    ensures
        staking_valid(previous_hash, address, timestamp, balance, difficulty, index) <==> be_value(
            sha256(utf8(previous_hash) + utf8(address) + be_bytes_u64(timestamp)),
        ) * difficulty <= pow(2, 256) * (if index <= 10 {
            balance + 1
        } else {
            balance as int
        }),
{
    lemma_pow_positive(2, 256);
    let s: int = if index <= 10 {
        balance + 1
    } else {
        balance as int
    };
    assert(pow(2, 256) * s >= 0) by (nonlinear_arith)
        requires
            pow(2, 256) > 0,
            s >= 0,
    ;
    lemma_at_most_quotient(
        be_value(sha256(utf8(previous_hash) + utf8(address) + be_bytes_u64(timestamp))) as int,
        pow(2, 256) * s,
        difficulty as int,
    );
}

/// The longest-valid-chain rule: a valid chain strictly longer than the
/// current one replaces it; any other chain leaves the current one as it is.
pub proof fn lemma_replace_chain_rule(chain: Seq<Block>, new_chain: Seq<Block>)
    ensures
        chain_valid(new_chain) && chain.len() < new_chain.len() ==> chain_after_replace(chain, new_chain)
            == new_chain,
        !chain_valid(new_chain) || new_chain.len() <= chain.len() ==> chain_after_replace(
            chain,
            new_chain,
        ) == chain,
{
}

/// The difficulty rule, every 10 blocks: unless the latest height is a
/// non-zero multiple of 10, the next difficulty is the latest block's. At such
/// a height it is 1 on a chain of at most 10 blocks; otherwise it starts from
/// the block 10 places from the end and rises by one when the blocks since
/// took under 50 seconds, falls by one when they took over 200 seconds, and
/// stays otherwise.
pub proof fn lemma_difficulty_rule(chain: Seq<Block>)
    requires
        chain.len() > 0,
    ensures
        chain.last().index % 10 != 0 || chain.last().index == 0 ==> next_difficulty(chain)
            == chain.last().difficulty,
        chain.last().index % 10 == 0 && chain.last().index != 0 && chain.len() <= 10 ==> next_difficulty(
            chain,
        ) == 1,
        chain.last().index % 10 == 0 && chain.last().index != 0 && chain.len() > 10 ==> {
            let base = chain[chain.len() - 10];
            let taken = chain.last().timestamp - base.timestamp;
            &&& taken < 50 ==> next_difficulty(chain) == base.difficulty + 1
            &&& taken > 200 ==> next_difficulty(chain) == base.difficulty - 1
            &&& 50 <= taken <= 200 ==> next_difficulty(chain) == base.difficulty
        },
{
}

} // verus!
