//! The chain of blocks and the rules that make a chain valid: consecutive
//! heights, each block naming its parent's hash, each hash matching the
//! block's fields.
use vstd::prelude::*;
use crate::block::{Block, block_hash, calculate_hash, calculate_merkle_root, merkle_root, recomputed_hash};
use crate::transaction::Transaction;
use crate::codec::{be_bytes_u64, hex_lower, utf8};
use crate::crypto::sha256;
use crate::consensus::{lemma_minted_block_extends_parent, minted_block};

verus! {

/// `new_block` extends `previous_block`: the next height, the parent's hash,
/// a Merkle root that its transactions give, and a hash that its own fields
/// give.
pub open spec fn links_to(new_block: Block, previous_block: Block) -> bool {
    &&& previous_block.index + 1 == new_block.index
    &&& previous_block.hash@ == new_block.previous_hash@
    &&& new_block.merkle_root@ == merkle_root(new_block.data@)
    &&& recomputed_hash(new_block) == new_block.hash@
}

/// A valid chain: not empty, and every block extends the one before it.
pub open spec fn chain_valid(chain: Seq<Block>) -> bool {
    &&& chain.len() > 0
    &&& forall|i: int| 1 <= i < chain.len() ==> links_to(#[trigger] chain[i], chain[i - 1])
}

/// The genesis block stamped `timestamp`: height 0, parent "0", no
/// transactions, difficulty 1, minted by "genesis", and the hash of those fields.
pub open spec fn is_genesis_block(b: Block, timestamp: u64) -> bool {
    &&& b.index == 0
    &&& b.previous_hash@ == "0"@
    &&& b.timestamp == timestamp
    &&& b.data@.len() == 0
    &&& b.merkle_root@ == merkle_root(seq![])
    &&& b.difficulty == 1
    &&& b.nonce == 0
    &&& b.minter_balance == 0
    &&& b.minter_address@ == "genesis"@
    &&& b.hash@ == block_hash(0, "0"@, timestamp, merkle_root(seq![]), 0, 1, 0, "genesis"@)
}

/// A chain of blocks, genesis first.
pub struct BlockChain {
    pub blocks: Vec<Block>,
}

impl BlockChain {
    /// A chain holding only the genesis block, stamped `timestamp` (the
    /// clock reading, in seconds since the Unix epoch, that the caller took).
    pub fn new(timestamp: u64) -> (c: BlockChain)
        ensures
            c.blocks@.len() == 1,
            is_genesis_block(c.blocks@[0], timestamp),
            recomputed_hash(c.blocks@[0]) == c.blocks@[0].hash@,
            chain_valid(c.blocks@),
    {
        let no_transactions: Vec<Transaction> = Vec::new();
        let empty_root = calculate_merkle_root(no_transactions.as_slice());
        let genesis_hash = calculate_hash(
            0,
            "0",
            timestamp,
            no_transactions.as_slice(),
            empty_root.as_str(),
            0,
            1,
            0,
            "genesis",
        );
        let genesis_block = Block::new(
            0,
            genesis_hash,
            String::from_str("0"),
            timestamp,
            Vec::new(),
            1,
            0,
            String::from_str("genesis"),
        );
        assert(genesis_block.data@ =~= no_transactions@);
        let mut blocks: Vec<Block> = Vec::new();
        blocks.push(genesis_block);
        BlockChain { blocks }
    }

    /// Appends `block` to the chain as it is; validity is not tested here.
    pub fn add_block(&mut self, block: Block)
        ensures
            final(self).blocks@ == old(self).blocks@.push(block),
    {
        self.blocks.push(block);
    }

    /// The last block of the chain.
    pub fn get_latest_block(&self) -> (b: &Block)
        requires
            self.blocks@.len() > 0,
        ensures
            *b == self.blocks@.last(),
    {
        &self.blocks[self.blocks.len() - 1]
    }

    /// Whether the chain's blocks form a valid chain.
    pub fn is_valid_chain(&self) -> (ok: bool)
        ensures
            ok == chain_valid(self.blocks@),
    {
        is_valid_chain(self.blocks.as_slice())
    }
}

/// Whether `new_block` extends `previous_block`: the next height, the
/// parent's hash, a Merkle root that its transactions give, and a hash that
/// its own fields give.
pub fn is_valid_new_block(new_block: &Block, previous_block: &Block) -> (ok: bool)
    ensures
        ok == links_to(*new_block, *previous_block),
{
    if new_block.index == 0 || previous_block.index != new_block.index - 1 {
        return false;
    }
    if !(previous_block.hash == new_block.previous_hash) {
        return false;
    }
    let recalculated_root = calculate_merkle_root(new_block.data.as_slice());
    if !(recalculated_root == new_block.merkle_root) {
        return false;
    }
    let recalculated = calculate_hash(
        new_block.index,
        new_block.previous_hash.as_str(),
        new_block.timestamp,
        new_block.data.as_slice(),
        new_block.merkle_root.as_str(),
        new_block.nonce,
        new_block.difficulty,
        new_block.minter_balance,
        new_block.minter_address.as_str(),
    );
    recalculated == new_block.hash
}

/// Whether `chain` is a valid chain: not empty, and every block extends the
/// one before it.
pub fn is_valid_chain(chain: &[Block]) -> (ok: bool)
    ensures
        ok == chain_valid(chain@),
{
    if chain.len() == 0 {
        return false;
    }
    let n = chain.len();
    let mut i: usize = 1;
    while i < n
        invariant
            n == chain@.len(),
            1 <= i <= n,
            forall|k: int| 1 <= k < i ==> links_to(#[trigger] chain@[k], chain@[k - 1]),
        decreases n - i,
    {
        if !is_valid_new_block(&chain[i], &chain[i - 1]) {
            return false;
        }
        i = i + 1;
    }
    true
}

/// A valid chain stays valid when a block that extends its last block is
/// appended.
pub proof fn lemma_extend_valid_chain(chain: Seq<Block>, block: Block)
    requires
        chain_valid(chain),
        links_to(block, chain.last()),
    ensures
        chain_valid(chain.push(block)),
{
    let c = chain.push(block);
    assert forall|i: int| 1 <= i < c.len() implies links_to(#[trigger] c[i], c[i - 1]) by {
        if i < chain.len() {
            assert(c[i] == chain[i]);
            assert(c[i - 1] == chain[i - 1]);
        }
    }
}

/// A block whose transactions were changed after it was made, so that they
/// no longer give its Merkle root, does not extend any block.
pub proof fn lemma_changed_transactions_break_link(new_block: Block, previous_block: Block)
    requires
        new_block.merkle_root@ != merkle_root(new_block.data@),
    ensures
        !links_to(new_block, previous_block),
{
}

/// Changing the transactions of any block after the first in a valid chain,
/// so that they no longer give the block's Merkle root, makes the chain
/// invalid: tampering with a transaction is detected.
pub proof fn lemma_tampered_transactions_invalidate_chain(
    chain: Seq<Block>,
    i: int,
    tampered: Block,
)
    requires
        chain_valid(chain),
        1 <= i < chain.len(),
        tampered.merkle_root@ == chain[i].merkle_root@,
        merkle_root(tampered.data@) != merkle_root(chain[i].data@),
    ensures
        !chain_valid(chain.update(i, tampered)),
{
    let c = chain.update(i, tampered);
    assert(links_to(chain[i], chain[i - 1]));
    assert(c[i] == tampered);
    assert(!links_to(c[i], c[i - 1]));
}

/// A block minted on top of the last block of a valid chain extends the
/// chain validly.
pub proof fn lemma_minted_block_extends_chain(
    chain: Seq<Block>,
    b: Block,
    timestamp: u64,
    data: Vec<Transaction>,
    difficulty: u64,
)
    requires
        chain_valid(chain),
        chain.last().index < u64::MAX,
        minted_block(b, (chain.last().index + 1) as u64, chain.last().hash@, timestamp, data, difficulty),
    ensures
        chain_valid(chain.push(b)),
{
    lemma_minted_block_extends_parent(b, chain.last(), timestamp, data, difficulty);
    lemma_extend_valid_chain(chain, b);
}

/// Every non-empty prefix of a valid chain is valid.
pub proof fn lemma_valid_chain_prefix(chain: Seq<Block>, k: int)
    requires
        chain_valid(chain),
        0 < k <= chain.len(),
    ensures
        chain_valid(chain.take(k)),
{
    let c = chain.take(k);
    assert forall|i: int| 1 <= i < c.len() implies links_to(#[trigger] c[i], c[i - 1]) by {
        assert(c[i] == chain[i]);
        assert(c[i - 1] == chain[i - 1]);
    }
}

/// In a valid chain the heights count up by one from the first block, and
/// each block names the hash of the block before it.
pub proof fn lemma_valid_chain_heights(chain: Seq<Block>)
    requires
        chain_valid(chain),
    ensures
        forall|i: int| 0 <= i < chain.len() ==> #[trigger] chain[i].index == chain[0].index + i,
        forall|i: int| 1 <= i < chain.len() ==> (#[trigger] chain[i]).previous_hash@ == chain[i - 1].hash@,
    decreases chain.len(),
{
    if chain.len() > 1 {
        let prefix = chain.drop_last();
        lemma_valid_chain_prefix(chain, chain.len() - 1);
        assert(prefix =~= chain.take(chain.len() - 1));
        lemma_valid_chain_heights(prefix);
        assert forall|i: int| 0 <= i < chain.len() implies #[trigger] chain[i].index == chain[0].index + i by {
            if i < chain.len() - 1 {
                assert(chain[i] == prefix[i]);
            } else {
                assert(links_to(chain[i], chain[i - 1]));
                assert(chain[i - 1] == prefix[i - 1]);
            }
        }
    }
}

/// The chain rule: a chain is valid exactly when it has a block and every
/// block after the first has the next height, names its parent's hash, has
/// the Merkle root of its own transactions, and has as hash the lowercase hex
/// SHA-256 of its height, parent hash, timestamp, Merkle root, nonce,
/// difficulty, minter balance and minter address (integers as eight
/// big-endian bytes, text as UTF-8), in that order.
pub proof fn lemma_chain_rule(chain: Seq<Block>)
    ensures
        chain_valid(chain) <==> {
            &&& chain.len() >= 1
            &&& forall|i: int|
                1 <= i < chain.len() ==> {
                    let b = #[trigger] chain[i];
                    let p = chain[i - 1];
                    &&& b.index == p.index + 1
                    &&& b.previous_hash@ == p.hash@
                    &&& b.merkle_root@ == merkle_root(b.data@)
                    &&& b.hash@ == hex_lower(
                        sha256(
                            be_bytes_u64(b.index) + utf8(b.previous_hash@) + be_bytes_u64(b.timestamp)
                                + utf8(b.merkle_root@) + be_bytes_u64(b.nonce) + be_bytes_u64(
                                b.difficulty,
                            ) + be_bytes_u64(b.minter_balance) + utf8(b.minter_address@),
                        ),
                    )
                }
        },
{
}

} // verus!
