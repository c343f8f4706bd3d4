//! Blocks: their fields, the SHA-256 hash that fixes every field, and the
//! Merkle root that fixes the transactions a block carries.
use vstd::prelude::*;
use crate::codec::{
    append_decimal, be_bytes_u64, decimal_chars, hex_encode, hex_lower, json_quote, json_string,
    push_text, push_u64_be, signed_decimal_chars, signed_decimal_string, utf8,
};
use crate::crypto::{sha256, sha256_digest};
use crate::transaction::{Transaction, TxIn, TxOut};

verus! {

/// A block of the chain.
#[derive(Clone, Debug)]
pub struct Block {
    pub index: u64,
    pub hash: String,
    pub previous_hash: String,
    pub timestamp: u64,
    pub data: Vec<Transaction>,
    pub merkle_root: String,
    pub difficulty: u64,
    pub nonce: u64,
    pub minter_balance: u64,
    pub minter_address: String,
}

/// The bytes a block hash is taken over: each integer field as eight
/// big-endian bytes, each text field as UTF-8, in the order below.
pub open spec fn block_hash_preimage(
    index: u64,
    previous_hash: Seq<char>,
    timestamp: u64,
    merkle_root: Seq<char>,
    nonce: u64,
    difficulty: u64,
    minter_balance: u64,
    minter_address: Seq<char>,
) -> Seq<u8> {
    be_bytes_u64(index) + utf8(previous_hash) + be_bytes_u64(timestamp) + utf8(merkle_root)
        + be_bytes_u64(nonce) + be_bytes_u64(difficulty) + be_bytes_u64(minter_balance) + utf8(
        minter_address,
    )
}

/// The hash of a block with these fields: hex SHA-256 of its preimage.
pub open spec fn block_hash(
    index: u64,
    previous_hash: Seq<char>,
    timestamp: u64,
    merkle_root: Seq<char>,
    nonce: u64,
    difficulty: u64,
    minter_balance: u64,
    minter_address: Seq<char>,
) -> Seq<char> {
    hex_lower(
        sha256(
            block_hash_preimage(
                index,
                previous_hash,
                timestamp,
                merkle_root,
                nonce,
                difficulty,
                minter_balance,
                minter_address,
            ),
        ),
    )
}

/// The hash that a block's own fields give.
pub open spec fn recomputed_hash(b: Block) -> Seq<char> {
    block_hash(
        b.index,
        b.previous_hash@,
        b.timestamp,
        b.merkle_root@,
        b.nonce,
        b.difficulty,
        b.minter_balance,
        b.minter_address@,
    )
}

/// The compact JSON of an input, fields in declaration order.
pub open spec fn tx_in_json(tx_in: TxIn) -> Seq<char> {
    "{\"tx_out_id\":"@ + json_string(tx_in.tx_out_id@) + ",\"tx_out_index\":"@ + decimal_chars(
        tx_in.tx_out_index as nat,
    ) + ",\"signature\":"@ + json_string(tx_in.signature@) + "}"@
}

/// The compact JSON of an output, fields in declaration order.
pub open spec fn tx_out_json(tx_out: TxOut) -> Seq<char> {
    "{\"address\":"@ + json_string(tx_out.address@) + ",\"amount\":"@ + signed_decimal_chars(
        tx_out.amount as int,
    ) + "}"@
}

/// The elements of a JSON array of inputs, separated by commas.
pub open spec fn tx_ins_json(tx_ins: Seq<TxIn>) -> Seq<char>
    decreases tx_ins.len(),
{
    if tx_ins.len() == 0 {
        seq![]
    } else if tx_ins.len() == 1 {
        tx_in_json(tx_ins[0])
    } else {
        tx_ins_json(tx_ins.drop_last()) + ","@ + tx_in_json(tx_ins.last())
    }
}

/// The elements of a JSON array of outputs, separated by commas.
pub open spec fn tx_outs_json(tx_outs: Seq<TxOut>) -> Seq<char>
    decreases tx_outs.len(),
{
    if tx_outs.len() == 0 {
        seq![]
    } else if tx_outs.len() == 1 {
        tx_out_json(tx_outs[0])
    } else {
        tx_outs_json(tx_outs.drop_last()) + ","@ + tx_out_json(tx_outs.last())
    }
}

/// The compact JSON of a transaction: `{"id":..,"tx_ins":[..],"tx_outs":[..]}`.
pub open spec fn transaction_json(tx: Transaction) -> Seq<char> {
    "{\"id\":"@ + json_string(tx.id@) + ",\"tx_ins\":["@ + tx_ins_json(tx.tx_ins@) + "],\"tx_outs\":["@
        + tx_outs_json(tx.tx_outs@) + "]}"@
}

/// The bytes the Merkle root is taken over: the UTF-8 JSON of each
/// transaction, one after the other.
pub open spec fn merkle_preimage(txs: Seq<Transaction>) -> Seq<u8>
    decreases txs.len(),
{
    if txs.len() == 0 {
        seq![]
    } else {
        merkle_preimage(txs.drop_last()) + utf8(transaction_json(txs.last()))
    }
}

/// The Merkle root of a list of transactions: hex SHA-256 of their JSON.
pub open spec fn merkle_root(txs: Seq<Transaction>) -> Seq<char> {
    hex_lower(sha256(merkle_preimage(txs)))
}

/// Appends the JSON of an input to `s`.
fn append_tx_in_json(s: &mut String, tx_in: &TxIn)
    ensures
        final(s)@ == old(s)@ + tx_in_json(*tx_in),
{
    s.append("{\"tx_out_id\":");
    let id = json_quote(tx_in.tx_out_id.as_str());
    s.append(id.as_str());
    s.append(",\"tx_out_index\":");
    append_decimal(s, tx_in.tx_out_index as u64);
    s.append(",\"signature\":");
    let signature = json_quote(tx_in.signature.as_str());
    s.append(signature.as_str());
    s.append("}");
    assert(s@ =~= old(s)@ + tx_in_json(*tx_in));
}

/// Appends the JSON of an output to `s`.
fn append_tx_out_json(s: &mut String, tx_out: &TxOut)
    ensures
        final(s)@ == old(s)@ + tx_out_json(*tx_out),
{
    s.append("{\"address\":");
    let address = json_quote(tx_out.address.as_str());
    s.append(address.as_str());
    s.append(",\"amount\":");
    let amount = signed_decimal_string(tx_out.amount);
    s.append(amount.as_str());
    s.append("}");
    assert(s@ =~= old(s)@ + tx_out_json(*tx_out));
}

/// The compact JSON of a transaction.
fn transaction_json_string(tx: &Transaction) -> (s: String)
    ensures
        s@ == transaction_json(*tx),
{
    let mut s = String::new();
    s.append("{\"id\":");
    let id = json_quote(tx.id.as_str());
    s.append(id.as_str());
    s.append(",\"tx_ins\":[");
    let ghost head = s@;
    let ghost ins = tx.tx_ins@;
    let n = tx.tx_ins.len();
    let mut i: usize = 0;
    while i < n
        invariant
            n == ins.len(),
            ins == tx.tx_ins@,
            0 <= i <= n,
            s@ == head + tx_ins_json(ins.take(i as int)),
        decreases n - i,
    {
        if i > 0 {
            s.append(",");
        }
        append_tx_in_json(&mut s, &tx.tx_ins[i]);
        assert(ins.take(i + 1).drop_last() =~= ins.take(i as int));
        assert(s@ =~= head + tx_ins_json(ins.take(i + 1)));
        i = i + 1;
    }
    assert(ins.take(n as int) =~= ins);
    s.append("],\"tx_outs\":[");
    let ghost middle = s@;
    let ghost outs = tx.tx_outs@;
    let m = tx.tx_outs.len();
    let mut j: usize = 0;
    while j < m
        invariant
            m == outs.len(),
            outs == tx.tx_outs@,
            0 <= j <= m,
            s@ == middle + tx_outs_json(outs.take(j as int)),
        decreases m - j,
    {
        if j > 0 {
            s.append(",");
        }
        append_tx_out_json(&mut s, &tx.tx_outs[j]);
        assert(outs.take(j + 1).drop_last() =~= outs.take(j as int));
        assert(s@ =~= middle + tx_outs_json(outs.take(j + 1)));
        j = j + 1;
    }
    assert(outs.take(m as int) =~= outs);
    s.append("]}");
    assert(s@ =~= transaction_json(*tx));
    s
}

/// The Merkle root of a list of transactions: the hex SHA-256 of the JSON of
/// each transaction, one after the other.
pub fn calculate_merkle_root(data: &[Transaction]) -> (root: String)
    ensures
        root@ == merkle_root(data@),
        root@.len() == 64,
{
    let mut bytes: Vec<u8> = Vec::new();
    let n = data.len();
    let mut i: usize = 0;
    while i < n
        invariant
            n == data@.len(),
            0 <= i <= n,
            bytes@ == merkle_preimage(data@.take(i as int)),
        decreases n - i,
    {
        let json = transaction_json_string(&data[i]);
        push_text(&mut bytes, json.as_str());
        assert(data@.take(i + 1).drop_last() =~= data@.take(i as int));
        i = i + 1;
    }
    assert(data@.take(n as int) =~= data@);
    let digest = sha256_digest(bytes.as_slice());
    hex_encode(digest.as_slice())
}

/// The hash of a block with these fields (the transactions enter through the
/// Merkle root only).
pub fn calculate_hash(
    index: u64,
    previous_hash: &str,
    timestamp: u64,
    _data: &[Transaction],
    merkle_root: &str,
    nonce: u64,
    difficulty: u64,
    minter_balance: u64,
    minter_address: &str,
) -> (hash: String)
    ensures
        hash@ == block_hash(
            index,
            previous_hash@,
            timestamp,
            merkle_root@,
            nonce,
            difficulty,
            minter_balance,
            minter_address@,
        ),
        hash@.len() == 64,
{
    let mut bytes: Vec<u8> = Vec::new();
    push_u64_be(&mut bytes, index);
    push_text(&mut bytes, previous_hash);
    push_u64_be(&mut bytes, timestamp);
    push_text(&mut bytes, merkle_root);
    push_u64_be(&mut bytes, nonce);
    push_u64_be(&mut bytes, difficulty);
    push_u64_be(&mut bytes, minter_balance);
    push_text(&mut bytes, minter_address);
    assert(bytes@ =~= block_hash_preimage(
        index,
        previous_hash@,
        timestamp,
        merkle_root@,
        nonce,
        difficulty,
        minter_balance,
        minter_address@,
    ));
    let digest = sha256_digest(bytes.as_slice());
    hex_encode(digest.as_slice())
}

impl Block {
    /// A block with these fields, nonce 0 and the Merkle root of `data`.
    pub fn new(
        index: u64,
        hash: String,
        previous_hash: String,
        timestamp: u64,
        data: Vec<Transaction>,
        difficulty: u64,
        minter_balance: u64,
        minter_address: String,
    ) -> (b: Block)
        ensures
            b.index == index,
            b.hash == hash,
            b.previous_hash == previous_hash,
            b.timestamp == timestamp,
            b.data == data,
            b.merkle_root@ == merkle_root(data@),
            b.difficulty == difficulty,
            b.nonce == 0,
            b.minter_balance == minter_balance,
            b.minter_address == minter_address,
    {
        let merkle_root = calculate_merkle_root(data.as_slice());
        Block {
            index,
            hash,
            previous_hash,
            timestamp,
            merkle_root,
            data,
            difficulty,
            nonce: 0,
            minter_balance,
            minter_address,
        }
    }
}

/// The bytes under the Merkle root of a list of transactions are those of its
/// parts in order, one transaction contributing the UTF-8 of its JSON.
pub proof fn lemma_merkle_preimage_layout(a: Seq<Transaction>, b: Seq<Transaction>)
    ensures
        merkle_preimage(a + b) == merkle_preimage(a) + merkle_preimage(b),
        merkle_preimage(Seq::<Transaction>::empty()) == Seq::<u8>::empty(),
        b.len() == 1 ==> merkle_preimage(b) == utf8(transaction_json(b[0])),
    decreases b.len(),
{
    if b.len() == 0 {
        assert(a + b =~= a);
        assert(merkle_preimage(a) + merkle_preimage(b) =~= merkle_preimage(a));
    } else {
        lemma_merkle_preimage_layout(a, b.drop_last());
        assert((a + b).drop_last() =~= a + b.drop_last());
        if b.len() == 1 {
            assert(b.drop_last() =~= Seq::<Transaction>::empty());
            assert(merkle_preimage(b) =~= utf8(transaction_json(b[0])));
        }
        assert(merkle_preimage(a + b) =~= merkle_preimage(a) + merkle_preimage(b));
    }
}

} // verus!
