//! The UTXO transaction model: outputs lock coins to an address (a public
//! key in hex), inputs spend earlier outputs with an ECDSA signature, and the
//! set of unspent outputs moves forward as transactions are applied.
use vstd::prelude::*;
use crate::codec::{
    decimal_chars, decimal_string, hex_decoded, hex_encode, hex_lower, is_hex_text, push_text,
    signed_decimal_chars, signed_decimal_string, utf8,
};
use crate::crypto::{
    public_key_of, secp_public_key, ecdsa_sign_der, ecdsa_signature_der, ecdsa_verifies, ecdsa_verify_der, secret_key_valid, sha256,
    sha256_digest,
};
use crate::codec::{hex_decode, lemma_hex_round_trip};

verus! {

/// The amount that a coinbase transaction mints.
pub const COINBASE_AMOUNT: i32 = 50;

/// An output: `amount` coins locked to `address`.
#[derive(Debug)]
pub struct TxOut {
    pub address: String,
    pub amount: i32,
}

/// An input: spends output `tx_out_index` of transaction `tx_out_id`.
#[derive(Debug)]
pub struct TxIn {
    pub tx_out_id: String,
    pub tx_out_index: u32,
    pub signature: String,
}

/// A transaction: its id (a hash of its inputs and outputs), inputs and outputs.
#[derive(Clone, Debug)]
pub struct Transaction {
    pub id: String,
    pub tx_ins: Vec<TxIn>,
    pub tx_outs: Vec<TxOut>,
}

/// An output that no transaction has spent yet.
#[derive(Debug)]
pub struct UnspentTxOut {
    pub tx_out_id: String,
    pub tx_out_index: u32,
    pub address: String,
    pub amount: i32,
}

impl Clone for TxOut {
    fn clone(&self) -> (r: Self)
        ensures
            r == *self,
    {
        TxOut { address: self.address.clone(), amount: self.amount }
    }
}

impl Clone for TxIn {
    fn clone(&self) -> (r: Self)
        ensures
            r == *self,
    {
        TxIn {
            tx_out_id: self.tx_out_id.clone(),
            tx_out_index: self.tx_out_index,
            signature: self.signature.clone(),
        }
    }
}

impl Clone for UnspentTxOut {
    fn clone(&self) -> (r: Self)
        ensures
            r == *self,
    {
        UnspentTxOut {
            tx_out_id: self.tx_out_id.clone(),
            tx_out_index: self.tx_out_index,
            address: self.address.clone(),
            amount: self.amount,
        }
    }
}

impl TxOut {
    pub fn new(address: String, amount: i32) -> (r: TxOut)
        ensures
            r.address == address,
            r.amount == amount,
    {
        TxOut { address, amount }
    }
}

impl TxIn {
    pub fn new(tx_out_id: String, tx_out_index: u32, signature: String) -> (r: TxIn)
        ensures
            r.tx_out_id == tx_out_id,
            r.tx_out_index == tx_out_index,
            r.signature == signature,
    {
        TxIn { tx_out_id, tx_out_index, signature }
    }
}

impl Transaction {
    pub fn new(id: String, tx_ins: Vec<TxIn>, tx_outs: Vec<TxOut>) -> (r: Transaction)
        ensures
            r.id == id,
            r.tx_ins == tx_ins,
            r.tx_outs == tx_outs,
    {
        Transaction { id, tx_ins, tx_outs }
    }
}

impl UnspentTxOut {
    pub fn new(tx_out_id: String, tx_out_index: u32, address: String, amount: i32) -> (r: UnspentTxOut)
        ensures
            r.tx_out_id == tx_out_id,
            r.tx_out_index == tx_out_index,
            r.address == address,
            r.amount == amount,
    {
        UnspentTxOut { tx_out_id, tx_out_index, address, amount }
    }
}

/// The input names this unspent output: same transaction id, same index.
pub open spec fn refers_to(tx_in: TxIn, utxo: UnspentTxOut) -> bool {
    &&& utxo.tx_out_id@ == tx_in.tx_out_id@
    &&& utxo.tx_out_index == tx_in.tx_out_index
}

/// The first unspent output in `utxos` that `tx_in` names, if any.
pub open spec fn find_utxo(utxos: Seq<UnspentTxOut>, tx_in: TxIn) -> Option<UnspentTxOut>
    decreases utxos.len(),
{
    if utxos.len() == 0 {
        None
    } else if refers_to(tx_in, utxos[0]) {
        Some(utxos[0])
    } else {
        find_utxo(utxos.drop_first(), tx_in)
    }
}

/// The bytes hashed for one input: its transaction id, then its index in decimal.
pub open spec fn tx_in_id_bytes(tx_in: TxIn) -> Seq<u8> {
    utf8(tx_in.tx_out_id@) + utf8(decimal_chars(tx_in.tx_out_index as nat))
}

/// The bytes hashed for one output: its address, then its amount in decimal.
pub open spec fn tx_out_id_bytes(tx_out: TxOut) -> Seq<u8> {
    utf8(tx_out.address@) + utf8(signed_decimal_chars(tx_out.amount as int))
}

pub open spec fn tx_ins_id_bytes(tx_ins: Seq<TxIn>) -> Seq<u8>
    decreases tx_ins.len(),
{
    if tx_ins.len() == 0 {
        seq![]
    } else {
        tx_ins_id_bytes(tx_ins.drop_last()) + tx_in_id_bytes(tx_ins.last())
    }
}

pub open spec fn tx_outs_id_bytes(tx_outs: Seq<TxOut>) -> Seq<u8>
    decreases tx_outs.len(),
{
    if tx_outs.len() == 0 {
        seq![]
    } else {
        tx_outs_id_bytes(tx_outs.drop_last()) + tx_out_id_bytes(tx_outs.last())
    }
}

/// The id of a transaction: the hex SHA-256 of its inputs' then its outputs' bytes.
pub open spec fn transaction_id(tx: Transaction) -> Seq<char> {
    hex_lower(sha256(tx_ins_id_bytes(tx.tx_ins@) + tx_outs_id_bytes(tx.tx_outs@)))
}

/// The 32-byte message that a signature over a transaction id signs.
pub open spec fn tx_id_digest(tx_id: Seq<char>) -> Seq<u8> {
    sha256(utf8(tx_id))
}

/// A hex signature over a transaction id that verifies against the public key
/// an address holds in hex.
pub open spec fn signature_valid(address: Seq<char>, tx_id: Seq<char>, signature: Seq<char>) -> bool {
    &&& is_hex_text(utf8(address))
    &&& is_hex_text(utf8(signature))
    &&& ecdsa_verifies(
        hex_decoded(utf8(address)),
        tx_id_digest(tx_id),
        hex_decoded(utf8(signature)),
    )
}

/// The input names an unspent output whose address accepts its signature.
pub open spec fn tx_in_valid(tx: Transaction, tx_in: TxIn, utxos: Seq<UnspentTxOut>) -> bool {
    match find_utxo(utxos, tx_in) {
        Some(utxo) => signature_valid(utxo.address@, tx.id@, tx_in.signature@),
        None => false,
    }
}

/// Inputs and outputs are present, every input names a 64-byte id and carries
/// a signature, every output has an address and a positive amount.
pub open spec fn structure_valid(tx: Transaction) -> bool {
    &&& tx.tx_ins@.len() > 0
    &&& tx.tx_outs@.len() > 0
    &&& forall|i: int|
        0 <= i < tx.tx_ins@.len() ==> {
            &&& utf8((#[trigger] tx.tx_ins@[i]).tx_out_id@).len() == 64
            &&& tx.tx_ins@[i].signature@.len() > 0
        }
    &&& forall|j: int|
        0 <= j < tx.tx_outs@.len() ==> {
            &&& (#[trigger] tx.tx_outs@[j]).address@.len() > 0
            &&& tx.tx_outs@[j].amount > 0
        }
}

/// No two inputs name the same output.
pub open spec fn distinct_outpoints(tx_ins: Seq<TxIn>) -> bool {
    forall|i: int, j: int|
        0 <= i < j < tx_ins.len() ==> !(#[trigger] tx_ins[i].tx_out_id@ == #[trigger] tx_ins[j].tx_out_id@
            && tx_ins[i].tx_out_index == tx_ins[j].tx_out_index)
}

/// The sum of the amounts of the outputs that the inputs spend.
pub open spec fn input_total(tx_ins: Seq<TxIn>, utxos: Seq<UnspentTxOut>) -> int
    decreases tx_ins.len(),
{
    if tx_ins.len() == 0 {
        0
    } else {
        input_total(tx_ins.drop_last(), utxos) + match find_utxo(utxos, tx_ins.last()) {
            Some(utxo) => utxo.amount as int,
            None => 0,
        }
    }
}

/// The sum of the amounts of the outputs.
pub open spec fn output_total(tx_outs: Seq<TxOut>) -> int
    decreases tx_outs.len(),
{
    if tx_outs.len() == 0 {
        0
    } else {
        output_total(tx_outs.drop_last()) + tx_outs.last().amount as int
    }
}

/// A transaction that may be applied to `utxos`: its id is its hash, its
/// structure is sound, each input spends a distinct unspent output with a
/// valid signature, and as many coins come in as go out.
pub open spec fn transaction_valid(tx: Transaction, utxos: Seq<UnspentTxOut>) -> bool {
    &&& transaction_id(tx) == tx.id@
    &&& structure_valid(tx)
    &&& forall|i: int| 0 <= i < tx.tx_ins@.len() ==> tx_in_valid(tx, #[trigger] tx.tx_ins@[i], utxos)
    &&& distinct_outpoints(tx.tx_ins@)
    &&& input_total(tx.tx_ins@, utxos) == output_total(tx.tx_outs@)
}

/// The position of the first unspent output that `tx_in` names.
fn lookup(tx_in: &TxIn, unspent_outputs: &[UnspentTxOut]) -> (r: Option<usize>)
    ensures
        match r {
            Some(k) => {
                &&& k < unspent_outputs@.len()
                &&& find_utxo(unspent_outputs@, *tx_in) == Some(unspent_outputs@[k as int])
            },
            None => find_utxo(unspent_outputs@, *tx_in) is None,
        },
{
    let n = unspent_outputs.len();
    let mut i: usize = 0;
    assert(unspent_outputs@.skip(0) =~= unspent_outputs@);
    while i < n
        invariant
            n == unspent_outputs@.len(),
            0 <= i <= n,
            find_utxo(unspent_outputs@, *tx_in) == find_utxo(unspent_outputs@.skip(i as int), *tx_in),
        decreases n - i,
    {
        let u = &unspent_outputs[i];
        let ghost rest = unspent_outputs@.skip(i as int);
        assert(rest[0] == unspent_outputs@[i as int]);
        if u.tx_out_id == tx_in.tx_out_id && u.tx_out_index == tx_in.tx_out_index {
            return Some(i);
        }
        assert(rest.drop_first() =~= unspent_outputs@.skip(i + 1));
        i = i + 1;
    }
    None
}

/// The unspent output that `tx_in` names (the first, if several do).
pub fn find_unspent_tx_out(tx_in: &TxIn, unspent_outputs: &[UnspentTxOut]) -> (r: UnspentTxOut)
    requires
        find_utxo(unspent_outputs@, *tx_in) is Some,
    ensures
        Some(r) == find_utxo(unspent_outputs@, *tx_in),
{
    match lookup(tx_in, unspent_outputs) {
        Some(k) => unspent_outputs[k].clone(),
        None => {
            proof {
                assert(false);
            }
            unspent_outputs[0].clone()
        },
    }
}

/// The amount of the unspent output that `tx_in` names.
pub fn get_tx_in_amount(tx_in: &TxIn, unspent_outputs: &[UnspentTxOut]) -> (amount: i32)
    requires
        find_utxo(unspent_outputs@, *tx_in) is Some,
    ensures
        amount == find_utxo(unspent_outputs@, *tx_in).unwrap().amount,
{
    find_unspent_tx_out(tx_in, unspent_outputs).amount
}

/// The id of a transaction: the hex SHA-256 of each input's id and index,
/// then each output's address and amount.
pub fn get_transaction_id(tx: &Transaction) -> (id: String)
    ensures
        id@ == transaction_id(*tx),
        id@.len() == 64,
{
    let mut data: Vec<u8> = Vec::new();
    let n = tx.tx_ins.len();
    let mut i: usize = 0;
    while i < n
        invariant
            n == tx.tx_ins@.len(),
            0 <= i <= n,
            data@ == tx_ins_id_bytes(tx.tx_ins@.take(i as int)),
        decreases n - i,
    {
        let tx_in = &tx.tx_ins[i];
        push_text(&mut data, tx_in.tx_out_id.as_str());
        let index = decimal_string(tx_in.tx_out_index as u64);
        push_text(&mut data, index.as_str());
        assert(tx.tx_ins@.take(i + 1).drop_last() =~= tx.tx_ins@.take(i as int));
        i = i + 1;
    }
    assert(tx.tx_ins@.take(n as int) =~= tx.tx_ins@);
    let m = tx.tx_outs.len();
    let mut j: usize = 0;
    while j < m
        invariant
            n == tx.tx_ins@.len(),
            m == tx.tx_outs@.len(),
            0 <= j <= m,
            data@ == tx_ins_id_bytes(tx.tx_ins@) + tx_outs_id_bytes(tx.tx_outs@.take(j as int)),
        decreases m - j,
    {
        let tx_out = &tx.tx_outs[j];
        push_text(&mut data, tx_out.address.as_str());
        let amount = signed_decimal_string(tx_out.amount);
        push_text(&mut data, amount.as_str());
        assert(tx.tx_outs@.take(j + 1).drop_last() =~= tx.tx_outs@.take(j as int));
        j = j + 1;
    }
    assert(tx.tx_outs@.take(m as int) =~= tx.tx_outs@);
    let digest = sha256_digest(data.as_slice());
    hex_encode(digest.as_slice())
}

/// The SHA-256 of a transaction id's text, the message its inputs sign.
fn hash_tx_id(tx_id: &str) -> (digest: Vec<u8>)
    ensures
        digest@ == tx_id_digest(tx_id@),
        digest@.len() == 32,
{
    sha256_digest(tx_id.as_bytes())
}

/// Signs input `tx_in_index` of `tx`: the hex DER ECDSA signature of the
/// SHA-256 of the transaction id under the hex secret key `private_key`.
/// The input must name an unspent output and the key must be valid hex of a
/// valid secp256k1 secret key.
pub fn sign_tx_in(
    tx: &Transaction,
    tx_in_index: usize,
    private_key: &str,
    unspent_outputs: &[UnspentTxOut],
) -> (signature: String)
    requires
        tx_in_index < tx.tx_ins@.len(),
        find_utxo(unspent_outputs@, tx.tx_ins@[tx_in_index as int]) is Some,
        is_hex_text(utf8(private_key@)),
        secret_key_valid(hex_decoded(utf8(private_key@))),
    ensures
        signature@ == hex_lower(
            ecdsa_signature_der(hex_decoded(utf8(private_key@)), tx_id_digest(tx.id@)),
        ),
        signature_valid(key_address(hex_decoded(utf8(private_key@))), tx.id@, signature@),
{
    let tx_in = &tx.tx_ins[tx_in_index];
    let _referenced_unspent_tx_out = find_unspent_tx_out(tx_in, unspent_outputs);
    let secret_key = hex_decode(private_key).unwrap();
    let digest = hash_tx_id(tx.id.as_str());
    let signature = ecdsa_sign_der(secret_key.as_slice(), digest.as_slice());
    proof {
        lemma_hex_round_trip(public_key_of(secret_key@));
        lemma_hex_round_trip(signature@);
    }
    hex_encode(signature.as_slice())
}

/// The address of a secret key: its compressed public key in lowercase hex.
pub open spec fn key_address(secret_key: Seq<u8>) -> Seq<char> {
    hex_lower(public_key_of(secret_key))
}

/// The address that the hex secret key `private_key` receives coins at: the
/// hex of its compressed secp256k1 public key. The key must be valid hex of a
/// valid secret key.
pub fn address_of_private_key(private_key: &str) -> (address: String)
    requires
        is_hex_text(utf8(private_key@)),
        secret_key_valid(hex_decoded(utf8(private_key@))),
    ensures
        address@ == key_address(hex_decoded(utf8(private_key@))),
{
    let secret_key = hex_decode(private_key).unwrap();
    let public_key = secp_public_key(secret_key.as_slice());
    hex_encode(public_key.as_slice())
}

/// Whether the hex `signature` over `tx_id` verifies against the public key
/// that `utxo_address` holds in hex; false when either is not hex.
pub fn verify_signature(utxo_address: &str, tx_id: &str, signature: &str) -> (ok: bool)
    ensures
        ok == signature_valid(utxo_address@, tx_id@, signature@),
        hex_decoded(utf8(utxo_address@)).len() != 33 && hex_decoded(utf8(utxo_address@)).len() != 65
            ==> !ok,
        hex_decoded(utf8(signature@)).len() == 0 ==> !ok,
{
    let digest = hash_tx_id(tx_id);
    let public_key = match hex_decode(utxo_address) {
        Ok(bytes) => bytes,
        Err(_) => return false,
    };
    let signature_bytes = match hex_decode(signature) {
        Ok(bytes) => bytes,
        Err(_) => return false,
    };
    ecdsa_verify_der(public_key.as_slice(), digest.as_slice(), signature_bytes.as_slice())
}

/// Whether `tx_in` names an unspent output whose address accepts the input's
/// signature of the transaction id.
pub fn validate_tx_in(tx: &Transaction, tx_in: &TxIn, unspent_outputs: &[UnspentTxOut]) -> (ok: bool)
    ensures
        ok == tx_in_valid(*tx, *tx_in, unspent_outputs@),
{
    match lookup(tx_in, unspent_outputs) {
        Some(k) => {
            let utxo = &unspent_outputs[k];
            verify_signature(utxo.address.as_str(), tx.id.as_str(), tx_in.signature.as_str())
        },
        None => false,
    }
}

/// Whether the transaction has inputs and outputs, every input names a
/// 64-byte id and carries a signature, and every output has an address and a
/// positive amount.
pub fn is_valid_transaction_structure(tx: &Transaction) -> (ok: bool)
    ensures
        ok == structure_valid(*tx),
{
    if tx.tx_ins.len() == 0 {
        return false;
    }
    if tx.tx_outs.len() == 0 {
        return false;
    }
    let n = tx.tx_ins.len();
    let mut i: usize = 0;
    while i < n
        invariant
            n == tx.tx_ins@.len(),
            0 <= i <= n,
            forall|k: int|
                0 <= k < i ==> {
                    &&& utf8((#[trigger] tx.tx_ins@[k]).tx_out_id@).len() == 64
                    &&& tx.tx_ins@[k].signature@.len() > 0
                },
        decreases n - i,
    {
        let tx_in = &tx.tx_ins[i];
        if tx_in.tx_out_id.as_str().as_bytes().len() != 64 {
            return false;
        }
        if tx_in.signature.as_str().is_empty() {
            return false;
        }
        i = i + 1;
    }
    let m = tx.tx_outs.len();
    let mut j: usize = 0;
    while j < m
        invariant
            m == tx.tx_outs@.len(),
            0 <= j <= m,
            forall|k: int|
                0 <= k < j ==> {
                    &&& (#[trigger] tx.tx_outs@[k]).address@.len() > 0
                    &&& tx.tx_outs@[k].amount > 0
                },
        decreases m - j,
    {
        let tx_out = &tx.tx_outs[j];
        if tx_out.address.as_str().is_empty() {
            return false;
        }
        if tx_out.amount <= 0 {
            return false;
        }
        j = j + 1;
    }
    true
}

/// Whether `tx` may be applied to `unspent_outputs`: its id is the hash of its
/// contents, its structure is sound, every input validates, no output is
/// spent twice, and the inputs add up to the outputs.
pub fn validate_transaction(tx: &Transaction, unspent_outputs: &[UnspentTxOut]) -> (ok: bool)
    ensures
        ok == transaction_valid(*tx, unspent_outputs@),
{
    let id = get_transaction_id(tx);
    if !(id == tx.id) {
        return false;
    }
    if !is_valid_transaction_structure(tx) {
        return false;
    }
    let ghost ins = tx.tx_ins@;
    let ghost utxos = unspent_outputs@;
    let n = tx.tx_ins.len();
    let mut total_input_values: i128 = 0;
    let mut i: usize = 0;
    while i < n
        invariant
            n == ins.len(),
            ins == tx.tx_ins@,
            utxos == unspent_outputs@,
            0 <= i <= n,
            forall|k: int| 0 <= k < i ==> tx_in_valid(*tx, #[trigger] ins[k], utxos),
            distinct_outpoints(ins.take(i as int)),
            total_input_values == input_total(ins.take(i as int), utxos),
            -2147483648 * i <= total_input_values <= 2147483647 * i,
        decreases n - i,
    {
        let tx_in = &tx.tx_ins[i];
        if !validate_tx_in(tx, tx_in, unspent_outputs) {
            return false;
        }
        let mut j: usize = 0;
        while j < i
            invariant
                n == ins.len(),
                ins == tx.tx_ins@,
                0 <= j <= i < n,
                *tx_in == ins[i as int],
                forall|k: int|
                    0 <= k < j ==> !(ins[k].tx_out_id@ == ins[i as int].tx_out_id@ && ins[k].tx_out_index
                        == ins[i as int].tx_out_index),
            decreases i - j,
        {
            let earlier = &tx.tx_ins[j];
            if earlier.tx_out_id == tx_in.tx_out_id && earlier.tx_out_index == tx_in.tx_out_index {
                assert(!distinct_outpoints(ins));
                return false;
            }
            j = j + 1;
        }
        let amount = get_tx_in_amount(tx_in, unspent_outputs);
        total_input_values = total_input_values + amount as i128;
        assert(ins.take(i + 1).drop_last() =~= ins.take(i as int));
        assert(distinct_outpoints(ins.take(i + 1))) by {
            assert forall|a: int, b: int| 0 <= a < b < i + 1 implies !(#[trigger] ins.take(i + 1)[a].tx_out_id@
                == #[trigger] ins.take(i + 1)[b].tx_out_id@ && ins.take(i + 1)[a].tx_out_index == ins.take(
                i + 1,
            )[b].tx_out_index) by {
                if b < i {
                    assert(ins.take(i as int)[a] == ins.take(i + 1)[a]);
                    assert(ins.take(i as int)[b] == ins.take(i + 1)[b]);
                }
            }
        }
        i = i + 1;
    }
    assert(ins.take(n as int) =~= ins);
    let ghost outs = tx.tx_outs@;
    let m = tx.tx_outs.len();
    let mut total_output_values: i128 = 0;
    let mut j: usize = 0;
    while j < m
        invariant
            m == outs.len(),
            outs == tx.tx_outs@,
            0 <= j <= m,
            total_output_values == output_total(outs.take(j as int)),
            -2147483648 * j <= total_output_values <= 2147483647 * j,
        decreases m - j,
    {
        total_output_values = total_output_values + tx.tx_outs[j].amount as i128;
        assert(outs.take(j + 1).drop_last() =~= outs.take(j as int));
        j = j + 1;
    }
    assert(outs.take(m as int) =~= outs);
    total_input_values == total_output_values
}

/// Some input of some transaction in `txs` names `utxo`.
pub open spec fn spent_by(txs: Seq<Transaction>, utxo: UnspentTxOut) -> bool {
    exists|t: int, k: int|
        0 <= t < txs.len() && 0 <= k < txs[t].tx_ins@.len() && refers_to(
            #[trigger] txs[t].tx_ins@[k],
            utxo,
        )
}

/// The unspent outputs that a transaction creates, one per output, numbered
/// by position.
pub open spec fn created_outputs(tx: Transaction) -> Seq<UnspentTxOut> {
    Seq::new(
        tx.tx_outs@.len(),
        |k: int|
            UnspentTxOut {
                tx_out_id: tx.id,
                tx_out_index: k as u32,
                address: tx.tx_outs@[k].address,
                amount: tx.tx_outs@[k].amount,
            },
    )
}

/// The outputs that the transactions create, transaction by transaction.
pub open spec fn all_created_outputs(txs: Seq<Transaction>) -> Seq<UnspentTxOut>
    decreases txs.len(),
{
    if txs.len() == 0 {
        seq![]
    } else {
        all_created_outputs(txs.drop_last()) + created_outputs(txs.last())
    }
}

/// The unspent outputs, in order, that no input of `txs` spends.
pub open spec fn not_spent(utxos: Seq<UnspentTxOut>, txs: Seq<Transaction>) -> Seq<UnspentTxOut>
    decreases utxos.len(),
{
    if utxos.len() == 0 {
        seq![]
    } else if spent_by(txs, utxos.last()) {
        not_spent(utxos.drop_last(), txs)
    } else {
        not_spent(utxos.drop_last(), txs).push(utxos.last())
    }
}

/// The unspent outputs after applying `txs`: the old ones that they do not
/// spend, then the ones they create.
pub open spec fn updated_unspent(txs: Seq<Transaction>, utxos: Seq<UnspentTxOut>) -> Seq<UnspentTxOut> {
    not_spent(utxos, txs) + all_created_outputs(txs)
}

/// Whether some input of some transaction names `utxo`.
fn is_spent(txs: &[Transaction], utxo: &UnspentTxOut) -> (r: bool)
    ensures
        r == spent_by(txs@, *utxo),
{
    let n = txs.len();
    let mut t: usize = 0;
    while t < n
        invariant
            n == txs@.len(),
            0 <= t <= n,
            forall|a: int, k: int|
                0 <= a < t && 0 <= k < txs@[a].tx_ins@.len() ==> !refers_to(
                    #[trigger] txs@[a].tx_ins@[k],
                    *utxo,
                ),
        decreases n - t,
    {
        let tx = &txs[t];
        let m = tx.tx_ins.len();
        let mut k: usize = 0;
        while k < m
            invariant
                n == txs@.len(),
                0 <= t < n,
                *tx == txs@[t as int],
                m == tx.tx_ins@.len(),
                0 <= k <= m,
                forall|a: int, b: int|
                    0 <= a < t && 0 <= b < txs@[a].tx_ins@.len() ==> !refers_to(
                        #[trigger] txs@[a].tx_ins@[b],
                        *utxo,
                    ),
                forall|b: int| 0 <= b < k ==> !refers_to(#[trigger] tx.tx_ins@[b], *utxo),
            decreases m - k,
        {
            let tx_in = &tx.tx_ins[k];
            if tx_in.tx_out_id == utxo.tx_out_id && tx_in.tx_out_index == utxo.tx_out_index {
                assert(refers_to(txs@[t as int].tx_ins@[k as int], *utxo));
                return true;
            }
            k = k + 1;
        }
        t = t + 1;
    }
    false
}

/// The unspent outputs after applying `new_txs`: those of
/// `a_unspent_tx_outs` that no input spends, in order, followed by one new
/// unspent output for each output of each transaction.
pub fn update_unspent_tx_outs(new_txs: &[Transaction], a_unspent_tx_outs: &[UnspentTxOut]) -> (r: Vec<
    UnspentTxOut,
>)
    ensures
        r@ == updated_unspent(new_txs@, a_unspent_tx_outs@),
{
    let ghost txs = new_txs@;
    let ghost utxos = a_unspent_tx_outs@;
    let mut resulting: Vec<UnspentTxOut> = Vec::new();
    let n = a_unspent_tx_outs.len();
    let mut i: usize = 0;
    while i < n
        invariant
            n == utxos.len(),
            utxos == a_unspent_tx_outs@,
            txs == new_txs@,
            0 <= i <= n,
            resulting@ == not_spent(utxos.take(i as int), txs),
        decreases n - i,
    {
        let utxo = &a_unspent_tx_outs[i];
        assert(utxos.take(i + 1).drop_last() =~= utxos.take(i as int));
        if !is_spent(new_txs, utxo) {
            resulting.push(utxo.clone());
        }
        i = i + 1;
    }
    assert(utxos.take(n as int) =~= utxos);
    let m = new_txs.len();
    let mut t: usize = 0;
    while t < m
        invariant
            m == txs.len(),
            txs == new_txs@,
            0 <= t <= m,
            resulting@ == not_spent(utxos, txs) + all_created_outputs(txs.take(t as int)),
        decreases m - t,
    {
        let tx = &new_txs[t];
        let ghost before = resulting@;
        let k_max = tx.tx_outs.len();
        let mut k: usize = 0;
        while k < k_max
            invariant
                0 <= t < m,
                *tx == txs[t as int],
                k_max == tx.tx_outs@.len(),
                0 <= k <= k_max,
                resulting@ == before + created_outputs(*tx).take(k as int),
            decreases k_max - k,
        {
            let tx_out = &tx.tx_outs[k];
            let created = UnspentTxOut::new(
                tx.id.clone(),
                k as u32,
                tx_out.address.clone(),
                tx_out.amount,
            );
            resulting.push(created);
            assert(created_outputs(*tx).take(k + 1) =~= created_outputs(*tx).take(k as int).push(
                created,
            ));
            k = k + 1;
        }
        assert(created_outputs(*tx).take(k_max as int) =~= created_outputs(*tx));
        assert(txs.take(t + 1).drop_last() =~= txs.take(t as int));
        assert(resulting@ =~= not_spent(utxos, txs) + all_created_outputs(txs.take(t + 1)));
        t = t + 1;
    }
    assert(txs.take(m as int) =~= txs);
    resulting
}

/// The id that the only input of a coinbase transaction names: 64 zeros.
pub open spec fn coinbase_input_id() -> Seq<char> {
    Seq::new(64, |i: int| '0')
}

/// A coinbase transaction: one input naming output 0 of the all-zero id, and
/// one output of `COINBASE_AMOUNT`.
pub open spec fn coinbase_valid(tx: Transaction) -> bool {
    &&& tx.tx_ins@.len() == 1
    &&& tx.tx_outs@.len() == 1
    &&& tx.tx_ins@[0].tx_out_id@ == coinbase_input_id()
    &&& tx.tx_ins@[0].tx_out_index == 0
    &&& tx.tx_outs@[0].amount == COINBASE_AMOUNT
}

/// The text of 64 zeros.
fn coinbase_input_id_string() -> (s: String)
    ensures
        s@ == coinbase_input_id(),
{
    let mut s = String::new();
    let mut i: usize = 0;
    proof {
        reveal_strlit("0");
    }
    while i < 64
        invariant
            0 <= i <= 64,
            s@ == Seq::new(i as nat, |k: int| '0'),
            "0"@ == seq!['0'],
        decreases 64 - i,
    {
        s.append("0");
        i = i + 1;
        assert(s@ =~= Seq::new(i as nat, |k: int| '0'));
    }
    s
}

/// Whether `tx` has the shape of a coinbase transaction (the block index is
/// not consulted).
pub fn validate_coinbase_tx(tx: &Transaction, block_index: u32) -> (ok: bool)
    ensures
        ok == coinbase_valid(*tx),
{
    if tx.tx_ins.len() != 1 {
        return false;
    }
    if tx.tx_outs.len() != 1 {
        return false;
    }
    let zeros = coinbase_input_id_string();
    if !(tx.tx_ins[0].tx_out_id == zeros) {
        return false;
    }
    if tx.tx_ins[0].tx_out_index != 0 {
        return false;
    }
    if tx.tx_outs[0].amount != COINBASE_AMOUNT {
        return false;
    }
    true
}

/// A valid transaction spends only outputs that are unspent, each at most
/// once, with a valid signature, and creates exactly as many coins as it spends.
pub proof fn lemma_valid_transaction_conserves_value(tx: Transaction, utxos: Seq<UnspentTxOut>)
    requires
        transaction_valid(tx, utxos),
    ensures
        input_total(tx.tx_ins@, utxos) == output_total(tx.tx_outs@),
        forall|i: int| 0 <= i < tx.tx_ins@.len() ==> find_utxo(utxos, #[trigger] tx.tx_ins@[i]) is Some,
        distinct_outpoints(tx.tx_ins@),
        tx.id@ == transaction_id(tx),
{
    assert forall|i: int| 0 <= i < tx.tx_ins@.len() implies find_utxo(utxos, #[trigger] tx.tx_ins@[i]) is Some by {
        assert(tx_in_valid(tx, tx.tx_ins@[i], utxos));
    }
}

/// A valid coinbase transaction mints exactly `COINBASE_AMOUNT`.
pub proof fn lemma_coinbase_mints_fixed_amount(tx: Transaction)
    requires
        coinbase_valid(tx),
    ensures
        output_total(tx.tx_outs@) == COINBASE_AMOUNT,
{
    let outs = tx.tx_outs@;
    assert(outs.drop_last() =~= Seq::<TxOut>::empty());
    assert(output_total(outs.drop_last()) == 0);
    assert(output_total(outs) == output_total(outs.drop_last()) + outs.last().amount as int);
}

/// The unspent outputs that no input of `txs` spends are exactly those of
/// `utxos` that no input names.
proof fn lemma_not_spent_members(utxos: Seq<UnspentTxOut>, txs: Seq<Transaction>)
    ensures
        forall|u: UnspentTxOut|
            #[trigger] not_spent(utxos, txs).contains(u) <==> (utxos.contains(u) && !spent_by(txs, u)),
    decreases utxos.len(),
{
    broadcast use vstd::seq_lib::group_seq_properties;

    if utxos.len() > 0 {
        let rest = utxos.drop_last();
        let last = utxos.last();
        lemma_not_spent_members(rest, txs);
        assert(utxos =~= rest.push(last));
        assert forall|u: UnspentTxOut| #[trigger]
            not_spent(utxos, txs).contains(u) <==> (utxos.contains(u) && !spent_by(txs, u)) by {
            assert(utxos.contains(u) <==> (rest.contains(u) || u == last));
            if spent_by(txs, last) {
                assert(not_spent(utxos, txs) == not_spent(rest, txs));
            } else {
                assert(not_spent(utxos, txs) == not_spent(rest, txs).push(last));
                assert(not_spent(rest, txs).push(last).contains(u) <==> (not_spent(rest, txs).contains(
                    u,
                ) || u == last));
            }
        }
    } else {
        assert forall|u: UnspentTxOut| !(#[trigger] not_spent(utxos, txs).contains(u)) by {}
    }
}

/// Applying transactions to the unspent outputs keeps exactly the old outputs
/// that they do not spend and adds every output that they create: an output
/// that an input spends does not survive unless a transaction creates it anew.
pub proof fn lemma_update_unspent_members(txs: Seq<Transaction>, utxos: Seq<UnspentTxOut>)
    ensures
        forall|u: UnspentTxOut|
            #[trigger] updated_unspent(txs, utxos).contains(u) <==> ((utxos.contains(u) && !spent_by(
                txs,
                u,
            )) || all_created_outputs(txs).contains(u)),
{
    broadcast use vstd::seq_lib::group_seq_properties;

    lemma_not_spent_members(utxos, txs);
}

/// An input of `a + b` spends `utxo` exactly when an input of `a` or of `b` does.
proof fn lemma_spent_by_concat(a: Seq<Transaction>, b: Seq<Transaction>, utxo: UnspentTxOut)
    ensures
        spent_by(a + b, utxo) <==> (spent_by(a, utxo) || spent_by(b, utxo)),
{
    let ab = a + b;
    if spent_by(ab, utxo) {
        let (t, k) = choose|t: int, k: int|
            0 <= t < ab.len() && 0 <= k < ab[t].tx_ins@.len() && refers_to(
                #[trigger] ab[t].tx_ins@[k],
                utxo,
            );
        if t < a.len() {
            assert(ab[t] == a[t]);
            assert(refers_to(a[t].tx_ins@[k], utxo));
        } else {
            assert(ab[t] == b[t - a.len()]);
            assert(refers_to(b[t - a.len()].tx_ins@[k], utxo));
        }
    }
    if spent_by(a, utxo) {
        let (t, k) = choose|t: int, k: int|
            0 <= t < a.len() && 0 <= k < a[t].tx_ins@.len() && refers_to(
                #[trigger] a[t].tx_ins@[k],
                utxo,
            );
        assert(ab[t] == a[t]);
        assert(refers_to(ab[t].tx_ins@[k], utxo));
    }
    if spent_by(b, utxo) {
        let (t, k) = choose|t: int, k: int|
            0 <= t < b.len() && 0 <= k < b[t].tx_ins@.len() && refers_to(
                #[trigger] b[t].tx_ins@[k],
                utxo,
            );
        assert(ab[t + a.len()] == b[t]);
        assert(refers_to(ab[t + a.len()].tx_ins@[k], utxo));
    }
}

/// The outputs that `a + b` creates are those of `a`, then those of `b`.
proof fn lemma_created_concat(a: Seq<Transaction>, b: Seq<Transaction>)
    ensures
        all_created_outputs(a + b) == all_created_outputs(a) + all_created_outputs(b),
    decreases b.len(),
{
    if b.len() == 0 {
        assert(a + b =~= a);
        assert(all_created_outputs(a) + all_created_outputs(b) =~= all_created_outputs(a));
    } else {
        lemma_created_concat(a, b.drop_last());
        assert((a + b).drop_last() =~= a + b.drop_last());
        assert((a + b).last() == b.last());
        assert(all_created_outputs(a + b) =~= all_created_outputs(a) + all_created_outputs(b));
    }
}

/// Filtering a concatenation filters each part.
proof fn lemma_not_spent_concat(s1: Seq<UnspentTxOut>, s2: Seq<UnspentTxOut>, txs: Seq<Transaction>)
    ensures
        not_spent(s1 + s2, txs) == not_spent(s1, txs) + not_spent(s2, txs),
    decreases s2.len(),
{
    if s2.len() == 0 {
        assert(s1 + s2 =~= s1);
        assert(not_spent(s1, txs) + not_spent(s2, txs) =~= not_spent(s1, txs));
    } else {
        lemma_not_spent_concat(s1, s2.drop_last(), txs);
        assert((s1 + s2).drop_last() =~= s1 + s2.drop_last());
        assert((s1 + s2).last() == s2.last());
        assert(not_spent(s1 + s2, txs) =~= not_spent(s1, txs) + not_spent(s2, txs));
    }
}

/// Filtering by `a` and then by `b` is filtering by `a + b`.
proof fn lemma_not_spent_twice(s: Seq<UnspentTxOut>, a: Seq<Transaction>, b: Seq<Transaction>)
    ensures
        not_spent(not_spent(s, a), b) == not_spent(s, a + b),
    decreases s.len(),
{
    if s.len() > 0 {
        let x = s.last();
        lemma_not_spent_twice(s.drop_last(), a, b);
        lemma_spent_by_concat(a, b, x);
        let inner = not_spent(s.drop_last(), a);
        if !spent_by(a, x) {
            assert(inner.push(x).drop_last() =~= inner);
            assert(inner.push(x).last() == x);
        }
    }
}

/// Outputs that no input spends all survive the filter.
proof fn lemma_not_spent_untouched(s: Seq<UnspentTxOut>, txs: Seq<Transaction>)
    requires
        forall|i: int| 0 <= i < s.len() ==> !spent_by(txs, #[trigger] s[i]),
    ensures
        not_spent(s, txs) == s,
    decreases s.len(),
{
    if s.len() > 0 {
        lemma_not_spent_untouched(s.drop_last(), txs);
        assert(!spent_by(txs, s[s.len() - 1]));
        assert(s.drop_last().push(s.last()) =~= s);
    }
}

/// Applying one batch of transactions and then another gives the same
/// unspent outputs as applying both at once, provided the second batch
/// spends none of the outputs that the first creates.
pub proof fn lemma_update_in_turn(
    first: Seq<Transaction>,
    second: Seq<Transaction>,
    utxos: Seq<UnspentTxOut>,
)
    requires
        forall|i: int|
            0 <= i < all_created_outputs(first).len() ==> !spent_by(
                second,
                #[trigger] all_created_outputs(first)[i],
            ),
    ensures
        updated_unspent(second, updated_unspent(first, utxos)) == updated_unspent(first + second, utxos),
{
    lemma_not_spent_concat(not_spent(utxos, first), all_created_outputs(first), second);
    lemma_not_spent_twice(utxos, first, second);
    lemma_not_spent_untouched(all_created_outputs(first), second);
    lemma_created_concat(first, second);
    assert(updated_unspent(second, updated_unspent(first, utxos)) =~= updated_unspent(
        first + second,
        utxos,
    ));
}

/// No two unspent outputs name the same output of the same transaction.
pub open spec fn outpoints_distinct(utxos: Seq<UnspentTxOut>) -> bool {
    forall|i: int, j: int|
        0 <= i < j < utxos.len() ==> !(#[trigger] utxos[i].tx_out_id@ == #[trigger] utxos[j].tx_out_id@
            && utxos[i].tx_out_index == utxos[j].tx_out_index)
}

/// Filtering keeps outputs distinct.
proof fn lemma_not_spent_distinct(s: Seq<UnspentTxOut>, txs: Seq<Transaction>)
    requires
        outpoints_distinct(s),
    ensures
        outpoints_distinct(not_spent(s, txs)),
    decreases s.len(),
{
    if s.len() > 0 {
        let rest = s.drop_last();
        let x = s.last();
        assert(outpoints_distinct(rest)) by {
            assert forall|i: int, j: int| 0 <= i < j < rest.len() implies !(#[trigger] rest[i].tx_out_id@
                == #[trigger] rest[j].tx_out_id@ && rest[i].tx_out_index == rest[j].tx_out_index) by {
                assert(rest[i] == s[i] && rest[j] == s[j]);
            }
        }
        lemma_not_spent_distinct(rest, txs);
        if !spent_by(txs, x) {
            let ns = not_spent(rest, txs);
            lemma_not_spent_members(rest, txs);
            let r = ns.push(x);
            assert forall|i: int, j: int| 0 <= i < j < r.len() implies !(#[trigger] r[i].tx_out_id@
                == #[trigger] r[j].tx_out_id@ && r[i].tx_out_index == r[j].tx_out_index) by {
                if j == ns.len() {
                    assert(ns.contains(r[i]));
                    assert(rest.contains(r[i]));
                    let k = choose|k: int| 0 <= k < rest.len() && rest[k] == r[i];
                    assert(s[k] == r[i]);
                    assert(s[s.len() - 1] == x);
                } else {
                    assert(r[i] == ns[i] && r[j] == ns[j]);
                }
            }
        }
    }
}

/// Every output that `txs` create names the id of one of them.
proof fn lemma_created_ids(txs: Seq<Transaction>)
    ensures
        forall|i: int|
            0 <= i < all_created_outputs(txs).len() ==> exists|t: int|
                0 <= t < txs.len() && #[trigger] all_created_outputs(txs)[i].tx_out_id@ == txs[t].id@,
    decreases txs.len(),
{
    if txs.len() > 0 {
        let front = txs.drop_last();
        lemma_created_ids(front);
        let all = all_created_outputs(txs);
        let head = all_created_outputs(front);
        assert forall|i: int| 0 <= i < all.len() implies exists|t: int|
            0 <= t < txs.len() && #[trigger] all[i].tx_out_id@ == txs[t].id@ by {
            if i < head.len() {
                assert(all[i] == head[i]);
                let t = choose|t: int| 0 <= t < front.len() && head[i].tx_out_id@ == front[t].id@;
                assert(txs[t] == front[t]);
            } else {
                assert(all[i] == created_outputs(txs.last())[i - head.len()]);
                assert(all[i].tx_out_id@ == txs[txs.len() - 1].id@);
            }
        }
    }
}

/// Transactions with distinct ids and at most 2^32 outputs each create
/// distinct outputs.
proof fn lemma_created_distinct(txs: Seq<Transaction>)
    requires
        forall|a: int, b: int| 0 <= a < b < txs.len() ==> #[trigger] txs[a].id@ != #[trigger] txs[b].id@,
        forall|t: int| 0 <= t < txs.len() ==> (#[trigger] txs[t].tx_outs@.len()) <= 0x1_0000_0000,
    ensures
        outpoints_distinct(all_created_outputs(txs)),
    decreases txs.len(),
{
    if txs.len() > 0 {
        let front = txs.drop_last();
        let last = txs.last();
        assert forall|a: int, b: int| 0 <= a < b < front.len() implies #[trigger] front[a].id@
            != #[trigger] front[b].id@ by {
            assert(front[a] == txs[a] && front[b] == txs[b]);
        }
        assert forall|t: int| 0 <= t < front.len() implies (#[trigger] front[t].tx_outs@.len())
            <= 0x1_0000_0000 by {
            assert(front[t] == txs[t]);
        }
        lemma_created_distinct(front);
        lemma_created_ids(front);
        let head = all_created_outputs(front);
        let tail = created_outputs(last);
        let all = all_created_outputs(txs);
        assert(all == head + tail);
        assert(txs.len() - 1 < txs.len());
        assert(txs[txs.len() - 1] == last);
        assert(last.tx_outs@.len() <= 0x1_0000_0000);
        assert forall|i: int, j: int| 0 <= i < j < all.len() implies !(#[trigger] all[i].tx_out_id@
            == #[trigger] all[j].tx_out_id@ && all[i].tx_out_index == all[j].tx_out_index) by {
            if j < head.len() {
                assert(all[i] == head[i] && all[j] == head[j]);
            } else if i < head.len() {
                assert(all[i] == head[i]);
                let t = choose|t: int| 0 <= t < front.len() && head[i].tx_out_id@ == front[t].id@;
                assert(front[t] == txs[t]);
                assert(txs[t].id@ != txs[txs.len() - 1].id@);
                assert(all[j] == tail[j - head.len()]);
            } else {
                let a = i - head.len();
                let b = j - head.len();
                assert(all[i] == tail[a] && all[j] == tail[b]);
                assert(tail[a].tx_out_index == a as u32);
                assert(tail[b].tx_out_index == b as u32);
            }
        }
    }
}

/// Applying transactions keeps the unspent outputs distinct when they were
/// distinct before, the transactions have distinct ids that no unspent
/// output already names, and none has more than 2^32 outputs.
pub proof fn lemma_update_keeps_outpoints_distinct(txs: Seq<Transaction>, utxos: Seq<UnspentTxOut>)
    requires
        outpoints_distinct(utxos),
        forall|a: int, b: int| 0 <= a < b < txs.len() ==> #[trigger] txs[a].id@ != #[trigger] txs[b].id@,
        forall|t: int| 0 <= t < txs.len() ==> (#[trigger] txs[t].tx_outs@.len()) <= 0x1_0000_0000,
        forall|i: int, t: int|
            0 <= i < utxos.len() && 0 <= t < txs.len() ==> #[trigger] utxos[i].tx_out_id@ != #[trigger] txs[t].id@,
    ensures
        outpoints_distinct(updated_unspent(txs, utxos)),
{
    lemma_not_spent_distinct(utxos, txs);
    lemma_not_spent_members(utxos, txs);
    lemma_created_distinct(txs);
    lemma_created_ids(txs);
    let kept = not_spent(utxos, txs);
    let made = all_created_outputs(txs);
    let all = kept + made;
    assert forall|i: int, j: int| 0 <= i < j < all.len() implies !(#[trigger] all[i].tx_out_id@
        == #[trigger] all[j].tx_out_id@ && all[i].tx_out_index == all[j].tx_out_index) by {
        if j < kept.len() {
            assert(all[i] == kept[i] && all[j] == kept[j]);
        } else if i >= kept.len() {
            assert(all[i] == made[i - kept.len()] && all[j] == made[j - kept.len()]);
        } else {
            assert(all[i] == kept[i]);
            assert(kept.contains(kept[i]));
            let k = choose|k: int| 0 <= k < utxos.len() && utxos[k] == kept[i];
            assert(all[j] == made[j - kept.len()]);
            let t = choose|t: int|
                0 <= t < txs.len() && made[j - kept.len()].tx_out_id@ == txs[t].id@;
            assert(utxos[k].tx_out_id@ != txs[t].id@);
        }
    }
}

/// The lookup of an input finds the first unspent output with the same
/// transaction id and the same index, and finds nothing when there is none.
pub proof fn lemma_find_utxo_matches_id_and_index(utxos: Seq<UnspentTxOut>, tx_in: TxIn)
    ensures
        find_utxo(utxos, tx_in) is None <==> forall|k: int|
            0 <= k < utxos.len() ==> !(#[trigger] utxos[k].tx_out_id@ == tx_in.tx_out_id@
                && utxos[k].tx_out_index == tx_in.tx_out_index),
        find_utxo(utxos, tx_in) is Some ==> exists|k: int|
            0 <= k < utxos.len() && find_utxo(utxos, tx_in) == Some(#[trigger] utxos[k])
                && utxos[k].tx_out_id@ == tx_in.tx_out_id@ && utxos[k].tx_out_index
                == tx_in.tx_out_index && forall|j: int|
                0 <= j < k ==> !(#[trigger] utxos[j].tx_out_id@ == tx_in.tx_out_id@
                    && utxos[j].tx_out_index == tx_in.tx_out_index),
    decreases utxos.len(),
{
    if utxos.len() > 0 {
        let rest = utxos.drop_first();
        lemma_find_utxo_matches_id_and_index(rest, tx_in);
        if utxos[0].tx_out_id@ == tx_in.tx_out_id@ && utxos[0].tx_out_index == tx_in.tx_out_index {
            assert(find_utxo(utxos, tx_in) == Some(utxos[0]));
        } else {
            assert(find_utxo(utxos, tx_in) == find_utxo(rest, tx_in));
            assert forall|k: int| 1 <= k < utxos.len() implies #[trigger] utxos[k] == rest[k - 1] by {}
            if find_utxo(rest, tx_in) is Some {
                let k = choose|k: int|
                    0 <= k < rest.len() && find_utxo(rest, tx_in) == Some(#[trigger] rest[k])
                        && rest[k].tx_out_id@ == tx_in.tx_out_id@ && rest[k].tx_out_index
                        == tx_in.tx_out_index && forall|j: int|
                        0 <= j < k ==> !(#[trigger] rest[j].tx_out_id@ == tx_in.tx_out_id@
                            && rest[j].tx_out_index == tx_in.tx_out_index);
                assert(utxos[k + 1] == rest[k]);
                assert forall|j: int| 0 <= j < k + 1 implies !(#[trigger] utxos[j].tx_out_id@
                    == tx_in.tx_out_id@ && utxos[j].tx_out_index == tx_in.tx_out_index) by {
                    if j > 0 {
                        assert(utxos[j] == rest[j - 1]);
                    }
                }
            } else {
                assert forall|k: int| 0 <= k < utxos.len() implies !(#[trigger] utxos[k].tx_out_id@
                    == tx_in.tx_out_id@ && utxos[k].tx_out_index == tx_in.tx_out_index) by {
                    if k > 0 {
                        assert(utxos[k] == rest[k - 1]);
                    }
                }
            }
        }
    }
}

/// An old unspent output that no transaction creates anew survives an update
/// exactly when no input of the applied transactions names both its
/// transaction id and its index: spending output 0 of a transaction leaves
/// its output 1 in place.
pub proof fn lemma_update_removes_only_named_outputs(
    txs: Seq<Transaction>,
    utxos: Seq<UnspentTxOut>,
    u: UnspentTxOut,
)
    requires
        utxos.contains(u),
        !all_created_outputs(txs).contains(u),
    ensures
        updated_unspent(txs, utxos).contains(u) <==> !exists|t: int, k: int|
            0 <= t < txs.len() && 0 <= k < txs[t].tx_ins@.len() && (#[trigger] txs[t].tx_ins@[k]).tx_out_id@
                == u.tx_out_id@ && txs[t].tx_ins@[k].tx_out_index == u.tx_out_index,
{
    lemma_update_unspent_members(txs, utxos);
}

/// Validation accepts a transaction whose id and structure are right, whose
/// every input names an unspent output with a valid signature, whose inputs
/// name pairwise different (transaction id, index) pairs, and whose inputs
/// add up to its outputs. Two inputs may name different outputs of the same
/// transaction.
pub proof fn lemma_distinct_outputs_may_be_spent_together(tx: Transaction, utxos: Seq<UnspentTxOut>)
    requires
        transaction_id(tx) == tx.id@,
        structure_valid(tx),
        forall|i: int| 0 <= i < tx.tx_ins@.len() ==> tx_in_valid(tx, #[trigger] tx.tx_ins@[i], utxos),
        forall|i: int, j: int|
            0 <= i < j < tx.tx_ins@.len() ==> (#[trigger] tx.tx_ins@[i]).tx_out_id@ != (
            #[trigger] tx.tx_ins@[j]).tx_out_id@ || tx.tx_ins@[i].tx_out_index
                != tx.tx_ins@[j].tx_out_index,
        input_total(tx.tx_ins@, utxos) == output_total(tx.tx_outs@),
    ensures
        transaction_valid(tx, utxos),
{
}

/// Validation refuses a transaction in which two inputs name the same output
/// (same transaction id and same index).
pub proof fn lemma_same_output_twice_is_refused(tx: Transaction, utxos: Seq<UnspentTxOut>, i: int, j: int)
    requires
        0 <= i < j < tx.tx_ins@.len(),
        tx.tx_ins@[i].tx_out_id@ == tx.tx_ins@[j].tx_out_id@,
        tx.tx_ins@[i].tx_out_index == tx.tx_ins@[j].tx_out_index,
    ensures
        !transaction_valid(tx, utxos),
{
}

/// The output total of a list is the sum of the totals of its parts, and
/// that of one output is its amount.
pub proof fn lemma_output_total_adds(a: Seq<TxOut>, b: Seq<TxOut>)
    ensures
        output_total(a + b) == output_total(a) + output_total(b),
        output_total(Seq::<TxOut>::empty()) == 0,
        b.len() == 1 ==> output_total(b) == b[0].amount,
    decreases b.len(),
{
    if b.len() == 0 {
        assert(a + b =~= a);
    } else {
        lemma_output_total_adds(a, b.drop_last());
        assert((a + b).drop_last() =~= a + b.drop_last());
        if b.len() == 1 {
            assert(b.drop_last() =~= Seq::<TxOut>::empty());
        }
    }
}

/// The input total of a list is the sum of the totals of its parts, and that
/// of one input is the amount of the unspent output it names (0 if none).
pub proof fn lemma_input_total_adds(a: Seq<TxIn>, b: Seq<TxIn>, utxos: Seq<UnspentTxOut>)
    ensures
        input_total(a + b, utxos) == input_total(a, utxos) + input_total(b, utxos),
        input_total(Seq::<TxIn>::empty(), utxos) == 0,
        b.len() == 1 ==> input_total(b, utxos) == match find_utxo(utxos, b[0]) {
            Some(u) => u.amount as int,
            None => 0,
        },
    decreases b.len(),
{
    if b.len() == 0 {
        assert(a + b =~= a);
    } else {
        lemma_input_total_adds(a, b.drop_last(), utxos);
        assert((a + b).drop_last() =~= a + b.drop_last());
        if b.len() == 1 {
            assert(b.drop_last() =~= Seq::<TxIn>::empty());
        }
    }
}

/// The bytes hashed into a transaction id: those of a list of inputs are
/// those of its parts in order, one input contributing its transaction id
/// and then its index in decimal; likewise for outputs with the address and
/// then the amount.
pub proof fn lemma_transaction_id_bytes_layout(
    a: Seq<TxIn>,
    b: Seq<TxIn>,
    c: Seq<TxOut>,
    d: Seq<TxOut>,
)
    ensures
        tx_ins_id_bytes(a + b) == tx_ins_id_bytes(a) + tx_ins_id_bytes(b),
        tx_outs_id_bytes(c + d) == tx_outs_id_bytes(c) + tx_outs_id_bytes(d),
        b.len() == 1 ==> tx_ins_id_bytes(b) == utf8(b[0].tx_out_id@) + utf8(
            decimal_chars(b[0].tx_out_index as nat),
        ),
        d.len() == 1 ==> tx_outs_id_bytes(d) == utf8(d[0].address@) + utf8(
            signed_decimal_chars(d[0].amount as int),
        ),
    decreases b.len() + d.len(),
{
    if b.len() > 0 {
        lemma_transaction_id_bytes_layout(a, b.drop_last(), c, d);
        assert((a + b).drop_last() =~= a + b.drop_last());
        if b.len() == 1 {
            assert(b.drop_last() =~= Seq::<TxIn>::empty());
            assert(tx_ins_id_bytes(b) =~= utf8(b[0].tx_out_id@) + utf8(
                decimal_chars(b[0].tx_out_index as nat),
            ));
        }
        assert(tx_ins_id_bytes(a + b) =~= tx_ins_id_bytes(a) + tx_ins_id_bytes(b));
    } else {
        assert(a + b =~= a);
        assert(tx_ins_id_bytes(a + b) =~= tx_ins_id_bytes(a) + tx_ins_id_bytes(b));
    }
    if d.len() > 0 {
        lemma_transaction_id_bytes_layout(a, b, c, d.drop_last());
        assert((c + d).drop_last() =~= c + d.drop_last());
        if d.len() == 1 {
            assert(d.drop_last() =~= Seq::<TxOut>::empty());
            assert(tx_outs_id_bytes(d) =~= utf8(d[0].address@) + utf8(
                signed_decimal_chars(d[0].amount as int),
            ));
        }
        assert(tx_outs_id_bytes(c + d) =~= tx_outs_id_bytes(c) + tx_outs_id_bytes(d));
    } else {
        assert(c + d =~= c);
        assert(tx_outs_id_bytes(c + d) =~= tx_outs_id_bytes(c) + tx_outs_id_bytes(d));
    }
}

/// The coinbase shape: exactly one input, naming output 0 of the id made of
/// 64 zeros, and exactly one output, of 50 coins.
pub proof fn lemma_coinbase_rule(tx: Transaction)
    ensures
        coinbase_valid(tx) <==> {
            &&& tx.tx_ins@.len() == 1
            &&& tx.tx_outs@.len() == 1
            &&& tx.tx_ins@[0].tx_out_id@.len() == 64
            &&& forall|i: int| 0 <= i < 64 ==> #[trigger] tx.tx_ins@[0].tx_out_id@[i] == '0'
            &&& tx.tx_ins@[0].tx_out_index == 0
            &&& tx.tx_outs@[0].amount == 50
        },
{
    if tx.tx_ins@.len() == 1 && tx.tx_ins@[0].tx_out_id@.len() == 64 && forall|i: int|
        0 <= i < 64 ==> #[trigger] tx.tx_ins@[0].tx_out_id@[i] == '0' {
        assert(tx.tx_ins@[0].tx_out_id@ =~= coinbase_input_id());
    }
}

/// The structure rules: at least one input and one output; every input names
/// an id of 64 bytes of UTF-8 and carries a non-empty signature; every
/// output has a non-empty address and a positive amount.
pub proof fn lemma_structure_rule(tx: Transaction)
    ensures
        structure_valid(tx) <==> {
            &&& tx.tx_ins@.len() >= 1
            &&& tx.tx_outs@.len() >= 1
            &&& forall|i: int|
                0 <= i < tx.tx_ins@.len() ==> utf8((#[trigger] tx.tx_ins@[i]).tx_out_id@).len() == 64
                    && tx.tx_ins@[i].signature@.len() != 0
            &&& forall|j: int|
                0 <= j < tx.tx_outs@.len() ==> (#[trigger] tx.tx_outs@[j]).address@.len() != 0
                    && tx.tx_outs@[j].amount >= 1
        },
{
}

/// A transaction that validation accepts has the hash of its contents as its
/// id and a sound structure, and every input names an unspent output whose
/// address accepts the input's signature of the id.
pub proof fn lemma_valid_transaction_is_signed(tx: Transaction, utxos: Seq<UnspentTxOut>)
    requires
        transaction_valid(tx, utxos),
    ensures
        tx.id@ == hex_lower(sha256(tx_ins_id_bytes(tx.tx_ins@) + tx_outs_id_bytes(tx.tx_outs@))),
        structure_valid(tx),
        forall|i: int|
            0 <= i < tx.tx_ins@.len() ==> exists|k: int|
                0 <= k < utxos.len() && (#[trigger] tx.tx_ins@[i]).tx_out_id@ == utxos[k].tx_out_id@
                    && tx.tx_ins@[i].tx_out_index == utxos[k].tx_out_index && signature_valid(
                    utxos[k].address@,
                    tx.id@,
                    tx.tx_ins@[i].signature@,
                ),
{
    assert forall|i: int| 0 <= i < tx.tx_ins@.len() implies exists|k: int|
        0 <= k < utxos.len() && (#[trigger] tx.tx_ins@[i]).tx_out_id@ == utxos[k].tx_out_id@
            && tx.tx_ins@[i].tx_out_index == utxos[k].tx_out_index && signature_valid(
            utxos[k].address@,
            tx.id@,
            tx.tx_ins@[i].signature@,
        ) by {
        let tin = tx.tx_ins@[i];
        assert(tx_in_valid(tx, tin, utxos));
        lemma_find_utxo_matches_id_and_index(utxos, tin);
        let k = choose|k: int|
            0 <= k < utxos.len() && find_utxo(utxos, tin) == Some(#[trigger] utxos[k])
                && utxos[k].tx_out_id@ == tin.tx_out_id@ && utxos[k].tx_out_index
                == tin.tx_out_index && forall|j: int|
                0 <= j < k ==> !(#[trigger] utxos[j].tx_out_id@ == tin.tx_out_id@
                    && utxos[j].tx_out_index == tin.tx_out_index);
        assert(signature_valid(utxos[k].address@, tx.id@, tin.signature@));
    }
}

} // verus!
