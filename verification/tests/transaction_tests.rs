use naivecoin::transaction::{
    address_of_private_key, find_unspent_tx_out, get_transaction_id, get_tx_in_amount, is_valid_transaction_structure,
    sign_tx_in, update_unspent_tx_outs, validate_coinbase_tx, validate_transaction,
    validate_tx_in, verify_signature, Transaction, TxIn, TxOut, UnspentTxOut, COINBASE_AMOUNT,
};
use secp256k1::{PublicKey, Secp256k1, SecretKey};

const PRIVATE_KEY: &str = "0101010101010101010101010101010101010101010101010101010101010101";

fn address() -> String {
    let secp = Secp256k1::new();
    let secret_key = SecretKey::from_byte_array([0x01; 32]).unwrap();
    hex::encode(PublicKey::from_secret_key(&secp, &secret_key).serialize())
}

fn coinbase(address: &str) -> Transaction {
    let mut tx = Transaction::new(
        String::new(),
        vec![TxIn::new("0".repeat(64), 0, String::new())],
        vec![TxOut::new(address.to_string(), COINBASE_AMOUNT)],
    );
    tx.id = get_transaction_id(&tx);
    tx
}

/// A transaction spending the coinbase output, signed, with its UTXO set.
fn signed_spend(outputs: Vec<TxOut>) -> (Transaction, Vec<UnspentTxOut>) {
    let address = address();
    let cb = coinbase(&address);
    let utxos = vec![UnspentTxOut::new(cb.id.clone(), 0, address.clone(), COINBASE_AMOUNT)];
    let mut tx = Transaction::new(String::new(), vec![TxIn::new(cb.id.clone(), 0, String::new())], outputs);
    tx.id = get_transaction_id(&tx);
    let signature = sign_tx_in(&tx, 0, PRIVATE_KEY, &utxos);
    tx.tx_ins[0].signature = signature;
    (tx, utxos)
}

#[test]
fn coinbase_shape() {
    let cb = coinbase("someone");
    assert!(validate_coinbase_tx(&cb, 1));
    let mut wrong_amount = cb.clone();
    wrong_amount.tx_outs[0].amount = 51;
    assert!(!validate_coinbase_tx(&wrong_amount, 1));
    let mut wrong_id = cb.clone();
    wrong_id.tx_ins[0].tx_out_id = "1".repeat(64);
    assert!(!validate_coinbase_tx(&wrong_id, 1));
    let mut wrong_index = cb.clone();
    wrong_index.tx_ins[0].tx_out_index = 1;
    assert!(!validate_coinbase_tx(&wrong_index, 1));
    let mut two_outputs = cb.clone();
    two_outputs.tx_outs.push(TxOut::new("x".to_string(), 1));
    assert!(!validate_coinbase_tx(&two_outputs, 1));
    let no_inputs = Transaction::new(String::new(), vec![], cb.tx_outs.clone());
    assert!(!validate_coinbase_tx(&no_inputs, 1));
}

#[test]
fn signature_round_trip() {
    let (tx, utxos) = signed_spend(vec![TxOut::new("recipient".to_string(), 25), TxOut::new(address(), 25)]);
    let signature = &tx.tx_ins[0].signature;
    assert!(signature.len() > 16 && signature.len() % 2 == 0);
    assert_ne!(signature.as_str(), PRIVATE_KEY);
    assert!(verify_signature(&address(), &tx.id, signature));
    assert!(validate_tx_in(&tx, &tx.tx_ins[0], &utxos));
    // the same key signs the same id the same way
    assert_eq!(&sign_tx_in(&tx, 0, PRIVATE_KEY, &utxos), signature);
}

#[test]
fn signature_rejections() {
    let (tx, _) = signed_spend(vec![TxOut::new("recipient".to_string(), 50)]);
    let signature = &tx.tx_ins[0].signature;
    assert!(!verify_signature(&address(), "another id", signature));
    assert!(!verify_signature("zz", &tx.id, signature));
    assert!(!verify_signature(&address(), &tx.id, "abc"));
    assert!(!verify_signature(&address(), &tx.id, "00"));
    assert!(!verify_signature("02", &tx.id, signature));
}

#[test]
fn full_validation_passes() {
    let (tx, utxos) = signed_spend(vec![TxOut::new("recipient".to_string(), 25), TxOut::new(address(), 25)]);
    assert!(is_valid_transaction_structure(&tx));
    assert!(validate_transaction(&tx, &utxos));
}

#[test]
fn unbalanced_transaction_fails() {
    let (tx, utxos) = signed_spend(vec![TxOut::new("recipient".to_string(), 25), TxOut::new(address(), 26)]);
    assert!(is_valid_transaction_structure(&tx));
    assert!(!validate_transaction(&tx, &utxos));
}

#[test]
fn stale_id_fails() {
    let (mut tx, utxos) = signed_spend(vec![TxOut::new("recipient".to_string(), 50)]);
    tx.tx_outs[0].address = "thief".to_string();
    assert!(!validate_transaction(&tx, &utxos));
}

#[test]
fn double_spend_within_transaction_fails() {
    let address = address();
    let cb = coinbase(&address);
    let utxos = vec![UnspentTxOut::new(cb.id.clone(), 0, address.clone(), 25)];
    let mut tx = Transaction::new(
        String::new(),
        vec![TxIn::new(cb.id.clone(), 0, String::new()), TxIn::new(cb.id.clone(), 0, String::new())],
        vec![TxOut::new("recipient".to_string(), 50)],
    );
    tx.id = get_transaction_id(&tx);
    let signature = sign_tx_in(&tx, 0, PRIVATE_KEY, &utxos);
    tx.tx_ins[0].signature = signature.clone();
    tx.tx_ins[1].signature = signature;
    assert!(validate_tx_in(&tx, &tx.tx_ins[0], &utxos));
    assert!(validate_tx_in(&tx, &tx.tx_ins[1], &utxos));
    assert!(!validate_transaction(&tx, &utxos));
}

#[test]
fn unknown_output_fails() {
    let (tx, _) = signed_spend(vec![TxOut::new("recipient".to_string(), 50)]);
    assert!(!validate_tx_in(&tx, &tx.tx_ins[0], &[]));
    assert!(!validate_transaction(&tx, &[]));
}

#[test]
fn structure_rules() {
    let good_in = TxIn::new("a".repeat(64), 0, "s".to_string());
    let good_out = TxOut::new("addr".to_string(), 1);
    let ok = Transaction::new(String::new(), vec![good_in.clone()], vec![good_out.clone()]);
    assert!(is_valid_transaction_structure(&ok));
    assert!(!is_valid_transaction_structure(&Transaction::new(String::new(), vec![], vec![good_out.clone()])));
    assert!(!is_valid_transaction_structure(&Transaction::new(String::new(), vec![good_in.clone()], vec![])));
    let short_id = TxIn::new("a".repeat(63), 0, "s".to_string());
    assert!(!is_valid_transaction_structure(&Transaction::new(String::new(), vec![short_id], vec![good_out.clone()])));
    // 32 two-byte characters make 64 bytes
    let wide_id = TxIn::new("é".repeat(32), 0, "s".to_string());
    assert!(is_valid_transaction_structure(&Transaction::new(String::new(), vec![wide_id], vec![good_out.clone()])));
    let unsigned = TxIn::new("a".repeat(64), 0, String::new());
    assert!(!is_valid_transaction_structure(&Transaction::new(String::new(), vec![unsigned], vec![good_out.clone()])));
    let no_address = TxOut::new(String::new(), 1);
    assert!(!is_valid_transaction_structure(&Transaction::new(String::new(), vec![good_in.clone()], vec![no_address])));
    let zero = TxOut::new("addr".to_string(), 0);
    assert!(!is_valid_transaction_structure(&Transaction::new(String::new(), vec![good_in.clone()], vec![zero])));
    let negative = TxOut::new("addr".to_string(), -3);
    assert!(!is_valid_transaction_structure(&Transaction::new(String::new(), vec![good_in], vec![negative])));
}

#[test]
fn lookup_takes_the_first_match() {
    let utxos = vec![
        UnspentTxOut::new("a".to_string(), 1, "x".to_string(), 10),
        UnspentTxOut::new("b".to_string(), 0, "y".to_string(), 20),
        UnspentTxOut::new("b".to_string(), 0, "z".to_string(), 30),
    ];
    let tx_in = TxIn::new("b".to_string(), 0, String::new());
    let found = find_unspent_tx_out(&tx_in, &utxos);
    assert_eq!(found.address, "y");
    assert_eq!(get_tx_in_amount(&tx_in, &utxos), 20);
    assert_eq!(get_tx_in_amount(&TxIn::new("a".to_string(), 1, String::new()), &utxos), 10);
}

#[test]
fn unspent_set_moves_forward() {
    let (tx, utxos) = signed_spend(vec![TxOut::new("recipient".to_string(), 25), TxOut::new(address(), 25)]);
    let other = UnspentTxOut::new("other".to_string(), 4, "w".to_string(), 7);
    let before = vec![utxos[0].clone(), other.clone()];
    let after = update_unspent_tx_outs(&[tx.clone()], &before);
    assert_eq!(after.len(), 3);
    assert_eq!(after[0].tx_out_id, "other");
    assert_eq!(after[0].tx_out_index, 4);
    assert_eq!(after[1].tx_out_id, tx.id);
    assert_eq!(after[1].tx_out_index, 0);
    assert_eq!(after[1].address, "recipient");
    assert_eq!(after[1].amount, 25);
    assert_eq!(after[2].tx_out_index, 1);
    assert_eq!(after[2].address, address());
    // nothing to apply leaves the set as it was
    let same = update_unspent_tx_outs(&[], &before);
    assert_eq!(same.len(), 2);
    assert_eq!(same[0].tx_out_id, before[0].tx_out_id);
}

#[test]
fn address_is_the_hex_public_key() {
    let expected = address();
    assert_eq!(expected.len(), 66);
    assert_eq!(address_of_private_key(PRIVATE_KEY), expected);
    assert_ne!(address_of_private_key(PRIVATE_KEY), PRIVATE_KEY);
}

#[test]
fn signed_input_verifies_under_the_key_address() {
    let (tx, _) = signed_spend(vec![TxOut::new("recipient".to_string(), 50)]);
    let address = address_of_private_key(PRIVATE_KEY);
    assert!(verify_signature(&address, &tx.id, &tx.tx_ins[0].signature));
}

fn keys(utxos: &[UnspentTxOut]) -> Vec<(String, u32, String, i32)> {
    utxos.iter().map(|u| (u.tx_out_id.clone(), u.tx_out_index, u.address.clone(), u.amount)).collect()
}

#[test]
fn updating_in_turn_equals_updating_at_once() {
    let (first, utxos) = signed_spend(vec![TxOut::new("recipient".to_string(), 50)]);
    let other = UnspentTxOut::new("other".to_string(), 4, "w".to_string(), 7);
    let before = vec![utxos[0].clone(), other];
    let mut second = Transaction::new(
        String::new(),
        vec![TxIn::new("other".to_string(), 4, "s".to_string())],
        vec![TxOut::new("v".to_string(), 7)],
    );
    second.id = get_transaction_id(&second);
    let in_turn = update_unspent_tx_outs(&[second.clone()], &update_unspent_tx_outs(&[first.clone()], &before));
    let at_once = update_unspent_tx_outs(&[first.clone(), second.clone()], &before);
    assert_eq!(keys(&in_turn), keys(&at_once));
    assert_eq!(at_once.len(), 2);
    // distinct outputs stay distinct
    assert_ne!(
        (at_once[0].tx_out_id.clone(), at_once[0].tx_out_index),
        (at_once[1].tx_out_id.clone(), at_once[1].tx_out_index)
    );
}
