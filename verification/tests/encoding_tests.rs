use naivecoin::block::{calculate_hash, calculate_merkle_root};
use naivecoin::codec::{decimal_string, signed_decimal_string};
use naivecoin::transaction::{get_transaction_id, Transaction, TxIn, TxOut};

#[test]
fn decimal_numerals() {
    assert_eq!(decimal_string(0), "0");
    assert_eq!(decimal_string(7), "7");
    assert_eq!(decimal_string(1234567890), "1234567890");
    assert_eq!(decimal_string(u64::MAX), u64::MAX.to_string());
    assert_eq!(signed_decimal_string(0), "0");
    assert_eq!(signed_decimal_string(-50), "-50");
    assert_eq!(signed_decimal_string(i32::MIN), "-2147483648");
    assert_eq!(signed_decimal_string(i32::MAX), "2147483647");
}

#[test]
fn block_hash_of_known_fields() {
    let hash = calculate_hash(1, "abc", 1000, &[], "root", 0, 2, 3, "minter");
    assert_eq!(hash, "8be58e49c9904f3fda0b777cff05bc8a9295732b3ae66827d29348a71cc03d11");
}

#[test]
fn block_hash_changes_with_every_field() {
    let base = calculate_hash(1, "abc", 1000, &[], "root", 0, 2, 3, "minter");
    assert_ne!(base, calculate_hash(2, "abc", 1000, &[], "root", 0, 2, 3, "minter"));
    assert_ne!(base, calculate_hash(1, "abd", 1000, &[], "root", 0, 2, 3, "minter"));
    assert_ne!(base, calculate_hash(1, "abc", 1001, &[], "root", 0, 2, 3, "minter"));
    assert_ne!(base, calculate_hash(1, "abc", 1000, &[], "roof", 0, 2, 3, "minter"));
    assert_ne!(base, calculate_hash(1, "abc", 1000, &[], "root", 1, 2, 3, "minter"));
    assert_ne!(base, calculate_hash(1, "abc", 1000, &[], "root", 0, 3, 3, "minter"));
    assert_ne!(base, calculate_hash(1, "abc", 1000, &[], "root", 0, 2, 4, "minter"));
    assert_ne!(base, calculate_hash(1, "abc", 1000, &[], "root", 0, 2, 3, "minted"));
}

#[test]
fn merkle_root_of_no_transactions() {
    assert_eq!(
        calculate_merkle_root(&[]),
        "e3b0c44298fc1c149afbf4c8996fb92427ae41e4649b934ca495991b7852b855"
    );
}

fn sample_transactions() -> Vec<Transaction> {
    let tx1 = Transaction::new(
        "id1".to_string(),
        vec![TxIn::new("a\"b\\c".to_string(), 3, "sig\n\t\u{1}é".to_string())],
        vec![TxOut::new("addr".to_string(), -5), TxOut::new("bob".to_string(), 25)],
    );
    let tx2 = Transaction::new(String::new(), vec![], vec![]);
    vec![tx1, tx2]
}

#[test]
fn merkle_root_hashes_the_json_of_each_transaction() {
    // The JSON texts are
    // {"id":"id1","tx_ins":[{"tx_out_id":"a\"b\\c","tx_out_index":3,"signature":"sig\n\t\u0001é"}],"tx_outs":[{"address":"addr","amount":-5},{"address":"bob","amount":25}]}
    // {"id":"","tx_ins":[],"tx_outs":[]}
    assert_eq!(
        calculate_merkle_root(&sample_transactions()),
        "480b1f8b778a87694ad7a925da4fd12618b2dc629dfbc00f0384f74adf032496"
    );
}

#[test]
fn transaction_id_of_known_transaction() {
    let txs = sample_transactions();
    assert_eq!(
        get_transaction_id(&txs[0]),
        "3bebaeb0eb584a545e218af29c6cb996fecb1f108ab32a0762262804bc19febd"
    );
    assert_eq!(
        get_transaction_id(&txs[1]),
        "e3b0c44298fc1c149afbf4c8996fb92427ae41e4649b934ca495991b7852b855"
    );
}
