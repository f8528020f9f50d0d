use blockchain_rust_demo::errors::ChainError;
use blockchain_rust_demo::transaction::{Transaction, SUBSIDY};
use blockchain_rust_demo::tx::{TXInput, TXOutput};
use blockchain_rust_demo::wallets::{hash_pub_key, Wallet};
use crypto::digest::Digest;
use crypto::ripemd160::Ripemd160;
use crypto::sha2::Sha256;

fn recipient_hash(wallet: &Wallet) -> Vec<u8> {
    let mut key = wallet.public_key.clone();
    hash_pub_key(&mut key);
    key
}

fn funding(recipient: Vec<u8>, value: i32) -> Transaction {
    let mut tx = Transaction {
        id: String::new(),
        vin: vec![TXInput {
            txid: String::new(),
            vout: -1,
            signature: Vec::new(),
            pub_key: b"reward".to_vec(),
        }],
        vout: vec![TXOutput { value, pub_key_hash: recipient }],
    };
    tx.id = tx.hash().unwrap();
    tx
}

fn spending(prev: &Transaction, from: &Wallet, to: Vec<u8>, value: i32) -> Transaction {
    let mut tx = Transaction {
        id: String::new(),
        vin: vec![TXInput {
            txid: prev.id.clone(),
            vout: 0,
            signature: Vec::new(),
            pub_key: from.public_key.clone(),
        }],
        vout: vec![TXOutput { value, pub_key_hash: to }],
    };
    tx.id = tx.hash().unwrap();
    tx
}

fn signed_pair() -> (Transaction, Transaction, Wallet) {
    let alice = Wallet::from_seed(&[1u8; 32]);
    let bob = Wallet::from_seed(&[2u8; 32]);
    let prev = funding(recipient_hash(&alice), 100);
    let mut tx = spending(&prev, &alice, recipient_hash(&bob), 100);
    tx.sign(&alice.secret_key, &vec![prev.clone()]).unwrap();
    (prev, tx, alice)
}

#[test]
fn transaction_id_is_digest_of_encoding_with_blank_id() {
    let tx = funding(vec![7u8; 20], 100);
    let plain = (
        String::new(),
        vec![(String::new(), -1i32, Vec::<u8>::new(), b"reward".to_vec())],
        vec![(100i32, vec![7u8; 20])],
    );
    let bytes = bincode::serialize(&plain).unwrap();
    let mut hasher = Sha256::new();
    hasher.input(&bytes);
    assert_eq!(tx.id, hasher.result_str());
    assert_eq!(tx.id.len(), 64);
    let mut renamed = tx.clone();
    renamed.id = String::from("something else");
    assert_eq!(renamed.hash().unwrap(), tx.id);
}

#[test]
fn recipient_hash_is_ripemd160_of_sha256() {
    let mut key = vec![9u8; 32];
    hash_pub_key(&mut key);
    let mut first = [0u8; 32];
    let mut sha = Sha256::new();
    sha.input(&[9u8; 32]);
    sha.result(&mut first);
    let mut second = [0u8; 20];
    let mut ripemd = Ripemd160::new();
    ripemd.input(&first);
    ripemd.result(&mut second);
    assert_eq!(key, second.to_vec());
    assert_eq!(key.len(), 20);
    let mut short = vec![1u8, 2, 3];
    hash_pub_key(&mut short);
    assert_eq!(short.len(), 20);
}

#[test]
fn coinbase_has_one_input_without_reference() {
    let tx = funding(vec![1u8; 20], SUBSIDY);
    assert!(tx.is_coinbase());
    assert_eq!(tx.vin.len(), 1);
    assert_eq!(tx.vin[0].txid, "");
    assert_eq!(tx.vin[0].vout, -1);
    assert_eq!(SUBSIDY, 100);
    let spend = spending(&tx, &Wallet::from_seed(&[3u8; 32]), vec![2u8; 20], 1);
    assert!(!spend.is_coinbase());
}

#[test]
fn new_coinbase_pays_the_reward_to_the_address() {
    let wallet = Wallet::from_seed(&[4u8; 32]);
    let tx = Transaction::new_coinbase(wallet.get_address(), String::from("reward text")).unwrap();
    assert!(tx.is_coinbase());
    assert_eq!(tx.vout.len(), 1);
    assert_eq!(tx.vout[0].value, 100);
    assert_eq!(tx.vout[0].pub_key_hash, recipient_hash(&wallet));
    assert_eq!(tx.vin[0].pub_key, b"reward text".to_vec());
    assert!(tx.vin[0].signature.is_empty());
    assert_eq!(tx.id, tx.hash().unwrap());
}

#[test]
fn new_coinbase_rejects_text_that_is_no_address() {
    let res = Transaction::new_coinbase(String::from("not an address"), String::from("x"));
    assert_eq!(res.err(), Some(ChainError::Validation));
    let res = TXOutput::new(5, String::from("bitcoincash:qqqqqqqq"));
    assert_eq!(res.err(), Some(ChainError::Validation));
    let res = TXOutput::new(5, String::new());
    assert_eq!(res.err(), Some(ChainError::Validation));
}

#[test]
fn trimmed_copy_clears_signatures_and_keys() {
    let (_, tx, _) = signed_pair();
    let copy = tx.trim_copy();
    assert_eq!(copy.id, tx.id);
    assert_eq!(copy.vin.len(), 1);
    assert_eq!(copy.vin[0].txid, tx.vin[0].txid);
    assert_eq!(copy.vin[0].vout, tx.vin[0].vout);
    assert!(copy.vin[0].signature.is_empty());
    assert!(copy.vin[0].pub_key.is_empty());
    assert_eq!(copy.vout[0].value, tx.vout[0].value);
    assert_eq!(copy.vout[0].pub_key_hash, tx.vout[0].pub_key_hash);
}

#[test]
fn signed_transaction_verifies() {
    let (prev, tx, _) = signed_pair();
    assert_eq!(tx.vin[0].signature.len(), 64);
    assert_eq!(tx.verify(&vec![prev]), Ok(true));
}

#[test]
fn signature_is_over_digest_of_signing_copy() {
    let (prev, tx, alice) = signed_pair();
    let plain = (
        String::new(),
        vec![(prev.id.clone(), 0i32, Vec::<u8>::new(), prev.vout[0].pub_key_hash.clone())],
        vec![(100i32, tx.vout[0].pub_key_hash.clone())],
    );
    let bytes = bincode::serialize(&plain).unwrap();
    let mut hasher = Sha256::new();
    hasher.input(&bytes);
    let digest = hasher.result_str();
    let expected = crypto::ed25519::signature(digest.as_bytes(), &alice.secret_key);
    assert_eq!(tx.vin[0].signature, expected.to_vec());
}

#[test]
fn tampered_signature_does_not_verify() {
    let (prev, mut tx, _) = signed_pair();
    tx.vin[0].signature[10] ^= 0x01;
    assert_eq!(tx.verify(&vec![prev]), Ok(false));
}

#[test]
fn mismatched_public_key_does_not_verify() {
    let (prev, mut tx, _) = signed_pair();
    tx.vin[0].pub_key = Wallet::from_seed(&[9u8; 32]).public_key;
    assert_eq!(tx.verify(&vec![prev]), Ok(false));
}

#[test]
fn tampered_recipient_of_previous_output_does_not_verify() {
    let (mut prev, tx, _) = signed_pair();
    prev.vout[0].pub_key_hash[0] ^= 0x01;
    assert_eq!(tx.verify(&vec![prev]), Ok(false));
}

#[test]
fn digest_binds_recipient_but_not_amount_of_previous_output() {
    let (mut prev, tx, _) = signed_pair();
    prev.vout[0].value = 1;
    assert_eq!(tx.verify(&vec![prev]), Ok(true));
}

#[test]
fn tampered_own_output_does_not_verify() {
    let (prev, mut tx, _) = signed_pair();
    tx.vout[0].value = 99;
    assert_eq!(tx.verify(&vec![prev]), Ok(false));
}

#[test]
fn unsigned_transaction_does_not_verify() {
    let alice = Wallet::from_seed(&[1u8; 32]);
    let prev = funding(recipient_hash(&alice), 100);
    let tx = spending(&prev, &alice, vec![5u8; 20], 100);
    assert_eq!(tx.verify(&vec![prev]), Ok(false));
}

#[test]
fn missing_previous_transaction_is_a_validation_fault() {
    let (_, tx, alice) = signed_pair();
    assert_eq!(tx.verify(&Vec::new()), Err(ChainError::Validation));
    let other = funding(vec![8u8; 20], 3);
    assert_eq!(tx.verify(&vec![other.clone()]), Err(ChainError::Validation));
    let mut unsigned = tx.clone();
    unsigned.vin[0].signature = Vec::new();
    assert_eq!(unsigned.sign(&alice.secret_key, &vec![other]), Err(ChainError::Validation));
    assert!(unsigned.vin[0].signature.is_empty());
}

#[test]
fn output_index_out_of_range_is_a_validation_fault() {
    let (prev, mut tx, _) = signed_pair();
    tx.vin[0].vout = 1;
    assert_eq!(tx.verify(&vec![prev.clone()]), Err(ChainError::Validation));
    tx.vin[0].vout = -2;
    assert_eq!(tx.verify(&vec![prev]), Err(ChainError::Validation));
}

#[test]
fn short_private_key_is_a_validation_fault() {
    let alice = Wallet::from_seed(&[1u8; 32]);
    let prev = funding(recipient_hash(&alice), 100);
    let mut tx = spending(&prev, &alice, vec![5u8; 20], 100);
    assert_eq!(tx.sign(&alice.secret_key[0..63], &vec![prev]), Err(ChainError::Validation));
    assert!(tx.vin[0].signature.is_empty());
}

#[test]
fn coinbase_skips_signing_and_verification() {
    let mut tx = funding(vec![1u8; 20], 100);
    assert_eq!(tx.sign(&[], &Vec::new()), Ok(()));
    assert!(tx.vin[0].signature.is_empty());
    assert_eq!(tx.verify(&Vec::new()), Ok(true));
}

#[test]
fn each_input_is_signed_against_its_own_output() {
    let alice = Wallet::from_seed(&[1u8; 32]);
    let first = funding(recipient_hash(&alice), 60);
    let second = funding(recipient_hash(&alice), 40);
    let mut tx = Transaction {
        id: String::new(),
        vin: vec![
            TXInput {
                txid: first.id.clone(),
                vout: 0,
                signature: Vec::new(),
                pub_key: alice.public_key.clone(),
            },
            TXInput {
                txid: second.id.clone(),
                vout: 0,
                signature: Vec::new(),
                pub_key: alice.public_key.clone(),
            },
        ],
        vout: vec![TXOutput { value: 100, pub_key_hash: vec![3u8; 20] }],
    };
    tx.id = tx.hash().unwrap();
    let prev = vec![first, second];
    tx.sign(&alice.secret_key, &prev).unwrap();
    assert_eq!(tx.verify(&prev), Ok(true));
    let mut swapped = tx.clone();
    swapped.vin[1].signature = tx.vin[0].signature.clone();
    assert_eq!(swapped.verify(&prev), Ok(false));
}

#[test]
fn unlocking_goes_by_recipient_hash() {
    let alice = Wallet::from_seed(&[1u8; 32]);
    let bob = Wallet::from_seed(&[2u8; 32]);
    let input = TXInput {
        txid: String::from("ab"),
        vout: 0,
        signature: Vec::new(),
        pub_key: alice.public_key.clone(),
    };
    assert!(input.can_unlock_output_with(&recipient_hash(&alice)));
    assert!(!input.can_unlock_output_with(&recipient_hash(&bob)));
    let output = TXOutput { value: 1, pub_key_hash: recipient_hash(&bob) };
    assert!(output.can_be_unlock_with(&recipient_hash(&bob)));
    assert!(!output.can_be_unlock_with(&recipient_hash(&alice)));
}

#[test]
fn plain_form_round_trips() {
    let (_, tx, _) = signed_pair();
    let back = Transaction::from_plain(&tx.to_plain());
    assert_eq!(back.to_plain(), tx.to_plain());
    assert_eq!(back.id, tx.id);
}
