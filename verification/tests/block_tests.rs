use blockchain_rust_demo::block::{digest_meets_target, Block, TARGET_HEXT};
use blockchain_rust_demo::errors::ChainError;
use blockchain_rust_demo::transaction::Transaction;
use blockchain_rust_demo::tx::{TXInput, TXOutput};
use crypto::digest::Digest;
use crypto::sha2::Sha256;

fn sample_coinbase(text: &str) -> Transaction {
    let mut tx = Transaction {
        id: String::new(),
        vin: vec![TXInput {
            txid: String::new(),
            vout: -1,
            signature: Vec::new(),
            pub_key: text.as_bytes().to_vec(),
        }],
        vout: vec![TXOutput { value: 100, pub_key_hash: vec![7u8; 20] }],
    };
    tx.id = tx.hash().unwrap();
    tx
}

fn sha256_hex_of(bytes: &[u8]) -> String {
    let mut hasher = Sha256::new();
    hasher.input(bytes);
    hasher.result_str()
}

#[test]
fn genesis_block_is_sealed() {
    let block = Block::new_genesis_block_at(sample_coinbase("first"), 1_700_000_000_000).unwrap();
    assert_eq!(block.validate(), Ok(true));
    assert_eq!(&block.get_hash()[0..4], "0000");
    assert_eq!(block.get_hash().len(), 64);
    assert_eq!(block.get_prev_hash(), "");
    assert_eq!(block.get_height(), 0);
    assert_eq!(block.get_timestamp(), 1_700_000_000_000);
    assert_eq!(block.get_transaction().len(), 1);
    assert_eq!(block.get_transaction()[0].id, sample_coinbase("first").id);
}

#[test]
fn stored_hash_is_digest_of_stored_fields() {
    let block = Block::new_block_at(
        vec![sample_coinbase("a"), sample_coinbase("b")],
        String::from("00ab"),
        3,
        1_700_000_000_123,
    )
    .unwrap();
    let bytes = block.prepare_hash_data().unwrap();
    assert_eq!(block.get_hash(), sha256_hex_of(&bytes));
    let plain = block.to_plain();
    let expected = bincode::serialize(&(
        plain.2.clone(),
        plain.1.clone(),
        plain.0,
        TARGET_HEXT,
        plain.5,
    ))
    .unwrap();
    assert_eq!(bytes, expected);
    assert_eq!(block.get_prev_hash(), "00ab");
    assert_eq!(block.get_height(), 3);
}

#[test]
fn sealing_takes_the_first_nonce_that_meets_the_target() {
    let block = Block::new_block_at(vec![sample_coinbase("n")], String::new(), 0, 42).unwrap();
    let plain = block.to_plain();
    let mut nonce: u32 = 0;
    while nonce < block.get_nonce() {
        let mut earlier = plain.clone();
        earlier.5 = nonce;
        assert_eq!(Block::from_plain(&earlier).validate(), Ok(false));
        nonce += 997;
    }
    assert_eq!(block.validate(), Ok(true));
}

#[test]
fn mining_is_a_function_of_its_inputs() {
    let first = Block::new_block_at(vec![sample_coinbase("same")], String::new(), 0, 7).unwrap();
    let second = Block::new_block_at(vec![sample_coinbase("same")], String::new(), 0, 7).unwrap();
    assert_eq!(first.get_nonce(), second.get_nonce());
    assert_eq!(first.get_hash(), second.get_hash());
}

#[test]
fn tampered_block_does_not_validate() {
    let block = Block::new_genesis_block_at(sample_coinbase("t"), 1_000).unwrap();
    let mut plain = block.to_plain();
    plain.0 += 1;
    let tampered = Block::from_plain(&plain);
    assert_eq!(tampered.validate(), Ok(false));
    assert_eq!(tampered.get_hash(), block.get_hash());
}

#[test]
fn proof_of_work_continues_from_stored_nonce() {
    let block = Block::new_genesis_block_at(sample_coinbase("p"), 5).unwrap();
    let mut plain = block.to_plain();
    plain.3 = String::new();
    plain.5 = block.get_nonce();
    let mut again = Block::from_plain(&plain);
    assert_eq!(again.run_proof_of_work(), Ok(()));
    assert_eq!(again.get_nonce(), block.get_nonce());
    assert_eq!(again.get_hash(), block.get_hash());
}

#[test]
fn plain_round_trip_keeps_every_field() {
    let block = Block::new_genesis_block_at(sample_coinbase("r"), 9).unwrap();
    let copy = Block::from_plain(&block.to_plain());
    assert_eq!(copy.to_plain(), block.to_plain());
}

#[test]
fn new_block_is_stamped_and_sealed() {
    let block = Block::new_block(vec![sample_coinbase("clock")], String::from("ff"), 1).unwrap();
    assert!(block.get_timestamp() > 1_600_000_000_000);
    assert_eq!(block.validate(), Ok(true));
    assert_eq!(block.get_height(), 1);
    let genesis = Block::new_genesis_block(sample_coinbase("clock")).unwrap();
    assert_eq!(genesis.get_prev_hash(), "");
    assert_eq!(genesis.get_height(), 0);
    assert_eq!(genesis.validate(), Ok(true));
}

#[test]
fn target_is_four_leading_zeros() {
    assert_eq!(TARGET_HEXT, 4);
    assert!(digest_meets_target("0000abcdef"));
    assert!(!digest_meets_target("0001abcdef"));
    assert!(!digest_meets_target("000"));
    assert!(!digest_meets_target("a000000000"));
}

#[test]
fn errors_describe_themselves() {
    assert_eq!(ChainError::Validation.describe(), "validation fault");
    assert_eq!(ChainError::NotFound.describe(), "not found");
    assert_eq!(ChainError::Storage.describe(), "storage fault");
    assert_eq!(ChainError::Serialization.describe(), "serialization fault");
    assert_eq!(ChainError::Clock.describe(), "clock fault");
    assert_eq!(ChainError::NonceExhausted.describe(), "nonce space exhausted");
    assert_eq!(ChainError::Oversize.describe(), "message too long");
    assert_eq!(ChainError::Overflow.describe(), "arithmetic overflow");
    assert_eq!(ChainError::Entropy.describe(), "no random bytes");
}
