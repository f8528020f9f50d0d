use blockchain_rust_demo::block::Block;
use blockchain_rust_demo::blockchain::{stored_best_height, Blockchain, GENESIS_COINBASE_DATA};
use blockchain_rust_demo::errors::ChainError;
use blockchain_rust_demo::transaction::Transaction;
use blockchain_rust_demo::tx::{TXInput, TXOutput};
use blockchain_rust_demo::wallets::{hash_pub_key, Wallet};

fn temp_store() -> sled::Db {
    sled::Config::new().temporary(true).open().unwrap()
}

fn hash_of(wallet: &Wallet) -> Vec<u8> {
    let mut key = wallet.public_key.clone();
    hash_pub_key(&mut key);
    key
}

fn new_chain(owner: &Wallet) -> Blockchain {
    Blockchain::create_blockchain_at(temp_store(), owner.get_address(), 1_700_000_000_000).unwrap()
}

fn transfer(bc: &Blockchain, from: &Wallet, prev_id: &str, to: &Wallet, value: i32) -> Transaction {
    let mut tx = Transaction {
        id: String::new(),
        vin: vec![TXInput {
            txid: String::from(prev_id),
            vout: 0,
            signature: Vec::new(),
            pub_key: from.public_key.clone(),
        }],
        vout: vec![TXOutput { value, pub_key_hash: hash_of(to) }],
    };
    tx.id = tx.hash().unwrap();
    bc.sign_transacton(&mut tx, &from.secret_key).unwrap();
    tx
}

fn genesis_coinbase_id(bc: &Blockchain) -> String {
    let blocks = bc.collect_blocks().unwrap();
    blocks[blocks.len() - 1].get_transaction()[0].id.clone()
}

#[test]
fn test_blockchain() {
    let b = new_chain(&Wallet::from_seed(&[1u8; 32]));
    let mut it = b.iter();
    let mut seen = 0;
    while let Some(item) = it.next() {
        println!("item: {:?}", item);
        seen += 1;
    }
    assert_eq!(seen, 1);
}

#[test]
fn genesis_has_no_predecessor_and_height_zero() {
    let alice = Wallet::from_seed(&[1u8; 32]);
    let bc = new_chain(&alice);
    let blocks = bc.collect_blocks().unwrap();
    assert_eq!(blocks.len(), 1);
    let genesis = &blocks[0];
    assert_eq!(genesis.get_prev_hash(), "");
    assert_eq!(genesis.get_height(), 0);
    assert_eq!(genesis.validate(), Ok(true));
    assert_eq!(genesis.get_transaction().len(), 1);
    let coinbase = &genesis.get_transaction()[0];
    assert!(coinbase.is_coinbase());
    assert_eq!(coinbase.vin[0].pub_key, GENESIS_COINBASE_DATA.as_bytes().to_vec());
    assert_eq!(coinbase.vout[0].value, 100);
    assert_eq!(coinbase.vout[0].pub_key_hash, hash_of(&alice));
    assert_eq!(bc.get_best_height(), Ok(0));
    assert_eq!(bc.get_block_hashs().unwrap(), vec![genesis.get_hash()]);
}

#[test]
fn mined_blocks_link_back_to_genesis() {
    let alice = Wallet::from_seed(&[1u8; 32]);
    let bob = Wallet::from_seed(&[2u8; 32]);
    let mut bc = new_chain(&alice);
    let coinbase_id = genesis_coinbase_id(&bc);
    let first = transfer(&bc, &alice, &coinbase_id, &bob, 100);
    let block1 = bc.mine_block_at(vec![first.clone()], 1_700_000_000_001).unwrap();
    let second = transfer(&bc, &bob, &first.id, &alice, 100);
    let block2 = bc.mine_block_at(vec![second], 1_700_000_000_002).unwrap();
    assert_eq!(bc.get_best_height(), Ok(2));
    let blocks = bc.collect_blocks().unwrap();
    assert_eq!(blocks.len(), 3);
    assert_eq!(blocks[0].get_hash(), block2.get_hash());
    assert_eq!(blocks[1].get_hash(), block1.get_hash());
    let mut i = 0;
    while i < blocks.len() {
        assert_eq!(blocks[i].validate(), Ok(true));
        assert_eq!(&blocks[i].get_hash()[0..4], "0000");
        assert_eq!(blocks[i].get_height(), 2 - i);
        if i + 1 < blocks.len() {
            assert_eq!(blocks[i].get_prev_hash(), blocks[i + 1].get_hash());
        } else {
            assert_eq!(blocks[i].get_prev_hash(), "");
        }
        i += 1;
    }
    let hashes = bc.get_block_hashs().unwrap();
    assert_eq!(hashes, vec![blocks[0].get_hash(), blocks[1].get_hash(), blocks[2].get_hash()]);
    assert_eq!(bc.get_block(&block1.get_hash()).unwrap().to_plain(), block1.to_plain());
}

#[test]
fn mining_rejects_a_transaction_that_does_not_verify() {
    let alice = Wallet::from_seed(&[1u8; 32]);
    let bob = Wallet::from_seed(&[2u8; 32]);
    let mut bc = new_chain(&alice);
    let coinbase_id = genesis_coinbase_id(&bc);
    let mut forged = transfer(&bc, &alice, &coinbase_id, &bob, 100);
    forged.vin[0].signature[0] ^= 0x80;
    let before = bc.get_block_hashs().unwrap();
    assert_eq!(bc.verify_transacton(&forged), Ok(false));
    assert_eq!(bc.mine_block_at(vec![forged], 5).err(), Some(ChainError::Validation));
    assert_eq!(bc.get_block_hashs().unwrap(), before);
    assert_eq!(bc.get_best_height(), Ok(0));
}

#[test]
fn mining_rejects_a_reference_to_a_missing_transaction() {
    let alice = Wallet::from_seed(&[1u8; 32]);
    let mut bc = new_chain(&alice);
    let mut tx = Transaction {
        id: String::new(),
        vin: vec![TXInput {
            txid: String::from("no such transaction"),
            vout: 0,
            signature: vec![0u8; 64],
            pub_key: alice.public_key.clone(),
        }],
        vout: vec![TXOutput { value: 1, pub_key_hash: hash_of(&alice) }],
    };
    tx.id = tx.hash().unwrap();
    assert_eq!(bc.verify_transacton(&tx), Err(ChainError::Validation));
    assert_eq!(bc.sign_transacton(&mut tx, &alice.secret_key), Err(ChainError::Validation));
    assert_eq!(bc.get_prev_txs(&tx).err(), Some(ChainError::NotFound));
    assert_eq!(bc.mine_block_at(vec![tx], 5).err(), Some(ChainError::Validation));
    assert_eq!(bc.get_best_height(), Ok(0));
}

#[test]
fn adding_a_block_twice_changes_nothing() {
    let alice = Wallet::from_seed(&[1u8; 32]);
    let mut bc = new_chain(&alice);
    let tip = bc.get_block_hashs().unwrap()[0].clone();
    let coinbase = Transaction::new_coinbase(alice.get_address(), String::from("extra")).unwrap();
    let block = Block::new_block_at(vec![coinbase], tip.clone(), 1, 77).unwrap();
    assert_eq!(bc.add_block(Block::from_plain(&block.to_plain())), Ok(()));
    let hashes = bc.get_block_hashs().unwrap();
    assert_eq!(hashes, vec![block.get_hash(), tip.clone()]);
    assert_eq!(bc.get_best_height(), Ok(1));
    assert_eq!(bc.add_block(Block::from_plain(&block.to_plain())), Ok(()));
    assert_eq!(bc.get_block_hashs().unwrap(), hashes);
    assert_eq!(bc.get_best_height(), Ok(1));
    assert_eq!(bc.get_block(&block.get_hash()).unwrap().to_plain(), block.to_plain());
}

#[test]
fn added_block_becomes_tip_only_when_higher() {
    let alice = Wallet::from_seed(&[1u8; 32]);
    let mut bc = new_chain(&alice);
    let tip = bc.get_block_hashs().unwrap()[0].clone();
    let low = Block::new_block_at(
        vec![Transaction::new_coinbase(alice.get_address(), String::from("low")).unwrap()],
        tip.clone(),
        0,
        78,
    )
    .unwrap();
    assert_eq!(bc.add_block(Block::from_plain(&low.to_plain())), Ok(()));
    assert_eq!(bc.get_block_hashs().unwrap(), vec![tip.clone()]);
    assert_eq!(bc.get_block(&low.get_hash()).unwrap().get_hash(), low.get_hash());
    let high = Block::new_block_at(
        vec![Transaction::new_coinbase(alice.get_address(), String::from("high")).unwrap()],
        tip.clone(),
        4,
        79,
    )
    .unwrap();
    assert_eq!(bc.add_block(Block::from_plain(&high.to_plain())), Ok(()));
    assert_eq!(bc.get_block_hashs().unwrap(), vec![high.get_hash(), tip]);
    assert_eq!(bc.get_best_height(), Ok(4));
}

#[test]
fn lookups_report_what_is_missing() {
    let alice = Wallet::from_seed(&[1u8; 32]);
    let bc = new_chain(&alice);
    assert_eq!(bc.get_block("no such block").err(), Some(ChainError::NotFound));
    assert_eq!(bc.find_transacton("no such id").err(), Some(ChainError::NotFound));
    let coinbase_id = genesis_coinbase_id(&bc);
    assert_eq!(bc.find_transacton(&coinbase_id).unwrap().id, coinbase_id);
}

#[test]
fn empty_store_has_height_minus_one_and_no_chain() {
    let db = temp_store();
    assert_eq!(stored_best_height(&db), Ok(-1));
    assert_eq!(Blockchain::new(db).err(), Some(ChainError::NotFound));
}

#[test]
fn corrupt_block_bytes_are_a_serialization_fault() {
    let db = temp_store();
    db.insert("LAST", "abc").unwrap();
    db.insert("abc", vec![1u8, 2, 3]).unwrap();
    assert_eq!(stored_best_height(&db), Err(ChainError::Serialization));
    let bc = Blockchain::new(db).unwrap();
    assert_eq!(bc.get_block("abc").err(), Some(ChainError::Serialization));
    assert_eq!(bc.collect_blocks().unwrap().len(), 0);
    assert!(bc.iter().next().is_none());
}

#[test]
fn tip_that_is_no_text_is_a_serialization_fault() {
    let db = temp_store();
    db.insert("LAST", vec![0xffu8, 0xfe]).unwrap();
    assert_eq!(Blockchain::new(db).err(), Some(ChainError::Serialization));
}

#[test]
fn open_or_init_creates_once_and_opens_afterwards() {
    let alice = Wallet::from_seed(&[1u8; 32]);
    let db = temp_store();
    let first = Blockchain::open_or_init(db.clone(), alice.get_address()).unwrap();
    let created = first.get_block_hashs().unwrap();
    assert_eq!(created.len(), 1);
    let second = Blockchain::open_or_init(db.clone(), String::from("ignored")).unwrap();
    assert_eq!(second.get_block_hashs().unwrap(), created);
    let third = Blockchain::new(db).unwrap();
    assert_eq!(third.get_block_hashs().unwrap(), created);
}

#[test]
fn create_blockchain_rejects_text_that_is_no_address() {
    let res = Blockchain::create_blockchain(temp_store(), String::from("nobody"));
    assert_eq!(res.err(), Some(ChainError::Validation));
}

#[test]
fn create_and_mine_with_the_wall_clock() {
    let alice = Wallet::from_seed(&[1u8; 32]);
    let bob = Wallet::from_seed(&[2u8; 32]);
    let mut bc = Blockchain::create_blockchain(temp_store(), alice.get_address()).unwrap();
    let coinbase_id = genesis_coinbase_id(&bc);
    let tx = transfer(&bc, &alice, &coinbase_id, &bob, 100);
    assert_eq!(bc.verify_transacton(&tx), Ok(true));
    let block = bc.mine_block(vec![tx]).unwrap();
    assert_eq!(block.get_height(), 1);
    assert_eq!(bc.get_best_height(), Ok(1));
}

#[test]
fn traversal_ends_at_a_missing_link() {
    let alice = Wallet::from_seed(&[1u8; 32]);
    let mut bc = new_chain(&alice);
    let orphan = Block::new_block_at(
        vec![Transaction::new_coinbase(alice.get_address(), String::from("orphan")).unwrap()],
        String::from("0000missing"),
        9,
        80,
    )
    .unwrap();
    assert_eq!(bc.add_block(Block::from_plain(&orphan.to_plain())), Ok(()));
    assert_eq!(bc.get_block_hashs().unwrap(), vec![orphan.get_hash()]);
}

#[test]
fn unspent_transactions_follow_the_money() {
    let alice = Wallet::from_seed(&[1u8; 32]);
    let bob = Wallet::from_seed(&[2u8; 32]);
    let mut bc = new_chain(&alice);
    let coinbase_id = genesis_coinbase_id(&bc);
    let owned = bc.find_unspent_transactions(&hash_of(&alice)).unwrap();
    assert_eq!(owned.len(), 1);
    assert_eq!(owned[0].id, coinbase_id);
    assert!(bc.find_unspent_transactions(&hash_of(&bob)).unwrap().is_empty());
    let tx = transfer(&bc, &alice, &coinbase_id, &bob, 100);
    bc.mine_block_at(vec![tx.clone()], 1_700_000_000_001).unwrap();
    assert!(bc.find_unspent_transactions(&hash_of(&alice)).unwrap().is_empty());
    let owned = bc.find_unspent_transactions(&hash_of(&bob)).unwrap();
    assert_eq!(owned.len(), 1);
    assert_eq!(owned[0].id, tx.id);
}

#[test]
fn traversal_gives_each_block_once_and_then_ends() {
    let alice = Wallet::from_seed(&[1u8; 32]);
    let bob = Wallet::from_seed(&[2u8; 32]);
    let mut bc = new_chain(&alice);
    let coinbase_id = genesis_coinbase_id(&bc);
    let tx = transfer(&bc, &alice, &coinbase_id, &bob, 100);
    let block = bc.mine_block_at(vec![tx], 1_700_000_000_001).unwrap();
    let mut it = bc.iter();
    assert_eq!(it.step().unwrap().unwrap().get_hash(), block.get_hash());
    assert_eq!(it.next().unwrap().get_height(), 0);
    assert!(it.step().unwrap().is_none());
    assert!(it.next().is_none());
}

#[test]
fn a_step_hands_on_what_the_store_gave() {
    let alice = Wallet::from_seed(&[1u8; 32]);
    let bob = Wallet::from_seed(&[2u8; 32]);
    let mut bc = new_chain(&alice);
    let genesis_hash = bc.get_block_hashs().unwrap()[0].clone();
    let coinbase_id = genesis_coinbase_id(&bc);
    let tx = transfer(&bc, &alice, &coinbase_id, &bob, 100);
    let block = bc.mine_block_at(vec![tx], 1_700_000_000_001).unwrap();

    let mut it = bc.iter();
    assert!(it.advance(Err(ChainError::NotFound)).unwrap().is_none());
    assert!(it.advance(Err(ChainError::Serialization)).unwrap().is_none());
    assert_eq!(it.advance(Err(ChainError::Storage)).err(), Some(ChainError::Storage));
    assert_eq!(it.next().unwrap().get_hash(), block.get_hash());

    let mut it = bc.iter();
    let given = it.advance(Ok(Block::from_plain(&block.to_plain()))).unwrap().unwrap();
    assert_eq!(given.to_plain(), block.to_plain());
    assert_eq!(it.next().unwrap().get_hash(), genesis_hash);
    assert!(it.next().is_none());

    let low = Block::new_block_at(
        vec![Transaction::new_coinbase(alice.get_address(), String::from("low")).unwrap()],
        block.get_hash(),
        0,
        81,
    )
    .unwrap();
    let mut it = bc.iter();
    assert_eq!(it.advance(Ok(low)).unwrap().unwrap().get_height(), 0);
    assert!(it.next().is_none());
}

#[test]
fn creating_on_an_initialised_store_leaves_it_alone() {
    let alice = Wallet::from_seed(&[1u8; 32]);
    let bob = Wallet::from_seed(&[2u8; 32]);
    let db = temp_store();
    let first =
        Blockchain::create_blockchain_at(db.clone(), alice.get_address(), 1_700_000_000_000)
            .unwrap();
    let hashes = first.get_block_hashs().unwrap();
    let entries = db.len();
    let second =
        Blockchain::create_blockchain_at(db.clone(), bob.get_address(), 1_700_000_000_009)
            .unwrap();
    assert_eq!(second.get_block_hashs().unwrap(), hashes);
    assert_eq!(db.len(), entries);
    let third = Blockchain::create_blockchain(db.clone(), bob.get_address()).unwrap();
    assert_eq!(third.get_block_hashs().unwrap(), hashes);
    assert_eq!(db.len(), entries);
    let res = Blockchain::create_blockchain_at(db.clone(), String::from("nobody"), 5);
    assert_eq!(res.err(), Some(ChainError::Validation));
    assert_eq!(db.len(), entries);
}

#[test]
fn hash_of_a_mined_block_has_64_characters() {
    let alice = Wallet::from_seed(&[1u8; 32]);
    let mut bc = new_chain(&alice);
    let block = bc.mine_block_at(Vec::new(), 1_700_000_000_001).unwrap();
    assert_eq!(block.get_hash().len(), 64);
    assert_eq!(&block.get_hash()[0..4], "0000");
}

#[test]
fn carrier_transaction_holds_its_text_and_no_output() {
    let alice = Wallet::from_seed(&[1u8; 32]);
    let mut bc = new_chain(&alice);
    let carrier = Transaction::new_carrier(String::from("some text")).unwrap();
    assert!(carrier.is_coinbase());
    assert!(carrier.vout.is_empty());
    assert_eq!(carrier.vin[0].pub_key, b"some text".to_vec());
    assert_eq!(carrier.id, carrier.hash().unwrap());
    let block = bc.mine_block_at(vec![carrier], 1_700_000_000_001).unwrap();
    assert_eq!(block.get_height(), 1);
}
