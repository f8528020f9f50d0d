use blockchain_rust_demo::address::{is_decodable, recipient_of_address};
use blockchain_rust_demo::wallets::{hash_pub_key, Wallet, Wallets};

fn wallet_store() -> sled::Db {
    sled::Config::new().temporary(true).open().unwrap()
}

#[test]
fn keys_are_derived_from_the_seed() {
    let wallet = Wallet::from_seed(&[5u8; 32]);
    let (secret, public) = crypto::ed25519::keypair(&[5u8; 32]);
    assert_eq!(wallet.secret_key, secret.to_vec());
    assert_eq!(wallet.public_key, public.to_vec());
    assert_eq!(wallet.secret_key.len(), 64);
    assert_eq!(wallet.public_key.len(), 32);
    assert_eq!(&wallet.secret_key[0..32], &[5u8; 32]);
    assert_eq!(&wallet.secret_key[32..64], &wallet.public_key[..]);
}

#[test]
fn random_wallets_differ() {
    let first = Wallet::new().unwrap();
    let second = Wallet::new().unwrap();
    assert_eq!(first.secret_key.len(), 64);
    assert_eq!(first.public_key.len(), 32);
    assert_ne!(first.secret_key, second.secret_key);
    assert_ne!(first.get_address(), second.get_address());
}

#[test]
fn address_stands_for_the_recipient_hash() {
    let wallet = Wallet::from_seed(&[6u8; 32]);
    let address = wallet.get_address();
    let mut hash = wallet.public_key.clone();
    hash_pub_key(&mut hash);
    assert_eq!(recipient_of_address(&address), Some(hash.clone()));
    let expected = bitcoincash_addr::Address::new(
        hash,
        bitcoincash_addr::Scheme::Base58,
        bitcoincash_addr::HashType::Script,
        bitcoincash_addr::Network::Main,
    )
    .encode()
    .unwrap();
    assert_eq!(address, expected);
    assert_ne!(address, Wallet::from_seed(&[7u8; 32]).get_address());
}

#[test]
fn known_legacy_address_decodes() {
    let hash = recipient_of_address("1NM2HFXin4cEQRBLjkNZAS98qLX9JKzjKn").unwrap();
    let expected: Vec<u8> = vec![
        0xea, 0x24, 0x07, 0x82, 0x9a, 0x50, 0x55, 0x46, 0x6b, 0x27, 0x78, 0x4c, 0xde, 0x8c, 0xf4,
        0x63, 0x16, 0x79, 0x46, 0xbf,
    ];
    assert_eq!(hash, expected);
}

#[test]
fn text_with_a_short_tail_after_one_colon_is_no_address() {
    assert!(!is_decodable("bitcoincash:qqqqqqqq"));
    assert!(!is_decodable(":"));
    assert!(!is_decodable("bitcoincash:123456789"));
    assert!(is_decodable("bitcoincash:1234567890"));
    assert!(is_decodable("a:b:c"));
    assert!(is_decodable("no colon at all"));
    assert!(is_decodable(""));
    assert_eq!(recipient_of_address("bitcoincash:qqqqqqqq"), None);
    assert_eq!(recipient_of_address("bitcoincash:1234567890"), None);
    assert_eq!(recipient_of_address("a:b:c"), None);
    assert_eq!(recipient_of_address(""), None);
}

#[test]
fn cash_address_decodes_too() {
    let hash =
        recipient_of_address("bitcoincash:qr6m7j9njldwwzlg9v7v53unlr4jkmx6eylep8ekg2").unwrap();
    let expected: Vec<u8> = vec![
        0xf5, 0xbf, 0x48, 0xb3, 0x97, 0xda, 0xe7, 0x0b, 0xe8, 0x2b, 0x3c, 0xca, 0x47, 0x93, 0xf8,
        0xeb, 0x2b, 0x6c, 0xda, 0xc9,
    ];
    assert_eq!(hash, expected);
}

#[test]
fn created_wallets_are_found_by_address() {
    let mut wallets = Wallets::empty();
    assert!(wallets.get_all_addresses().is_empty());
    let first = wallets.create_wallet_from(&[1u8; 32]);
    let second = wallets.create_wallet_from(&[2u8; 32]);
    let third = wallets.create_wallet().unwrap();
    assert_eq!(first, Wallet::from_seed(&[1u8; 32]).get_address());
    let mut addresses = wallets.get_all_addresses();
    addresses.sort();
    let mut expected = vec![first.clone(), second.clone(), third.clone()];
    expected.sort();
    assert_eq!(addresses, expected);
    assert_eq!(
        wallets.get_wallet(&first).unwrap().secret_key,
        Wallet::from_seed(&[1u8; 32]).secret_key
    );
    assert_eq!(
        wallets.get_wallet(&second).unwrap().public_key,
        Wallet::from_seed(&[2u8; 32]).public_key
    );
    assert!(wallets.get_wallet("nobody").is_none());
    let again = wallets.create_wallet_from(&[1u8; 32]);
    assert_eq!(again, first);
    assert_eq!(wallets.get_all_addresses().len(), 3);
}

#[test]
fn insert_replaces_the_wallet_under_an_address() {
    let mut wallets = Wallets::empty();
    wallets.insert(String::from("name"), Wallet::from_seed(&[1u8; 32]));
    wallets.insert(String::from("name"), Wallet::from_seed(&[2u8; 32]));
    assert_eq!(wallets.get_all_addresses(), vec![String::from("name")]);
    assert_eq!(
        wallets.get_wallet("name").unwrap().public_key,
        Wallet::from_seed(&[2u8; 32]).public_key
    );
}

#[test]
fn saved_wallets_are_loaded_again() {
    let mut db = wallet_store();
    let mut wallets = Wallets::empty();
    let first = wallets.create_wallet_from(&[3u8; 32]);
    let second = wallets.create_wallet_from(&[4u8; 32]);
    assert_eq!(wallets.save_all(&mut db), Ok(()));
    let expected = bincode::serialize(&(
        Wallet::from_seed(&[3u8; 32]).secret_key,
        Wallet::from_seed(&[3u8; 32]).public_key,
    ))
    .unwrap();
    assert_eq!(db.get(first.as_bytes()).unwrap().unwrap().to_vec(), expected);
    assert_eq!(expected.len(), 8 + 64 + 8 + 32);
    assert_eq!(&expected[0..8], &[64u8, 0, 0, 0, 0, 0, 0, 0]);
    let loaded = Wallets::new(&db).unwrap();
    let mut addresses = loaded.get_all_addresses();
    addresses.sort();
    let mut expected_addresses = vec![first.clone(), second.clone()];
    expected_addresses.sort();
    assert_eq!(addresses, expected_addresses);
    assert_eq!(
        loaded.get_wallet(&second).unwrap().secret_key,
        Wallet::from_seed(&[4u8; 32]).secret_key
    );
}

#[test]
fn store_that_holds_no_wallet_bytes_does_not_load() {
    let db = wallet_store();
    db.insert("address", vec![1u8, 2, 3]).unwrap();
    assert_eq!(
        Wallets::new(&db).err(),
        Some(blockchain_rust_demo::errors::ChainError::Serialization)
    );
    let other = wallet_store();
    other.insert(vec![0xffu8], vec![0u8; 16]).unwrap();
    assert_eq!(
        Wallets::new(&other).err(),
        Some(blockchain_rust_demo::errors::ChainError::Serialization)
    );
    assert_eq!(Wallets::new(&wallet_store()).unwrap().get_all_addresses().len(), 0);
}
