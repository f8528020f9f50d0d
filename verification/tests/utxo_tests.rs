use blockchain_rust_demo::block::Block;
use blockchain_rust_demo::blockchain::Blockchain;
use blockchain_rust_demo::errors::ChainError;
use blockchain_rust_demo::transaction::Transaction;
use blockchain_rust_demo::tx::{TXInput, TXOutput, TXOutputs, UnspentOutput};
use blockchain_rust_demo::unspent::{unspent_outputs, unspent_transactions};
use blockchain_rust_demo::utxoset::{read_entries, select_spendable, UTXOSet};
use blockchain_rust_demo::wallets::{hash_pub_key, Wallet};

fn utxo_store() -> sled::Db {
    sled::Config::new().temporary(true).open().unwrap()
}

fn key_hash(wallet: &Wallet) -> Vec<u8> {
    let mut key = wallet.public_key.clone();
    hash_pub_key(&mut key);
    key
}

fn fresh_set(owner: &Wallet) -> UTXOSet {
    let bc =
        Blockchain::create_blockchain_at(utxo_store(), owner.get_address(), 1_700_000_000_000)
            .unwrap();
    UTXOSet::new(bc, utxo_store())
}

fn contents(db: &sled::Db) -> Vec<(Vec<u8>, Vec<u8>)> {
    db.iter().map(|item| item.unwrap()).map(|(k, v)| (k.to_vec(), v.to_vec())).collect()
}

fn payment(
    set: &UTXOSet,
    from: &Wallet,
    inputs: Vec<(String, i32)>,
    outputs: Vec<(i32, Vec<u8>)>,
) -> Transaction {
    let mut tx = Transaction {
        id: String::new(),
        vin: inputs
            .into_iter()
            .map(|(txid, vout)| TXInput {
                txid,
                vout,
                signature: Vec::new(),
                pub_key: from.public_key.clone(),
            })
            .collect(),
        vout: outputs
            .into_iter()
            .map(|(value, pub_key_hash)| TXOutput { value, pub_key_hash })
            .collect(),
    };
    tx.id = tx.hash().unwrap();
    set.blockchain.sign_transacton(&mut tx, &from.secret_key).unwrap();
    tx
}

fn plain_tx(id: &str, inputs: Vec<(&str, i32)>, values: Vec<i32>) -> Transaction {
    Transaction {
        id: String::from(id),
        vin: inputs
            .into_iter()
            .map(|(txid, vout)| TXInput {
                txid: String::from(txid),
                vout,
                signature: Vec::new(),
                pub_key: Vec::new(),
            })
            .collect(),
        vout: values
            .into_iter()
            .map(|value| TXOutput { value, pub_key_hash: vec![1u8] })
            .collect(),
    }
}

fn entry(id: &str, outputs: Vec<(i32, u8)>) -> (String, TXOutputs) {
    entry_at(id, outputs.into_iter().enumerate().map(|(i, (v, o))| (i, v, o)).collect())
}

fn entry_at(id: &str, outputs: Vec<(usize, i32, u8)>) -> (String, TXOutputs) {
    (
        String::from(id),
        TXOutputs {
            outputs: outputs
                .into_iter()
                .map(|(index, value, owner)| UnspentOutput {
                    index,
                    output: TXOutput { value, pub_key_hash: vec![owner] },
                })
                .collect(),
        },
    )
}

fn left_of(set: &UTXOSet, id: &str) -> Vec<(usize, i32)> {
    read_entries(&contents(&set.db))
        .unwrap()
        .iter()
        .filter(|e| e.0 == id)
        .flat_map(|e| e.1.outputs.iter().map(|o| (o.index, o.output.value)))
        .collect()
}

fn block_of(txs: Vec<Transaction>, height: usize) -> Block {
    Block::from_plain(&(
        7u128,
        txs.iter().map(|t| t.to_plain()).collect(),
        String::new(),
        String::new(),
        height,
        0u32,
    ))
}

#[test]
fn spending_the_reward_moves_it_to_the_recipient() {
    let alice = Wallet::from_seed(&[1u8; 32]);
    let bob = Wallet::from_seed(&[2u8; 32]);
    let mut set = fresh_set(&alice);
    assert_eq!(set.reindex(), Ok(()));
    assert_eq!(set.count_transactions(), Ok(1));
    let (total, selection) = set.find_spendable_outputs(&key_hash(&alice), 100).unwrap();
    assert_eq!(total, 100);
    assert_eq!(selection.len(), 1);
    let coinbase_id = selection[0].0.clone();
    assert_eq!(selection[0].1, vec![0]);

    let tx = payment(&set, &alice, vec![(coinbase_id.clone(), 0)], vec![(100, key_hash(&bob))]);
    let block = set.blockchain.mine_block_at(vec![tx.clone()], 1_700_000_000_001).unwrap();
    assert_eq!(set.update(&block), Ok(()));

    assert!(set.db.get(coinbase_id.as_bytes()).unwrap().is_none());
    assert_eq!(set.count_transactions(), Ok(1));
    let (total_a, selection_a) = set.find_spendable_outputs(&key_hash(&alice), 100).unwrap();
    assert_eq!(total_a, 0);
    assert!(selection_a.is_empty());
    let (total_b, selection_b) = set.find_spendable_outputs(&key_hash(&bob), 100).unwrap();
    assert_eq!(total_b, 100);
    assert_eq!(selection_b, vec![(tx.id.clone(), vec![0])]);
    let entries = read_entries(&contents(&set.db)).unwrap();
    assert_eq!(entries.len(), 1);
    assert_eq!(entries[0].0, tx.id);
    assert_eq!(entries[0].1.outputs.len(), 1);
    assert_eq!(entries[0].1.outputs[0].index, 0);
    assert_eq!(entries[0].1.outputs[0].output.value, 100);
    assert_eq!(entries[0].1.outputs[0].output.pub_key_hash, key_hash(&bob));
}

#[test]
fn index_entry_is_the_encoding_of_the_unspent_outputs() {
    let alice = Wallet::from_seed(&[1u8; 32]);
    let mut set = fresh_set(&alice);
    assert_eq!(set.reindex(), Ok(()));
    let items = contents(&set.db);
    assert_eq!(items.len(), 1);
    let mut expected: Vec<u8> = vec![
        1, 0, 0, 0, 0, 0, 0, 0, 0, 0, 0, 0, 0, 0, 0, 0, 100, 0, 0, 0, 20, 0, 0, 0, 0, 0, 0, 0,
    ];
    expected.extend(key_hash(&alice));
    assert_eq!(items[0].1, expected);
    assert_eq!(items[0].0.len(), 64);
}

#[test]
fn reindex_agrees_with_incremental_updates() {
    let alice = Wallet::from_seed(&[1u8; 32]);
    let bob = Wallet::from_seed(&[2u8; 32]);
    let carol = Wallet::from_seed(&[3u8; 32]);
    let mut set = fresh_set(&alice);
    assert_eq!(set.reindex(), Ok(()));
    let coinbase_id = set.find_spendable_outputs(&key_hash(&alice), 1).unwrap().1[0].0.clone();

    let first = payment(
        &set,
        &alice,
        vec![(coinbase_id, 0)],
        vec![(30, key_hash(&bob)), (70, key_hash(&alice))],
    );
    let block1 = set.blockchain.mine_block_at(vec![first.clone()], 1_700_000_000_001).unwrap();
    assert_eq!(set.update(&block1), Ok(()));

    let second = payment(&set, &bob, vec![(first.id.clone(), 0)], vec![(30, key_hash(&carol))]);
    let block2 = set.blockchain.mine_block_at(vec![second.clone()], 1_700_000_000_002).unwrap();
    assert_eq!(set.update(&block2), Ok(()));
    assert_eq!(left_of(&set, &first.id), vec![(1, 70)]);
    let halfway = contents(&set.db);
    assert_eq!(set.reindex(), Ok(()));
    assert_eq!(contents(&set.db), halfway);

    let third = payment(&set, &alice, vec![(first.id.clone(), 1)], vec![(70, key_hash(&carol))]);
    let block3 = set.blockchain.mine_block_at(vec![third.clone()], 1_700_000_000_003).unwrap();
    assert_eq!(set.update(&block3), Ok(()));

    let updated = contents(&set.db);
    assert_eq!(set.reindex(), Ok(()));
    let rebuilt = contents(&set.db);
    assert_eq!(updated, rebuilt);
    assert_eq!(set.count_transactions(), Ok(2));
    let (total, _) = set.find_spendable_outputs(&key_hash(&carol), 1000).unwrap();
    assert_eq!(total, 100);
    assert!(set.db.get(first.id.as_bytes()).unwrap().is_none());
}

#[test]
fn update_removes_the_output_with_the_index_that_the_input_names() {
    let alice = Wallet::from_seed(&[1u8; 32]);
    let mut set = fresh_set(&alice);
    let a = vec![1u8; 20];
    let b = vec![2u8; 20];
    let stored: Vec<(usize, (i32, Vec<u8>))> =
        vec![(0, (10, a.clone())), (1, (20, a.clone())), (2, (30, a.clone()))];
    set.db.insert("t1", bincode::serialize(&stored).unwrap()).unwrap();
    let t2 = Transaction {
        id: String::from("t2"),
        vin: vec![TXInput {
            txid: String::from("t1"),
            vout: 0,
            signature: Vec::new(),
            pub_key: Vec::new(),
        }],
        vout: vec![TXOutput { value: 10, pub_key_hash: b.clone() }],
    };
    let t3 = Transaction {
        id: String::from("t3"),
        vin: vec![TXInput {
            txid: String::from("t1"),
            vout: 2,
            signature: Vec::new(),
            pub_key: Vec::new(),
        }],
        vout: vec![TXOutput { value: 30, pub_key_hash: b.clone() }],
    };
    assert_eq!(set.update(&block_of(vec![t2], 1)), Ok(()));
    assert_eq!(left_of(&set, "t1"), vec![(1, 20), (2, 30)]);
    assert_eq!(set.update(&block_of(vec![t3], 2)), Ok(()));
    assert_eq!(left_of(&set, "t1"), vec![(1, 20)]);
    assert_eq!(left_of(&set, "t2"), vec![(0, 10)]);
    assert_eq!(left_of(&set, "t3"), vec![(0, 30)]);
    assert_eq!(set.count_transactions(), Ok(3));
    let (total, selection) = set.find_spendable_outputs(&a, 100).unwrap();
    assert_eq!(total, 20);
    assert_eq!(selection, vec![(String::from("t1"), vec![1])]);
    let again = Transaction {
        id: String::from("t4"),
        vin: vec![TXInput {
            txid: String::from("t1"),
            vout: 2,
            signature: Vec::new(),
            pub_key: Vec::new(),
        }],
        vout: vec![TXOutput { value: 1, pub_key_hash: b.clone() }],
    };
    assert_eq!(set.update(&block_of(vec![again], 3)), Ok(()));
    assert_eq!(left_of(&set, "t1"), vec![(1, 20)]);
}

#[test]
fn update_with_a_block_without_transactions_changes_nothing() {
    let alice = Wallet::from_seed(&[1u8; 32]);
    let mut set = fresh_set(&alice);
    assert_eq!(set.reindex(), Ok(()));
    let before = contents(&set.db);
    assert_eq!(set.update(&block_of(Vec::new(), 1)), Ok(()));
    assert_eq!(contents(&set.db), before);
}

#[test]
fn update_of_an_unknown_output_is_not_found() {
    let alice = Wallet::from_seed(&[1u8; 32]);
    let bob = Wallet::from_seed(&[2u8; 32]);
    let mut set = fresh_set(&alice);
    let coinbase_id = set.blockchain.collect_blocks().unwrap()[0].get_transaction()[0].id.clone();
    let tx = payment(&set, &alice, vec![(coinbase_id, 0)], vec![(100, key_hash(&bob))]);
    let block = set.blockchain.mine_block_at(vec![tx], 1_700_000_000_001).unwrap();
    assert_eq!(set.update(&block), Err(ChainError::NotFound));
    assert_eq!(set.count_transactions(), Ok(0));
}

#[test]
fn corrupt_index_is_a_serialization_fault() {
    let alice = Wallet::from_seed(&[1u8; 32]);
    let set = fresh_set(&alice);
    set.db.insert("some id", vec![9u8]).unwrap();
    assert_eq!(
        set.find_spendable_outputs(&key_hash(&alice), 1).err(),
        Some(ChainError::Serialization)
    );
    assert_eq!(set.count_transactions(), Ok(1));
}

#[test]
fn unspent_outputs_leave_out_what_later_transactions_spend() {
    let funding = plain_tx("fund", vec![("", -1)], vec![10, 20, 30]);
    let spend_middle = plain_tx("spend", vec![("fund", 1)], vec![20]);
    let utxos = unspent_outputs(&vec![spend_middle, funding]);
    assert_eq!(utxos.len(), 2);
    assert_eq!(utxos[0].0, "spend");
    assert_eq!(
        utxos[0].1.outputs.iter().map(|o| (o.index, o.output.value)).collect::<Vec<_>>(),
        vec![(0, 20)]
    );
    assert_eq!(utxos[1].0, "fund");
    assert_eq!(
        utxos[1].1.outputs.iter().map(|o| (o.index, o.output.value)).collect::<Vec<_>>(),
        vec![(0, 10), (2, 30)]
    );
}

#[test]
fn fully_spent_transaction_has_no_entry() {
    let funding = plain_tx("fund", vec![("", -1)], vec![10]);
    let spend = plain_tx("spend", vec![("fund", 0)], vec![]);
    let utxos = unspent_outputs(&vec![spend, funding]);
    assert!(utxos.is_empty());
    assert!(unspent_outputs(&Vec::new()).is_empty());
}

#[test]
fn coinbase_input_spends_nothing() {
    let funding = plain_tx("", vec![("", -1)], vec![10]);
    let other = plain_tx("other", vec![("", -1)], vec![5]);
    let utxos = unspent_outputs(&vec![other, funding]);
    assert_eq!(utxos.len(), 2);
    assert_eq!(utxos[1].1.outputs.len(), 1);
}

#[test]
fn selection_stops_once_the_amount_is_reached() {
    let entries = vec![
        entry("a", vec![(5, 1), (7, 2), (6, 1)]),
        entry("b", vec![(1, 2)]),
        entry("c", vec![(4, 1), (9, 1)]),
    ];
    assert_eq!(
        select_spendable(&entries, &[1u8], 12),
        Ok((15, vec![(String::from("a"), vec![0, 2]), (String::from("c"), vec![0])]))
    );
    assert_eq!(select_spendable(&entries, &[1u8], 5), Ok((5, vec![(String::from("a"), vec![0])])));
    assert_eq!(select_spendable(&entries, &[2u8], 8), Ok((8, vec![
        (String::from("a"), vec![1]),
        (String::from("b"), vec![0]),
    ])));
}

#[test]
fn insufficient_funds_are_reported_as_a_value() {
    let entries = vec![entry("a", vec![(5, 1)]), entry("b", vec![(6, 1), (3, 2)])];
    assert_eq!(
        select_spendable(&entries, &[1u8], 100),
        Ok((11, vec![(String::from("a"), vec![0]), (String::from("b"), vec![0])]))
    );
    assert_eq!(select_spendable(&entries, &[3u8], 1), Ok((0, Vec::new())));
    assert_eq!(select_spendable(&entries, &[1u8], 0), Ok((0, Vec::new())));
    assert_eq!(select_spendable(&Vec::new(), &[1u8], 10), Ok((0, Vec::new())));
}

#[test]
fn selection_never_exceeds_the_matching_sum() {
    let entries = vec![entry("a", vec![(5, 1), (7, 2)]), entry("b", vec![(6, 1), (3, 1)])];
    let mut amount = 0;
    while amount <= 20 {
        let (total, _) = select_spendable(&entries, &[1u8], amount).unwrap();
        assert!(total <= 14);
        if amount <= 14 {
            assert!(total >= amount);
        } else {
            assert_eq!(total, 14);
        }
        amount += 1;
    }
}

#[test]
fn total_beyond_the_integer_range_is_an_overflow() {
    let entries = vec![entry("a", vec![(i32::MAX, 1), (5, 1)])];
    assert_eq!(
        select_spendable(&entries, &[1u8], i32::MAX),
        Ok((i32::MAX, vec![(String::from("a"), vec![0])]))
    );
    let entries = vec![entry("a", vec![(i32::MAX - 1, 1), (5, 1)])];
    assert_eq!(select_spendable(&entries, &[1u8], i32::MAX), Err(ChainError::Overflow));
    let entries = vec![entry("a", vec![(i32::MIN, 1), (-1, 1)])];
    assert_eq!(select_spendable(&entries, &[1u8], 1), Err(ChainError::Overflow));
}

#[test]
fn negative_value_can_push_the_total_past_the_sum() {
    let entries = vec![entry("a", vec![(5, 1), (-3, 1)])];
    assert_eq!(select_spendable(&entries, &[1u8], 4), Ok((5, vec![(String::from("a"), vec![0])])));
}

#[test]
fn find_utxo_lists_the_reward_of_a_fresh_chain() {
    let alice = Wallet::from_seed(&[1u8; 32]);
    let set = fresh_set(&alice);
    let utxos = set.blockchain.find_UTXO().unwrap();
    assert_eq!(utxos.len(), 1);
    assert_eq!(utxos[0].1.outputs.len(), 1);
    assert_eq!(utxos[0].1.outputs[0].index, 0);
    assert_eq!(utxos[0].1.outputs[0].output.value, 100);
    assert_eq!(utxos[0].1.outputs[0].output.pub_key_hash, key_hash(&alice));
}

#[test]
fn unspent_transactions_repeat_for_each_owned_output() {
    let owner = Wallet::from_seed(&[1u8; 32]);
    let other = Wallet::from_seed(&[2u8; 32]);
    let funding = Transaction {
        id: String::from("fund"),
        vin: vec![TXInput {
            txid: String::new(),
            vout: -1,
            signature: Vec::new(),
            pub_key: Vec::new(),
        }],
        vout: vec![
            TXOutput { value: 1, pub_key_hash: key_hash(&owner) },
            TXOutput { value: 2, pub_key_hash: key_hash(&other) },
            TXOutput { value: 3, pub_key_hash: key_hash(&owner) },
        ],
    };
    let found = unspent_transactions(&vec![funding.clone()], &key_hash(&owner)).unwrap();
    assert_eq!(found.iter().map(|t| t.id.clone()).collect::<Vec<String>>(), vec!["fund", "fund"]);
    let spend = Transaction {
        id: String::from("spend"),
        vin: vec![
            TXInput {
                txid: String::from("fund"),
                vout: 2,
                signature: Vec::new(),
                pub_key: owner.public_key.clone(),
            },
            TXInput {
                txid: String::from("fund"),
                vout: 0,
                signature: Vec::new(),
                pub_key: other.public_key.clone(),
            },
        ],
        vout: vec![TXOutput { value: 3, pub_key_hash: key_hash(&other) }],
    };
    let found = unspent_transactions(&vec![spend.clone(), funding.clone()], &key_hash(&owner)).unwrap();
    assert_eq!(found.iter().map(|t| t.id.clone()).collect::<Vec<String>>(), vec!["fund"]);
    let found = unspent_transactions(&vec![spend, funding], &key_hash(&other)).unwrap();
    assert_eq!(found.iter().map(|t| t.id.clone()).collect::<Vec<String>>(), vec!["spend", "fund"]);
}

#[test]
fn selection_names_the_indexes_of_the_outputs() {
    let entries = vec![entry_at("a", vec![(1, 5, 1), (4, 6, 1)]), entry_at("b", vec![(7, 9, 1)])];
    assert_eq!(
        select_spendable(&entries, &[1u8], 12),
        Ok((20, vec![(String::from("a"), vec![1, 4]), (String::from("b"), vec![7])]))
    );
    let far = vec![entry_at("a", vec![(i32::MAX as usize + 1, 5, 1)])];
    assert_eq!(select_spendable(&far, &[1u8], 1), Err(ChainError::Overflow));
}

#[test]
fn newest_transaction_of_an_id_gives_the_entry() {
    let newer = plain_tx("same", vec![("", -1)], vec![7, 8]);
    let spend = plain_tx("spend", vec![("same", 0)], vec![1]);
    let older = plain_tx("same", vec![("", -1)], vec![5]);
    let utxos = unspent_outputs(&vec![newer, spend, older]);
    let seen: Vec<(String, Vec<(usize, i32)>)> = utxos
        .iter()
        .map(|e| (e.0.clone(), e.1.outputs.iter().map(|o| (o.index, o.output.value)).collect()))
        .collect();
    assert_eq!(
        seen,
        vec![(String::from("same"), vec![(0, 7), (1, 8)]), (String::from("spend"), vec![(0, 1)])]
    );
}

#[test]
fn rebuild_agrees_with_update_when_a_block_spends_within_itself() {
    let alice = Wallet::from_seed(&[1u8; 32]);
    let mut set = fresh_set(&alice);
    assert_eq!(set.reindex(), Ok(()));
    let genesis = set.blockchain.collect_blocks().unwrap().pop().unwrap();
    let coinbase = genesis.get_transaction()[0].clone();
    let mut first = plain_tx("", vec![(coinbase.id.as_str(), 0)], vec![30, 70]);
    first.id = first.hash().unwrap();
    let mut second = plain_tx("", vec![(first.id.as_str(), 1)], vec![70]);
    second.id = second.hash().unwrap();
    let mut third = plain_tx("", vec![(first.id.as_str(), 0)], vec![30]);
    third.id = third.hash().unwrap();
    let block = Block::new_block_at(
        vec![first.clone(), second.clone(), coinbase.clone(), third.clone()],
        genesis.get_hash(),
        1,
        1_700_000_000_005,
    )
    .unwrap();
    assert_eq!(set.blockchain.add_block(Block::from_plain(&block.to_plain())), Ok(()));
    assert_eq!(set.blockchain.get_best_height(), Ok(1));
    assert_eq!(set.update(&block), Ok(()));
    let updated = contents(&set.db);
    assert!(left_of(&set, &first.id).is_empty());
    assert_eq!(left_of(&set, &second.id), vec![(0, 70)]);
    assert_eq!(left_of(&set, &third.id), vec![(0, 30)]);
    assert_eq!(left_of(&set, &coinbase.id), vec![(0, 100)]);
    assert_eq!(set.reindex(), Ok(()));
    assert_eq!(contents(&set.db), updated);
}

#[test]
fn transaction_without_outputs_has_no_entry() {
    let alice = Wallet::from_seed(&[1u8; 32]);
    let mut set = fresh_set(&alice);
    assert_eq!(set.reindex(), Ok(()));
    let carrier = Transaction::new_carrier(String::from("text")).unwrap();
    let block = set.blockchain.mine_block_at(vec![carrier.clone()], 1_700_000_000_001).unwrap();
    assert_eq!(set.update(&block), Ok(()));
    assert!(set.db.get(carrier.id.as_bytes()).unwrap().is_none());
    assert_eq!(set.count_transactions(), Ok(1));
    let updated = contents(&set.db);
    assert_eq!(set.reindex(), Ok(()));
    assert_eq!(contents(&set.db), updated);
}
