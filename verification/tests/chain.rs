use blockchain::block::Block;
use blockchain::blockchain::Blockchain;
use blockchain::error::Error;
use blockchain::transaction::{TXInput, TXOutput, Transaction};
use blockchain::utxo_set::{UTXOSet, Utxo};
use blockchain::wallets::{hash_pub_key, Wallet};

fn hash_of_key(wallet: &Wallet) -> Vec<u8> {
    let mut hash = wallet.public_key.clone();
    hash_pub_key(&mut hash);
    hash
}

fn balance(set: &UTXOSet, wallet: &Wallet) -> i128 {
    set.find_utxos(&hash_of_key(wallet)).total()
}

fn contents(utxos: &Vec<Utxo>) -> Vec<(String, usize, i32, Vec<u8>)> {
    utxos
        .iter()
        .map(|u| (u.txid.clone(), u.index, u.output.value, u.output.pub_key_hash.clone()))
        .collect()
}

fn started(owner: &Wallet) -> UTXOSet {
    let chain = Blockchain::create_blockchain(owner.get_address()).unwrap();
    let mut set = UTXOSet::new(chain);
    set.reindex();
    set
}

fn send(set: &mut UTXOSet, from: &Wallet, to: &Wallet, amount: i32, data: &str) -> Block {
    let tx = Transaction::new_utxo(from, &to.get_address(), amount, set).unwrap();
    let reward = Transaction::new_coinbase(from.get_address(), String::from(data)).unwrap();
    let block = set.blockchain.mine_block(vec![reward, tx]).unwrap();
    set.update(&block);
    block
}

#[test]
fn empty_store_has_no_tip() {
    let chain = Blockchain::new();
    assert_eq!(chain.get_tip(), "");
    assert_eq!(chain.get_best_height(), Ok(-1));
    assert!(chain.get_blocks().is_empty());
    assert!(chain.get_block_hash_list().is_empty());
    assert!(chain.all_transactions().is_empty());
    assert!(chain.find_utxo().is_empty());
    assert!(chain.iter().next().is_none());
}

#[test]
fn genesis_balance() {
    let a = Wallet::new().unwrap();
    let set = started(&a);
    assert_eq!(balance(&set, &a), 10);
    assert_eq!(set.count_transactions(), 1);
    assert_eq!(set.blockchain.get_best_height(), Ok(0));
}

#[test]
fn genesis_block_holds_the_coinbase() {
    let a = Wallet::new().unwrap();
    let chain = Blockchain::create_blockchain_at(a.get_address(), 99).unwrap();
    let hashes = chain.get_block_hash_list();
    assert_eq!(hashes.len(), 1);
    assert_eq!(chain.get_tip(), hashes[0]);
    let block = chain.get_block(&hashes[0]).unwrap();
    assert_eq!(block.get_height(), 0);
    assert_eq!(block.get_prev_hash(), "");
    assert_eq!(block.get_timestamp(), 99);
    assert!(block.is_proof_valid());
    let txs = block.get_transaction();
    assert_eq!(txs.len(), 1);
    assert!(txs[0].is_coinbase());
    let mut data = "The Rust is so hard, 淦~~".as_bytes().to_vec();
    data.extend([0u8; 32]);
    assert_eq!(txs[0].vin[0].pub_key, data);
    assert_eq!(txs[0].vout[0].value, 10);
    assert_eq!(txs[0].vout[0].pub_key_hash, hash_of_key(&a));
}

#[test]
fn genesis_for_no_address_is_malformed() {
    assert_eq!(Blockchain::create_blockchain(String::from("nobody")).err(), Some(Error::Format));
    assert_eq!(
        Blockchain::create_blockchain_at(String::from("nobody"), 1).err(),
        Some(Error::Format)
    );
}

#[test]
fn transfer() {
    let a = Wallet::new().unwrap();
    let b = Wallet::new().unwrap();
    let mut set = started(&a);
    let block = send(&mut set, &a, &b, 4, "reward!");
    assert_eq!(balance(&set, &a), 16);
    assert_eq!(balance(&set, &b), 4);
    assert_eq!(set.count_transactions(), 2);
    assert_eq!(set.blockchain.get_best_height(), Ok(1));
    assert_eq!(set.blockchain.get_tip(), block.get_hash());
    assert_eq!(block.get_height(), 1);
    let tx = &block.get_transaction()[1];
    assert_eq!(tx.vin.len(), 1);
    assert_eq!(tx.vin[0].vout, 0);
    assert_eq!(tx.vin[0].pub_key, a.public_key);
    assert_eq!(tx.vout.len(), 2);
    assert_eq!(tx.vout[0].value, 4);
    assert_eq!(tx.vout[0].pub_key_hash, hash_of_key(&b));
    assert_eq!(tx.vout[1].value, 6);
    assert_eq!(tx.vout[1].pub_key_hash, hash_of_key(&a));
    let mut unsigned = tx.clone();
    unsigned.vin[0].signature.clear();
    assert_eq!(tx.id, unsigned.hash().unwrap());
    assert_eq!(tx.vin[0].signature.len(), 64);
    assert_eq!(set.blockchain.verify_transaction(tx), Ok(false));
}

#[test]
fn transfer_of_the_whole_balance_leaves_no_change() {
    let a = Wallet::new().unwrap();
    let b = Wallet::new().unwrap();
    let set = started(&a);
    let tx = Transaction::new_utxo(&a, &b.get_address(), 10, &set).unwrap();
    assert_eq!(tx.vout.len(), 1);
    assert_eq!(tx.vout[0].value, 10);
}

#[test]
fn overspend() {
    let a = Wallet::new().unwrap();
    let b = Wallet::new().unwrap();
    let set = started(&a);
    let before = contents(&set.utxos);
    let made = Transaction::new_utxo(&a, &b.get_address(), 999, &set);
    assert_eq!(made.err(), Some(Error::InsufficientFunds { balance: 10 }));
    assert_eq!(set.blockchain.get_best_height(), Ok(0));
    assert_eq!(contents(&set.utxos), before);
    let made = Transaction::new_utxo(&b, &a.get_address(), 1, &set);
    assert_eq!(made.err(), Some(Error::InsufficientFunds { balance: 0 }));
}

#[test]
fn transfer_to_no_address_is_malformed() {
    let a = Wallet::new().unwrap();
    let set = started(&a);
    assert_eq!(Transaction::new_utxo(&a, "nobody", 1, &set).err(), Some(Error::Format));
}

#[test]
fn update_gives_what_reindex_gives() {
    let a = Wallet::new().unwrap();
    let b = Wallet::new().unwrap();
    let mut set = started(&a);
    send(&mut set, &a, &b, 4, "first");
    let updated = contents(&set.utxos);
    set.reindex();
    assert_eq!(contents(&set.utxos), updated);
    send(&mut set, &a, &b, 12, "second");
    send(&mut set, &b, &a, 5, "third");
    let updated = contents(&set.utxos);
    set.reindex();
    assert_eq!(contents(&set.utxos), updated);
    assert_eq!(balance(&set, &a), 16 - 12 + 10 + 5);
    assert_eq!(balance(&set, &b), 4 + 12 - 5 + 10);
    assert_eq!(set.blockchain.get_best_height(), Ok(3));
}

#[test]
fn balance_of_the_index_is_the_balance_of_a_scan() {
    let a = Wallet::new().unwrap();
    let b = Wallet::new().unwrap();
    let mut set = started(&a);
    send(&mut set, &a, &b, 4, "first");
    send(&mut set, &a, &b, 3, "second");
    set.reindex();
    let txs = set.blockchain.all_transactions();
    let mut scanned: i128 = 0;
    for (t, tx) in txs.iter().enumerate() {
        for (index, out) in tx.vout.iter().enumerate() {
            let spent = txs[..t].iter().any(|s| {
                !s.is_coinbase()
                    && s.vin.iter().any(|i| i.txid == tx.id && i.vout as usize == index)
            });
            if !spent && out.pub_key_hash == hash_of_key(&a) {
                scanned += out.value as i128;
            }
        }
    }
    assert_eq!(balance(&set, &a), scanned);
    assert_eq!(scanned, 10 - 4 - 3 + 20);
}

#[test]
fn repeated_reward_counts_twice() {
    let a = Wallet::new().unwrap();
    let mut set = started(&a);
    let reward = Transaction::new_coinbase(a.get_address(), String::from("reward!")).unwrap();
    let first = set.blockchain.mine_block(vec![reward.clone()]).unwrap();
    set.update(&first);
    let second = set.blockchain.mine_block(vec![reward]).unwrap();
    set.update(&second);
    assert_eq!(balance(&set, &a), 30);
    assert_eq!(set.count_transactions(), 2);
    let updated = contents(&set.utxos);
    set.reindex();
    assert_eq!(contents(&set.utxos), updated);
}

#[test]
fn spending_from_the_same_block_parts_update_and_reindex() {
    let a = Wallet::new().unwrap();
    let b = Wallet::new().unwrap();
    let mut set = started(&a);
    send(&mut set, &a, &b, 1, "reward!");
    send(&mut set, &a, &b, 1, "reward!");
    assert_eq!(balance(&set, &a), 9 + 9);
    set.reindex();
    assert_eq!(balance(&set, &a), 9 + 9 + 10);
}

#[test]
fn pow_rejection() {
    let a = Wallet::new().unwrap();
    let mut chain = Blockchain::create_blockchain(a.get_address()).unwrap();
    let reward = Transaction::new_coinbase(a.get_address(), String::from("x")).unwrap();
    let forged = Block::from_parts(
        1,
        vec![reward],
        chain.get_tip(),
        String::from("1234567890123456789012345678901234567890123456789012345678901234"),
        0,
        1,
    );
    assert_eq!(chain.add_block(forged), Err(Error::InvalidBlock));
    assert_eq!(chain.get_best_height(), Ok(0));
    assert_eq!(chain.get_blocks().len(), 1);
}

#[test]
fn block_without_its_previous_block_is_refused() {
    let a = Wallet::new().unwrap();
    let mut source = Blockchain::create_blockchain(a.get_address()).unwrap();
    let reward = Transaction::new_coinbase(a.get_address(), String::from("x")).unwrap();
    let second = source.mine_block(vec![reward]).unwrap();
    let mut empty = Blockchain::new();
    assert_eq!(empty.add_block(second.clone()), Err(Error::InvalidBlock));
    assert_eq!(empty.get_best_height(), Ok(-1));
    let genesis = source.get_block(&second.get_prev_hash()).unwrap();
    assert_eq!(empty.add_block(genesis), Ok(()));
    assert_eq!(empty.add_block(second.clone()), Ok(()));
    assert_eq!(empty.get_best_height(), Ok(1));
    assert_eq!(empty.get_tip(), second.get_hash());
    assert_eq!(empty.get_block_hash_list(), source.get_block_hash_list());
}

#[test]
fn block_at_a_wrong_height_is_refused() {
    let a = Wallet::new().unwrap();
    let mut chain = Blockchain::create_blockchain(a.get_address()).unwrap();
    let reward = Transaction::new_coinbase(a.get_address(), String::from("x")).unwrap();
    let high = Block::mine(vec![reward.clone()], chain.get_tip(), 2, 5).unwrap();
    assert_eq!(chain.add_block(high), Err(Error::InvalidBlock));
    let floating = Block::mine(vec![reward.clone()], String::new(), 1, 5).unwrap();
    assert_eq!(chain.add_block(floating), Err(Error::InvalidBlock));
    let right = Block::mine(vec![reward], chain.get_tip(), 1, 5).unwrap();
    assert_eq!(chain.add_block(right), Ok(()));
    assert_eq!(chain.get_best_height(), Ok(1));
}

#[test]
fn block_with_an_unsigned_transaction_is_refused() {
    let a = Wallet::new().unwrap();
    let b = Wallet::new().unwrap();
    let set = started(&a);
    let mut chain = Blockchain::create_blockchain_at(a.get_address(), 1).unwrap();
    let _ = set;
    let genesis = chain.get_block(&chain.get_tip()).unwrap();
    let mut tx = Transaction {
        id: String::new(),
        vin: vec![TXInput {
            txid: genesis.get_transaction()[0].id.clone(),
            vout: 0,
            signature: vec![0u8; 64],
            pub_key: b.public_key.clone(),
        }],
        vout: vec![TXOutput { value: 10, pub_key_hash: hash_of_key(&b) }],
    };
    tx.id = tx.hash().unwrap();
    let block = Block::mine(vec![tx.clone()], chain.get_tip(), 1, 5).unwrap();
    assert_eq!(chain.add_block(block), Err(Error::InvalidBlock));
    assert_eq!(chain.mine_block(vec![tx.clone()]).err(), Some(Error::InvalidTransaction));
    assert_eq!(chain.mine_block_at(vec![tx], 5).err(), Some(Error::InvalidTransaction));
    assert_eq!(chain.get_best_height(), Ok(0));
}

#[test]
fn block_that_spends_from_nowhere_is_refused() {
    let a = Wallet::new().unwrap();
    let mut chain = Blockchain::create_blockchain(a.get_address()).unwrap();
    let mut tx = Transaction {
        id: String::new(),
        vin: vec![TXInput {
            txid: String::from("unknown"),
            vout: 0,
            signature: vec![0u8; 64],
            pub_key: a.public_key.clone(),
        }],
        vout: vec![TXOutput { value: 10, pub_key_hash: hash_of_key(&a) }],
    };
    tx.id = tx.hash().unwrap();
    assert_eq!(chain.verify_transaction(&tx), Err(Error::NotFound));
    assert_eq!(chain.mine_block(vec![tx.clone()]).err(), Some(Error::NotFound));
    assert_eq!(chain.sign_transaction(&mut tx, &a.secret_key), Err(Error::NotFound));
    let block = Block::mine(vec![tx], chain.get_tip(), 1, 5).unwrap();
    assert_eq!(chain.add_block(block), Err(Error::InvalidBlock));
}

#[test]
fn known_block_is_passed_over() {
    let a = Wallet::new().unwrap();
    let mut chain = Blockchain::create_blockchain(a.get_address()).unwrap();
    let genesis = chain.get_block(&chain.get_tip()).unwrap();
    assert_eq!(chain.add_block(genesis.clone()), Ok(()));
    assert_eq!(chain.get_blocks().len(), 1);
    let same_hash = Block::from_parts(0, Vec::new(), String::from("x"), genesis.get_hash(), 0, 9);
    assert_eq!(chain.add_block(same_hash), Ok(()));
    assert_eq!(chain.get_blocks().len(), 1);
    assert_eq!(chain.get_best_height(), Ok(0));
}

#[test]
fn lower_block_does_not_become_the_tip() {
    let a = Wallet::new().unwrap();
    let mut chain = Blockchain::create_blockchain_at(a.get_address(), 1).unwrap();
    let tip = chain.get_tip();
    let reward = Transaction::new_coinbase(a.get_address(), String::from("x")).unwrap();
    let other = Block::mine(vec![reward.clone()], String::new(), 0, 2).unwrap();
    assert_eq!(chain.add_block(other.clone()), Ok(()));
    assert_eq!(chain.get_tip(), tip);
    assert_eq!(chain.get_blocks().len(), 2);
    let on_other = Block::mine(vec![reward], other.get_hash(), 1, 3).unwrap();
    assert_eq!(chain.add_block(on_other.clone()), Ok(()));
    assert_eq!(chain.get_tip(), on_other.get_hash());
    assert_eq!(chain.get_block_hash_list(), vec![on_other.get_hash(), other.get_hash()]);
}

#[test]
fn mining_needs_a_tip() {
    let a = Wallet::new().unwrap();
    let mut chain = Blockchain::new();
    let reward = Transaction::new_coinbase(a.get_address(), String::from("x")).unwrap();
    assert_eq!(chain.mine_block(vec![reward]).err(), Some(Error::NotFound));
    assert_eq!(chain.get_best_height(), Ok(-1));
}

#[test]
fn chain_is_walked_from_the_tip_down() {
    let a = Wallet::new().unwrap();
    let b = Wallet::new().unwrap();
    let mut set = started(&a);
    let second = send(&mut set, &a, &b, 4, "r1");
    let third = send(&mut set, &a, &b, 1, "r2");
    let chain = &set.blockchain;
    let hashes = chain.get_block_hash_list();
    assert_eq!(hashes.len(), 3);
    assert_eq!(hashes[0], third.get_hash());
    assert_eq!(hashes[1], second.get_hash());
    let mut cursor = chain.iter();
    let mut seen = Vec::new();
    while let Some(block) = cursor.next() {
        seen.push(block.get_hash());
    }
    assert_eq!(seen, hashes);
    let mut cursor = chain.iter_from(&second.get_hash());
    assert_eq!(cursor.next().unwrap().get_hash(), second.get_hash());
    assert_eq!(cursor.next().unwrap().get_height(), 0);
    assert!(cursor.next().is_none());
    assert!(chain.iter_from("none").next().is_none());
    let txs = chain.all_transactions();
    assert_eq!(txs.len(), 5);
    assert_eq!(txs[0].id, third.get_transaction()[0].id);
    assert_eq!(txs[1].id, third.get_transaction()[1].id);
    assert_eq!(txs[2].id, second.get_transaction()[0].id);
    assert!(txs[4].is_coinbase());
}

#[test]
fn transaction_is_found_by_its_id() {
    let a = Wallet::new().unwrap();
    let b = Wallet::new().unwrap();
    let mut set = started(&a);
    let block = send(&mut set, &a, &b, 4, "r1");
    let wanted = &block.get_transaction()[1];
    let found = set.blockchain.find_transaction(&wanted.id).unwrap();
    assert_eq!(found.id, wanted.id);
    assert_eq!(found.vout[0].value, 4);
    assert_eq!(set.blockchain.find_transaction("none").err(), Some(Error::NotFound));
    assert_eq!(set.blockchain.get_block("none").err(), Some(Error::NotFound));
}

#[test]
fn every_mined_transaction_verifies_against_the_chain_below() {
    let a = Wallet::new().unwrap();
    let b = Wallet::new().unwrap();
    let mut set = started(&a);
    send(&mut set, &a, &b, 4, "r1");
    send(&mut set, &b, &a, 2, "r2");
    let blocks = set.blockchain.get_blocks();
    assert_eq!(blocks.len(), 3);
    let mut below = Blockchain::new();
    for block in blocks {
        assert!(block.is_proof_valid());
        for tx in block.get_transaction() {
            if !tx.is_coinbase() {
                assert_eq!(below.verify_transaction(tx), Ok(true));
            }
        }
        assert_eq!(below.add_block(block.clone()), Ok(()));
    }
    assert_eq!(below.get_tip(), set.blockchain.get_tip());
}

#[test]
fn signing_over_the_chain_makes_the_transfer_valid() {
    let a = Wallet::new().unwrap();
    let b = Wallet::new().unwrap();
    let set = started(&a);
    let genesis = set.blockchain.get_block(&set.blockchain.get_tip()).unwrap();
    let mut tx = Transaction {
        id: String::new(),
        vin: vec![TXInput {
            txid: genesis.get_transaction()[0].id.clone(),
            vout: 0,
            signature: Vec::new(),
            pub_key: a.public_key.clone(),
        }],
        vout: vec![TXOutput { value: 10, pub_key_hash: hash_of_key(&b) }],
    };
    tx.id = tx.hash().unwrap();
    assert_eq!(set.blockchain.verify_transaction(&tx), Ok(false));
    assert_eq!(set.blockchain.sign_transaction(&mut tx, &a.secret_key), Ok(()));
    assert_eq!(set.blockchain.verify_transaction(&tx), Ok(true));
    let made = Transaction::new_utxo(&a, &b.get_address(), 10, &set).unwrap();
    assert_eq!(made.vin[0].signature, tx.vin[0].signature);
    assert_eq!(made.id, tx.id);
}

#[test]
fn spent_output_is_not_spent_again() {
    let a = Wallet::new().unwrap();
    let b = Wallet::new().unwrap();
    let mut set = started(&a);
    let tx = Transaction::new_utxo(&a, &b.get_address(), 4, &set).unwrap();
    assert_eq!(set.blockchain.verify_transaction(&tx), Ok(true));
    let block = set.blockchain.mine_block(vec![tx.clone()]).unwrap();
    set.update(&block);
    assert_eq!(set.blockchain.verify_transaction(&tx), Ok(false));
    assert_eq!(set.blockchain.mine_block(vec![tx.clone()]).err(), Some(Error::InvalidTransaction));
    assert_eq!(set.blockchain.get_best_height(), Ok(1));
    let again = Block::mine(vec![tx], set.blockchain.get_tip(), 2, 5).unwrap();
    assert_eq!(set.blockchain.add_block(again), Err(Error::InvalidBlock));
}

#[test]
fn output_of_another_owner_is_not_spent() {
    let a = Wallet::new().unwrap();
    let thief = Wallet::new().unwrap();
    let mut set = started(&a);
    let genesis = set.blockchain.get_block(&set.blockchain.get_tip()).unwrap();
    let mut tx = Transaction {
        id: String::new(),
        vin: vec![TXInput {
            txid: genesis.get_transaction()[0].id.clone(),
            vout: 0,
            signature: Vec::new(),
            pub_key: thief.public_key.clone(),
        }],
        vout: vec![TXOutput { value: 10, pub_key_hash: hash_of_key(&thief) }],
    };
    tx.id = tx.hash().unwrap();
    assert_eq!(set.blockchain.sign_transaction(&mut tx, &thief.secret_key), Ok(()));
    assert_eq!(set.blockchain.verify_transaction(&tx), Ok(false));
    assert_eq!(set.blockchain.mine_block(vec![tx.clone()]).err(), Some(Error::InvalidTransaction));
    let block = Block::mine(vec![tx], set.blockchain.get_tip(), 1, 5).unwrap();
    assert_eq!(set.blockchain.add_block(block), Err(Error::InvalidBlock));
    assert_eq!(set.blockchain.get_best_height(), Ok(0));
}

#[test]
fn mined_block_has_a_hash_of_64_digits() {
    let a = Wallet::new().unwrap();
    let mut set = started(&a);
    let tip = set.blockchain.get_tip();
    let reward = Transaction::new_coinbase(a.get_address(), String::new()).unwrap();
    let block = set.blockchain.mine_block(vec![reward]).unwrap();
    assert_eq!(block.get_hash().len(), 64);
    assert!(block.get_hash().starts_with("0000"));
    assert_eq!(block.get_prev_hash(), tip);
    assert_eq!(block.get_height(), 1);
    assert_eq!(set.blockchain.get_tip(), block.get_hash());
    assert_eq!(set.blockchain.get_block(&block.get_hash()).unwrap().get_hash(), block.get_hash());
    assert_eq!(set.blockchain.get_block(&tip).unwrap().get_height(), 0);
}

#[test]
fn rejected_transaction_comes_before_anything_else() {
    let a = Wallet::new().unwrap();
    let chain = Blockchain::create_blockchain(a.get_address()).unwrap();
    let reward = Transaction::new_coinbase(a.get_address(), String::new()).unwrap();
    assert_eq!(chain.refused(&vec![reward.clone()]), None);
    let mut bad = reward.clone();
    bad.vin[0].txid = String::from("unknown");
    assert_eq!(chain.refused(&vec![reward.clone(), bad]), Some(Error::NotFound));
    assert_eq!(Blockchain::new().refused(&vec![reward]), Some(Error::NotFound));
}

fn three_blocks(owner: &Wallet) -> Blockchain {
    let mut chain = Blockchain::create_blockchain(owner.get_address()).unwrap();
    for data in ["one", "two"] {
        let reward = Transaction::new_coinbase(owner.get_address(), String::from(data)).unwrap();
        chain.mine_block(vec![reward]).unwrap();
    }
    chain
}

#[test]
fn stored_blocks_come_back_in_any_order() {
    let a = Wallet::new().unwrap();
    let chain = three_blocks(&a);
    let blocks = chain.get_blocks();
    let orders: [[usize; 3]; 3] = [[0, 1, 2], [2, 1, 0], [1, 2, 0]];
    for order in orders {
        let stored: Vec<Block> = order.iter().map(|&i| blocks[i].clone()).collect();
        let back = Blockchain::from_stored(stored, &chain.get_tip()).ok().unwrap();
        assert_eq!(back.get_tip(), chain.get_tip());
        assert_eq!(back.get_blocks().len(), 3);
        assert_eq!(back.get_best_height(), Ok(2));
        assert_eq!(back.get_block_hash_list(), chain.get_block_hash_list());
    }
}

#[test]
fn stored_tip_stays_the_tip_beside_a_block_of_its_height() {
    let a = Wallet::new().unwrap();
    let chain = Blockchain::create_blockchain_at(a.get_address(), 1).unwrap();
    let first = chain.get_block(&chain.get_tip()).unwrap();
    let reward = Transaction::new_coinbase(a.get_address(), String::from("x")).unwrap();
    let second = Block::mine(vec![reward], String::new(), 0, 2).unwrap();
    for last in [&first, &second] {
        for stored in [vec![first.clone(), second.clone()], vec![second.clone(), first.clone()]] {
            let back = Blockchain::from_stored(stored, &last.get_hash()).ok().unwrap();
            assert_eq!(back.get_tip(), last.get_hash());
            assert_eq!(back.get_blocks().len(), 2);
        }
    }
}

#[test]
fn stored_blocks_with_a_gap_are_refused() {
    let a = Wallet::new().unwrap();
    let chain = three_blocks(&a);
    let blocks = chain.get_blocks();
    let stored = vec![blocks[0].clone(), blocks[2].clone()];
    assert_eq!(Blockchain::from_stored(stored, &chain.get_tip()).err(), Some(Error::InvalidBlock));
}

#[test]
fn stored_tip_below_the_highest_block_is_refused() {
    let a = Wallet::new().unwrap();
    let chain = three_blocks(&a);
    let blocks = chain.get_blocks();
    let lower = blocks[1].get_hash();
    assert_eq!(
        Blockchain::from_stored(blocks.clone(), &lower).err(),
        Some(Error::InvalidBlock)
    );
    assert_eq!(
        Blockchain::from_stored(blocks.clone(), "none").err(),
        Some(Error::InvalidBlock)
    );
}

#[test]
fn no_stored_blocks_give_the_empty_store() {
    let back = Blockchain::from_stored(Vec::new(), "").ok().unwrap();
    assert_eq!(back.get_tip(), "");
    assert_eq!(back.get_blocks().len(), 0);
    assert_eq!(Blockchain::from_stored(Vec::new(), "00").err(), Some(Error::InvalidBlock));
}
