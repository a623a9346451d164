use blockchain::blockchain::Blockchain;
use blockchain::error::Error;
use blockchain::server::{
    clone_strings, contains_text, BlockMsg, GetBlockMsg, GetDataMsg, InvMsg, Message, Outgoing,
    Server, TxMsg, VersionMsg, VERSION,
};
use blockchain::transaction::Transaction;
use blockchain::utxo_set::UTXOSet;
use blockchain::wallets::{hash_pub_key, Wallet};
use blockchain::wire::Command;

const SEED: &str = "localhost:3000";

fn node(port: &str, miner: &str, chain: Blockchain) -> Server {
    let mut set = UTXOSet::new(chain);
    set.reindex();
    Server::new(port, miner, set).unwrap()
}

fn copy_of(chain: &Blockchain) -> Blockchain {
    let mut copy = Blockchain::new();
    for block in chain.get_blocks() {
        copy.add_block(block.clone()).unwrap();
    }
    copy
}

fn funds(server: &Server, wallet: &Wallet) -> i128 {
    let mut hash = wallet.public_key.clone();
    hash_pub_key(&mut hash);
    server.get_utxo_set().find_utxos(&hash).total()
}

fn deliver(nodes: &mut Vec<Server>, first: Vec<Outgoing>) -> Vec<(String, Command)> {
    let mut log = Vec::new();
    let mut queue: Vec<Outgoing> = first;
    while !queue.is_empty() {
        let Outgoing { addr, message } = queue.remove(0);
        log.push((addr.clone(), message.command()));
        for node in nodes.iter_mut() {
            if node.get_node_address() == addr {
                match node.handle_message(message.clone()) {
                    Ok(more) => queue.extend(more),
                    Err(_) => {}
                }
            }
        }
    }
    log
}

#[test]
fn new_node_knows_the_seed() {
    let server = node("3001", "miner", Blockchain::new());
    assert_eq!(server.get_node_address(), "localhost:3001");
    assert_eq!(server.get_known_nodes(), vec![String::from(SEED)]);
    assert!(server.node_is_known(SEED));
    assert!(!server.node_is_known("localhost:3001"));
    assert!(server.get_mempool().is_empty());
    assert!(server.get_in_transit().is_empty());
    assert_eq!(server.get_best_height(), -1);
    assert_eq!(VERSION, 1);
}

#[test]
fn node_without_blocks_asks_every_peer_for_blocks() {
    let mut server = node("3001", "", Blockchain::new());
    server.add_nodes("localhost:3002");
    server.add_nodes("localhost:3001");
    let out = server.start_server();
    assert_eq!(out.len(), 2);
    assert_eq!(out[0].addr, SEED);
    assert_eq!(out[1].addr, "localhost:3002");
    match &out[0].message {
        Message::GetBlock(m) => assert_eq!(m.addr_from, "localhost:3001"),
        _ => panic!("a request for blocks was expected"),
    }
}

#[test]
fn node_with_blocks_sends_its_version_to_the_seed() {
    let a = Wallet::new().unwrap();
    let chain = Blockchain::create_blockchain(a.get_address()).unwrap();
    let server = node("3001", "", chain);
    let out = server.start_server();
    assert_eq!(out.len(), 1);
    assert_eq!(out[0].addr, SEED);
    match &out[0].message {
        Message::Version(m) => {
            assert_eq!(m.addr_from, "localhost:3001");
            assert_eq!(m.version, 1);
            assert_eq!(m.best_height, 0);
        }
        _ => panic!("a version was expected"),
    }
    let seed = node("3000", "", Blockchain::new());
    assert!(seed.start_server().is_empty());
}

#[test]
fn version_of_a_peer_that_is_ahead_is_answered_with_a_request() {
    let mut server = node("3001", "", Blockchain::new());
    let msg = VersionMsg { addr_from: String::from("localhost:3005"), version: 1, best_height: 4 };
    let out = server.handle_version(msg).unwrap();
    assert_eq!(out.len(), 2);
    assert_eq!(out[0].message.command(), Command::GetBlocks);
    assert_eq!(out[0].addr, "localhost:3005");
    match &out[1].message {
        Message::Addr(nodes) => assert_eq!(nodes, &vec![String::from(SEED)]),
        _ => panic!("addresses were expected"),
    }
    assert_eq!(server.get_known_nodes(), vec![String::from(SEED), String::from("localhost:3005")]);
}

#[test]
fn version_of_a_peer_that_is_behind_is_answered_with_a_version() {
    let a = Wallet::new().unwrap();
    let chain = Blockchain::create_blockchain(a.get_address()).unwrap();
    let mut server = node("3001", "", chain);
    let msg = VersionMsg { addr_from: String::from(SEED), version: 1, best_height: -1 };
    let out = server.handle_version(msg).unwrap();
    assert_eq!(out.len(), 2);
    match &out[0].message {
        Message::Version(m) => assert_eq!(m.best_height, 0),
        _ => panic!("a version was expected"),
    }
    assert_eq!(out[1].message.command(), Command::Addr);
    assert_eq!(server.get_known_nodes().len(), 1);
    let msg = VersionMsg { addr_from: String::from(SEED), version: 1, best_height: 0 };
    let out = server.handle_version(msg).unwrap();
    assert_eq!(out.len(), 1);
    assert_eq!(out[0].message.command(), Command::Addr);
}

#[test]
fn version_from_the_node_itself_is_not_answered() {
    let mut server = node("3001", "", Blockchain::new());
    let msg = VersionMsg { addr_from: String::from("localhost:3001"), version: 1, best_height: 9 };
    let out = server.handle_version(msg).unwrap();
    assert!(out.is_empty());
    assert!(server.node_is_known("localhost:3001"));
}

#[test]
fn addresses_are_taken_once() {
    let mut server = node("3001", "", Blockchain::new());
    let list = vec![String::from("x"), String::from(SEED), String::from("y"), String::from("x")];
    let out = server.handle_addr(list).unwrap();
    assert!(out.is_empty());
    assert_eq!(
        server.get_known_nodes(),
        vec![String::from(SEED), String::from("x"), String::from("y")]
    );
    server.remove_node("x");
    assert_eq!(server.get_known_nodes(), vec![String::from(SEED), String::from("y")]);
    server.remove_node("unknown");
    assert_eq!(server.get_known_nodes().len(), 2);
}

#[test]
fn request_for_blocks_is_answered_with_the_hashes_from_the_tip_down() {
    let a = Wallet::new().unwrap();
    let mut chain = Blockchain::create_blockchain(a.get_address()).unwrap();
    let reward = Transaction::new_coinbase(a.get_address(), String::new()).unwrap();
    let second = chain.mine_block(vec![reward]).unwrap();
    let hashes = chain.get_block_hash_list();
    let mut server = node("3000", "", chain);
    let out = server
        .handle_get_blocks(GetBlockMsg { addr_from: String::from("localhost:3001") })
        .unwrap();
    assert_eq!(out.len(), 1);
    assert_eq!(out[0].addr, "localhost:3001");
    match &out[0].message {
        Message::Inv(m) => {
            assert_eq!(m.addr_from, SEED);
            assert_eq!(m.kind, "block");
            assert_eq!(m.items, hashes);
            assert_eq!(m.items[0], second.get_hash());
        }
        _ => panic!("an inventory was expected"),
    }
}

#[test]
fn inventory_of_blocks_asks_for_the_first_and_keeps_the_rest() {
    let mut server = node("3001", "", Blockchain::new());
    let msg = InvMsg {
        addr_from: String::from(SEED),
        kind: String::from("block"),
        items: vec![String::from("h3"), String::from("h2"), String::from("h3"), String::from("h1")],
    };
    let out = server.handle_inv(msg).unwrap();
    assert_eq!(out.len(), 1);
    assert_eq!(out[0].addr, SEED);
    match &out[0].message {
        Message::GetData(m) => {
            assert_eq!(m.addr_from, "localhost:3001");
            assert_eq!(m.kind, "block");
            assert_eq!(m.id, "h3");
        }
        _ => panic!("a request for data was expected"),
    }
    assert_eq!(server.get_in_transit(), vec![String::from("h2"), String::from("h1")]);
}

#[test]
fn inventory_of_a_held_transaction_is_not_answered() {
    let a = Wallet::new().unwrap();
    let tx = Transaction::new_coinbase(a.get_address(), String::new()).unwrap();
    let mut server = node("3001", "", Blockchain::new());
    server.insert_mempool(tx.clone());
    let held = InvMsg {
        addr_from: String::from(SEED),
        kind: String::from("tx"),
        items: vec![tx.id.clone()],
    };
    assert!(server.handle_inv(held).unwrap().is_empty());
    let other = InvMsg {
        addr_from: String::from(SEED),
        kind: String::from("tx"),
        items: vec![String::from("other")],
    };
    let out = server.handle_inv(other).unwrap();
    assert_eq!(out.len(), 1);
    match &out[0].message {
        Message::GetData(m) => {
            assert_eq!(m.kind, "tx");
            assert_eq!(m.id, "other");
        }
        _ => panic!("a request for data was expected"),
    }
    assert!(server.get_in_transit().is_empty());
}

#[test]
fn empty_inventory_is_malformed() {
    let mut server = node("3001", "", Blockchain::new());
    for kind in ["block", "tx"] {
        let msg = InvMsg { addr_from: String::from(SEED), kind: String::from(kind), items: Vec::new() };
        assert_eq!(server.handle_inv(msg).err(), Some(Error::Format));
    }
    let msg = InvMsg { addr_from: String::from(SEED), kind: String::from("other"), items: Vec::new() };
    assert!(server.handle_inv(msg).unwrap().is_empty());
}

#[test]
fn request_for_data_is_answered_with_the_block_or_the_transaction() {
    let a = Wallet::new().unwrap();
    let chain = Blockchain::create_blockchain(a.get_address()).unwrap();
    let tip = chain.get_tip();
    let tx = Transaction::new_coinbase(a.get_address(), String::new()).unwrap();
    let mut server = node("3000", "", chain);
    server.insert_mempool(tx.clone());
    let ask = |kind: &str, id: &str| GetDataMsg {
        addr_from: String::from("localhost:3001"),
        kind: String::from(kind),
        id: String::from(id),
    };
    let out = server.handle_get_data(ask("block", &tip)).unwrap();
    assert_eq!(out.len(), 1);
    match &out[0].message {
        Message::Block(m) => {
            assert_eq!(m.addr_from, SEED);
            assert_eq!(m.block.get_hash(), tip);
        }
        _ => panic!("a block was expected"),
    }
    let out = server.handle_get_data(ask("tx", &tx.id)).unwrap();
    match &out[0].message {
        Message::Tx(m) => assert_eq!(m.transaction.id, tx.id),
        _ => panic!("a transaction was expected"),
    }
    assert_eq!(server.handle_get_data(ask("block", "none")).err(), Some(Error::NotFound));
    assert_eq!(server.handle_get_data(ask("tx", "none")).err(), Some(Error::NotFound));
    assert!(server.handle_get_data(ask("other", &tip)).unwrap().is_empty());
}

#[test]
fn received_block_is_followed_by_the_next_request_or_a_new_index() {
    let a = Wallet::new().unwrap();
    let source = Blockchain::create_blockchain(a.get_address()).unwrap();
    let genesis = source.get_block(&source.get_tip()).unwrap();
    let mut server = node("3001", "", Blockchain::new());
    let list = InvMsg {
        addr_from: String::from(SEED),
        kind: String::from("block"),
        items: vec![genesis.get_hash(), String::from("next"), String::from("last")],
    };
    server.handle_inv(list).unwrap();
    let out = server
        .handle_block(BlockMsg { addr_from: String::from(SEED), block: genesis.clone() })
        .unwrap();
    assert_eq!(out.len(), 1);
    match &out[0].message {
        Message::GetData(m) => {
            assert_eq!(m.kind, "block");
            assert_eq!(m.id, "next");
        }
        _ => panic!("a request for data was expected"),
    }
    assert_eq!(server.get_in_transit(), vec![String::from("last")]);
    assert_eq!(server.get_best_height(), 0);
    assert_eq!(funds(&server, &a), 0);
    let mut fresh = node("3002", "", Blockchain::new());
    let out = fresh
        .handle_block(BlockMsg { addr_from: String::from(SEED), block: genesis })
        .unwrap();
    assert!(out.is_empty());
    assert_eq!(funds(&fresh, &a), 10);
}

#[test]
fn refused_block_changes_nothing() {
    let a = Wallet::new().unwrap();
    let mut source = Blockchain::create_blockchain(a.get_address()).unwrap();
    let reward = Transaction::new_coinbase(a.get_address(), String::new()).unwrap();
    let second = source.mine_block(vec![reward]).unwrap();
    let mut server = node("3001", "", Blockchain::new());
    let list = InvMsg {
        addr_from: String::from(SEED),
        kind: String::from("block"),
        items: vec![second.get_hash(), String::from("next")],
    };
    server.handle_inv(list).unwrap();
    let out = server.handle_block(BlockMsg { addr_from: String::from(SEED), block: second });
    assert_eq!(out.err(), Some(Error::InvalidBlock));
    assert_eq!(server.get_best_height(), -1);
    assert_eq!(server.get_in_transit(), vec![String::from("next")]);
}

#[test]
fn seed_tells_the_other_peers_of_a_transaction() {
    let a = Wallet::new().unwrap();
    let tx = Transaction::new_coinbase(a.get_address(), String::new()).unwrap();
    let mut seed = node("3000", "miner", Blockchain::new());
    seed.add_nodes("localhost:3001");
    seed.add_nodes("localhost:3002");
    let msg = TxMsg { addr_from: String::from("localhost:3002"), transaction: tx.clone() };
    let out = seed.handle_tx(msg).unwrap();
    assert_eq!(out.len(), 1);
    assert_eq!(out[0].addr, "localhost:3001");
    match &out[0].message {
        Message::Inv(m) => {
            assert_eq!(m.addr_from, SEED);
            assert_eq!(m.kind, "tx");
            assert_eq!(m.items, vec![tx.id.clone()]);
        }
        _ => panic!("an inventory was expected"),
    }
    assert_eq!(seed.get_mempool().len(), 1);
    let again = TxMsg { addr_from: String::from("localhost:3002"), transaction: tx };
    seed.handle_tx(again).unwrap();
    assert_eq!(seed.get_mempool().len(), 1);
}

#[test]
fn node_that_does_not_mine_keeps_the_transaction() {
    let a = Wallet::new().unwrap();
    let tx = Transaction::new_coinbase(a.get_address(), String::new()).unwrap();
    let mut server = node("3001", "", Blockchain::new());
    let out = server.handle_tx(TxMsg { addr_from: String::from(SEED), transaction: tx.clone() });
    assert!(out.unwrap().is_empty());
    assert_eq!(server.get_mempool().len(), 1);
    assert_eq!(server.get_mempool()[0].id, tx.id);
    server.clear_mempool();
    assert!(server.get_mempool().is_empty());
}

#[test]
fn miner_mines_the_valid_transactions_and_tells_its_peers() {
    let a = Wallet::new().unwrap();
    let b = Wallet::new().unwrap();
    let m = Wallet::new().unwrap();
    let chain = Blockchain::create_blockchain(a.get_address()).unwrap();
    let mut set = UTXOSet::new(copy_of(&chain));
    set.reindex();
    let tx = Transaction::new_utxo(&a, &b.get_address(), 3, &set).unwrap();
    let mut miner = node("3001", &m.get_address(), chain);
    miner.add_nodes("localhost:3002");
    let mut bad = tx.clone();
    bad.id = String::from("bad");
    bad.vout[0].value = 9;
    miner.insert_mempool(bad);
    let out = miner.handle_tx(TxMsg { addr_from: String::from(SEED), transaction: tx.clone() });
    let out = out.unwrap();
    assert_eq!(miner.get_best_height(), 1);
    assert!(miner.get_mempool().is_empty());
    assert_eq!(out.len(), 2);
    assert_eq!(out[0].addr, SEED);
    assert_eq!(out[1].addr, "localhost:3002");
    let tip = miner.get_utxo_set().blockchain.get_tip();
    match &out[0].message {
        Message::Inv(inv) => {
            assert_eq!(inv.addr_from, "localhost:3001");
            assert_eq!(inv.kind, "block");
            assert_eq!(inv.items, vec![tip.clone()]);
        }
        _ => panic!("an inventory was expected"),
    }
    let block = miner.get_utxo_set().blockchain.get_block(&tip).unwrap();
    assert_eq!(block.get_transaction().len(), 2);
    assert_eq!(block.get_transaction()[0].id, tx.id);
    assert!(block.get_transaction()[1].is_coinbase());
    assert_eq!(funds(&miner, &a), 7);
    assert_eq!(funds(&miner, &b), 3);
    assert_eq!(funds(&miner, &m), 10);
}

#[test]
fn miner_without_a_valid_transaction_mines_nothing() {
    let a = Wallet::new().unwrap();
    let m = Wallet::new().unwrap();
    let chain = Blockchain::create_blockchain(a.get_address()).unwrap();
    let mut set = UTXOSet::new(copy_of(&chain));
    set.reindex();
    let mut tx = Transaction::new_utxo(&a, &m.get_address(), 3, &set).unwrap();
    tx.vout[0].value = 10;
    let mut miner = node("3001", &m.get_address(), chain);
    let out = miner.handle_tx(TxMsg { addr_from: String::from(SEED), transaction: tx }).unwrap();
    assert!(out.is_empty());
    assert_eq!(miner.get_best_height(), 0);
    assert!(miner.get_mempool().is_empty());
}

#[test]
fn miner_with_a_bad_address_fails_and_keeps_the_mempool() {
    let a = Wallet::new().unwrap();
    let b = Wallet::new().unwrap();
    let chain = Blockchain::create_blockchain(a.get_address()).unwrap();
    let mut set = UTXOSet::new(copy_of(&chain));
    set.reindex();
    let tx = Transaction::new_utxo(&a, &b.get_address(), 3, &set).unwrap();
    let mut miner = node("3001", "nobody", chain);
    let out = miner.handle_tx(TxMsg { addr_from: String::from(SEED), transaction: tx });
    assert_eq!(out.err(), Some(Error::Format));
    assert_eq!(miner.get_mempool().len(), 1);
    assert_eq!(miner.get_best_height(), 0);
}

#[test]
fn transaction_is_handed_to_the_seed() {
    let a = Wallet::new().unwrap();
    let tx = Transaction::new_coinbase(a.get_address(), String::new()).unwrap();
    let out = Server::send_transaction(&tx, UTXOSet::new(Blockchain::new())).unwrap();
    assert_eq!(out.len(), 1);
    assert_eq!(out[0].addr, SEED);
    match &out[0].message {
        Message::Tx(m) => {
            assert_eq!(m.addr_from, "localhost:7000");
            assert_eq!(m.transaction.id, tx.id);
        }
        _ => panic!("a transaction was expected"),
    }
    let server = node("3001", "", Blockchain::new());
    assert!(server.send_tx("localhost:3001", &tx).is_empty());
    assert_eq!(server.send_tx("localhost:3002", &tx).len(), 1);
}

#[test]
fn two_node_gossip() {
    let a = Wallet::new().unwrap();
    let b = Wallet::new().unwrap();
    let m = Wallet::new().unwrap();
    let chain = Blockchain::create_blockchain(a.get_address()).unwrap();
    let seed = node("3000", "", chain);
    let miner = node("3001", &m.get_address(), Blockchain::new());
    let mut nodes = vec![seed, miner];

    let first = nodes[1].start_server();
    let log = deliver(&mut nodes, first);
    assert_eq!(
        log,
        vec![
            (String::from(SEED), Command::GetBlocks),
            (String::from("localhost:3001"), Command::Inv),
            (String::from(SEED), Command::GetData),
            (String::from("localhost:3001"), Command::Block),
        ]
    );
    assert_eq!(nodes[1].get_best_height(), 0);

    let hello = nodes[1].start_server();
    deliver(&mut nodes, hello);
    assert!(nodes[0].node_is_known("localhost:3001"));

    let tx = Transaction::new_utxo(&a, &b.get_address(), 3, nodes[1].get_utxo_set()).unwrap();
    let sent = Server::send_transaction(&tx, UTXOSet::new(Blockchain::new())).unwrap();
    let log = deliver(&mut nodes, sent);
    assert_eq!(
        log,
        vec![
            (String::from(SEED), Command::Tx),
            (String::from("localhost:3001"), Command::Inv),
            (String::from(SEED), Command::GetData),
            (String::from("localhost:3001"), Command::Tx),
            (String::from(SEED), Command::Inv),
            (String::from("localhost:3001"), Command::GetData),
            (String::from(SEED), Command::Block),
        ]
    );
    assert_eq!(nodes[0].get_best_height(), 1);
    assert_eq!(nodes[1].get_best_height(), 1);
    assert_eq!(
        nodes[0].get_utxo_set().blockchain.get_tip(),
        nodes[1].get_utxo_set().blockchain.get_tip()
    );
    for wallet in [&a, &b, &m] {
        assert_eq!(funds(&nodes[0], wallet), funds(&nodes[1], wallet));
    }
    assert_eq!(funds(&nodes[0], &a), 7);
    assert_eq!(funds(&nodes[0], &b), 3);
    assert_eq!(funds(&nodes[0], &m), 10);
    assert!(nodes[1].get_mempool().is_empty());
}

#[test]
fn lists_of_strings_are_copied_and_searched() {
    let list = vec![String::from("a"), String::from("b")];
    assert_eq!(clone_strings(&list), list);
    assert!(contains_text(&list, "b"));
    assert!(!contains_text(&list, "c"));
}
