use bitcoincash_addr::Address;
use blockchain::address::address_body;
use blockchain::blockchain::Blockchain;
use blockchain::error::Error;
use blockchain::transaction::{TXInput, TXOutput, Transaction};
use blockchain::utxo_set::UTXOSet;
use blockchain::wallets::{hash_pub_key, Wallet, Wallets};
use crypto::ed25519;

fn hex(bytes: &[u8]) -> String {
    let mut text = String::new();
    for byte in bytes {
        text.push_str(&format!("{:02x}", byte));
    }
    text
}

#[test]
fn test_signature() {
    let mut ws = Wallets::new();
    let wlt_address = ws.create_wallet().unwrap();
    let wlt = ws.get_wallet(&wlt_address).unwrap().clone();

    let data = String::from("test");
    let tx = Transaction::new_coinbase(wlt_address, data).unwrap();
    assert!(tx.is_coinbase());

    let signature = ed25519::signature(tx.id.as_bytes(), &wlt.secret_key);
    assert!(ed25519::verify(tx.id.as_bytes(), &wlt.public_key, &signature));
}

#[test]
fn test_create_wallet_and_hash() {
    let w1 = Wallet::new().unwrap();
    let w2 = Wallet::new().unwrap();
    assert_ne!(w1, w2);
    assert_ne!(w1.get_address(), w2.get_address());

    let mut hashed = w2.public_key.clone();
    hash_pub_key(&mut hashed);
    assert_eq!(hashed.len(), 20);

    let pub_key_hash = Address::decode(&w2.get_address()).unwrap().body;
    assert_eq!(pub_key_hash, hashed);
}

#[test]
fn test_wallets() {
    let mut wlts = Wallets::new();
    let wlt_address = wlts.create_wallet().unwrap();
    let wlt1 = wlts.get_wallet(&wlt_address).unwrap().clone();

    let mut wlts2 = Wallets::new();
    for address in wlts.get_all_addresses() {
        let wallet = wlts.get_wallet(&address).unwrap().clone();
        wlts2.insert(address, wallet);
    }
    let wlt2 = wlts2.get_wallet(&wlt_address).unwrap();
    assert_eq!(&wlt1, wlt2);
}

#[test]
#[should_panic]
fn test_wallets_not_exist() {
    let mut wlts = Wallets::new();
    wlts.create_wallet().unwrap();

    let wlt = Wallet::new().unwrap();
    let mut wlts2 = Wallets::new();
    for address in wlts.get_all_addresses() {
        let wallet = wlts.get_wallet(&address).unwrap().clone();
        wlts2.insert(address, wallet);
    }
    wlts2.get_wallet(&wlt.get_address()).unwrap();
}

#[test]
fn hash_pub_key_of_empty_key_is_the_known_digest() {
    let mut key: Vec<u8> = Vec::new();
    hash_pub_key(&mut key);
    assert_eq!(hex(&key), "b472a266d0bd89c13706a4132ccfb16f7c3b9fcb");
}

#[test]
fn hash_pub_key_is_ripemd160_of_sha256() {
    let mut key = b"abc".to_vec();
    hash_pub_key(&mut key);
    assert_eq!(hex(&key), "bb1be98c142444d7a56aa3981c3942a978e4dc33");
}

#[test]
fn wallet_from_seed_is_the_ed25519_keypair() {
    let seed = [9u8; 64];
    let wallet = Wallet::from_seed(&seed);
    let (secret, public) = ed25519::keypair(&seed[..32]);
    assert_eq!(wallet.secret_key, secret.to_vec());
    assert_eq!(wallet.public_key, public.to_vec());
    assert_eq!(wallet.secret_key.len(), 64);
    assert_eq!(wallet.public_key.len(), 32);
    assert_ne!(wallet.secret_key, seed.to_vec());
}

#[test]
fn wallet_signature_verifies_under_its_public_key() {
    let wallet = Wallet::new().unwrap();
    let signature = ed25519::signature(b"message", &wallet.secret_key);
    assert!(ed25519::verify(b"message", &wallet.public_key, &signature));
    assert!(!ed25519::verify(b"another", &wallet.public_key, &signature));
}

#[test]
fn wallet_from_seed_is_repeatable() {
    let seed = [3u8; 64];
    assert_eq!(Wallet::from_seed(&seed), Wallet::from_seed(&seed));
}

#[test]
fn address_decodes_to_the_hash_of_the_public_key() {
    let wallet = Wallet::from_seed(&[1u8; 64]);
    let mut hash = wallet.public_key.clone();
    hash_pub_key(&mut hash);
    let address = wallet.get_address();
    assert_eq!(address_body(&address), Some(hash.clone()));
    assert_ne!(address.as_bytes(), &hash[..]);
    let output = TXOutput::new(5, address).unwrap();
    assert_eq!(output.pub_key_hash, hash);
    assert_eq!(output.value, 5);
}

#[test]
fn address_of_known_hash_is_the_known_text() {
    let body = address_body("1NM2HFXin4cEQRBLjkNZAS98qLX9JKzjKn").unwrap();
    assert_eq!(body.len(), 20);
    assert_eq!(hex(&body), "ea2407829a5055466b27784cde8cf463167946bf");
}

#[test]
fn address_with_a_prefix_is_no_address() {
    assert_eq!(address_body("bitcoincash:qr6m7j9njldwwzlg9v7v53unlr4jkmx6eylep8ekg2"), None);
}

#[test]
fn address_outside_ascii_is_no_address() {
    assert_eq!(address_body("3P3QsMVK89JBNqZQv5zMAKG8FK3kJM4rj\u{e9}"), None);
}

#[test]
fn address_with_a_bad_checksum_is_no_address() {
    assert_eq!(address_body("3P3QsMVK89JBNqZQv5zMAKG8FK3kJM4rjx"), None);
    assert_eq!(address_body(""), None);
    assert!(TXOutput::new(1, String::from("not an address")).is_err());
}

#[test]
fn input_uses_the_key_it_carries() {
    let wallet = Wallet::from_seed(&[2u8; 64]);
    let mut hash = wallet.public_key.clone();
    hash_pub_key(&mut hash);
    let input = TXInput {
        txid: String::from("aa"),
        vout: 0,
        signature: Vec::new(),
        pub_key: wallet.public_key.clone(),
    };
    assert!(input.uses_key(&hash));
    assert!(!input.uses_key(&wallet.public_key));
}

#[test]
fn output_is_locked_with_its_key_hash() {
    let output = TXOutput { value: 1, pub_key_hash: vec![1, 2, 3] };
    assert!(output.is_locked_with_key(&[1, 2, 3]));
    assert!(!output.is_locked_with_key(&[1, 2]));
    assert!(!output.is_locked_with_key(&[1, 2, 4]));
}

#[test]
fn keystore_keeps_the_order_of_arrival() {
    let mut wallets = Wallets::new();
    assert!(wallets.get_all_addresses().is_empty());
    let first = wallets.create_wallet().unwrap();
    let second = wallets.create_wallet().unwrap();
    assert_eq!(wallets.get_all_addresses(), vec![first.clone(), second.clone()]);
    let replacement = Wallet::from_seed(&[4u8; 64]);
    wallets.insert(first.clone(), replacement.clone());
    assert_eq!(wallets.get_all_addresses(), vec![first.clone(), second]);
    assert_eq!(wallets.get_wallet(&first), Some(&replacement));
}

#[test]
fn unknown_wallet_is_not_found() {
    let mut wallets = Wallets::new();
    wallets.create_wallet().unwrap();
    let stranger = Wallet::new().unwrap().get_address();
    assert!(wallets.get_wallet(&stranger).is_none());
    assert!(Transaction::new_coinbase(stranger, String::from("x")).is_ok());
}

#[test]
fn transfer_from_an_unknown_wallet_is_not_found() {
    let mut wallets = Wallets::new();
    let known = wallets.create_wallet().unwrap();
    let other = wallets.create_wallet().unwrap();
    let stranger = Wallet::new().unwrap().get_address();
    let chain = Blockchain::create_blockchain(known.clone()).unwrap();
    let mut set = UTXOSet::new(chain);
    set.reindex();
    let made = Transaction::new_transfer(&wallets, &stranger, &known, 1, &set);
    assert_eq!(made.err(), Some(Error::NotFound));
    let made = Transaction::new_transfer(&wallets, &known, &other, 1, &set).unwrap();
    assert_eq!(made.vout[0].value, 1);
    assert_eq!(made.vout[1].value, 9);
    assert_eq!(set.blockchain.verify_transaction(&made), Ok(true));
}

#[test]
fn transfer_to_an_unknown_wallet_is_not_found() {
    let mut wallets = Wallets::new();
    let known = wallets.create_wallet().unwrap();
    let stranger = Wallet::new().unwrap().get_address();
    let chain = Blockchain::create_blockchain(known.clone()).unwrap();
    let mut set = UTXOSet::new(chain);
    set.reindex();
    let before = set.utxos.len();
    let made = Transaction::new_transfer(&wallets, &known, &stranger, 1, &set);
    assert_eq!(made.err(), Some(Error::NotFound));
    assert_eq!(set.utxos.len(), before);
    assert_eq!(set.blockchain.get_best_height(), Ok(0));
    let made = Transaction::new_transfer(&wallets, &known, "nobody", 1, &set);
    assert_eq!(made.err(), Some(Error::NotFound));
    assert!(Transaction::new_coinbase(stranger, String::new()).is_ok());
}

#[test]
fn created_wallet_is_kept_under_its_address() {
    let mut wallets = Wallets::new();
    let address = wallets.create_wallet().unwrap();
    let wallet = wallets.get_wallet(&address).unwrap().clone();
    assert_eq!(wallet.get_address(), address);
    let mut hash = wallet.public_key.clone();
    hash_pub_key(&mut hash);
    assert_eq!(address_body(&address), Some(hash));
}
