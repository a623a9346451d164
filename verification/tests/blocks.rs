use blockchain::block::{hash_meets_target, Block, TARGET_HEXS};
use blockchain::merkle::MergeVu8;
use blockchain::transaction::Transaction;
use blockchain::wallets::Wallet;
use crypto::digest::Digest;
use crypto::sha2::Sha256;
use merkle_cbt::merkle_tree::Merge;

fn sha256_of(data: &[u8]) -> Vec<u8> {
    let mut hasher = Sha256::new();
    hasher.input(data);
    let mut out = vec![0u8; 32];
    hasher.result(&mut out);
    out
}

fn hex_of(bytes: &[u8]) -> String {
    let mut text = String::new();
    for byte in bytes {
        text.push_str(&format!("{:02x}", byte));
    }
    text
}

fn reward(data: &str) -> Transaction {
    let address = Wallet::from_seed(&[11u8; 32]).get_address();
    Transaction::coinbase_with_key(address, String::from(data), &[0u8; 32]).unwrap()
}

fn header_of(block: &Block, root: &[u8]) -> Vec<u8> {
    let mut bytes = (block.get_prev_hash().len() as u64).to_le_bytes().to_vec();
    bytes.extend(block.get_prev_hash().as_bytes());
    bytes.extend((root.len() as u64).to_le_bytes());
    bytes.extend(root);
    bytes.extend(block.get_timestamp().to_le_bytes());
    bytes.extend(4u64.to_le_bytes());
    bytes.extend(block.get_nonce().to_le_bytes());
    bytes
}

#[test]
fn target_is_four_digits() {
    assert_eq!(TARGET_HEXS, 4);
    assert!(hash_meets_target("0000"));
    assert!(hash_meets_target("0000ab"));
    assert!(!hash_meets_target("000"));
    assert!(!hash_meets_target("0001"));
    assert!(!hash_meets_target("1000"));
    assert!(!hash_meets_target(""));
}

#[test]
fn merge_is_sha256_of_left_and_right() {
    let parent = MergeVu8::merge(&Vec::new(), &Vec::new());
    assert_eq!(
        hex_of(&parent),
        "e3b0c44298fc1c149afbf4c8996fb92427ae41e4649b934ca495991b7852b855"
    );
    let parent = MergeVu8::merge(&b"ab".to_vec(), &b"c".to_vec());
    assert_eq!(
        hex_of(&parent),
        "ba7816bf8f01cfea414140de5dae2223b00361a396177a9cb410ff61f20015ad"
    );
}

#[test]
fn merkle_root_of_no_transaction_is_empty() {
    let block = Block::from_parts(1, Vec::new(), String::new(), String::new(), 0, 0);
    assert_eq!(block.hash_transactions(), Vec::<u8>::new());
}

#[test]
fn merkle_root_of_one_transaction_is_its_id() {
    let tx = reward("a");
    let block = Block::from_parts(1, vec![tx.clone()], String::new(), String::new(), 0, 0);
    assert_eq!(block.hash_transactions(), tx.id.as_bytes().to_vec());
}

#[test]
fn merkle_root_of_two_transactions_is_their_parent() {
    let a = reward("a");
    let b = reward("b");
    let block = Block::from_parts(1, vec![a.clone(), b.clone()], String::new(), String::new(), 0, 0);
    let mut joined = a.id.as_bytes().to_vec();
    joined.extend(b.id.as_bytes());
    assert_eq!(block.hash_transactions(), sha256_of(&joined));
}

#[test]
fn merkle_root_of_three_transactions_follows_the_complete_tree() {
    let a = reward("a");
    let b = reward("b");
    let c = reward("c");
    let block = Block::from_parts(
        1,
        vec![a.clone(), b.clone(), c.clone()],
        String::new(),
        String::new(),
        0,
        0,
    );
    let mut right = b.id.as_bytes().to_vec();
    right.extend(c.id.as_bytes());
    let mut top = sha256_of(&right);
    top.extend(a.id.as_bytes());
    assert_eq!(block.hash_transactions(), sha256_of(&top));
}

#[test]
fn merkle_root_follows_the_ids() {
    let mut a = reward("a");
    a.id = String::from("changed");
    let block = Block::from_parts(1, vec![a], String::new(), String::new(), 0, 0);
    assert_eq!(block.hash_transactions(), b"changed".to_vec());
}

#[test]
fn hash_data_is_the_encoding_of_the_header() {
    let tx = reward("a");
    let block = Block::from_parts(
        0x0102_0304_0506_0708_090a_0b0c_0d0e_0f10,
        vec![tx.clone()],
        String::from("previous"),
        String::new(),
        -2,
        3,
    );
    assert_eq!(block.prepare_hash_data(), header_of(&block, tx.id.as_bytes()));
    assert_eq!(block.prepare_hash_data().len(), 8 + 8 + 8 + 64 + 16 + 8 + 4);
}

#[test]
fn mined_block_meets_the_target() {
    let tx = reward("a");
    let block = Block::mine(vec![tx.clone()], String::from("prev"), 5, 1_700_000_000_000).unwrap();
    assert_eq!(block.get_height(), 5);
    assert_eq!(block.get_prev_hash(), "prev");
    assert_eq!(block.get_timestamp(), 1_700_000_000_000);
    assert_eq!(block.get_transaction().len(), 1);
    assert_eq!(block.get_transaction()[0].id, tx.id);
    assert!(block.get_nonce() >= 0);
    assert_eq!(block.get_hash().len(), 64);
    assert!(block.get_hash().starts_with("0000"));
    assert_eq!(block.hash_str(), block.get_hash());
    assert_eq!(block.prev_hash_str(), "prev");
    let data = header_of(&block, tx.id.as_bytes());
    assert_eq!(block.get_hash(), hex_of(&sha256_of(&data)));
    assert!(block.validate());
    assert!(block.is_proof_valid());
}

#[test]
fn mined_nonce_is_the_first_that_meets_the_target() {
    let tx = reward("a");
    let block = Block::mine(vec![tx.clone()], String::new(), 0, 42).unwrap();
    let again = Block::mine(vec![tx.clone()], String::new(), 0, 42).unwrap();
    assert_eq!(block.get_nonce(), again.get_nonce());
    assert_eq!(block.get_hash(), again.get_hash());
    let mut nonce = 0;
    while nonce < block.get_nonce() {
        let earlier =
            Block::from_parts(42, vec![tx.clone()], String::new(), String::new(), nonce, 0);
        let data = header_of(&earlier, tx.id.as_bytes());
        assert!(!hex_of(&sha256_of(&data)).starts_with("0000"));
        nonce += 1;
    }
}

#[test]
fn new_block_is_stamped_and_valid() {
    let block = Block::new(vec![reward("a")], String::new(), 0).unwrap();
    assert!(block.get_timestamp() > 1_600_000_000_000);
    assert!(block.is_proof_valid());
    assert_eq!(block.get_height(), 0);
    assert_eq!(block.get_prev_hash(), "");
}

#[test]
fn block_with_another_hash_has_no_valid_proof() {
    let block = Block::mine(vec![reward("a")], String::new(), 0, 7).unwrap();
    let forged = Block::from_parts(
        block.get_timestamp(),
        block.get_transaction().clone(),
        block.get_prev_hash(),
        String::from("0000000000000000000000000000000000000000000000000000000000000000"),
        block.get_nonce(),
        block.get_height(),
    );
    assert!(!forged.is_proof_valid());
    let moved = Block::from_parts(
        block.get_timestamp() + 1,
        block.get_transaction().clone(),
        block.get_prev_hash(),
        block.get_hash(),
        block.get_nonce(),
        block.get_height(),
    );
    assert!(!moved.is_proof_valid());
    let copy = block.clone();
    assert!(copy.is_proof_valid());
    assert_eq!(copy.get_hash(), block.get_hash());
}
