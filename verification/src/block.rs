use crate::clock::unix_millis;
use crate::codec::{encode_header, header_encoding};
use crate::digest::{hex_string, sha256_hex, sha256_of};
use crate::error::Error;
use crate::merkle::{leaves_view, merkle_root, merkle_root_of};
use crate::transaction::{
    clone_transactions, transactions_view, Transaction, TransactionView,
};
use vstd::prelude::*;
use vstd::string::StrSliceExecFns;
use vstd::utf8::encode_utf8;

verus! {

/// The number of leading `0` digits that a block's hash must show.
pub const TARGET_HEXS: usize = 4;

/// A block of the ledger. Its hash commits to the previous block, to the
/// Merkle root of its transactions, to its timestamp and to its nonce.
#[derive(Debug)]
pub struct Block {
    timestamp: u128,
    transactions: Vec<Transaction>,
    prev_block_hash: String,
    hash: String,
    nonce: i32,
    height: i32,
}

/// A block as the contracts see it.
pub struct BlockView {
    pub timestamp: u128,
    pub transactions: Seq<TransactionView>,
    pub prev_block_hash: Seq<char>,
    pub hash: Seq<char>,
    pub nonce: i32,
    pub height: i32,
}

impl View for Block {
    type V = BlockView;

    closed spec fn view(&self) -> BlockView {
        BlockView {
            timestamp: self.timestamp,
            transactions: transactions_view(self.transactions@),
            prev_block_hash: self.prev_block_hash@,
            hash: self.hash@,
            nonce: self.nonce,
            height: self.height,
        }
    }
}

/// The leaves of a block's Merkle tree: the bytes of the ids of its
/// transactions, in order.
pub open spec fn merkle_leaves(txs: Seq<TransactionView>) -> Seq<Seq<u8>> {
    Seq::new(txs.len(), |i: int| encode_utf8(txs[i].id))
}

/// The SHA-256 digest, in hexadecimal, of the encoding of the previous
/// hash, the Merkle root of the transactions, the timestamp, the target and
/// the nonce.
pub open spec fn header_digest(
    prev_block_hash: Seq<char>,
    txs: Seq<TransactionView>,
    timestamp: u128,
    nonce: i32,
) -> Seq<char> {
    hex_string(
        sha256_of(
            header_encoding(
                prev_block_hash,
                merkle_root_of(merkle_leaves(txs)),
                timestamp,
                TARGET_HEXS,
                nonce,
            ),
        ),
    )
}

/// Whether a hash starts with `TARGET_HEXS` digits `0`.
pub open spec fn meets_target(hash: Seq<char>) -> bool {
    hash.len() >= TARGET_HEXS && forall|i: int| 0 <= i < TARGET_HEXS ==> hash[i] == '0'
}

/// Whether a block's hash is the digest of its header and meets the target.
pub open spec fn proof_of_work_holds(b: BlockView) -> bool {
    b.hash == header_digest(b.prev_block_hash, b.transactions, b.timestamp, b.nonce)
        && meets_target(b.hash)
}

/// The least nonce from `from` on for which the header's digest meets the
/// target, if there is one.
pub open spec fn first_nonce(
    prev_block_hash: Seq<char>,
    txs: Seq<TransactionView>,
    timestamp: u128,
    from: i32,
) -> Option<i32>
    decreases i32::MAX - from,
{
    if meets_target(header_digest(prev_block_hash, txs, timestamp, from)) {
        Some(from)
    } else if from == i32::MAX {
        None
    } else {
        first_nonce(prev_block_hash, txs, timestamp, (from + 1) as i32)
    }
}

/// The block that mining gives for the given contents and timestamp: the
/// one with the least nonce from 0 on whose digest meets the target.
pub open spec fn mined(
    txs: Seq<TransactionView>,
    prev_block_hash: Seq<char>,
    height: i32,
    timestamp: u128,
) -> Option<BlockView> {
    match first_nonce(prev_block_hash, txs, timestamp, 0) {
        Some(nonce) => Some(
            BlockView {
                timestamp,
                transactions: txs,
                prev_block_hash,
                hash: header_digest(prev_block_hash, txs, timestamp, nonce),
                nonce,
                height,
            },
        ),
        None => None,
    }
}

/// A nonce that `first_nonce` gives is not below `from`, meets the target,
/// and is the least such.
pub proof fn lemma_first_nonce(
    prev_block_hash: Seq<char>,
    txs: Seq<TransactionView>,
    timestamp: u128,
    from: i32,
)
    ensures
        match first_nonce(prev_block_hash, txs, timestamp, from) {
            Some(nonce) => from <= nonce && meets_target(
                header_digest(prev_block_hash, txs, timestamp, nonce),
            ) && forall|n: i32|
                from <= n < nonce ==> !meets_target(
                    #[trigger] header_digest(prev_block_hash, txs, timestamp, n),
                ),
            None => forall|n: i32|
                from <= n ==> !meets_target(
                    #[trigger] header_digest(prev_block_hash, txs, timestamp, n),
                ),
        },
    decreases i32::MAX - from,
{
    if !meets_target(header_digest(prev_block_hash, txs, timestamp, from)) && from < i32::MAX {
        lemma_first_nonce(prev_block_hash, txs, timestamp, (from + 1) as i32);
    }
}

/// A mined block carries a valid proof of work.
pub proof fn lemma_mined_is_valid(
    txs: Seq<TransactionView>,
    prev_block_hash: Seq<char>,
    height: i32,
    timestamp: u128,
)
    requires
        mined(txs, prev_block_hash, height, timestamp) is Some,
    ensures
        proof_of_work_holds(mined(txs, prev_block_hash, height, timestamp)->0),
        mined(txs, prev_block_hash, height, timestamp)->0.nonce >= 0,
{
    lemma_first_nonce(prev_block_hash, txs, timestamp, 0);
}

/// Whether a hash starts with `TARGET_HEXS` digits `0`.
pub fn hash_meets_target(hash: &str) -> (meets: bool)
    ensures
        meets == meets_target(hash@),
{
    if hash.unicode_len() < TARGET_HEXS {
        return false;
    }
    let mut i: usize = 0;
    while i < TARGET_HEXS
        invariant
            i <= TARGET_HEXS,
            hash@.len() >= TARGET_HEXS,
            forall|k: int| 0 <= k < i ==> hash@[k] == '0',
        decreases TARGET_HEXS - i,
    {
        if hash.get_char(i) != '0' {
            return false;
        }
        i += 1;
    }
    true
}

impl Clone for Block {
    fn clone(&self) -> (copy: Self)
        ensures
            copy@ == self@,
    {
        Block {
            timestamp: self.timestamp,
            transactions: clone_transactions(&self.transactions),
            prev_block_hash: self.prev_block_hash.clone(),
            hash: self.hash.clone(),
            nonce: self.nonce,
            height: self.height,
        }
    }
}

impl Block {
    /// Mines a block with the given contents, stamped with the time of the
    /// call.
    pub fn new(transactions: Vec<Transaction>, prev_block_hash: String, height: i32) -> (made:
        Result<Block, Error>)
        ensures
            match made {
                Ok(block) => mined(
                    transactions_view(transactions@),
                    prev_block_hash@,
                    height,
                    block@.timestamp,
                ) == Some(block@) && block@.hash.len() == 64 && meets_target(block@.hash),
                Err(e) => e == Error::Clock || (e == Error::NonceExhausted && exists|
                    timestamp: u128,
                | #[trigger]
                    mined(transactions_view(transactions@), prev_block_hash@, height, timestamp) is None),
            },
    {
        match unix_millis() {
            Some(timestamp) => Block::mine(transactions, prev_block_hash, height, timestamp),
            None => Err(Error::Clock),
        }
    }

    /// Mines a block with the given contents and timestamp: tries the
    /// nonces from 0 upwards and keeps the first whose digest meets the
    /// target. The hash of the block has 64 digits, the first
    /// `TARGET_HEXS` of them `0`.
    pub fn mine(
        transactions: Vec<Transaction>,
        prev_block_hash: String,
        height: i32,
        timestamp: u128,
    ) -> (made: Result<Block, Error>)
        ensures
            match made {
                Ok(block) => mined(
                    transactions_view(transactions@),
                    prev_block_hash@,
                    height,
                    timestamp,
                ) == Some(block@) && block@.hash.len() == 64 && meets_target(block@.hash),
                Err(e) => e == Error::NonceExhausted && mined(
                    transactions_view(transactions@),
                    prev_block_hash@,
                    height,
                    timestamp,
                ) is None,
            },
    {
        let mut block = Block {
            timestamp,
            transactions,
            prev_block_hash,
            hash: String::new(),
            nonce: 0,
            height,
        };
        match block.run_proof_of_work() {
            Ok(()) => Ok(block),
            Err(e) => Err(e),
        }
    }

    /// A block with the given fields, whatever they hold.
    pub fn from_parts(
        timestamp: u128,
        transactions: Vec<Transaction>,
        prev_block_hash: String,
        hash: String,
        nonce: i32,
        height: i32,
    ) -> (block: Block)
        ensures
            block@ == (BlockView {
                timestamp,
                transactions: transactions_view(transactions@),
                prev_block_hash: prev_block_hash@,
                hash: hash@,
                nonce,
                height,
            }),
    {
        Block { timestamp, transactions, prev_block_hash, hash, nonce, height }
    }

    /// The block's hash.
    pub fn get_hash(&self) -> (hash: String)
        ensures
            hash@ == self@.hash,
    {
        self.hash.clone()
    }

    /// The hash of the previous block; empty for a genesis block.
    pub fn get_prev_hash(&self) -> (hash: String)
        ensures
            hash@ == self@.prev_block_hash,
    {
        self.prev_block_hash.clone()
    }

    /// The block's transactions.
    pub fn get_transaction(&self) -> (txs: &Vec<Transaction>)
        ensures
            transactions_view(txs@) == self@.transactions,
    {
        &self.transactions
    }

    /// The block's hash, borrowed.
    pub fn hash_str(&self) -> (hash: &str)
        ensures
            hash@ == self@.hash,
    {
        self.hash.as_str()
    }

    /// The hash of the previous block, borrowed.
    pub fn prev_hash_str(&self) -> (hash: &str)
        ensures
            hash@ == self@.prev_block_hash,
    {
        self.prev_block_hash.as_str()
    }

    /// The number of blocks between this one and its genesis block.
    pub fn get_height(&self) -> (height: i32)
        ensures
            height == self@.height,
    {
        self.height
    }

    /// The time of mining, in milliseconds since the Unix epoch.
    pub fn get_timestamp(&self) -> (timestamp: u128)
        ensures
            timestamp == self@.timestamp,
    {
        self.timestamp
    }

    /// The nonce that mining found.
    pub fn get_nonce(&self) -> (nonce: i32)
        ensures
            nonce == self@.nonce,
    {
        self.nonce
    }

    /// Whether the block's hash is the digest of its header and meets the
    /// target.
    pub fn is_proof_valid(&self) -> (valid: bool)
        ensures
            valid == proof_of_work_holds(self@),
    {
        let root = self.hash_transactions();
        let digest = self.digest_with(&root, self.nonce);
        digest == self.hash && hash_meets_target(digest.as_str())
    }

    /// Searches the nonces from the current one upwards for the first whose
    /// digest meets the target, and sets the hash to that digest.
    fn run_proof_of_work(&mut self) -> (done: Result<(), Error>)
        ensures
            final(self)@.timestamp == old(self)@.timestamp,
            final(self)@.transactions == old(self)@.transactions,
            final(self)@.prev_block_hash == old(self)@.prev_block_hash,
            final(self)@.height == old(self)@.height,
            match done {
                Ok(()) => first_nonce(
                    old(self)@.prev_block_hash,
                    old(self)@.transactions,
                    old(self)@.timestamp,
                    old(self)@.nonce,
                ) == Some(final(self)@.nonce) && final(self)@.hash == header_digest(
                    old(self)@.prev_block_hash,
                    old(self)@.transactions,
                    old(self)@.timestamp,
                    final(self)@.nonce,
                ) && final(self)@.hash.len() == 64 && meets_target(final(self)@.hash),
                Err(e) => e == Error::NonceExhausted && first_nonce(
                    old(self)@.prev_block_hash,
                    old(self)@.transactions,
                    old(self)@.timestamp,
                    old(self)@.nonce,
                ) is None,
            },
    {
        let root = self.hash_transactions();
        loop
            invariant
                self@.timestamp == old(self)@.timestamp,
                self@.transactions == old(self)@.transactions,
                self@.prev_block_hash == old(self)@.prev_block_hash,
                self@.height == old(self)@.height,
                root@ == merkle_root_of(merkle_leaves(self@.transactions)),
                first_nonce(
                    old(self)@.prev_block_hash,
                    old(self)@.transactions,
                    old(self)@.timestamp,
                    old(self)@.nonce,
                ) == first_nonce(
                    self@.prev_block_hash,
                    self@.transactions,
                    self@.timestamp,
                    self@.nonce,
                ),
            decreases i32::MAX - self.nonce,
        {
            let digest = self.digest_with(&root, self.nonce);
            if hash_meets_target(digest.as_str()) {
                self.hash = digest;
                return Ok(());
            }
            if self.nonce == i32::MAX {
                return Err(Error::NonceExhausted);
            }
            self.nonce = self.nonce + 1;
        }
    }

    /// Whether the digest for the current nonce meets the target.
    pub fn validate(&self) -> (meets: bool)
        ensures
            meets == meets_target(
                header_digest(
                    self@.prev_block_hash,
                    self@.transactions,
                    self@.timestamp,
                    self@.nonce,
                ),
            ),
    {
        let root = self.hash_transactions();
        let digest = self.digest_with(&root, self.nonce);
        hash_meets_target(digest.as_str())
    }

    /// The Merkle root of the block's transactions.
    pub fn hash_transactions(&self) -> (root: Vec<u8>)
        ensures
            root@ == merkle_root_of(merkle_leaves(self@.transactions)),
    {
        let mut leaves: Vec<Vec<u8>> = Vec::new();
        let mut i: usize = 0;
        while i < self.transactions.len()
            invariant
                i <= self.transactions@.len(),
                leaves@.len() == i,
                forall|k: int| 0 <= k < i ==> leaves@[k]@ == encode_utf8(self.transactions@[k].id@),
            decreases self.transactions@.len() - i,
        {
            leaves.push(self.transactions[i].id.as_str().as_bytes_vec());
            i += 1;
        }
        assert(leaves_view(leaves@) =~= merkle_leaves(self@.transactions));
        merkle_root(&leaves)
    }

    /// The bytes that the block's hash is taken of, for the current nonce.
    pub fn prepare_hash_data(&self) -> (data: Vec<u8>)
        ensures
            data@ == header_encoding(
                self@.prev_block_hash,
                merkle_root_of(merkle_leaves(self@.transactions)),
                self@.timestamp,
                TARGET_HEXS,
                self@.nonce,
            ),
    {
        let root = self.hash_transactions();
        encode_header(&self.prev_block_hash, &root, self.timestamp, TARGET_HEXS, self.nonce)
    }

    /// The digest of the header for a nonce, given the Merkle root.
    fn digest_with(&self, root: &Vec<u8>, nonce: i32) -> (digest: String)
        requires
            root@ == merkle_root_of(merkle_leaves(self@.transactions)),
        ensures
            digest@ == header_digest(
                self@.prev_block_hash,
                self@.transactions,
                self@.timestamp,
                nonce,
            ),
            digest@.len() == 64,
    {
        let data = encode_header(&self.prev_block_hash, root, self.timestamp, TARGET_HEXS, nonce);
        sha256_hex(data.as_slice())
    }
}

} // verus!
