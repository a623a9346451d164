use crate::block::{
    header_digest, lemma_mined_is_valid, meets_target, mined, proof_of_work_holds, Block,
    BlockView,
};
use crate::address::{address_body, address_body_of};
use crate::clock::unix_millis;
use crate::error::Error;
use crate::utxo_set::{is_spent_before, spent_before};
use crate::transaction::{
    coinbase_of, find_by_id, is_coinbase_tx, lemma_accepted_outputs_exist, lookup, lookup_from,
    same_text, signatures_whole, signing, spent_output, transactions_view, verification, zeros,
    Transaction, TransactionView,
};
use vstd::prelude::*;
use vstd::string::StringExecFns;

verus! {

/// The store of blocks, in the order in which they were accepted, and the
/// hash of the best block.
#[derive(Debug)]
pub struct Blockchain {
    tip: String,
    blocks: Vec<Block>,
}

/// The store as the contracts see it: the hash of the tip, and the blocks
/// in the order in which they were accepted.
pub struct BlockchainView {
    pub tip: Seq<char>,
    pub blocks: Seq<BlockView>,
}

/// The blocks of a list, each by its view.
pub open spec fn blocks_view(blocks: Seq<Block>) -> Seq<BlockView> {
    Seq::new(blocks.len(), |i: int| blocks[i]@)
}

impl View for Blockchain {
    type V = BlockchainView;

    closed spec fn view(&self) -> BlockchainView {
        BlockchainView { tip: self.tip@, blocks: blocks_view(self.blocks@) }
    }
}

/// The position of the first block, from `from` on, that has the given
/// hash.
pub open spec fn position_from(blocks: Seq<BlockView>, hash: Seq<char>, from: int) -> Option<int>
    decreases blocks.len() - from,
{
    if from < 0 || from >= blocks.len() {
        None
    } else if blocks[from].hash == hash {
        Some(from)
    } else {
        position_from(blocks, hash, from + 1)
    }
}

/// The position of the block with the given hash.
pub open spec fn position(blocks: Seq<BlockView>, hash: Seq<char>) -> Option<int> {
    position_from(blocks, hash, 0)
}

/// The position of the block that block `i` names as its previous one,
/// where that block was accepted before block `i`.
pub open spec fn parent_position(blocks: Seq<BlockView>, i: int) -> Option<int> {
    match position(blocks, blocks[i].prev_block_hash) {
        Some(j) => if 0 <= j < i {
            Some(j)
        } else {
            None
        },
        None => None,
    }
}

/// The chain that ends in block `i`: that block first, then the block
/// before it, and so on down to a block without a previous one.
pub open spec fn chain_at(blocks: Seq<BlockView>, i: int) -> Seq<BlockView>
    decreases i,
{
    if i < 0 || i >= blocks.len() {
        Seq::empty()
    } else {
        seq![blocks[i]] + (match parent_position(blocks, i) {
            Some(j) => chain_at(blocks, j),
            None => Seq::empty(),
        })
    }
}

/// The chain that ends in the block at `start`, or no block at all.
pub open spec fn chain_from(blocks: Seq<BlockView>, start: Option<int>) -> Seq<BlockView> {
    match start {
        Some(i) => chain_at(blocks, i),
        None => Seq::empty(),
    }
}

/// The best chain: the one that ends in the tip.
pub open spec fn best_chain(chain: BlockchainView) -> Seq<BlockView> {
    chain_from(chain.blocks, position(chain.blocks, chain.tip))
}

/// The transactions of a chain in the order of a walk from its last block
/// to its first, each block's transactions in their own order.
pub open spec fn chain_transactions(chain: Seq<BlockView>) -> Seq<TransactionView>
    decreases chain.len(),
{
    if chain.len() == 0 {
        Seq::empty()
    } else {
        chain[0].transactions + chain_transactions(chain.drop_first())
    }
}

/// The height of the tip, or -1 for a store without a tip.
pub open spec fn best_height(chain: BlockchainView) -> int {
    match position(chain.blocks, chain.tip) {
        Some(t) => chain.blocks[t].height as int,
        None => -1,
    }
}

/// Whether an input of the transaction names an output that a transaction
/// of the chain has spent.
pub open spec fn spends_again(tx: TransactionView, chain_txs: Seq<TransactionView>) -> bool {
    exists|i: int|
        0 <= i < tx.vin.len() && spent_before(chain_txs, chain_txs.len() as int).contains(
            ((#[trigger] tx.vin[i]).txid, tx.vin[i].vout as int),
        )
}

/// The verdict on a transaction against a chain's transactions. A coinbase
/// passes; an input that names no transaction of the chain is `NotFound`;
/// otherwise the verdict is that of the inputs' keys and signatures, and
/// where those pass, `false` for a transaction that spends an output which
/// the chain has spent.
pub open spec fn verification_in_chain(tx: TransactionView, chain_txs: Seq<TransactionView>) -> Result<
    bool,
    Error,
> {
    if is_coinbase_tx(tx) {
        Ok(true)
    } else if exists|i: int| 0 <= i < tx.vin.len() && lookup(chain_txs, (#[trigger] tx.vin[i]).txid) is None {
        Err(Error::NotFound)
    } else {
        match verification(tx, chain_txs) {
            Ok(true) => Ok(!spends_again(tx, chain_txs)),
            other => other,
        }
    }
}

/// Whether block `i` is linked: without a previous hash it has height 0;
/// with one, the block of that hash was accepted before it and stands one
/// lower.
pub open spec fn linked(blocks: Seq<BlockView>, i: int) -> bool {
    if blocks[i].prev_block_hash.len() == 0 {
        blocks[i].height == 0
    } else {
        match parent_position(blocks, i) {
            Some(j) => blocks[j].height + 1 == blocks[i].height,
            None => false,
        }
    }
}

/// Whether every transaction of block `i` verifies against the chain that
/// ends in the block before it.
pub open spec fn transactions_verified(blocks: Seq<BlockView>, i: int) -> bool {
    forall|k: int|
        0 <= k < blocks[i].transactions.len() ==> verification_in_chain(
            #[trigger] blocks[i].transactions[k],
            chain_transactions(chain_from(blocks, parent_position(blocks, i))),
        ) == Ok::<bool, Error>(true)
}

/// Whether block `i` may stand in the store: its proof of work holds, it is
/// linked, and its transactions verify.
pub open spec fn block_valid(blocks: Seq<BlockView>, i: int) -> bool {
    proof_of_work_holds(blocks[i]) && linked(blocks, i) && transactions_verified(blocks, i)
}

/// The invariant of the store: every block is valid, no hash occurs twice,
/// and the tip names a block of the greatest height (an empty store has an
/// empty tip).
pub open spec fn well_formed(chain: BlockchainView) -> bool {
    &&& forall|i: int| 0 <= i < chain.blocks.len() ==> #[trigger] block_valid(chain.blocks, i)
    &&& forall|i: int, j: int|
        0 <= i < j < chain.blocks.len() ==> #[trigger] chain.blocks[i].hash
            != #[trigger] chain.blocks[j].hash
    &&& chain.blocks.len() == 0 ==> chain.tip.len() == 0
    &&& chain.blocks.len() > 0 ==> position(chain.blocks, chain.tip) is Some
    &&& forall|i: int|
        0 <= i < chain.blocks.len() ==> (#[trigger] chain.blocks[i]).height <= best_height(chain)
}

/// Whether a block may be added to the blocks: in the place after the last
/// it would be valid.
pub open spec fn acceptable(blocks: Seq<BlockView>, block: BlockView) -> bool {
    block_valid(blocks.push(block), blocks.len() as int)
}

/// The store after a block is accepted: the block stands last, and is the
/// tip if it stands higher than the tip did.
pub open spec fn with_block(chain: BlockchainView, block: BlockView) -> BlockchainView {
    BlockchainView {
        tip: if block.height > best_height(chain) {
            block.hash
        } else {
            chain.tip
        },
        blocks: chain.blocks.push(block),
    }
}

/// The store after a block is received: as it was where it holds the
/// block's hash, else with the block; `InvalidBlock` where the store may
/// not accept the block.
pub open spec fn received(chain: BlockchainView, block: BlockView) -> Result<BlockchainView, Error> {
    if position(chain.blocks, block.hash) is Some {
        Ok(chain)
    } else if acceptable(chain.blocks, block) {
        Ok(with_block(chain, block))
    } else {
        Err(Error::InvalidBlock)
    }
}

/// Whether a pass over stored blocks takes a block: every block where
/// there is no bound; with a bound, the blocks that stand lower than the
/// bound and the block of the hash `last`.
pub open spec fn admitted(block: BlockView, below: Option<int>, last: Seq<char>) -> bool {
    match below {
        Some(height) => block.height < height || block.hash == last,
        None => true,
    }
}

/// The store after one pass over the first `upto` of the blocks: each
/// block that the pass takes is received; one that the store may not
/// accept yet is left for a later pass.
pub open spec fn taken(
    chain: BlockchainView,
    blocks: Seq<BlockView>,
    upto: int,
    below: Option<int>,
    last: Seq<char>,
) -> BlockchainView
    decreases upto,
{
    if upto <= 0 || upto > blocks.len() {
        chain
    } else {
        let before = taken(chain, blocks, upto - 1, below, last);
        if admitted(blocks[upto - 1], below, last) {
            match received(before, blocks[upto - 1]) {
                Ok(after) => after,
                Err(_) => before,
            }
        } else {
            before
        }
    }
}

/// The store after the given number of passes over the blocks.
pub open spec fn taken_in_rounds(
    chain: BlockchainView,
    blocks: Seq<BlockView>,
    rounds: int,
    below: Option<int>,
    last: Seq<char>,
) -> BlockchainView
    decreases rounds,
{
    if rounds <= 0 {
        chain
    } else {
        taken(
            taken_in_rounds(chain, blocks, rounds - 1, below, last),
            blocks,
            blocks.len() as int,
            below,
            last,
        )
    }
}

/// The store that stored blocks, in whatever order, and the stored hash of
/// the tip give back. First the blocks below the block of the hash `last`
/// and that block are taken, in as many passes as there are blocks, so
/// that no other block of its height comes before it; then all blocks are
/// taken in the same way. The store stands where it then holds every
/// block and has `last` as its tip; else the blocks are refused.
pub open spec fn restored(blocks: Seq<BlockView>, last: Seq<char>) -> Result<BlockchainView, Error> {
    let none = BlockchainView { tip: Seq::empty(), blocks: Seq::empty() };
    let below = match position(blocks, last) {
        Some(k) => Some(blocks[k].height as int),
        None => None,
    };
    let lower = taken_in_rounds(none, blocks, blocks.len() as int, below, last);
    let all = taken_in_rounds(lower, blocks, blocks.len() as int, None, last);
    if all.blocks.len() == blocks.len() && all.tip == last {
        Ok(all)
    } else {
        Err(Error::InvalidBlock)
    }
}

/// A pass takes no block away, and a pass that adds no block leaves the
/// store as it is.
pub proof fn lemma_taken_grows(
    chain: BlockchainView,
    blocks: Seq<BlockView>,
    upto: int,
    below: Option<int>,
    last: Seq<char>,
)
    requires
        0 <= upto <= blocks.len(),
    ensures
        chain.blocks.len() <= taken(chain, blocks, upto, below, last).blocks.len(),
        taken(chain, blocks, upto, below, last).blocks.len() == chain.blocks.len() ==> taken(
            chain,
            blocks,
            upto,
            below,
            last,
        ) == chain,
    decreases upto,
{
    if upto > 0 {
        lemma_taken_grows(chain, blocks, upto - 1, below, last);
    }
}

/// Once a pass leaves the store as it is, every further pass does.
pub proof fn lemma_rounds_settled(
    chain: BlockchainView,
    blocks: Seq<BlockView>,
    settled: int,
    rounds: int,
    below: Option<int>,
    last: Seq<char>,
)
    requires
        0 <= settled <= rounds,
        taken(
            taken_in_rounds(chain, blocks, settled, below, last),
            blocks,
            blocks.len() as int,
            below,
            last,
        ) == taken_in_rounds(chain, blocks, settled, below, last),
    ensures
        taken_in_rounds(chain, blocks, rounds, below, last) == taken_in_rounds(
            chain,
            blocks,
            settled,
            below,
            last,
        ),
    decreases rounds,
{
    if settled < rounds {
        lemma_rounds_settled(chain, blocks, settled, rounds - 1, below, last);
    }
}

/// A bound on the height as the contracts see it.
pub open spec fn bound_view(below: Option<i32>) -> Option<int> {
    match below {
        Some(height) => Some(height as int),
        None => None,
    }
}

/// The first reason, in the order of the transactions, why one of them
/// cannot be mined on top of a chain: the error of its verification, or
/// `InvalidTransaction` where a signature is not accepted.
pub open spec fn first_rejection(txs: Seq<TransactionView>, chain_txs: Seq<TransactionView>, from: int) -> Option<
    Error,
>
    decreases txs.len() - from,
{
    if from < 0 || from >= txs.len() {
        None
    } else {
        match verification_in_chain(txs[from], chain_txs) {
            Err(e) => Some(e),
            Ok(false) => Some(Error::InvalidTransaction),
            Ok(true) => first_rejection(txs, chain_txs, from + 1),
        }
    }
}

/// A position given by `position_from` lies in range, holds the hash, and
/// no block between `from` and it does.
pub proof fn lemma_position_from(blocks: Seq<BlockView>, hash: Seq<char>, from: int)
    requires
        0 <= from,
    ensures
        match position_from(blocks, hash, from) {
            Some(j) => from <= j < blocks.len() && blocks[j].hash == hash && forall|k: int|
                from <= k < j ==> blocks[k].hash != hash,
            None => forall|k: int| from <= k < blocks.len() ==> blocks[k].hash != hash,
        },
    decreases blocks.len() - from,
{
    if from < blocks.len() && blocks[from].hash != hash {
        lemma_position_from(blocks, hash, from + 1);
    }
}

/// Accepting a block leaves the position of every hash that was found, and
/// gives a hash that was not found the new place if it is the block's.
pub proof fn lemma_position_push(blocks: Seq<BlockView>, block: BlockView, hash: Seq<char>, from: int)
    requires
        0 <= from <= blocks.len(),
    ensures
        position_from(blocks.push(block), hash, from) == (match position_from(blocks, hash, from) {
            Some(j) => Some(j),
            None => if block.hash == hash {
                Some(blocks.len() as int)
            } else {
                None
            },
        }),
    decreases blocks.len() - from,
{
    let pushed = blocks.push(block);
    if from < blocks.len() {
        if blocks[from].hash != hash {
            lemma_position_push(blocks, block, hash, from + 1);
        }
    } else {
        assert(position_from(pushed, hash, from + 1) is None);
    }
}

/// Accepting a block changes neither the block before an earlier block nor
/// the chain that ends in an earlier block.
pub proof fn lemma_chain_push(blocks: Seq<BlockView>, block: BlockView, i: int)
    requires
        0 <= i < blocks.len(),
    ensures
        parent_position(blocks.push(block), i) == parent_position(blocks, i),
        chain_at(blocks.push(block), i) == chain_at(blocks, i),
    decreases i,
{
    lemma_position_push(blocks, block, blocks[i].prev_block_hash, 0);
    lemma_position_from(blocks, blocks[i].prev_block_hash, 0);
    match parent_position(blocks, i) {
        Some(j) => {
            lemma_chain_push(blocks, block, j);
        },
        None => {},
    }
}

/// The first transaction with a given id in two lists joined is the first
/// in the front list, or else the first in the back list.
pub proof fn lemma_lookup_add(a: Seq<TransactionView>, b: Seq<TransactionView>, id: Seq<char>, from: int)
    requires
        0 <= from <= a.len(),
    ensures
        lookup_from(a + b, id, from) == (match lookup_from(a, id, from) {
            Some(t) => Some(t),
            None => lookup_from(b, id, 0),
        }),
    decreases a.len() - from,
{
    if from < a.len() {
        if a[from].id != id {
            lemma_lookup_add(a, b, id, from + 1);
        }
    } else {
        lemma_lookup_shift(a, b, id, 0);
    }
}

/// Looking in the back of two joined lists is looking in the back list.
pub proof fn lemma_lookup_shift(a: Seq<TransactionView>, b: Seq<TransactionView>, id: Seq<char>, k: int)
    requires
        0 <= k <= b.len(),
    ensures
        lookup_from(a + b, id, a.len() + k) == lookup_from(b, id, k),
    decreases b.len() - k,
{
    if k < b.len() {
        if b[k].id != id {
            lemma_lookup_shift(a, b, id, k + 1);
        }
    }
}

/// A block that is added stands before no other block: the block before it
/// is the one that its previous hash named in the store, and the chain that
/// ends there is the same as before.
pub proof fn lemma_new_parent(blocks: Seq<BlockView>, block: BlockView)
    ensures
        parent_position(blocks.push(block), blocks.len() as int) == position(
            blocks,
            block.prev_block_hash,
        ),
        chain_from(
            blocks.push(block),
            parent_position(blocks.push(block), blocks.len() as int),
        ) == chain_from(blocks, position(blocks, block.prev_block_hash)),
{
    lemma_position_push(blocks, block, block.prev_block_hash, 0);
    lemma_position_from(blocks, block.prev_block_hash, 0);
    match position(blocks, block.prev_block_hash) {
        Some(j) => {
            lemma_chain_push(blocks, block, j);
        },
        None => {},
    }
}

/// Accepting a block that the store may accept, under a hash that the store
/// does not hold, keeps the store's invariant.
pub proof fn lemma_with_block(chain: BlockchainView, block: BlockView)
    requires
        well_formed(chain),
        position(chain.blocks, block.hash) is None,
        acceptable(chain.blocks, block),
    ensures
        well_formed(with_block(chain, block)),
{
    let after = with_block(chain, block);
    let n = chain.blocks.len() as int;
    lemma_position_from(chain.blocks, block.hash, 0);
    lemma_position_from(chain.blocks, chain.tip, 0);
    lemma_position_push(chain.blocks, block, block.hash, 0);
    lemma_position_push(chain.blocks, block, chain.tip, 0);
    lemma_new_parent(chain.blocks, block);
    assert forall|i: int| 0 <= i < after.blocks.len() implies #[trigger] block_valid(
        after.blocks,
        i,
    ) by {
        if i < n {
            lemma_chain_push(chain.blocks, block, i);
            assert(block_valid(chain.blocks, i));
            match parent_position(chain.blocks, i) {
                Some(j) => {
                    lemma_position_from(chain.blocks, chain.blocks[i].prev_block_hash, 0);
                    lemma_chain_push(chain.blocks, block, j);
                },
                None => {},
            }
        }
    }
}

/// Every block of a store that meets its invariant has a hash that meets
/// the target and is the digest of its header; and a block that names a
/// previous block has that block in the store, one lower than itself.
pub proof fn lemma_blocks_are_valid(chain: BlockchainView, i: int)
    requires
        well_formed(chain),
        0 <= i < chain.blocks.len(),
    ensures
        meets_target(chain.blocks[i].hash),
        chain.blocks[i].hash == header_digest(
            chain.blocks[i].prev_block_hash,
            chain.blocks[i].transactions,
            chain.blocks[i].timestamp,
            chain.blocks[i].nonce,
        ),
        chain.blocks[i].prev_block_hash.len() == 0 ==> chain.blocks[i].height == 0,
        chain.blocks[i].prev_block_hash.len() > 0 ==> exists|j: int|
            0 <= j < i && (#[trigger] chain.blocks[j]).hash == chain.blocks[i].prev_block_hash
                && chain.blocks[j].height == chain.blocks[i].height - 1,
{
    assert(block_valid(chain.blocks, i));
    lemma_position_from(chain.blocks, chain.blocks[i].prev_block_hash, 0);
    if chain.blocks[i].prev_block_hash.len() > 0 {
        let j = parent_position(chain.blocks, i)->0;
    }
}

/// Every transaction of every block of a store that meets its invariant
/// verifies against the chain below its block; for a transaction that is no
/// coinbase this means that every input names a transaction of that chain,
/// carries the key that owns the output it spends and a signature that is
/// accepted, and spends nothing that the chain below has spent.
pub proof fn lemma_transactions_are_valid(chain: BlockchainView, i: int, k: int)
    requires
        well_formed(chain),
        0 <= i < chain.blocks.len(),
        0 <= k < chain.blocks[i].transactions.len(),
    ensures
        verification_in_chain(
            chain.blocks[i].transactions[k],
            chain_transactions(chain_from(chain.blocks, parent_position(chain.blocks, i))),
        ) == Ok::<bool, Error>(true),
        !is_coinbase_tx(chain.blocks[i].transactions[k]) ==> verification(
            chain.blocks[i].transactions[k],
            chain_transactions(chain_from(chain.blocks, parent_position(chain.blocks, i))),
        ) == Ok::<bool, Error>(true) && !spends_again(
            chain.blocks[i].transactions[k],
            chain_transactions(chain_from(chain.blocks, parent_position(chain.blocks, i))),
        ),
{
    assert(block_valid(chain.blocks, i));
}

/// In a store that meets its invariant a cursor walks the chains: the
/// block that the previous hash of a block names, in the whole store, is
/// the block before it in its chain.
pub proof fn lemma_cursor_follows_chain(chain: BlockchainView, i: int)
    requires
        well_formed(chain),
        0 <= i < chain.blocks.len(),
    ensures
        position(chain.blocks, chain.blocks[i].prev_block_hash) == parent_position(chain.blocks, i),
{
    let prev = chain.blocks[i].prev_block_hash;
    assert(block_valid(chain.blocks, i));
    lemma_position_from(chain.blocks, prev, 0);
    if let Some(j) = position(chain.blocks, prev) {
        assert(block_valid(chain.blocks, j));
    }
}

/// Where no transaction is rejected, every one of them verifies.
pub proof fn lemma_no_rejection(txs: Seq<TransactionView>, chain_txs: Seq<TransactionView>, from: int)
    requires
        0 <= from,
        first_rejection(txs, chain_txs, from) is None,
    ensures
        forall|k: int|
            from <= k < txs.len() ==> verification_in_chain(#[trigger] txs[k], chain_txs) == Ok::<
                bool,
                Error,
            >(true),
    decreases txs.len() - from,
{
    if from < txs.len() {
        lemma_no_rejection(txs, chain_txs, from + 1);
    }
}

/// The data in the coinbase of a genesis block.
pub open spec fn genesis_data() -> Seq<char> {
    "The Rust is so hard, 淦~~"@
}

/// Why the given transactions cannot be mined on top of a store, whatever
/// the time: the first rejection of a transaction against the best chain;
/// or `NotFound` for a store without a tip; or `Overflow` for a tip at the
/// greatest height.
pub open spec fn refusal(chain: BlockchainView, txs: Seq<TransactionView>) -> Option<Error> {
    match first_rejection(txs, chain_transactions(best_chain(chain)), 0) {
        Some(e) => Some(e),
        None => if position(chain.blocks, chain.tip) is None {
            Some(Error::NotFound)
        } else if best_height(chain) >= i32::MAX {
            Some(Error::Overflow)
        } else {
            None
        },
    }
}

/// The outcome of mining the given transactions on top of a store at a
/// given time: the grown store and the new block, or the error. Nothing
/// must refuse the transactions, a nonce must be found, and the new hash
/// must not be one of the store.
pub open spec fn mining(chain: BlockchainView, txs: Seq<TransactionView>, timestamp: u128) -> Result<
    (BlockchainView, BlockView),
    Error,
> {
    match refusal(chain, txs) {
        Some(e) => Err(e),
        None => match mined(txs, chain.tip, (best_height(chain) + 1) as i32, timestamp) {
            None => Err(Error::NonceExhausted),
            Some(block) => if position(chain.blocks, block.hash) is Some {
                Err(Error::InvalidBlock)
            } else {
                Ok((with_block(chain, block), block))
            },
        },
    }
}

/// The store that holds one genesis block, mined at the given time, whose
/// one transaction is the coinbase to `address`; or the error.
pub open spec fn genesis(address: Seq<char>, timestamp: u128) -> Result<BlockchainView, Error> {
    match coinbase_of(address, genesis_data(), zeros(32)) {
        None => Err(Error::Format),
        Some(coinbase) => match mined(seq![coinbase], Seq::empty(), 0, timestamp) {
            None => Err(Error::NonceExhausted),
            Some(block) => Ok(BlockchainView { tip: block.hash, blocks: seq![block] }),
        },
    }
}

impl Blockchain {
    /// Whether the store meets its invariant.
    pub open spec fn wf(&self) -> bool {
        well_formed(self@)
    }

    /// An empty store.
    pub fn new() -> (chain: Blockchain)
        ensures
            chain.wf(),
            chain@.blocks.len() == 0,
            chain@.tip.len() == 0,
    {
        Blockchain { tip: String::new(), blocks: Vec::new() }
    }

    /// The hash of the best block; empty for an empty store.
    pub fn get_tip(&self) -> (tip: String)
        ensures
            tip@ == self@.tip,
    {
        self.tip.clone()
    }

    /// The blocks in the order in which they were accepted.
    pub fn get_blocks(&self) -> (blocks: &Vec<Block>)
        ensures
            blocks_view(blocks@) == self@.blocks,
    {
        &self.blocks
    }

    /// A store with one genesis block, mined now, whose coinbase pays the
    /// subsidy to `address`. An address that does not decode is refused
    /// before the clock is read.
    pub fn create_blockchain(address: String) -> (made: Result<Blockchain, Error>)
        ensures
            match made {
                Ok(chain) => chain.wf() && exists|timestamp: u128| #[trigger]
                    genesis(address@, timestamp) == Ok::<BlockchainView, Error>(chain@),
                Err(e) => if address_body_of(address@) is None {
                    e == Error::Format
                } else {
                    e == Error::Clock || exists|timestamp: u128| #[trigger]
                        genesis(address@, timestamp) == Err::<BlockchainView, Error>(e)
                },
            },
    {
        if address_body(address.as_str()).is_none() {
            return Err(Error::Format);
        }
        match unix_millis() {
            Some(timestamp) => Blockchain::create_blockchain_at(address, timestamp),
            None => Err(Error::Clock),
        }
    }

    /// A store with one genesis block, mined at the given time, whose
    /// coinbase pays the subsidy to `address`.
    pub fn create_blockchain_at(address: String, timestamp: u128) -> (made: Result<
        Blockchain,
        Error,
    >)
        ensures
            match made {
                Ok(chain) => chain.wf() && genesis(address@, timestamp) == Ok::<
                    BlockchainView,
                    Error,
                >(chain@),
                Err(e) => genesis(address@, timestamp) == Err::<BlockchainView, Error>(e),
            },
    {
        let data = String::from_str("The Rust is so hard, 淦~~");
        let mut key: Vec<u8> = Vec::new();
        while key.len() < 32
            invariant
                key@.len() <= 32,
                forall|k: int| 0 <= k < key@.len() ==> key@[k] == 0u8,
            decreases 32 - key@.len(),
        {
            key.push(0u8);
        }
        assert(key@ =~= zeros(32));
        let coinbase = match Transaction::coinbase_with_key(address, data, key.as_slice()) {
            Ok(tx) => tx,
            Err(e) => {
                return Err(e);
            },
        };
        let mut txs: Vec<Transaction> = Vec::new();
        txs.push(coinbase);
        assert(transactions_view(txs@) =~= seq![coinbase@]);
        let block = match Block::mine(txs, String::new(), 0, timestamp) {
            Ok(block) => block,
            Err(e) => {
                return Err(e);
            },
        };
        let tip = block.get_hash();
        let mut blocks: Vec<Block> = Vec::new();
        blocks.push(block);
        let chain = Blockchain { tip, blocks };
        proof {
            let b = block@;
            assert(chain@.blocks =~= seq![b]);
            lemma_mined_is_valid(seq![coinbase@], Seq::empty(), 0, timestamp);
            let empty = BlockchainView { tip: Seq::empty(), blocks: Seq::empty() };
            lemma_new_parent(Seq::empty(), b);
            lemma_with_block(empty, b);
        }
        Ok(chain)
    }

    /// Mines the transactions into a new block on top of the tip, stamped
    /// with the time of the call, and makes it the tip. Every transaction
    /// must verify against the best chain; what refuses the transactions is
    /// found before the clock is read. On an error nothing is changed.
    pub fn mine_block(&mut self, transactions: Vec<Transaction>) -> (made: Result<Block, Error>)
        requires
            old(self).wf(),
        ensures
            final(self).wf(),
            match made {
                Ok(block) => exists|timestamp: u128| #[trigger]
                    mining(old(self)@, transactions_view(transactions@), timestamp) == Ok::<
                        (BlockchainView, BlockView),
                        Error,
                    >((final(self)@, block@)),
                Err(e) => final(self)@ == old(self)@ && (match refusal(
                    old(self)@,
                    transactions_view(transactions@),
                ) {
                    Some(reason) => e == reason,
                    None => e == Error::Clock || exists|timestamp: u128| #[trigger]
                        mining(old(self)@, transactions_view(transactions@), timestamp) == Err::<
                            (BlockchainView, BlockView),
                            Error,
                        >(e),
                }),
            },
    {
        if let Some(reason) = self.refused(&transactions) {
            return Err(reason);
        }
        match unix_millis() {
            Some(timestamp) => self.mine_block_at(transactions, timestamp),
            None => Err(Error::Clock),
        }
    }

    /// What refuses the transactions on top of the store, whatever the
    /// time.
    pub fn refused(&self, transactions: &Vec<Transaction>) -> (reason: Option<Error>)
        ensures
            reason == refusal(self@, transactions_view(transactions@)),
    {
        let chain_txs = self.all_transactions();
        let ghost txs = transactions_view(transactions@);
        let mut i: usize = 0;
        while i < transactions.len()
            invariant
                i <= transactions@.len(),
                txs == transactions_view(transactions@),
                transactions_view(chain_txs@) == chain_transactions(best_chain(self@)),
                first_rejection(txs, transactions_view(chain_txs@), 0) == first_rejection(
                    txs,
                    transactions_view(chain_txs@),
                    i as int,
                ),
            decreases transactions@.len() - i,
        {
            match Self::verify_against(&transactions[i], &chain_txs) {
                Ok(true) => {},
                Ok(false) => {
                    return Some(Error::InvalidTransaction);
                },
                Err(e) => {
                    return Some(e);
                },
            }
            i += 1;
        }
        match self.tip_index() {
            Some(t) => if self.blocks[t].get_height() == i32::MAX {
                Some(Error::Overflow)
            } else {
                None
            },
            None => Some(Error::NotFound),
        }
    }

    /// Mines the transactions into a new block on top of the tip, stamped
    /// with the given time, and makes it the tip. On an error nothing is
    /// changed.
    pub fn mine_block_at(&mut self, transactions: Vec<Transaction>, timestamp: u128) -> (made:
        Result<Block, Error>)
        requires
            old(self).wf(),
        ensures
            final(self).wf(),
            match made {
                Ok(block) => mining(old(self)@, transactions_view(transactions@), timestamp) == Ok::<
                    (BlockchainView, BlockView),
                    Error,
                >((final(self)@, block@)),
                Err(e) => final(self)@ == old(self)@ && mining(
                    old(self)@,
                    transactions_view(transactions@),
                    timestamp,
                ) == Err::<(BlockchainView, BlockView), Error>(e),
            },
    {
        let ghost txs = transactions_view(transactions@);
        if let Some(reason) = self.refused(&transactions) {
            return Err(reason);
        }
        let t = match self.tip_index() {
            Some(t) => t,
            None => {
                return Err(Error::NotFound);
            },
        };
        let best = self.blocks[t].get_height();
        let block = match Block::mine(transactions, self.tip.clone(), best + 1, timestamp) {
            Ok(block) => block,
            Err(e) => {
                return Err(e);
            },
        };
        if self.index_of(block.hash_str()).is_some() {
            return Err(Error::InvalidBlock);
        }
        let copy = block.clone();
        self.tip = block.get_hash();
        self.blocks.push(block);
        proof {
            let before = old(self)@;
            let b = block@;
            lemma_mined_is_valid(txs, before.tip, (best + 1) as i32, timestamp);
            lemma_new_parent(before.blocks, b);
            lemma_no_rejection(txs, chain_transactions(best_chain(before)), 0);
            lemma_position_from(before.blocks, before.tip, 0);
            assert(proof_of_work_holds(before.blocks[t as int])) by {
                assert(block_valid(before.blocks, t as int));
            }
            lemma_with_block(before, b);
            assert(self@.blocks =~= before.blocks.push(b));
        }
        Ok(copy)
    }

    /// Whether the store may accept a block.
    fn accepts(&self, block: &Block) -> (ok: bool)
        ensures
            ok == acceptable(self@.blocks, block@),
    {
        proof {
            lemma_new_parent(self@.blocks, block@);
        }
        if !block.is_proof_valid() {
            return false;
        }
        let parent = self.index_of(block.prev_hash_str());
        if block.prev_hash_str().is_empty() {
            if block.get_height() != 0 {
                return false;
            }
        } else {
            match parent {
                Some(j) => {
                    let below = self.blocks[j].get_height();
                    if below == i32::MAX || below + 1 != block.get_height() {
                        return false;
                    }
                },
                None => {
                    return false;
                },
            }
        }
        let chain_txs = self.transactions_from(parent);
        let txs = block.get_transaction();
        let ghost pushed = self@.blocks.push(block@);
        let ghost n = self@.blocks.len() as int;
        let mut k: usize = 0;
        while k < txs.len()
            invariant
                k <= txs@.len(),
                transactions_view(txs@) == block@.transactions,
                pushed == self@.blocks.push(block@),
                n == self@.blocks.len(),
                pushed[n] == block@,
                proof_of_work_holds(block@),
                linked(pushed, n),
                transactions_view(chain_txs@) == chain_transactions(
                    chain_from(pushed, parent_position(pushed, n)),
                ),
                forall|m: int|
                    0 <= m < k ==> verification_in_chain(
                        #[trigger] block@.transactions[m],
                        transactions_view(chain_txs@),
                    ) == Ok::<bool, Error>(true),
            decreases txs@.len() - k,
        {
            match Self::verify_against(&txs[k], &chain_txs) {
                Ok(true) => {},
                _ => {
                    assert(verification_in_chain(
                        block@.transactions[k as int],
                        transactions_view(chain_txs@),
                    ) != Ok::<bool, Error>(true));
                    return false;
                },
            }
            k += 1;
        }
        true
    }

    /// Accepts a block. A block whose hash the store holds is passed over.
    /// Any other block must carry a valid proof of work, be linked to a
    /// block of the store (or be a genesis block), and hold only
    /// transactions that verify against the chain below it. It becomes the
    /// tip if it stands higher than the tip did.
    pub fn add_block(&mut self, block: Block) -> (done: Result<(), Error>)
        requires
            old(self).wf(),
        ensures
            final(self).wf(),
            match done {
                Ok(()) => if position(old(self)@.blocks, block@.hash) is Some {
                    final(self)@ == old(self)@
                } else {
                    acceptable(old(self)@.blocks, block@) && final(self)@ == with_block(
                        old(self)@,
                        block@,
                    )
                },
                Err(e) => e == Error::InvalidBlock && position(old(self)@.blocks, block@.hash) is None
                    && !acceptable(old(self)@.blocks, block@) && final(self)@ == old(self)@,
            },
    {
        if self.index_of(block.hash_str()).is_some() {
            return Ok(());
        }
        if !self.accepts(&block) {
            return Err(Error::InvalidBlock);
        }
        let best = match self.tip_index() {
            Some(t) => self.blocks[t].get_height(),
            None => -1,
        };
        if block.get_height() > best {
            self.tip = block.get_hash();
        }
        self.blocks.push(block);
        proof {
            lemma_with_block(old(self)@, block@);
            assert(self@.blocks =~= old(self)@.blocks.push(block@));
        }
        Ok(())
    }

    /// The height of the first of the blocks that has the given hash.
    fn height_named(blocks: &Vec<Block>, hash: &str) -> (height: Option<i32>)
        ensures
            bound_view(height) == (match position(blocks_view(blocks@), hash@) {
                Some(k) => Some(blocks_view(blocks@)[k].height as int),
                None => None,
            }),
    {
        let mut i: usize = 0;
        while i < blocks.len()
            invariant
                i <= blocks@.len(),
                position(blocks_view(blocks@), hash@) == position_from(
                    blocks_view(blocks@),
                    hash@,
                    i as int,
                ),
            decreases blocks@.len() - i,
        {
            if same_text(blocks[i].hash_str(), hash) {
                return Some(blocks[i].get_height());
            }
            i += 1;
        }
        None
    }

    /// One pass over stored blocks: each block that the pass takes is
    /// handed to the store.
    fn take_pass(&mut self, blocks: &Vec<Block>, below: Option<i32>, last: &str)
        requires
            old(self).wf(),
        ensures
            final(self).wf(),
            final(self)@ == taken(
                old(self)@,
                blocks_view(blocks@),
                blocks@.len() as int,
                bound_view(below),
                last@,
            ),
    {
        let mut i: usize = 0;
        while i < blocks.len()
            invariant
                i <= blocks@.len(),
                self.wf(),
                self@ == taken(old(self)@, blocks_view(blocks@), i as int, bound_view(below), last@),
            decreases blocks@.len() - i,
        {
            let block = &blocks[i];
            let wanted = match below {
                Some(height) => block.get_height() < height || same_text(block.hash_str(), last),
                None => true,
            };
            assert(wanted == admitted(blocks_view(blocks@)[i as int], bound_view(below), last@));
            if wanted {
                let _ = self.add_block(block.clone());
            }
            i += 1;
        }
    }

    /// As many passes over stored blocks as there are blocks; the passes
    /// end early once one of them adds no block.
    fn take_rounds(&mut self, blocks: &Vec<Block>, below: Option<i32>, last: &str)
        requires
            old(self).wf(),
        ensures
            final(self).wf(),
            final(self)@ == taken_in_rounds(
                old(self)@,
                blocks_view(blocks@),
                blocks@.len() as int,
                bound_view(below),
                last@,
            ),
    {
        let ghost all = blocks_view(blocks@);
        let ghost bound = bound_view(below);
        let mut round: usize = 0;
        while round < blocks.len()
            invariant
                round <= blocks@.len(),
                all == blocks_view(blocks@),
                bound == bound_view(below),
                self.wf(),
                self@ == taken_in_rounds(old(self)@, all, round as int, bound, last@),
            decreases blocks@.len() - round,
        {
            let held = self.blocks.len();
            let ghost before = self@;
            self.take_pass(blocks, below, last);
            if self.blocks.len() == held {
                proof {
                    assert(self@.blocks.len() == before.blocks.len());
                    lemma_taken_grows(before, all, all.len() as int, bound, last@);
                    lemma_rounds_settled(
                        old(self)@,
                        all,
                        round as int,
                        all.len() as int,
                        bound,
                        last@,
                    );
                }
                return ;
            }
            round += 1;
        }
    }

    /// The store that stored blocks, in whatever order, and the stored hash
    /// of the tip give back. Every block must find its place in the store,
    /// and the block of the hash `last` must come out as the tip; for no
    /// block at all `last` must be empty.
    pub fn from_stored(blocks: Vec<Block>, last: &str) -> (made: Result<Blockchain, Error>)
        ensures
            match made {
                Ok(chain) => chain.wf() && restored(blocks_view(blocks@), last@) == Ok::<
                    BlockchainView,
                    Error,
                >(chain@) && chain@.blocks.len() == blocks@.len() && chain@.tip == last@,
                Err(e) => e == Error::InvalidBlock && restored(blocks_view(blocks@), last@) is Err,
            },
    {
        let below = Self::height_named(&blocks, last);
        let mut chain = Blockchain::new();
        assert(chain@ == (BlockchainView { tip: Seq::empty(), blocks: Seq::empty() })) by {
            assert(chain@.blocks =~= Seq::empty());
            assert(chain@.tip =~= Seq::empty());
        }
        chain.take_rounds(&blocks, below, last);
        chain.take_rounds(&blocks, None, last);
        assert(chain@.blocks.len() == chain.blocks@.len());
        if chain.blocks.len() != blocks.len() || !same_text(chain.tip.as_str(), last) {
            return Err(Error::InvalidBlock);
        }
        Ok(chain)
    }

    /// A cursor at the block with the given hash, for a walk down the
    /// chain that ends there.
    pub fn iter_from(&self, block_hash: &str) -> (cursor: BlockchainIterator<'_>)
        ensures
            cursor.current() == block_hash@,
            cursor.chain() == self@,
    {
        BlockchainIterator { current_hash: String::from_str(block_hash), bc: self }
    }

    /// A cursor at the tip, for a walk down the best chain.
    pub fn iter(&self) -> (cursor: BlockchainIterator<'_>)
        ensures
            cursor.current() == self@.tip,
            cursor.chain() == self@,
    {
        BlockchainIterator { current_hash: self.tip.clone(), bc: self }
    }

    /// The position of the block with the given hash.
    fn index_of(&self, hash: &str) -> (found: Option<usize>)
        ensures
            match found {
                Some(k) => position(self@.blocks, hash@) == Some(k as int) && k
                    < self.blocks@.len(),
                None => position(self@.blocks, hash@) is None,
            },
    {
        let mut i: usize = 0;
        while i < self.blocks.len()
            invariant
                i <= self.blocks@.len(),
                position(self@.blocks, hash@) == position_from(self@.blocks, hash@, i as int),
            decreases self.blocks@.len() - i,
        {
            if same_text(self.blocks[i].hash_str(), hash) {
                return Some(i);
            }
            i += 1;
        }
        None
    }

    /// The position of the block before block `i`.
    fn parent_of(&self, i: usize) -> (found: Option<usize>)
        requires
            i < self.blocks@.len(),
        ensures
            match found {
                Some(j) => parent_position(self@.blocks, i as int) == Some(j as int) && j < i,
                None => parent_position(self@.blocks, i as int) is None,
            },
    {
        match self.index_of(self.blocks[i].prev_hash_str()) {
            Some(j) => if j < i {
                Some(j)
            } else {
                None
            },
            None => None,
        }
    }

    /// The transactions of the chain that ends at `start`, in the order of
    /// a walk from that block down.
    fn transactions_from(&self, start: Option<usize>) -> (all: Vec<Transaction>)
        requires
            start matches Some(s) ==> s < self.blocks@.len(),
        ensures
            transactions_view(all@) == chain_transactions(
                chain_from(
                    self@.blocks,
                    match start {
                        Some(s) => Some(s as int),
                        None => None,
                    },
                ),
            ),
    {
        let mut all: Vec<Transaction> = Vec::new();
        let mut cur = start;
        let ghost goal = chain_transactions(
            chain_from(
                self@.blocks,
                match start {
                    Some(s) => Some(s as int),
                    None => None,
                },
            ),
        );
        while cur.is_some()
            invariant
                cur matches Some(c) ==> c < self.blocks@.len(),
                goal == transactions_view(all@) + chain_transactions(
                    chain_from(
                        self@.blocks,
                        match cur {
                            Some(c) => Some(c as int),
                            None => None,
                        },
                    ),
                ),
            decreases
                    (match cur {
                        Some(c) => c as int + 1,
                        None => 0,
                    }),
        {
            let c = cur.unwrap();
            let txs = self.blocks[c].get_transaction();
            let next = self.parent_of(c);
            let ghost before = transactions_view(all@);
            let ghost rest = chain_from(
                self@.blocks,
                match next {
                    Some(n) => Some(n as int),
                    None => None,
                },
            );
            proof {
                let chain = chain_at(self@.blocks, c as int);
                assert(chain.drop_first() =~= rest);
            }
            let mut k: usize = 0;
            while k < txs.len()
                invariant
                    k <= txs@.len(),
                    transactions_view(all@) == before + transactions_view(txs@).subrange(
                        0,
                        k as int,
                    ),
                decreases txs@.len() - k,
            {
                let ghost pre = transactions_view(all@);
                all.push(txs[k].clone());
                assert(transactions_view(all@) =~= pre.push(txs@[k as int]@));
                k += 1;
            }
            cur = next;
        }
        all
    }

    /// The verdict on a transaction against the given transactions of a
    /// chain: the inputs must name transactions of the chain, pass with
    /// their keys and signatures, and spend nothing that the chain has
    /// spent.
    fn verify_against(tx: &Transaction, chain_txs: &Vec<Transaction>) -> (verdict: Result<
        bool,
        Error,
    >)
        ensures
            verdict == verification_in_chain(tx@, transactions_view(chain_txs@)),
    {
        if tx.is_coinbase() {
            return Ok(true);
        }
        let mut i: usize = 0;
        while i < tx.vin.len()
            invariant
                i <= tx.vin@.len(),
                !is_coinbase_tx(tx@),
                forall|k: int|
                    0 <= k < i ==> lookup(
                        transactions_view(chain_txs@),
                        (#[trigger] tx@.vin[k]).txid,
                    ) is Some,
            decreases tx.vin@.len() - i,
        {
            if find_by_id(chain_txs, tx.vin[i].txid.as_str()).is_none() {
                assert(lookup(transactions_view(chain_txs@), tx@.vin[i as int].txid) is None);
                return Err(Error::NotFound);
            }
            i += 1;
        }
        match tx.verify(chain_txs) {
            Ok(true) => {},
            other => {
                return other;
            },
        }
        proof {
            lemma_accepted_outputs_exist(tx@, transactions_view(chain_txs@), 0);
        }
        let mut k: usize = 0;
        while k < tx.vin.len()
            invariant
                k <= tx.vin@.len(),
                !is_coinbase_tx(tx@),
                verification(tx@, transactions_view(chain_txs@)) == Ok::<bool, Error>(true),
                forall|m: int|
                    0 <= m < tx.vin@.len() ==> lookup(
                        transactions_view(chain_txs@),
                        (#[trigger] tx@.vin[m]).txid,
                    ) is Some,
                forall|m: int|
                    0 <= m < tx.vin@.len() ==> spent_output(
                        transactions_view(chain_txs@),
                        #[trigger] tx@.vin[m],
                    ) is Some,
                forall|m: int|
                    0 <= m < k ==> !spent_before(
                        transactions_view(chain_txs@),
                        chain_txs@.len() as int,
                    ).contains(((#[trigger] tx@.vin[m]).txid, tx@.vin[m].vout as int)),
            decreases tx.vin@.len() - k,
        {
            let input = &tx.vin[k];
            assert(spent_output(transactions_view(chain_txs@), tx@.vin[k as int]) is Some);
            if is_spent_before(chain_txs, chain_txs.len(), input.txid.as_str(), input.vout as usize) {
                assert(spends_again(tx@, transactions_view(chain_txs@))) by {
                    let _ = tx@.vin[k as int];
                }
                return Ok(false);
            }
            k += 1;
        }
        Ok(true)
    }

    /// The position of the tip.
    fn tip_index(&self) -> (found: Option<usize>)
        ensures
            match found {
                Some(t) => position(self@.blocks, self@.tip) == Some(t as int) && t
                    < self.blocks@.len(),
                None => position(self@.blocks, self@.tip) is None,
            },
    {
        self.index_of(self.tip.as_str())
    }

    /// The transactions of the best chain, in the order of a walk from the
    /// tip down.
    pub fn all_transactions(&self) -> (all: Vec<Transaction>)
        ensures
            transactions_view(all@) == chain_transactions(best_chain(self@)),
    {
        let start = self.tip_index();
        self.transactions_from(start)
    }

    /// The first transaction with the given id on a walk of the best chain
    /// from the tip down.
    pub fn find_transaction(&self, id: &str) -> (found: Result<Transaction, Error>)
        ensures
            match found {
                Ok(tx) => lookup(chain_transactions(best_chain(self@)), id@) == Some(tx@),
                Err(e) => lookup(chain_transactions(best_chain(self@)), id@) is None && e
                    == Error::NotFound,
            },
    {
        let all = self.all_transactions();
        match find_by_id(&all, id) {
            Some(k) => Ok(all[k].clone()),
            None => Err(Error::NotFound),
        }
    }

    /// The verdict on a transaction against the best chain.
    pub fn verify_transaction(&self, tx: &Transaction) -> (verdict: Result<bool, Error>)
        ensures
            verdict == verification_in_chain(tx@, chain_transactions(best_chain(self@))),
    {
        if tx.is_coinbase() {
            return Ok(true);
        }
        let all = self.all_transactions();
        Self::verify_against(tx, &all)
    }

    /// Signs the inputs of a transaction over the transactions of the best
    /// chain that it spends from. An input that names no transaction of the
    /// chain is `NotFound`. On an error nothing is changed.
    pub fn sign_transaction(&self, tx: &mut Transaction, private_key: &[u8]) -> (done: Result<
        (),
        Error,
    >)
        ensures
            match done {
                Ok(()) => signing_in_chain(
                    old(tx)@,
                    private_key@,
                    chain_transactions(best_chain(self@)),
                ) == Ok::<TransactionView, Error>(final(tx)@) && (!is_coinbase_tx(old(tx)@)
                    ==> signatures_whole(final(tx)@)),
                Err(e) => signing_in_chain(
                    old(tx)@,
                    private_key@,
                    chain_transactions(best_chain(self@)),
                ) == Err::<TransactionView, Error>(e) && final(tx)@ == old(tx)@,
            },
    {
        let all = self.all_transactions();
        let mut i: usize = 0;
        while i < tx.vin.len()
            invariant
                *tx == *old(tx),
                transactions_view(all@) == chain_transactions(best_chain(self@)),
                i <= tx.vin@.len(),
                forall|k: int|
                    0 <= k < i ==> lookup(transactions_view(all@), (#[trigger] tx@.vin[k]).txid) is Some,
            decreases tx.vin@.len() - i,
        {
            if find_by_id(&all, tx.vin[i].txid.as_str()).is_none() {
                assert(lookup(transactions_view(all@), tx@.vin[i as int].txid) is None);
                return Err(Error::NotFound);
            }
            i += 1;
        }
        tx.sign(private_key, &all)
    }

    /// The block with the given hash.
    pub fn get_block(&self, block_hash: &str) -> (found: Result<Block, Error>)
        ensures
            match found {
                Ok(block) => position(self@.blocks, block_hash@) matches Some(k) && self@.blocks[k]
                    == block@,
                Err(e) => position(self@.blocks, block_hash@) is None && e == Error::NotFound,
            },
    {
        match self.index_of(block_hash) {
            Some(k) => Ok(self.blocks[k].clone()),
            None => Err(Error::NotFound),
        }
    }

    /// The height of the tip, or -1 for a store without blocks. It never
    /// fails.
    pub fn get_best_height(&self) -> (height: Result<i32, Error>)
        ensures
            height is Ok,
            height->Ok_0 == best_height(self@),
    {
        match self.tip_index() {
            Some(t) => Ok(self.blocks[t].get_height()),
            None => Ok(-1),
        }
    }

    /// The hashes of the best chain, from the tip down.
    pub fn get_block_hash_list(&self) -> (list: Vec<String>)
        ensures
            list@.len() == best_chain(self@).len(),
            forall|k: int| 0 <= k < list@.len() ==> list@[k]@ == best_chain(self@)[k].hash,
    {
        let mut list: Vec<String> = Vec::new();
        let mut cur = self.tip_index();
        let ghost goal = best_chain(self@);
        let ghost mut done: Seq<BlockView> = Seq::empty();
        while cur.is_some()
            invariant
                cur matches Some(c) ==> c < self.blocks@.len(),
                done.len() == list@.len(),
                forall|k: int| 0 <= k < list@.len() ==> list@[k]@ == done[k].hash,
                goal == done + chain_from(
                    self@.blocks,
                    match cur {
                        Some(c) => Some(c as int),
                        None => None,
                    },
                ),
            decreases
                    (match cur {
                        Some(c) => c as int + 1,
                        None => 0,
                    }),
        {
            let c = cur.unwrap();
            list.push(self.blocks[c].get_hash());
            let next = self.parent_of(c);
            proof {
                done = done.push(self@.blocks[c as int]);
            }
            cur = next;
        }
        list
    }
}

/// A cursor on a walk down a chain: the hash of the block to hand out next.
pub struct BlockchainIterator<'a> {
    current_hash: String,
    bc: &'a Blockchain,
}

impl<'a> BlockchainIterator<'a> {
    /// The hash of the block that the cursor hands out next.
    pub closed spec fn current(&self) -> Seq<char> {
        self.current_hash@
    }

    /// The store that the cursor walks.
    pub closed spec fn chain(&self) -> BlockchainView {
        self.bc@
    }

    /// Hands out the block under the cursor and moves the cursor to the
    /// block before it; `None` where the store holds no block of that hash.
    pub fn next(&mut self) -> (block: Option<Block>)
        ensures
            final(self).chain() == old(self).chain(),
            match block {
                Some(b) => position(old(self).chain().blocks, old(self).current()) matches Some(k)
                    && old(self).chain().blocks[k] == b@ && final(self).current()
                    == b@.prev_block_hash,
                None => position(old(self).chain().blocks, old(self).current()) is None
                    && final(self).current() == old(self).current(),
            },
    {
        match self.bc.index_of(self.current_hash.as_str()) {
            Some(k) => {
                let block = self.bc.blocks[k].clone();
                self.current_hash = block.get_prev_hash();
                Some(block)
            },
            None => None,
        }
    }
}

/// What signing makes of a transaction over a chain's transactions. An
/// input that names no transaction of the chain is `NotFound`.
pub open spec fn signing_in_chain(
    tx: TransactionView,
    private_key: Seq<u8>,
    chain_txs: Seq<TransactionView>,
) -> Result<TransactionView, Error> {
    if exists|i: int| 0 <= i < tx.vin.len() && lookup(chain_txs, (#[trigger] tx.vin[i]).txid) is None {
        Err(Error::NotFound)
    } else {
        signing(tx, private_key, chain_txs)
    }
}

} // verus!
