use crate::address::address_body_of;
use crate::block::{Block, BlockView};
use crate::blockchain::{
    acceptable, best_chain, best_height, chain_transactions, mining, position, received,
    verification_in_chain, well_formed, with_block, BlockchainView,
};
use crate::clock::unix_millis;
use crate::error::Error;
use crate::transaction::{
    clone_transactions, coinbase_of, find_by_id, lookup, same_text, transactions_view,
    Transaction, TransactionView,
};
use crate::utxo_set::{unspent_outputs, UTXOSet, UtxoView};
use crate::wire::Command;
use vstd::prelude::*;
use vstd::string::StringExecFns;

verus! {

/// The version of the protocol that a node speaks.
pub const VERSION: i32 = 1;

/// The address of the seed node, which every node knows.
pub open spec fn seed_address() -> Seq<char> {
    "localhost:3000"@
}

/// The kind of an inventory of blocks.
pub open spec fn block_kind() -> Seq<char> {
    "block"@
}

/// The kind of an inventory of transactions.
pub open spec fn tx_kind() -> Seq<char> {
    "tx"@
}

/// A node's address, its protocol version and the height of its best block.
#[derive(Debug)]
pub struct VersionMsg {
    pub addr_from: String,
    pub version: i32,
    pub best_height: i32,
}

/// A transaction on its way to a node.
#[derive(Debug)]
pub struct TxMsg {
    pub addr_from: String,
    pub transaction: Transaction,
}

/// A request for one block or one transaction.
#[derive(Debug)]
pub struct GetDataMsg {
    pub addr_from: String,
    pub kind: String,
    pub id: String,
}

/// A request for the hashes of a node's blocks.
#[derive(Debug)]
pub struct GetBlockMsg {
    pub addr_from: String,
}

/// The hashes of blocks, or the ids of transactions, that a node has.
#[derive(Debug)]
pub struct InvMsg {
    pub addr_from: String,
    pub kind: String,
    pub items: Vec<String>,
}

/// A block on its way to a node.
#[derive(Debug)]
pub struct BlockMsg {
    pub addr_from: String,
    pub block: Block,
}

/// What nodes send each other.
#[derive(Debug)]
pub enum Message {
    Addr(Vec<String>),
    Version(VersionMsg),
    Tx(TxMsg),
    GetData(GetDataMsg),
    GetBlock(GetBlockMsg),
    Inv(InvMsg),
    Block(BlockMsg),
}

/// A message to send, and the address of the node to send it to.
#[derive(Debug)]
pub struct Outgoing {
    pub addr: String,
    pub message: Message,
}

/// A message as the contracts see it.
pub enum MessageView {
    Addr { nodes: Seq<Seq<char>> },
    Version { addr_from: Seq<char>, version: i32, best_height: i32 },
    Tx { addr_from: Seq<char>, transaction: TransactionView },
    GetData { addr_from: Seq<char>, kind: Seq<char>, id: Seq<char> },
    GetBlock { addr_from: Seq<char> },
    Inv { addr_from: Seq<char>, kind: Seq<char>, items: Seq<Seq<char>> },
    Block { addr_from: Seq<char>, block: BlockView },
}

/// A message to send as the contracts see it.
pub struct OutgoingView {
    pub addr: Seq<char>,
    pub message: MessageView,
}

/// The strings of a list, each by its view.
pub open spec fn strings_view(strings: Seq<String>) -> Seq<Seq<char>> {
    Seq::new(strings.len(), |i: int| strings[i]@)
}

/// The messages of a list, each by its view.
pub open spec fn outgoing_view(out: Seq<Outgoing>) -> Seq<OutgoingView> {
    Seq::new(out.len(), |i: int| out[i]@)
}

impl View for Message {
    type V = MessageView;

    open spec fn view(&self) -> MessageView {
        match self {
            Message::Addr(nodes) => MessageView::Addr { nodes: strings_view(nodes@) },
            Message::Version(m) => MessageView::Version {
                addr_from: m.addr_from@,
                version: m.version,
                best_height: m.best_height,
            },
            Message::Tx(m) => MessageView::Tx {
                addr_from: m.addr_from@,
                transaction: m.transaction@,
            },
            Message::GetData(m) => MessageView::GetData {
                addr_from: m.addr_from@,
                kind: m.kind@,
                id: m.id@,
            },
            Message::GetBlock(m) => MessageView::GetBlock { addr_from: m.addr_from@ },
            Message::Inv(m) => MessageView::Inv {
                addr_from: m.addr_from@,
                kind: m.kind@,
                items: strings_view(m.items@),
            },
            Message::Block(m) => MessageView::Block { addr_from: m.addr_from@, block: m.block@ },
        }
    }
}

impl View for Outgoing {
    type V = OutgoingView;

    open spec fn view(&self) -> OutgoingView {
        OutgoingView { addr: self.addr@, message: self.message@ }
    }
}

/// A copy of a list of strings.
pub fn clone_strings(strings: &Vec<String>) -> (copy: Vec<String>)
    ensures
        strings_view(copy@) == strings_view(strings@),
{
    let mut copy: Vec<String> = Vec::new();
    let mut i: usize = 0;
    while i < strings.len()
        invariant
            i <= strings@.len(),
            copy@.len() == i,
            forall|k: int| 0 <= k < i ==> copy@[k]@ == strings@[k]@,
        decreases strings@.len() - i,
    {
        copy.push(strings[i].clone());
        i += 1;
    }
    copy
}

/// Whether a list of strings holds a text.
pub fn contains_text(strings: &Vec<String>, text: &str) -> (found: bool)
    ensures
        found == strings_view(strings@).contains(text@),
{
    let mut i: usize = 0;
    while i < strings.len()
        invariant
            i <= strings@.len(),
            forall|k: int| 0 <= k < i ==> strings_view(strings@)[k] != text@,
        decreases strings@.len() - i,
    {
        if same_text(strings[i].as_str(), text) {
            assert(strings_view(strings@)[i as int] == text@);
            return true;
        }
        i += 1;
    }
    false
}

impl Clone for Message {
    fn clone(&self) -> (copy: Self)
        ensures
            copy@ == self@,
    {
        match self {
            Message::Addr(nodes) => Message::Addr(clone_strings(nodes)),
            Message::Version(m) => Message::Version(
                VersionMsg {
                    addr_from: m.addr_from.clone(),
                    version: m.version,
                    best_height: m.best_height,
                },
            ),
            Message::Tx(m) => Message::Tx(
                TxMsg { addr_from: m.addr_from.clone(), transaction: m.transaction.clone() },
            ),
            Message::GetData(m) => Message::GetData(
                GetDataMsg {
                    addr_from: m.addr_from.clone(),
                    kind: m.kind.clone(),
                    id: m.id.clone(),
                },
            ),
            Message::GetBlock(m) => Message::GetBlock(
                GetBlockMsg { addr_from: m.addr_from.clone() },
            ),
            Message::Inv(m) => Message::Inv(
                InvMsg {
                    addr_from: m.addr_from.clone(),
                    kind: m.kind.clone(),
                    items: clone_strings(&m.items),
                },
            ),
            Message::Block(m) => Message::Block(
                BlockMsg { addr_from: m.addr_from.clone(), block: m.block.clone() },
            ),
        }
    }
}

impl Message {
    /// The command under which the message travels.
    pub fn command(&self) -> (command: Command)
        ensures
            command == command_for(self@),
    {
        match self {
            Message::Addr(_) => Command::Addr,
            Message::Version(_) => Command::Version,
            Message::Tx(_) => Command::Tx,
            Message::GetData(_) => Command::GetData,
            Message::GetBlock(_) => Command::GetBlocks,
            Message::Inv(_) => Command::Inv,
            Message::Block(_) => Command::Block,
        }
    }
}

/// The command under which a message travels.
pub open spec fn command_for(message: MessageView) -> Command {
    match message {
        MessageView::Addr { .. } => Command::Addr,
        MessageView::Version { .. } => Command::Version,
        MessageView::Tx { .. } => Command::Tx,
        MessageView::GetData { .. } => Command::GetData,
        MessageView::GetBlock { .. } => Command::GetBlocks,
        MessageView::Inv { .. } => Command::Inv,
        MessageView::Block { .. } => Command::Block,
    }
}

/// A message for a peer: none where the peer is the node itself.
pub open spec fn to_peer(node: Seq<char>, addr: Seq<char>, message: MessageView) -> Seq<
    OutgoingView,
> {
    if addr == node {
        Seq::empty()
    } else {
        seq![OutgoingView { addr, message }]
    }
}

/// One message for each of the addresses, in order, but for the two
/// addresses to spare.
pub open spec fn broadcast(
    addrs: Seq<Seq<char>>,
    spare: Seq<char>,
    other: Seq<char>,
    message: MessageView,
) -> Seq<OutgoingView>
    decreases addrs.len(),
{
    if addrs.len() == 0 {
        Seq::empty()
    } else {
        let rest = broadcast(addrs.drop_last(), spare, other, message);
        if addrs.last() == spare || addrs.last() == other {
            rest
        } else {
            rest.push(OutgoingView { addr: addrs.last(), message })
        }
    }
}

/// The known nodes after one more is heard of: it is added at the end
/// unless it is known.
pub open spec fn with_node(nodes: Seq<Seq<char>>, addr: Seq<char>) -> Seq<Seq<char>> {
    if nodes.contains(addr) {
        nodes
    } else {
        nodes.push(addr)
    }
}

/// The known nodes after each of a list is heard of, in order.
pub open spec fn with_nodes(nodes: Seq<Seq<char>>, addrs: Seq<Seq<char>>) -> Seq<Seq<char>>
    decreases addrs.len(),
{
    if addrs.len() == 0 {
        nodes
    } else {
        with_node(with_nodes(nodes, addrs.drop_last()), addrs.last())
    }
}

/// The known nodes without one of them.
pub open spec fn without_node(nodes: Seq<Seq<char>>, addr: Seq<char>) -> Seq<Seq<char>>
    decreases nodes.len(),
{
    if nodes.len() == 0 {
        Seq::empty()
    } else if nodes.last() == addr {
        without_node(nodes.drop_last(), addr)
    } else {
        without_node(nodes.drop_last(), addr).push(nodes.last())
    }
}

/// The position of the first transaction with the given id, from `from`
/// on.
pub open spec fn slot_from(txs: Seq<TransactionView>, id: Seq<char>, from: int) -> Option<int>
    decreases txs.len() - from,
{
    if from < 0 || from >= txs.len() {
        None
    } else if txs[from].id == id {
        Some(from)
    } else {
        slot_from(txs, id, from + 1)
    }
}

/// The mempool after a transaction is received: it takes the place of the
/// first transaction with its id, or else the place at the end.
pub open spec fn with_transaction(pool: Seq<TransactionView>, tx: TransactionView) -> Seq<
    TransactionView,
> {
    match slot_from(pool, tx.id, 0) {
        Some(k) => pool.update(k, tx),
        None => pool.push(tx),
    }
}

/// The transactions of a list that verify against a chain's transactions,
/// in order.
pub open spec fn verified_in(txs: Seq<TransactionView>, chain_txs: Seq<TransactionView>) -> Seq<
    TransactionView,
>
    decreases txs.len(),
{
    if txs.len() == 0 {
        Seq::empty()
    } else if verification_in_chain(txs.last(), chain_txs) == Ok::<bool, Error>(true) {
        verified_in(txs.drop_last(), chain_txs).push(txs.last())
    } else {
        verified_in(txs.drop_last(), chain_txs)
    }
}

/// The transactions of a list that do not verify against a chain's
/// transactions, in order.
pub open spec fn rejected_in(txs: Seq<TransactionView>, chain_txs: Seq<TransactionView>) -> Seq<
    TransactionView,
>
    decreases txs.len(),
{
    if txs.len() == 0 {
        Seq::empty()
    } else if verification_in_chain(txs.last(), chain_txs) == Ok::<bool, Error>(true) {
        rejected_in(txs.drop_last(), chain_txs)
    } else {
        rejected_in(txs.drop_last(), chain_txs).push(txs.last())
    }
}

/// The items of an inventory, up to position `upto`, that differ from its
/// first item, in order.
pub open spec fn items_after_first(items: Seq<Seq<char>>, upto: int) -> Seq<Seq<char>>
    decreases upto,
{
    if upto <= 0 || upto > items.len() {
        Seq::empty()
    } else if items[upto - 1] == items[0] {
        items_after_first(items, upto - 1)
    } else {
        items_after_first(items, upto - 1).push(items[upto - 1])
    }
}

/// The hashes of the blocks of a chain, in order.
pub open spec fn hashes_of(chain: Seq<BlockView>) -> Seq<Seq<char>> {
    Seq::new(chain.len(), |i: int| chain[i].hash)
}

/// The state of a node: its own address, the address that its mining
/// rewards go to (empty for a node that does not mine), the peers it knows,
/// its chain and index, the hashes of the blocks it still has to fetch, and
/// the transactions that wait to be mined.
pub struct Server {
    node_address: String,
    mining_address: String,
    known_nodes: Vec<String>,
    utxo: UTXOSet,
    blocks_in_transit: Vec<String>,
    mempool: Vec<Transaction>,
}

/// A node's state as the contracts see it.
pub struct ServerView {
    pub node_address: Seq<char>,
    pub mining_address: Seq<char>,
    pub known_nodes: Seq<Seq<char>>,
    pub chain: BlockchainView,
    pub utxos: Seq<UtxoView>,
    pub blocks_in_transit: Seq<Seq<char>>,
    pub mempool: Seq<TransactionView>,
}

impl View for Server {
    type V = ServerView;

    closed spec fn view(&self) -> ServerView {
        ServerView {
            node_address: self.node_address@,
            mining_address: self.mining_address@,
            known_nodes: strings_view(self.known_nodes@),
            chain: self.utxo.blockchain@,
            utxos: self.utxo.unspent(),
            blocks_in_transit: strings_view(self.blocks_in_transit@),
            mempool: transactions_view(self.mempool@),
        }
    }
}

/// The answer to a `version` message: a request for blocks where the peer
/// is ahead, the node's own version where the peer is behind, and the
/// addresses that the node knows.
pub open spec fn version_replies(s: ServerView, addr_from: Seq<char>, peer_height: i32) -> Seq<
    OutgoingView,
> {
    let ask = if best_height(s.chain) < peer_height {
        to_peer(s.node_address, addr_from, MessageView::GetBlock { addr_from: s.node_address })
    } else {
        Seq::empty()
    };
    let tell = if best_height(s.chain) > peer_height {
        to_peer(
            s.node_address,
            addr_from,
            MessageView::Version {
                addr_from: s.node_address,
                version: VERSION,
                best_height: best_height(s.chain) as i32,
            },
        )
    } else {
        Seq::empty()
    };
    ask + tell + to_peer(s.node_address, addr_from, MessageView::Addr { nodes: s.known_nodes })
}

/// What a node sends when it starts: a request for blocks to every peer
/// where it has no block, else its version to the seed.
pub open spec fn startup_messages(s: ServerView) -> Seq<OutgoingView> {
    if best_height(s.chain) == -1 {
        broadcast(
            s.known_nodes,
            s.node_address,
            s.node_address,
            MessageView::GetBlock { addr_from: s.node_address },
        )
    } else {
        to_peer(
            s.node_address,
            seed_address(),
            MessageView::Version {
                addr_from: s.node_address,
                version: VERSION,
                best_height: best_height(s.chain) as i32,
            },
        )
    }
}

/// The answer to an inventory and the blocks in transit after it. An
/// inventory of blocks asks for the first block and puts the other hashes
/// in transit; an inventory of transactions asks for the first transaction
/// unless the mempool holds it. An empty inventory of either kind is
/// malformed.
pub open spec fn inventory_reply(
    s: ServerView,
    addr_from: Seq<char>,
    kind: Seq<char>,
    items: Seq<Seq<char>>,
) -> Result<(Seq<OutgoingView>, Seq<Seq<char>>), Error> {
    if kind == block_kind() {
        if items.len() == 0 {
            Err(Error::Format)
        } else {
            Ok(
                (
                    to_peer(
                        s.node_address,
                        addr_from,
                        MessageView::GetData {
                            addr_from: s.node_address,
                            kind: block_kind(),
                            id: items[0],
                        },
                    ),
                    items_after_first(items, items.len() as int),
                ),
            )
        }
    } else if kind == tx_kind() {
        if items.len() == 0 {
            Err(Error::Format)
        } else if lookup(s.mempool, items[0]) is Some && items[0].len() > 0 {
            Ok((Seq::empty(), s.blocks_in_transit))
        } else {
            Ok(
                (
                    to_peer(
                        s.node_address,
                        addr_from,
                        MessageView::GetData {
                            addr_from: s.node_address,
                            kind: tx_kind(),
                            id: items[0],
                        },
                    ),
                    s.blocks_in_transit,
                ),
            )
        }
    } else {
        Ok((Seq::empty(), s.blocks_in_transit))
    }
}

/// The answer to a request for data: the block of the store with the
/// given hash, or the transaction of the mempool with the given id;
/// `NotFound` where there is none.
pub open spec fn data_reply(s: ServerView, addr_from: Seq<char>, kind: Seq<char>, id: Seq<char>) -> Result<
    Seq<OutgoingView>,
    Error,
> {
    if kind == block_kind() {
        match position(s.chain.blocks, id) {
            Some(k) => Ok(
                to_peer(
                    s.node_address,
                    addr_from,
                    MessageView::Block { addr_from: s.node_address, block: s.chain.blocks[k] },
                ),
            ),
            None => Err(Error::NotFound),
        }
    } else if kind == tx_kind() {
        match lookup(s.mempool, id) {
            Some(tx) => Ok(
                to_peer(
                    s.node_address,
                    addr_from,
                    MessageView::Tx { addr_from: s.node_address, transaction: tx },
                ),
            ),
            None => Err(Error::NotFound),
        }
    } else {
        Ok(Seq::empty())
    }
}

/// The node after a block is received, and what it sends. Where hashes
/// are in transit it asks the sender for the first of them; else it builds
/// its index anew.
pub open spec fn block_step(s: ServerView, addr_from: Seq<char>, block: BlockView) -> Result<
    (ServerView, Seq<OutgoingView>),
    Error,
> {
    match received(s.chain, block) {
        Err(e) => Err(e),
        Ok(chain) => if s.blocks_in_transit.len() > 0 {
            Ok(
                (
                    ServerView {
                        chain,
                        blocks_in_transit: s.blocks_in_transit.subrange(
                            1,
                            s.blocks_in_transit.len() as int,
                        ),
                        ..s
                    },
                    to_peer(
                        s.node_address,
                        addr_from,
                        MessageView::GetData {
                            addr_from: s.node_address,
                            kind: block_kind(),
                            id: s.blocks_in_transit[0],
                        },
                    ),
                ),
            )
        } else {
            Ok(
                (
                    ServerView {
                        chain,
                        utxos: unspent_outputs(chain_transactions(best_chain(chain))),
                        ..s
                    },
                    Seq::empty(),
                ),
            )
        },
    }
}

/// The node after it has mined the given transactions and a coinbase into
/// a block at the given time and built its index anew, with the block; or
/// the error of mining.
pub open spec fn mined_step(
    s: ServerView,
    valid: Seq<TransactionView>,
    coinbase: TransactionView,
    timestamp: u128,
) -> Result<(ServerView, BlockView), Error> {
    match mining(s.chain, valid.push(coinbase), timestamp) {
        Err(e) => Err(e),
        Ok((chain, block)) => Ok(
            (
                ServerView {
                    chain,
                    utxos: unspent_outputs(chain_transactions(best_chain(chain))),
                    ..s
                },
                block,
            ),
        ),
    }
}

/// Whether the blocks of one store are the first blocks of another.
pub open spec fn extends(later: BlockchainView, earlier: BlockchainView) -> bool {
    earlier.blocks.len() <= later.blocks.len() && later.blocks.subrange(
        0,
        earlier.blocks.len() as int,
    ) == earlier.blocks
}

/// Whether no id occurs twice among the transactions.
pub open spec fn distinct_ids(txs: Seq<TransactionView>) -> bool {
    forall|i: int, j: int| 0 <= i < j < txs.len() ==> (#[trigger] txs[i]).id != (#[trigger] txs[j]).id
}

/// The invariant of a node: its chain meets its invariant, its known peers
/// are a set, and its mempool holds one transaction for an id.
pub open spec fn node_valid(s: ServerView) -> bool {
    well_formed(s.chain) && s.known_nodes.no_duplicates() && distinct_ids(s.mempool)
}

/// A known peer is not taken twice.
pub proof fn lemma_with_node(nodes: Seq<Seq<char>>, addr: Seq<char>)
    requires
        nodes.no_duplicates(),
    ensures
        with_node(nodes, addr).no_duplicates(),
        with_node(nodes, addr).contains(addr),
{
    if !nodes.contains(addr) {
        let after = nodes.push(addr);
        assert(after[nodes.len() as int] == addr);
    }
}

/// A peer that is forgotten is known no more; every other peer stays, and
/// none is known twice.
pub proof fn lemma_without_node(nodes: Seq<Seq<char>>, addr: Seq<char>)
    requires
        nodes.no_duplicates(),
    ensures
        without_node(nodes, addr).no_duplicates(),
        !without_node(nodes, addr).contains(addr),
        forall|other: Seq<char>|
            other != addr ==> (without_node(nodes, addr).contains(other) <==> nodes.contains(other)),
    decreases nodes.len(),
{
    if nodes.len() > 0 {
        let front = nodes.drop_last();
        let last = nodes.last();
        lemma_without_node(front, addr);
        let kept = without_node(front, addr);
        let after = without_node(nodes, addr);
        assert(!front.contains(last));
        if last != addr {
            assert(after[kept.len() as int] == last);
        }
        assert forall|other: Seq<char>| other != addr implies (after.contains(other)
            <==> nodes.contains(other)) by {
            if after.contains(other) {
                let w = choose|w: int| 0 <= w < after.len() && after[w] == other;
                if w < kept.len() {
                    assert(front.contains(other));
                }
            }
            if nodes.contains(other) {
                let v = choose|v: int| 0 <= v < nodes.len() && nodes[v] == other;
                if v < front.len() {
                    assert(front[v] == other);
                    assert(front.contains(other));
                    let w = choose|w: int| 0 <= w < kept.len() && kept[w] == other;
                    if last != addr {
                        assert(after[w] == other);
                    }
                }
            }
        }
    }
}

/// A position given by `slot_from` lies in range and holds the id, and no
/// transaction between `from` and it does.
pub proof fn lemma_slot_from(txs: Seq<TransactionView>, id: Seq<char>, from: int)
    requires
        0 <= from,
    ensures
        match slot_from(txs, id, from) {
            Some(k) => from <= k < txs.len() && txs[k].id == id && forall|i: int|
                from <= i < k ==> (#[trigger] txs[i]).id != id,
            None => forall|i: int| from <= i < txs.len() ==> (#[trigger] txs[i]).id != id,
        },
    decreases txs.len() - from,
{
    if from < txs.len() && txs[from].id != id {
        lemma_slot_from(txs, id, from + 1);
    }
}

/// A transaction that is taken into the mempool leaves no id twice in it.
pub proof fn lemma_with_transaction(pool: Seq<TransactionView>, tx: TransactionView)
    requires
        distinct_ids(pool),
    ensures
        distinct_ids(with_transaction(pool, tx)),
{
    lemma_slot_from(pool, tx.id, 0);
}

impl Server {
    /// Whether the node's chain meets its invariant, no peer is known
    /// twice, and no id occurs twice in the mempool.
    pub open spec fn wf(&self) -> bool {
        node_valid(self@)
    }

    /// A node at `localhost` and the given port, which knows the seed node.
    /// It never fails.
    pub fn new(port: &str, miner_address: &str, utxo: UTXOSet) -> (made: Result<Server, Error>)
        requires
            utxo.blockchain.wf(),
        ensures
            made is Ok,
            made->Ok_0.wf(),
            made->Ok_0@ == (ServerView {
                node_address: "localhost:"@ + port@,
                mining_address: miner_address@,
                known_nodes: seq![seed_address()],
                chain: utxo.blockchain@,
                utxos: utxo.unspent(),
                blocks_in_transit: Seq::empty(),
                mempool: Seq::empty(),
            }),
    {
        let mut known_nodes: Vec<String> = Vec::new();
        known_nodes.push(String::from_str("localhost:3000"));
        let server = Server {
            node_address: String::from_str("localhost:").concat(port),
            mining_address: String::from_str(miner_address),
            known_nodes,
            utxo,
            blocks_in_transit: Vec::new(),
            mempool: Vec::new(),
        };
        assert(server@.known_nodes =~= seq![seed_address()]);
        assert(server@.blocks_in_transit =~= Seq::empty());
        assert(server@.mempool =~= Seq::empty());
        Ok(server)
    }

    /// The node's own address.
    pub fn get_node_address(&self) -> (addr: String)
        ensures
            addr@ == self@.node_address,
    {
        self.node_address.clone()
    }

    /// The peers that the node knows.
    pub fn get_known_nodes(&self) -> (nodes: Vec<String>)
        ensures
            strings_view(nodes@) == self@.known_nodes,
    {
        clone_strings(&self.known_nodes)
    }

    /// Whether the node knows a peer.
    pub fn node_is_known(&self, addr: &str) -> (known: bool)
        ensures
            known == self@.known_nodes.contains(addr@),
    {
        contains_text(&self.known_nodes, addr)
    }

    /// The hashes of the blocks that the node still has to fetch.
    pub fn get_in_transit(&self) -> (hashes: Vec<String>)
        ensures
            strings_view(hashes@) == self@.blocks_in_transit,
    {
        clone_strings(&self.blocks_in_transit)
    }

    /// The transactions that wait to be mined.
    pub fn get_mempool(&self) -> (pool: Vec<Transaction>)
        ensures
            transactions_view(pool@) == self@.mempool,
    {
        clone_transactions(&self.mempool)
    }

    /// The node's chain and index.
    pub fn get_utxo_set(&self) -> (utxo: &UTXOSet)
        ensures
            utxo.blockchain@ == self@.chain,
            utxo.unspent() == self@.utxos,
    {
        &self.utxo
    }

    /// The height of the node's best block, or -1 where it has none.
    pub fn get_best_height(&self) -> (height: i32)
        ensures
            height == best_height(self@.chain),
    {
        match self.utxo.blockchain.get_best_height() {
            Ok(height) => height,
            Err(_) => -1,
        }
    }

    /// Takes note of a peer.
    pub fn add_nodes(&mut self, addr: &str)
        requires
            old(self).wf(),
        ensures
            final(self).wf(),
            final(self)@ == (ServerView {
                known_nodes: with_node(old(self)@.known_nodes, addr@),
                ..old(self)@
            }),
    {
        proof {
            lemma_with_node(self@.known_nodes, addr@);
        }
        if !contains_text(&self.known_nodes, addr) {
            self.known_nodes.push(String::from_str(addr));
            assert(self@.known_nodes =~= old(self)@.known_nodes.push(addr@));
        }
    }

    /// Forgets a peer, as when it cannot be reached.
    pub fn remove_node(&mut self, addr: &str)
        requires
            old(self).wf(),
        ensures
            final(self).wf(),
            final(self)@ == (ServerView {
                known_nodes: without_node(old(self)@.known_nodes, addr@),
                ..old(self)@
            }),
    {
        let mut kept: Vec<String> = Vec::new();
        let mut i: usize = 0;
        let ghost all = strings_view(self.known_nodes@);
        while i < self.known_nodes.len()
            invariant
                *self == *old(self),
                i <= self.known_nodes@.len(),
                all == strings_view(self.known_nodes@),
                strings_view(kept@) == without_node(all.subrange(0, i as int), addr@),
            decreases self.known_nodes@.len() - i,
        {
            proof {
                let part = all.subrange(0, i as int + 1);
                assert(part.drop_last() =~= all.subrange(0, i as int));
            }
            if !same_text(self.known_nodes[i].as_str(), addr) {
                kept.push(self.known_nodes[i].clone());
            }
            i += 1;
        }
        assert(all.subrange(0, i as int) =~= all);
        proof {
            lemma_without_node(all, addr@);
        }
        self.known_nodes = kept;
    }

    /// Adds a message for a peer to the messages to send, unless the peer
    /// is the node itself.
    fn push_to(&self, out: &mut Vec<Outgoing>, addr: &str, message: Message)
        ensures
            outgoing_view(final(out)@) == outgoing_view(old(out)@) + to_peer(
                self@.node_address,
                addr@,
                message@,
            ),
    {
        if !same_text(addr, self.node_address.as_str()) {
            out.push(Outgoing { addr: String::from_str(addr), message });
        }
    }

    /// Adds one message for each of the addresses to the messages to send,
    /// but for the node itself and one other address.
    fn push_to_all(&self, out: &mut Vec<Outgoing>, addrs: &Vec<String>, other: &str, message: &Message)
        ensures
            outgoing_view(final(out)@) == outgoing_view(old(out)@) + broadcast(
                strings_view(addrs@),
                self@.node_address,
                other@,
                message@,
            ),
    {
        let ghost before = outgoing_view(out@);
        let ghost all = strings_view(addrs@);
        let mut i: usize = 0;
        while i < addrs.len()
            invariant
                i <= addrs@.len(),
                all == strings_view(addrs@),
                outgoing_view(out@) == before + broadcast(
                    all.subrange(0, i as int),
                    self@.node_address,
                    other@,
                    message@,
                ),
            decreases addrs@.len() - i,
        {
            let ghost sofar = outgoing_view(out@);
            proof {
                let part = all.subrange(0, i as int + 1);
                assert(part.drop_last() =~= all.subrange(0, i as int));
            }
            let addr = addrs[i].as_str();
            if !same_text(addr, self.node_address.as_str()) && !same_text(addr, other) {
                out.push(Outgoing { addr: addrs[i].clone(), message: message.clone() });
                let ghost one = OutgoingView { addr: all[i as int], message: message@ };
                assert(outgoing_view(out@) =~= sofar.push(one));
            }
            i += 1;
        }
        assert(all.subrange(0, i as int) =~= all);
    }

    /// The node's own `version` message.
    fn version_message(&self) -> (message: Message)
        ensures
            message@ == (MessageView::Version {
                addr_from: self@.node_address,
                version: VERSION,
                best_height: best_height(self@.chain) as i32,
            }),
    {
        Message::Version(
            VersionMsg {
                addr_from: self.node_address.clone(),
                version: VERSION,
                best_height: self.get_best_height(),
            },
        )
    }

    /// A request for the data of the given kind and id.
    fn get_data_message(&self, kind: &str, id: &str) -> (message: Message)
        ensures
            message@ == (MessageView::GetData {
                addr_from: self@.node_address,
                kind: kind@,
                id: id@,
            }),
    {
        Message::GetData(
            GetDataMsg {
                addr_from: self.node_address.clone(),
                kind: String::from_str(kind),
                id: String::from_str(id),
            },
        )
    }

    /// What the node sends when it starts: a request for blocks to every
    /// peer where it has no block, else its version to the seed.
    pub fn start_server(&self) -> (out: Vec<Outgoing>)
        ensures
            outgoing_view(out@) == startup_messages(self@),
    {
        let mut out: Vec<Outgoing> = Vec::new();
        if self.get_best_height() == -1 {
            let message = Message::GetBlock(GetBlockMsg { addr_from: self.node_address.clone() });
            self.push_to_all(&mut out, &self.known_nodes, self.node_address.as_str(), &message);
        } else {
            let message = self.version_message();
            self.push_to(&mut out, "localhost:3000", message);
        }
        out
    }

    /// The message that hands a transaction to the seed node, from a node
    /// at port 7000 with the given chain and index. It never fails.
    pub fn send_transaction(tx: &Transaction, utxoset: UTXOSet) -> (out: Result<
        Vec<Outgoing>,
        Error,
    >)
        requires
            utxoset.blockchain.wf(),
        ensures
            out is Ok,
            outgoing_view(out->Ok_0@) == seq![
                OutgoingView {
                    addr: seed_address(),
                    message: MessageView::Tx {
                        addr_from: "localhost:"@ + "7000"@,
                        transaction: tx@,
                    },
                },
            ],
    {
        let server = match Server::new("7000", "", utxoset) {
            Ok(server) => server,
            Err(e) => {
                return Err(e);
            },
        };
        let out = server.send_tx("localhost:3000", tx);
        proof {
            reveal_strlit("localhost:");
            reveal_strlit("7000");
            reveal_strlit("localhost:3000");
            assert(seed_address()[10] == '3');
        }
        Ok(out)
    }

    /// The message that hands a transaction to a peer.
    pub fn send_tx(&self, addr: &str, tx: &Transaction) -> (out: Vec<Outgoing>)
        ensures
            outgoing_view(out@) == to_peer(
                self@.node_address,
                addr@,
                MessageView::Tx { addr_from: self@.node_address, transaction: tx@ },
            ),
    {
        let mut out: Vec<Outgoing> = Vec::new();
        let message = Message::Tx(
            TxMsg { addr_from: self.node_address.clone(), transaction: tx.clone() },
        );
        self.push_to(&mut out, addr, message);
        out
    }

    /// Takes note of the peers that a peer knows.
    pub fn handle_addr(&mut self, msg: Vec<String>) -> (out: Result<Vec<Outgoing>, Error>)
        requires
            old(self).wf(),
        ensures
            final(self).wf(),
            out is Ok,
            out->Ok_0@.len() == 0,
            final(self)@ == (ServerView {
                known_nodes: with_nodes(old(self)@.known_nodes, strings_view(msg@)),
                ..old(self)@
            }),
    {
        let mut i: usize = 0;
        let ghost all = strings_view(msg@);
        while i < msg.len()
            invariant
                self.wf(),
                i <= msg@.len(),
                all == strings_view(msg@),
                self@ == (ServerView {
                    known_nodes: with_nodes(old(self)@.known_nodes, all.subrange(0, i as int)),
                    ..old(self)@
                }),
            decreases msg@.len() - i,
        {
            proof {
                let part = all.subrange(0, i as int + 1);
                assert(part.drop_last() =~= all.subrange(0, i as int));
            }
            self.add_nodes(msg[i].as_str());
            i += 1;
        }
        assert(all.subrange(0, i as int) =~= all);
        Ok(Vec::new())
    }

    /// Answers a `version` message and takes note of the peer.
    pub fn handle_version(&mut self, msg: VersionMsg) -> (out: Result<Vec<Outgoing>, Error>)
        requires
            old(self).wf(),
        ensures
            final(self).wf(),
            out is Ok,
            outgoing_view(out->Ok_0@) == version_replies(
                old(self)@,
                msg.addr_from@,
                msg.best_height,
            ),
            final(self)@ == (ServerView {
                known_nodes: with_node(old(self)@.known_nodes, msg.addr_from@),
                ..old(self)@
            }),
    {
        let mut out: Vec<Outgoing> = Vec::new();
        let my_best_height = self.get_best_height();
        let addr = msg.addr_from.as_str();
        if my_best_height < msg.best_height {
            let message = Message::GetBlock(GetBlockMsg { addr_from: self.node_address.clone() });
            self.push_to(&mut out, addr, message);
        }
        if my_best_height > msg.best_height {
            let message = self.version_message();
            self.push_to(&mut out, addr, message);
        }
        let message = Message::Addr(clone_strings(&self.known_nodes));
        self.push_to(&mut out, addr, message);
        self.add_nodes(addr);
        Ok(out)
    }

    /// Answers a request for the hashes of the node's blocks with an
    /// inventory of the best chain, from the tip down.
    pub fn handle_get_blocks(&mut self, msg: GetBlockMsg) -> (out: Result<Vec<Outgoing>, Error>)
        requires
            old(self).wf(),
        ensures
            final(self).wf(),
            out is Ok,
            outgoing_view(out->Ok_0@) == to_peer(
                old(self)@.node_address,
                msg.addr_from@,
                MessageView::Inv {
                    addr_from: old(self)@.node_address,
                    kind: block_kind(),
                    items: hashes_of(best_chain(old(self)@.chain)),
                },
            ),
            final(self)@ == old(self)@,
    {
        let mut out: Vec<Outgoing> = Vec::new();
        let items = self.utxo.blockchain.get_block_hash_list();
        assert(strings_view(items@) =~= hashes_of(best_chain(self@.chain)));
        let message = Message::Inv(
            InvMsg {
                addr_from: self.node_address.clone(),
                kind: String::from_str("block"),
                items,
            },
        );
        self.push_to(&mut out, msg.addr_from.as_str(), message);
        Ok(out)
    }

    /// Answers an inventory: asks for the first block and puts the other
    /// hashes in transit, or asks for the first transaction unless the
    /// mempool holds it.
    pub fn handle_inv(&mut self, msg: InvMsg) -> (out: Result<Vec<Outgoing>, Error>)
        requires
            old(self).wf(),
        ensures
            final(self).wf(),
            match out {
                Ok(sent) => inventory_reply(
                    old(self)@,
                    msg.addr_from@,
                    msg.kind@,
                    strings_view(msg.items@),
                ) == Ok::<(Seq<OutgoingView>, Seq<Seq<char>>), Error>(
                    (outgoing_view(sent@), final(self)@.blocks_in_transit),
                ) && final(self)@ == (ServerView {
                    blocks_in_transit: final(self)@.blocks_in_transit,
                    ..old(self)@
                }),
                Err(e) => inventory_reply(
                    old(self)@,
                    msg.addr_from@,
                    msg.kind@,
                    strings_view(msg.items@),
                ) == Err::<(Seq<OutgoingView>, Seq<Seq<char>>), Error>(e) && final(self)@ == old(
                    self,
                )@,
            },
    {
        let mut out: Vec<Outgoing> = Vec::new();
        assert(outgoing_view(out@) =~= Seq::empty());
        let ghost items = strings_view(msg.items@);
        if same_text(msg.kind.as_str(), "block") {
            if msg.items.len() == 0 {
                return Err(Error::Format);
            }
            let first = msg.items[0].as_str();
            let message = self.get_data_message("block", first);
            self.push_to(&mut out, msg.addr_from.as_str(), message);
            let mut rest: Vec<String> = Vec::new();
            let mut i: usize = 0;
            while i < msg.items.len()
                invariant
                    i <= msg.items@.len(),
                    msg.items@.len() > 0,
                    first@ == items[0],
                    items == strings_view(msg.items@),
                    strings_view(rest@) == items_after_first(items, i as int),
                decreases msg.items@.len() - i,
            {
                if !same_text(msg.items[i].as_str(), first) {
                    rest.push(msg.items[i].clone());
                }
                i += 1;
            }
            self.blocks_in_transit = rest;
            Ok(out)
        } else if same_text(msg.kind.as_str(), "tx") {
            if msg.items.len() == 0 {
                return Err(Error::Format);
            }
            let txid = msg.items[0].as_str();
            let held = find_by_id(&self.mempool, txid).is_some() && !txid.is_empty();
            if !held {
                let message = self.get_data_message("tx", txid);
                self.push_to(&mut out, msg.addr_from.as_str(), message);
            }
            Ok(out)
        } else {
            Ok(out)
        }
    }

    /// Answers a request for a block of the store or a transaction of the
    /// mempool.
    pub fn handle_get_data(&mut self, msg: GetDataMsg) -> (out: Result<Vec<Outgoing>, Error>)
        requires
            old(self).wf(),
        ensures
            final(self).wf(),
            final(self)@ == old(self)@,
            match out {
                Ok(sent) => data_reply(old(self)@, msg.addr_from@, msg.kind@, msg.id@) == Ok::<
                    Seq<OutgoingView>,
                    Error,
                >(outgoing_view(sent@)),
                Err(e) => data_reply(old(self)@, msg.addr_from@, msg.kind@, msg.id@) == Err::<
                    Seq<OutgoingView>,
                    Error,
                >(e),
            },
    {
        let mut out: Vec<Outgoing> = Vec::new();
        assert(outgoing_view(out@) =~= Seq::empty());
        if same_text(msg.kind.as_str(), "block") {
            let block = match self.utxo.blockchain.get_block(msg.id.as_str()) {
                Ok(block) => block,
                Err(e) => {
                    return Err(e);
                },
            };
            let message = Message::Block(BlockMsg { addr_from: self.node_address.clone(), block });
            self.push_to(&mut out, msg.addr_from.as_str(), message);
            Ok(out)
        } else if same_text(msg.kind.as_str(), "tx") {
            let k = match find_by_id(&self.mempool, msg.id.as_str()) {
                Some(k) => k,
                None => {
                    return Err(Error::NotFound);
                },
            };
            let message = Message::Tx(
                TxMsg {
                    addr_from: self.node_address.clone(),
                    transaction: self.mempool[k].clone(),
                },
            );
            self.push_to(&mut out, msg.addr_from.as_str(), message);
            Ok(out)
        } else {
            Ok(out)
        }
    }

    /// Takes a block into the store. Where hashes are in transit it asks
    /// the sender for the next block; else it builds the index anew. On an
    /// error nothing is changed.
    pub fn handle_block(&mut self, msg: BlockMsg) -> (out: Result<Vec<Outgoing>, Error>)
        requires
            old(self).wf(),
        ensures
            final(self).wf(),
            match out {
                Ok(sent) => block_step(old(self)@, msg.addr_from@, msg.block@) == Ok::<
                    (ServerView, Seq<OutgoingView>),
                    Error,
                >((final(self)@, outgoing_view(sent@))),
                Err(e) => block_step(old(self)@, msg.addr_from@, msg.block@) == Err::<
                    (ServerView, Seq<OutgoingView>),
                    Error,
                >(e) && final(self)@ == old(self)@,
            },
    {
        let mut out: Vec<Outgoing> = Vec::new();
        assert(outgoing_view(out@) =~= Seq::empty());
        let BlockMsg { addr_from, block } = msg;
        match self.utxo.blockchain.add_block(block) {
            Ok(()) => {},
            Err(e) => {
                return Err(e);
            },
        }
        if self.blocks_in_transit.len() > 0 {
            let message = self.get_data_message("block", self.blocks_in_transit[0].as_str());
            self.push_to(&mut out, addr_from.as_str(), message);
            let mut rest: Vec<String> = Vec::new();
            let mut i: usize = 1;
            let ghost all = strings_view(self.blocks_in_transit@);
            while i < self.blocks_in_transit.len()
                invariant
                    1 <= i <= self.blocks_in_transit@.len(),
                    all == strings_view(self.blocks_in_transit@),
                    strings_view(rest@) == all.subrange(1, i as int),
                decreases self.blocks_in_transit@.len() - i,
            {
                let ghost sofar = strings_view(rest@);
                rest.push(self.blocks_in_transit[i].clone());
                assert(strings_view(rest@) =~= sofar.push(all[i as int]));
                i += 1;
            }
            self.blocks_in_transit = rest;
        } else {
            self.utxo.reindex();
        }
        Ok(out)
    }

    /// The position of the first transaction of the mempool with the given
    /// id.
    fn slot_of(&self, id: &str) -> (slot: Option<usize>)
        ensures
            match slot {
                Some(k) => slot_from(self@.mempool, id@, 0) == Some(k as int) && k
                    < self.mempool@.len(),
                None => slot_from(self@.mempool, id@, 0) is None,
            },
    {
        let mut i: usize = 0;
        while i < self.mempool.len()
            invariant
                i <= self.mempool@.len(),
                slot_from(self@.mempool, id@, 0) == slot_from(self@.mempool, id@, i as int),
            decreases self.mempool@.len() - i,
        {
            if same_text(self.mempool[i].id.as_str(), id) {
                return Some(i);
            }
            i += 1;
        }
        None
    }

    /// Puts a transaction into the mempool, in the place of the one with
    /// its id or else at the end.
    pub fn insert_mempool(&mut self, tx: Transaction)
        requires
            old(self).wf(),
        ensures
            final(self).wf(),
            final(self)@ == (ServerView {
                mempool: with_transaction(old(self)@.mempool, tx@),
                ..old(self)@
            }),
    {
        proof {
            lemma_with_transaction(self@.mempool, tx@);
        }
        match self.slot_of(tx.id.as_str()) {
            Some(k) => {
                self.mempool.set(k, tx);
                assert(self@.mempool =~= old(self)@.mempool.update(k as int, tx@));
            },
            None => {
                self.mempool.push(tx);
                assert(self@.mempool =~= old(self)@.mempool.push(tx@));
            },
        }
    }

    /// Empties the mempool.
    pub fn clear_mempool(&mut self)
        requires
            old(self).wf(),
        ensures
            final(self).wf(),
            final(self)@ == (ServerView { mempool: Seq::empty(), ..old(self)@ }),
    {
        self.mempool = Vec::new();
        assert(self@.mempool =~= Seq::empty());
    }

    /// Parts the given transactions into those that verify against the
    /// best chain and the others.
    pub fn split_valid(&self, pending: &Vec<Transaction>) -> (parts: (
        Vec<Transaction>,
        Vec<Transaction>,
    ))
        ensures
            transactions_view(parts.0@) == verified_in(
                transactions_view(pending@),
                chain_transactions(best_chain(self@.chain)),
            ),
            transactions_view(parts.1@) == rejected_in(
                transactions_view(pending@),
                chain_transactions(best_chain(self@.chain)),
            ),
            parts.0@.len() + parts.1@.len() == pending@.len(),
    {
        let mut valid: Vec<Transaction> = Vec::new();
        let mut left: Vec<Transaction> = Vec::new();
        let ghost all = transactions_view(pending@);
        let ghost chain_txs = chain_transactions(best_chain(self@.chain));
        let mut i: usize = 0;
        while i < pending.len()
            invariant
                i <= pending@.len(),
                all == transactions_view(pending@),
                chain_txs == chain_transactions(best_chain(self@.chain)),
                transactions_view(valid@) == verified_in(all.subrange(0, i as int), chain_txs),
                transactions_view(left@) == rejected_in(all.subrange(0, i as int), chain_txs),
                valid@.len() + left@.len() == i,
            decreases pending@.len() - i,
        {
            proof {
                let part = all.subrange(0, i as int + 1);
                assert(part.drop_last() =~= all.subrange(0, i as int));
            }
            match self.utxo.blockchain.verify_transaction(&pending[i]) {
                Ok(true) => {
                    valid.push(pending[i].clone());
                },
                _ => {
                    left.push(pending[i].clone());
                },
            }
            i += 1;
        }
        assert(all.subrange(0, i as int) =~= all);
        (valid, left)
    }

    /// Mines the given transactions and the coinbase into a block on top
    /// of the tip, stamped with the given time, and builds the index anew.
    /// On an error nothing is changed.
    pub fn mine_valid(&mut self, valid: Vec<Transaction>, coinbase: Transaction, timestamp: u128) -> (made:
        Result<Block, Error>)
        requires
            old(self).wf(),
        ensures
            final(self).wf(),
            match made {
                Ok(block) => mined_step(
                    old(self)@,
                    transactions_view(valid@),
                    coinbase@,
                    timestamp,
                ) == Ok::<(ServerView, BlockView), Error>((final(self)@, block@)),
                Err(e) => mined_step(
                    old(self)@,
                    transactions_view(valid@),
                    coinbase@,
                    timestamp,
                ) == Err::<(ServerView, BlockView), Error>(e) && final(self)@ == old(self)@,
            },
    {
        let mut txs = valid;
        txs.push(coinbase);
        assert(transactions_view(txs@) =~= transactions_view(valid@).push(coinbase@));
        let block = match self.utxo.blockchain.mine_block_at(txs, timestamp) {
            Ok(block) => block,
            Err(e) => {
                return Err(e);
            },
        };
        self.utxo.reindex();
        Ok(block)
    }

    /// Mines what is pending: as long as transactions of the mempool are
    /// left and some of them verify against the best chain, those are mined
    /// with a fresh coinbase into a block, the index is built anew, and
    /// every peer is told of the block. Then the mempool is emptied. On an
    /// error the mempool is left as it was; blocks that were mined before
    /// the error stay.
    pub fn mine_pending(&mut self) -> (out: Result<Vec<Outgoing>, Error>)
        requires
            old(self).wf(),
        ensures
            final(self).wf(),
            extends(final(self)@.chain, old(self)@.chain),
            mined_pending(old(self)@, final(self)@, answered(out)),
    {
        let mut out: Vec<Outgoing> = Vec::new();
        let ghost before = self@;
        let ghost pool = before.mempool;
        let ghost mut made: Seq<BlockView> = Seq::empty();
        let ghost first = before.chain.blocks.len() as int;
        proof {
            assert(before.chain.blocks.subrange(0, first) =~= before.chain.blocks);
        }
        let mut pending = clone_transactions(&self.mempool);
        let mut done = false;
        while !done
            invariant
                self.wf(),
                before == old(self)@,
                done ==> verified_in(
                    transactions_view(pending@),
                    chain_transactions(best_chain(self@.chain)),
                ).len() == 0,
                pool == before.mempool,
                first == before.chain.blocks.len(),
                extends(self@.chain, before.chain),
                made == self@.chain.blocks.skip(first),
                self@ == after_rounds(before, made, made.len() as int),
                self@ == (ServerView { chain: self@.chain, utxos: self@.utxos, ..before }),
                transactions_view(pending@) == pending_after(before, pool, made, made.len() as int),
                forall|k: int| 0 <= k < made.len() ==> #[trigger] round_mined(before, pool, made, k),
                outgoing_view(out@) == notices(before, made),
            decreases
                    pending@.len() + (if done {
                        0int
                    } else {
                        1int
                    }),
        {
            let (valid, left) = self.split_valid(&pending);
            let ghost good = transactions_view(valid@);
            if valid.len() == 0 {
                done = true;
                continue ;
            }
            let coinbase = match Transaction::new_coinbase(
                self.mining_address.clone(),
                String::new(),
            ) {
                Ok(coinbase) => coinbase,
                Err(e) => {
                    return Err(e);
                },
            };
            let timestamp = match unix_millis() {
                Some(timestamp) => timestamp,
                None => {
                    return Err(Error::Clock);
                },
            };
            let ghost earlier = self@;
            let block = match self.mine_valid(valid, coinbase, timestamp) {
                Ok(block) => block,
                Err(e) => {
                    return Err(e);
                },
            };
            let ghost grown = made.push(block@);
            proof {
                let later = self@.chain;
                let n = made.len() as int;
                assert(later.blocks.subrange(0, first) =~= earlier.chain.blocks.subrange(
                    0,
                    first,
                ));
                lemma_rounds_push(before, pool, made, block@, n);
                assert(block@.transactions.drop_last() =~= good);
                assert forall|k: int| 0 <= k < grown.len() implies #[trigger] round_mined(
                    before,
                    pool,
                    grown,
                    k,
                ) by {
                    if k < n {
                        lemma_rounds_push(before, pool, made, block@, k);
                        lemma_rounds_push(before, pool, made, block@, k + 1);
                        assert(round_mined(before, pool, made, k));
                    }
                }
                assert(grown.drop_last() =~= made);
            }
            let mut items: Vec<String> = Vec::new();
            items.push(block.get_hash());
            assert(strings_view(items@) =~= seq![block@.hash]);
            let message = Message::Inv(
                InvMsg {
                    addr_from: self.node_address.clone(),
                    kind: String::from_str("block"),
                    items,
                },
            );
            self.push_to_all(&mut out, &self.known_nodes, self.node_address.as_str(), &message);
            proof {
                made = grown;
            }
            pending = left;
        }
        self.clear_mempool();
        Ok(out)
    }

    /// Takes a transaction into the mempool. The seed node tells every
    /// other peer but the sender of it. A mining node then mines what is
    /// pending.
    pub fn handle_tx(&mut self, msg: TxMsg) -> (out: Result<Vec<Outgoing>, Error>)
        requires
            old(self).wf(),
        ensures
            final(self).wf(),
            extends(final(self)@.chain, old(self)@.chain),
            tx_handled(
                old(self)@,
                msg.addr_from@,
                msg.transaction@,
                final(self)@,
                answered(out),
            ),
    {
        let TxMsg { addr_from, transaction } = msg;
        let id = transaction.id.clone();
        self.insert_mempool(transaction);
        proof {
            assert(self@.chain.blocks.subrange(0, self@.chain.blocks.len() as int)
                =~= self@.chain.blocks);
        }
        if same_text(self.node_address.as_str(), "localhost:3000") {
            let mut out: Vec<Outgoing> = Vec::new();
            let mut items: Vec<String> = Vec::new();
            items.push(id);
            assert(strings_view(items@) =~= seq![transaction@.id]);
            let message = Message::Inv(
                InvMsg {
                    addr_from: self.node_address.clone(),
                    kind: String::from_str("tx"),
                    items,
                },
            );
            self.push_to_all(&mut out, &self.known_nodes, addr_from.as_str(), &message);
            return Ok(out);
        }
        if self.mining_address.as_str().is_empty() {
            let out: Vec<Outgoing> = Vec::new();
            assert(outgoing_view(out@) =~= Seq::empty());
            return Ok(out);
        }
        self.mine_pending()
    }

    /// Handles a message from a peer and gives the messages to send in
    /// answer.
    pub fn handle_message(&mut self, message: Message) -> (out: Result<Vec<Outgoing>, Error>)
        requires
            old(self).wf(),
        ensures
            final(self).wf(),
            extends(final(self)@.chain, old(self)@.chain),
            handled(old(self)@, message@, final(self)@, answered(out)),
    {
        proof {
            assert(self@.chain.blocks.subrange(0, self@.chain.blocks.len() as int)
                =~= self@.chain.blocks);
        }
        match message {
            Message::Addr(data) => {
                let out = self.handle_addr(data);
                assert(outgoing_view(out->Ok_0@) =~= Seq::empty());
                out
            },
            Message::Block(data) => {
                let ghost block = data.block@;
                let done = self.handle_block(data);
                proof {
                    let after = self@.chain;
                    let first = old(self)@.chain;
                    if done is Ok {
                        assert(after.blocks.subrange(0, first.blocks.len() as int)
                            =~= first.blocks);
                    }
                }
                done
            },
            Message::Inv(data) => self.handle_inv(data),
            Message::GetBlock(data) => self.handle_get_blocks(data),
            Message::GetData(data) => self.handle_get_data(data),
            Message::Tx(data) => self.handle_tx(data),
            Message::Version(data) => self.handle_version(data),
        }
    }
}

/// The messages of an answer, each by its view; or the error.
pub open spec fn answered(out: Result<Vec<Outgoing>, Error>) -> Result<Seq<OutgoingView>, Error> {
    match out {
        Ok(sent) => Ok(outgoing_view(sent@)),
        Err(e) => Err(e),
    }
}

/// The notice of a new block that a node sends: an inventory of the one
/// hash.
pub open spec fn notice_of(s: ServerView, hash: Seq<char>) -> MessageView {
    MessageView::Inv { addr_from: s.node_address, kind: block_kind(), items: seq![hash] }
}

/// The notices of a list of new blocks: for each block in turn one to
/// every known peer but the node itself.
pub open spec fn notices(s: ServerView, made: Seq<BlockView>) -> Seq<OutgoingView>
    decreases made.len(),
{
    if made.len() == 0 {
        Seq::empty()
    } else {
        notices(s, made.drop_last()) + broadcast(
            s.known_nodes,
            s.node_address,
            s.node_address,
            notice_of(s, made.last().hash),
        )
    }
}

/// Whether a transaction is a reward for an address: a coinbase to it that
/// carries the reward label and 32 bytes.
pub open spec fn is_reward(address: Seq<char>, tx: TransactionView) -> bool {
    exists|key: Seq<u8>|
        key.len() == 32 && #[trigger] coinbase_of(address, Seq::<char>::empty(), key) == Some(tx)
}

/// The node after the first `k` of the blocks `made` were mined, one after
/// the other, and the index was built anew after each.
pub open spec fn after_rounds(s: ServerView, made: Seq<BlockView>, k: int) -> ServerView
    decreases k,
{
    if k <= 0 || k > made.len() {
        s
    } else {
        let prev = after_rounds(s, made, k - 1);
        let chain = with_block(prev.chain, made[k - 1]);
        ServerView {
            chain,
            utxos: unspent_outputs(chain_transactions(best_chain(chain))),
            ..prev
        }
    }
}

/// The transactions that are still pending after the first `k` of the
/// blocks `made` were mined: those that verified in none of the rounds.
pub open spec fn pending_after(
    s: ServerView,
    pool: Seq<TransactionView>,
    made: Seq<BlockView>,
    k: int,
) -> Seq<TransactionView>
    decreases k,
{
    if k <= 0 || k > made.len() {
        pool
    } else {
        rejected_in(
            pending_after(s, pool, made, k - 1),
            chain_transactions(best_chain(after_rounds(s, made, k - 1).chain)),
        )
    }
}

/// Whether block `k` of the blocks `made` is what round `k` of mining
/// gives: the pending transactions that verify against the best chain,
/// followed by a reward for the mining address, mined on top of the tip at
/// the block's time.
pub open spec fn round_mined(
    s: ServerView,
    pool: Seq<TransactionView>,
    made: Seq<BlockView>,
    k: int,
) -> bool {
    let at = after_rounds(s, made, k);
    let valid = verified_in(
        pending_after(s, pool, made, k),
        chain_transactions(best_chain(at.chain)),
    );
    let block = made[k];
    &&& valid.len() > 0
    &&& block.transactions.len() > 0
    &&& block.transactions.drop_last() == valid
    &&& is_reward(s.mining_address, block.transactions.last())
    &&& mined_step(at, valid, block.transactions.last(), block.timestamp) == Ok::<
        (ServerView, BlockView),
        Error,
    >((after_rounds(s, made, k + 1), block))
}

/// What mining the pending transactions of a node ends with. The blocks
/// that the chain has gained are each what a round of mining gives. Where
/// it goes well no pending transaction verifies any more, the mempool is
/// empty, and every peer is told of every new block. Where it fails the
/// mempool is as it was and a pending transaction verifies. The error is
/// `Format` exactly where the mining address is no address; else it is
/// that no random bytes are to be had, that the clock cannot be read, or
/// that of mining.
pub open spec fn mined_pending(
    s: ServerView,
    last: ServerView,
    out: Result<Seq<OutgoingView>, Error>,
) -> bool {
    let made = last.chain.blocks.skip(s.chain.blocks.len() as int);
    let n = made.len() as int;
    let left = verified_in(
        pending_after(s, s.mempool, made, n),
        chain_transactions(best_chain(last.chain)),
    );
    &&& forall|k: int| 0 <= k < n ==> #[trigger] round_mined(s, s.mempool, made, k)
    &&& match out {
        Ok(sent) => {
            &&& last == (ServerView { mempool: Seq::empty(), ..after_rounds(s, made, n) })
            &&& left.len() == 0
            &&& sent == notices(s, made)
        },
        Err(e) => {
            &&& last == after_rounds(s, made, n)
            &&& left.len() > 0
            &&& if address_body_of(s.mining_address) is None {
                e == Error::Format
            } else {
                e == Error::Random || e == Error::Clock || exists|
                    reward: TransactionView,
                    timestamp: u128,
                |
                    is_reward(s.mining_address, reward) && #[trigger] mined_step(
                        last,
                        left,
                        reward,
                        timestamp,
                    ) == Err::<(ServerView, BlockView), Error>(e)
            }
        },
    }
}

/// What the handling of a transaction ends with. The transaction is in
/// the mempool. The seed node tells every other peer but the sender of it;
/// a node without a mining address does no more; a mining node mines what
/// is pending.
pub open spec fn tx_handled(
    s: ServerView,
    addr_from: Seq<char>,
    tx: TransactionView,
    last: ServerView,
    out: Result<Seq<OutgoingView>, Error>,
) -> bool {
    let taken = ServerView { mempool: with_transaction(s.mempool, tx), ..s };
    if s.node_address == seed_address() {
        last == taken && out == Ok::<Seq<OutgoingView>, Error>(
            broadcast(
                s.known_nodes,
                s.node_address,
                addr_from,
                MessageView::Inv { addr_from: s.node_address, kind: tx_kind(), items: seq![tx.id] },
            ),
        )
    } else if s.mining_address.len() == 0 {
        last == taken && out == Ok::<Seq<OutgoingView>, Error>(Seq::empty())
    } else {
        mined_pending(taken, last, out)
    }
}

/// The node after a message other than a transaction, and what it sends;
/// or the error, on which the node stays as it is.
pub open spec fn after_message(s: ServerView, message: MessageView) -> Result<
    (ServerView, Seq<OutgoingView>),
    Error,
> {
    match message {
        MessageView::Addr { nodes } => Ok(
            (ServerView { known_nodes: with_nodes(s.known_nodes, nodes), ..s }, Seq::empty()),
        ),
        MessageView::Version { addr_from, version, best_height } => Ok(
            (
                ServerView { known_nodes: with_node(s.known_nodes, addr_from), ..s },
                version_replies(s, addr_from, best_height),
            ),
        ),
        MessageView::GetBlock { addr_from } => Ok(
            (
                s,
                to_peer(
                    s.node_address,
                    addr_from,
                    MessageView::Inv {
                        addr_from: s.node_address,
                        kind: block_kind(),
                        items: hashes_of(best_chain(s.chain)),
                    },
                ),
            ),
        ),
        MessageView::Inv { addr_from, kind, items } => match inventory_reply(
            s,
            addr_from,
            kind,
            items,
        ) {
            Ok((sent, transit)) => Ok((ServerView { blocks_in_transit: transit, ..s }, sent)),
            Err(e) => Err(e),
        },
        MessageView::GetData { addr_from, kind, id } => match data_reply(s, addr_from, kind, id) {
            Ok(sent) => Ok((s, sent)),
            Err(e) => Err(e),
        },
        MessageView::Block { addr_from, block } => block_step(s, addr_from, block),
        MessageView::Tx { .. } => Ok((s, Seq::empty())),
    }
}

/// What the handling of a message ends with.
pub open spec fn handled(
    s: ServerView,
    message: MessageView,
    last: ServerView,
    out: Result<Seq<OutgoingView>, Error>,
) -> bool {
    match message {
        MessageView::Tx { addr_from, transaction } => tx_handled(
            s,
            addr_from,
            transaction,
            last,
            out,
        ),
        _ => match after_message(s, message) {
            Ok((next, sent)) => last == next && out == Ok::<Seq<OutgoingView>, Error>(sent),
            Err(e) => last == s && out == Err::<Seq<OutgoingView>, Error>(e),
        },
    }
}

/// One more block at the end does not change what the rounds before it
/// gave.
pub proof fn lemma_rounds_push(
    s: ServerView,
    pool: Seq<TransactionView>,
    made: Seq<BlockView>,
    block: BlockView,
    k: int,
)
    requires
        0 <= k <= made.len(),
    ensures
        after_rounds(s, made.push(block), k) == after_rounds(s, made, k),
        pending_after(s, pool, made.push(block), k) == pending_after(s, pool, made, k),
    decreases k,
{
    if k > 0 {
        lemma_rounds_push(s, pool, made, block, k - 1);
    }
}

} // verus!
