use crate::address::{address_body, address_body_of};
use crate::codec::{encode_transaction, transaction_encoding};
use crate::digest::{hex_string, sha256_hex, sha256_of};
use crate::ed25519;
use crate::error::Error;
use crate::random::random_bytes;
use crate::blockchain::{best_chain, chain_transactions, signing_in_chain};
use crate::utxo_set::{lemma_picked_places, picked_view, selection, UTXOSet, UtxoView};
use crate::wallets::{hash_pub_key, pub_key_hash_of, wallet_at, Wallet, WalletView, Wallets};
use vstd::prelude::*;
use vstd::string::StringExecFns;
use vstd::utf8::encode_utf8;

verus! {

/// What a miner earns for a block.
pub const SUBSIDY: i32 = 10;

/// A reference to an output of an earlier transaction, with the proof that
/// the spender may use it.
#[derive(Debug)]
pub struct TXInput {
    pub txid: String,
    pub vout: i32,
    pub signature: Vec<u8>,
    pub pub_key: Vec<u8>,
}

/// An amount locked to the hash of a public key.
#[derive(Debug)]
pub struct TXOutput {
    pub value: i32,
    pub pub_key_hash: Vec<u8>,
}

/// A list of outputs.
#[derive(Debug)]
pub struct TXOutputs {
    pub outputs: Vec<TXOutput>,
}

/// A transfer: inputs that spend earlier outputs, and new outputs.
#[derive(Debug)]
pub struct Transaction {
    pub id: String,
    pub vin: Vec<TXInput>,
    pub vout: Vec<TXOutput>,
}

/// An input as the contracts see it.
pub struct TXInputView {
    pub txid: Seq<char>,
    pub vout: i32,
    pub signature: Seq<u8>,
    pub pub_key: Seq<u8>,
}

/// An output as the contracts see it.
pub struct TXOutputView {
    pub value: i32,
    pub pub_key_hash: Seq<u8>,
}

/// A transaction as the contracts see it.
pub struct TransactionView {
    pub id: Seq<char>,
    pub vin: Seq<TXInputView>,
    pub vout: Seq<TXOutputView>,
}

impl View for TXInput {
    type V = TXInputView;

    open spec fn view(&self) -> TXInputView {
        TXInputView {
            txid: self.txid@,
            vout: self.vout,
            signature: self.signature@,
            pub_key: self.pub_key@,
        }
    }
}

impl View for TXOutput {
    type V = TXOutputView;

    open spec fn view(&self) -> TXOutputView {
        TXOutputView { value: self.value, pub_key_hash: self.pub_key_hash@ }
    }
}

/// The inputs of a list, each by its view.
pub open spec fn inputs_view(inputs: Seq<TXInput>) -> Seq<TXInputView> {
    Seq::new(inputs.len(), |i: int| inputs[i]@)
}

/// The outputs of a list, each by its view.
pub open spec fn outputs_view(outputs: Seq<TXOutput>) -> Seq<TXOutputView> {
    Seq::new(outputs.len(), |i: int| outputs[i]@)
}

/// The transactions of a list, each by its view.
pub open spec fn transactions_view(txs: Seq<Transaction>) -> Seq<TransactionView> {
    Seq::new(txs.len(), |i: int| txs[i]@)
}

impl View for TXOutputs {
    type V = Seq<TXOutputView>;

    open spec fn view(&self) -> Seq<TXOutputView> {
        outputs_view(self.outputs@)
    }
}

impl View for Transaction {
    type V = TransactionView;

    open spec fn view(&self) -> TransactionView {
        TransactionView {
            id: self.id@,
            vin: inputs_view(self.vin@),
            vout: outputs_view(self.vout@),
        }
    }
}

impl Clone for TXInput {
    fn clone(&self) -> (copy: Self)
        ensures
            copy@ == self@,
    {
        TXInput {
            txid: self.txid.clone(),
            vout: self.vout,
            signature: self.signature.clone(),
            pub_key: self.pub_key.clone(),
        }
    }
}

impl Clone for TXOutput {
    fn clone(&self) -> (copy: Self)
        ensures
            copy@ == self@,
    {
        TXOutput { value: self.value, pub_key_hash: self.pub_key_hash.clone() }
    }
}

/// A copy of a list of inputs.
pub fn clone_inputs(inputs: &Vec<TXInput>) -> (copy: Vec<TXInput>)
    ensures
        inputs_view(copy@) == inputs_view(inputs@),
{
    let mut copy: Vec<TXInput> = Vec::new();
    let mut i: usize = 0;
    while i < inputs.len()
        invariant
            i <= inputs@.len(),
            copy@.len() == i,
            forall|k: int| 0 <= k < i ==> copy@[k]@ == inputs@[k]@,
        decreases inputs@.len() - i,
    {
        copy.push(inputs[i].clone());
        i += 1;
    }
    copy
}

/// A copy of a list of outputs.
pub fn clone_outputs(outputs: &Vec<TXOutput>) -> (copy: Vec<TXOutput>)
    ensures
        outputs_view(copy@) == outputs_view(outputs@),
{
    let mut copy: Vec<TXOutput> = Vec::new();
    let mut i: usize = 0;
    while i < outputs.len()
        invariant
            i <= outputs@.len(),
            copy@.len() == i,
            forall|k: int| 0 <= k < i ==> copy@[k]@ == outputs@[k]@,
        decreases outputs@.len() - i,
    {
        copy.push(outputs[i].clone());
        i += 1;
    }
    copy
}

impl Clone for TXOutputs {
    fn clone(&self) -> (copy: Self)
        ensures
            copy@ == self@,
    {
        TXOutputs { outputs: clone_outputs(&self.outputs) }
    }
}

impl Clone for Transaction {
    fn clone(&self) -> (copy: Self)
        ensures
            copy@ == self@,
    {
        Transaction {
            id: self.id.clone(),
            vin: clone_inputs(&self.vin),
            vout: clone_outputs(&self.vout),
        }
    }
}

/// A copy of a list of transactions.
pub fn clone_transactions(txs: &Vec<Transaction>) -> (copy: Vec<Transaction>)
    ensures
        transactions_view(copy@) == transactions_view(txs@),
{
    let mut copy: Vec<Transaction> = Vec::new();
    let mut i: usize = 0;
    while i < txs.len()
        invariant
            i <= txs@.len(),
            copy@.len() == i,
            forall|k: int| 0 <= k < i ==> copy@[k]@ == txs@[k]@,
        decreases txs@.len() - i,
    {
        copy.push(txs[i].clone());
        i += 1;
    }
    copy
}

/// Whether two byte strings are equal.
pub fn bytes_eq(a: &[u8], b: &[u8]) -> (same: bool)
    ensures
        same == (a@ == b@),
{
    if a.len() != b.len() {
        return false;
    }
    let mut i: usize = 0;
    while i < a.len()
        invariant
            a@.len() == b@.len(),
            i <= a@.len(),
            forall|k: int| 0 <= k < i ==> a@[k] == b@[k],
        decreases a@.len() - i,
    {
        if a[i] != b[i] {
            return false;
        }
        i += 1;
    }
    assert(a@ =~= b@);
    true
}

/// The id that a transaction's contents give: the SHA-256 digest, in
/// hexadecimal, of the encoding of the transaction with its id cleared.
pub open spec fn tx_hash(tx: TransactionView) -> Seq<char> {
    hex_string(
        sha256_of(
            transaction_encoding(TransactionView { id: Seq::empty(), vin: tx.vin, vout: tx.vout }),
        ),
    )
}

/// A coinbase has one input, which names no transaction and the output -1.
pub open spec fn is_coinbase_tx(tx: TransactionView) -> bool {
    tx.vin.len() == 1 && tx.vin[0].txid.len() == 0 && tx.vin[0].vout == -1
}

/// An input without its signature and public key.
pub open spec fn cleared_input(input: TXInputView) -> TXInputView {
    TXInputView {
        txid: input.txid,
        vout: input.vout,
        signature: Seq::empty(),
        pub_key: Seq::empty(),
    }
}

/// The trimmed copy: every input cleared, everything else kept.
pub open spec fn trimmed(tx: TransactionView) -> TransactionView {
    TransactionView {
        id: tx.id,
        vin: Seq::new(tx.vin.len(), |i: int| cleared_input(tx.vin[i])),
        vout: tx.vout,
    }
}

/// The trimmed copy in which input `i` carries the hash that locks the
/// output it spends.
pub open spec fn signing_copy(tx: TransactionView, i: int, pub_key_hash: Seq<u8>) -> TransactionView {
    TransactionView {
        id: tx.id,
        vin: trimmed(tx).vin.update(
            i,
            TXInputView {
                txid: tx.vin[i].txid,
                vout: tx.vin[i].vout,
                signature: Seq::empty(),
                pub_key: pub_key_hash,
            },
        ),
        vout: tx.vout,
    }
}

/// The message that the signature of input `i` is made of: the bytes of the
/// id of the signing copy.
pub open spec fn signing_message(tx: TransactionView, i: int, pub_key_hash: Seq<u8>) -> Seq<u8> {
    encode_utf8(tx_hash(signing_copy(tx, i, pub_key_hash)))
}

/// The first transaction of a list, from position `from` on, that has the
/// given id.
pub open spec fn lookup_from(txs: Seq<TransactionView>, id: Seq<char>, from: int) -> Option<
    TransactionView,
>
    decreases txs.len() - from,
{
    if from < 0 || from >= txs.len() {
        None
    } else if txs[from].id == id {
        Some(txs[from])
    } else {
        lookup_from(txs, id, from + 1)
    }
}

/// The first transaction of a list that has the given id.
pub open spec fn lookup(txs: Seq<TransactionView>, id: Seq<char>) -> Option<TransactionView> {
    lookup_from(txs, id, 0)
}

/// Whether the transaction that an input names is among `prev_txs` and has
/// an id.
pub open spec fn prev_known(prev_txs: Seq<TransactionView>, input: TXInputView) -> bool {
    lookup(prev_txs, input.txid) is Some && input.txid.len() > 0
}

/// The output that an input spends, where the named transaction is among
/// `prev_txs` and has an output at the named position.
pub open spec fn spent_output(prev_txs: Seq<TransactionView>, input: TXInputView) -> Option<
    TXOutputView,
> {
    match lookup(prev_txs, input.txid) {
        Some(prev) => if 0 <= input.vout < prev.vout.len() {
            Some(prev.vout[input.vout as int])
        } else {
            None
        },
        None => None,
    }
}

/// Whether every input names a known transaction and an output of it.
pub open spec fn inputs_resolve(tx: TransactionView, prev_txs: Seq<TransactionView>) -> bool {
    forall|i: int|
        0 <= i < tx.vin.len() ==> prev_known(prev_txs, #[trigger] tx.vin[i]) && spent_output(
            prev_txs,
            tx.vin[i],
        ) is Some
}

/// Whether input `i` may spend an output that is locked to `pub_key_hash`:
/// its public key hashes to that hash, key and signature are long enough,
/// and the signature is accepted for the signing message.
pub open spec fn input_accepted(tx: TransactionView, i: int, pub_key_hash: Seq<u8>) -> bool {
    pub_key_hash_of(tx.vin[i].pub_key) == pub_key_hash && tx.vin[i].pub_key.len() >= 32
        && tx.vin[i].signature.len() >= 64 && ed25519::accepts(
        signing_message(tx, i, pub_key_hash),
        tx.vin[i].pub_key,
        tx.vin[i].signature,
    )
}

/// The verdict on the inputs from position `i` on, taken in order: the
/// first input whose output does not exist makes the transaction invalid,
/// the first whose key does not own the output it spends, or whose
/// signature is not accepted, makes the verdict `false`.
pub open spec fn verify_inputs(tx: TransactionView, prev_txs: Seq<TransactionView>, i: int) -> Result<
    bool,
    Error,
>
    decreases tx.vin.len() - i,
{
    if i < 0 || i >= tx.vin.len() {
        Ok(true)
    } else {
        match spent_output(prev_txs, tx.vin[i]) {
            None => Err(Error::InvalidTransaction),
            Some(out) => if input_accepted(tx, i, out.pub_key_hash) {
                verify_inputs(tx, prev_txs, i + 1)
            } else {
                Ok(false)
            },
        }
    }
}

/// Where the inputs from position `i` on are all accepted, each of them
/// names an output that exists.
pub proof fn lemma_accepted_outputs_exist(
    tx: TransactionView,
    prev_txs: Seq<TransactionView>,
    i: int,
)
    requires
        0 <= i,
        verify_inputs(tx, prev_txs, i) == Ok::<bool, Error>(true),
    ensures
        forall|k: int|
            i <= k < tx.vin.len() ==> spent_output(prev_txs, #[trigger] tx.vin[k]) is Some,
    decreases tx.vin.len() - i,
{
    if i < tx.vin.len() {
        lemma_accepted_outputs_exist(tx, prev_txs, i + 1);
    }
}

/// The verdict on a transaction against the transactions it spends from.
/// A coinbase passes. Otherwise every input must name a known transaction
/// with an id; then the inputs are judged in order.
pub open spec fn verification(tx: TransactionView, prev_txs: Seq<TransactionView>) -> Result<
    bool,
    Error,
> {
    if is_coinbase_tx(tx) {
        Ok(true)
    } else if exists|i: int| 0 <= i < tx.vin.len() && !prev_known(prev_txs, #[trigger] tx.vin[i]) {
        Err(Error::InvalidTransaction)
    } else {
        verify_inputs(tx, prev_txs, 0)
    }
}

/// The inputs after signing: input `i` carries the signature of its signing
/// message under the key, and keeps the rest.
pub open spec fn signed_inputs(
    tx: TransactionView,
    private_key: Seq<u8>,
    prev_txs: Seq<TransactionView>,
) -> Seq<TXInputView> {
    Seq::new(
        tx.vin.len(),
        |i: int|
            TXInputView {
                txid: tx.vin[i].txid,
                vout: tx.vin[i].vout,
                signature: ed25519::signature_of(
                    signing_message(tx, i, spent_output(prev_txs, tx.vin[i])->0.pub_key_hash),
                    private_key,
                ),
                pub_key: tx.vin[i].pub_key,
            },
    )
}

/// Whether every input carries a signature of 64 bytes.
pub open spec fn signatures_whole(tx: TransactionView) -> bool {
    forall|i: int| 0 <= i < tx.vin.len() ==> (#[trigger] tx.vin[i]).signature.len() == 64
}

/// What signing makes of a transaction, or the error it ends with. A
/// coinbase is left as it is. The key must have 64 bytes or more, and every
/// input must name a known transaction and an output of it.
pub open spec fn signing(
    tx: TransactionView,
    private_key: Seq<u8>,
    prev_txs: Seq<TransactionView>,
) -> Result<TransactionView, Error> {
    if is_coinbase_tx(tx) {
        Ok(tx)
    } else if !inputs_resolve(tx, prev_txs) {
        Err(Error::InvalidTransaction)
    } else if private_key.len() < 64 {
        Err(Error::Format)
    } else {
        Ok(
            TransactionView {
                id: tx.id,
                vin: signed_inputs(tx, private_key, prev_txs),
                vout: tx.vout,
            },
        )
    }
}

/// The label of a reward that carries no data of its own.
pub open spec fn reward_label(to: Seq<char>) -> Seq<char> {
    "Reward to '"@ + to + "'"@
}

/// The coinbase that pays the subsidy to `to`. Its one input carries the
/// bytes of `data`, or of the reward label where `data` is empty, followed
/// by `key`. There is none where `to` is no address.
pub open spec fn coinbase_of(to: Seq<char>, data: Seq<char>, key: Seq<u8>) -> Option<
    TransactionView,
> {
    let label = if data.len() == 0 {
        reward_label(to)
    } else {
        data
    };
    let input = TXInputView {
        txid: Seq::empty(),
        vout: -1i32,
        signature: Seq::empty(),
        pub_key: encode_utf8(label) + key,
    };
    match address_body_of(to) {
        Some(hash) => {
            let vin = seq![input];
            let vout = seq![TXOutputView { value: SUBSIDY, pub_key_hash: hash }];
            Some(
                TransactionView {
                    id: tx_hash(TransactionView { id: Seq::empty(), vin, vout }),
                    vin,
                    vout,
                },
            )
        },
        None => None,
    }
}

/// The inputs of a transfer: one for each picked output, with the
/// spender's public key and no signature yet.
pub open spec fn transfer_inputs(picked: Seq<(Seq<char>, i32)>, pub_key: Seq<u8>) -> Seq<
    TXInputView,
> {
    Seq::new(
        picked.len(),
        |i: int|
            TXInputView {
                txid: picked[i].0,
                vout: picked[i].1,
                signature: Seq::empty(),
                pub_key,
            },
    )
}

/// The outputs of a transfer: the amount for the receiver and, where more
/// was picked than the amount, the rest for the spender.
pub open spec fn transfer_outputs(
    amount: i32,
    sum: int,
    to_hash: Seq<u8>,
    own_hash: Seq<u8>,
) -> Seq<TXOutputView> {
    if sum > amount {
        seq![
            TXOutputView { value: amount, pub_key_hash: to_hash },
            TXOutputView { value: (sum - amount) as i32, pub_key_hash: own_hash },
        ]
    } else {
        seq![TXOutputView { value: amount, pub_key_hash: to_hash }]
    }
}

/// The signed transaction that moves `amount` from a wallet to the address
/// `to`, given the index of unspent outputs and the transactions of the
/// best chain; or the error. The picked outputs must reach the amount, the
/// address must decode, and the rest must fit a 32-bit signed integer.
pub open spec fn transfer(
    wallet: WalletView,
    to: Seq<char>,
    amount: i32,
    utxos: Seq<UtxoView>,
    chain_txs: Seq<TransactionView>,
) -> Result<TransactionView, Error> {
    let own_hash = pub_key_hash_of(wallet.public_key);
    match selection(utxos, own_hash, amount) {
        None => Err(Error::Overflow),
        Some((sum, picked)) => if sum < amount {
            Err(Error::InsufficientFunds { balance: sum as i32 })
        } else {
            match address_body_of(to) {
                None => Err(Error::Format),
                Some(to_hash) => if sum - amount > i32::MAX {
                    Err(Error::Overflow)
                } else {
                    let vin = transfer_inputs(picked, wallet.public_key);
                    let vout = transfer_outputs(amount, sum, to_hash, own_hash);
                    signing_in_chain(
                        TransactionView {
                            id: tx_hash(TransactionView { id: Seq::empty(), vin, vout }),
                            vin,
                            vout,
                        },
                        wallet.secret_key,
                        chain_txs,
                    )
                },
            }
        },
    }
}

/// The signed transaction that moves `amount` from the wallet that a
/// keystore holds under the address `from` to the address `to`; `NotFound`
/// where the keystore holds no wallet under one of the two addresses.
pub open spec fn transfer_from(
    wallets: Seq<(Seq<char>, WalletView)>,
    from: Seq<char>,
    to: Seq<char>,
    amount: i32,
    utxos: Seq<UtxoView>,
    chain_txs: Seq<TransactionView>,
) -> Result<TransactionView, Error> {
    match wallet_at(wallets, from) {
        Some(wallet) => if wallet_at(wallets, to) is Some {
            transfer(wallet, to, amount, utxos, chain_txs)
        } else {
            Err(Error::NotFound)
        },
        None => Err(Error::NotFound),
    }
}

/// The id that the contents give does not depend on the id that the
/// transaction carries, and giving a transaction that id does not change
/// the id that its contents give.
pub proof fn lemma_hash_ignores_id(tx: TransactionView, id: Seq<char>)
    ensures
        tx_hash(TransactionView { id, vin: tx.vin, vout: tx.vout }) == tx_hash(tx),
        tx_hash(TransactionView { id: tx_hash(tx), vin: tx.vin, vout: tx.vout }) == tx_hash(tx),
{
}

/// The message that an input's signature is made of depends on the ids
/// and places that the inputs name and on the outputs, and on nothing
/// else: not on the transaction's id, nor on any signature or public key.
pub proof fn lemma_message_ignores_signatures(
    a: TransactionView,
    b: TransactionView,
    i: int,
    pub_key_hash: Seq<u8>,
)
    requires
        0 <= i < a.vin.len(),
        a.vin.len() == b.vin.len(),
        a.vout == b.vout,
        forall|k: int|
            0 <= k < a.vin.len() ==> (#[trigger] a.vin[k]).txid == b.vin[k].txid && a.vin[k].vout
                == b.vin[k].vout,
    ensures
        signing_message(a, i, pub_key_hash) == signing_message(b, i, pub_key_hash),
{
    assert(signing_copy(a, i, pub_key_hash).vin =~= signing_copy(b, i, pub_key_hash).vin);
}

/// Signing is a function of the transaction, the key and the transactions
/// spent from; and signing what was signed before, with the same key over
/// the same transactions, changes nothing.
pub proof fn lemma_signing_is_stable(
    tx: TransactionView,
    private_key: Seq<u8>,
    prev_txs: Seq<TransactionView>,
)
    requires
        signing(tx, private_key, prev_txs) is Ok,
    ensures
        signing(signing(tx, private_key, prev_txs)->Ok_0, private_key, prev_txs) == signing(
            tx,
            private_key,
            prev_txs,
        ),
{
    let signed = signing(tx, private_key, prev_txs)->Ok_0;
    if !is_coinbase_tx(tx) {
        assert forall|i: int| 0 <= i < tx.vin.len() implies signed_inputs(
            signed,
            private_key,
            prev_txs,
        )[i] == #[trigger] signed.vin[i] by {
            let hash = spent_output(prev_txs, tx.vin[i])->0.pub_key_hash;
            lemma_message_ignores_signatures(signed, tx, i, hash);
        }
        assert(signed_inputs(signed, private_key, prev_txs) =~= signed.vin);
    }
}

/// A string of `n` zero bytes.
pub open spec fn zeros(n: nat) -> Seq<u8> {
    Seq::new(n, |i: int| 0u8)
}

impl TXInput {
    /// Whether the input's public key hashes to `pub_key_hash`.
    pub fn uses_key(&self, pub_key_hash: &[u8]) -> (uses: bool)
        ensures
            uses == (pub_key_hash_of(self.pub_key@) == pub_key_hash@),
    {
        let mut hash = self.pub_key.clone();
        hash_pub_key(&mut hash);
        bytes_eq(hash.as_slice(), pub_key_hash)
    }
}

impl TXOutput {
    /// An output of `value` locked to the owner of `address`.
    pub fn new(value: i32, address: String) -> (made: Result<Self, Error>)
        ensures
            match made {
                Ok(out) => address_body_of(address@) == Some(out.pub_key_hash@) && out.value
                    == value,
                Err(e) => address_body_of(address@) is None && e == Error::Format,
            },
    {
        match address_body(address.as_str()) {
            Some(pub_key_hash) => Ok(TXOutput { value, pub_key_hash }),
            None => Err(Error::Format),
        }
    }

    /// Whether the output is locked to `pub_key_hash`.
    pub fn is_locked_with_key(&self, pub_key_hash: &[u8]) -> (locked: bool)
        ensures
            locked == (self.pub_key_hash@ == pub_key_hash@),
    {
        bytes_eq(self.pub_key_hash.as_slice(), pub_key_hash)
    }
}

/// Whether two strings hold the same text.
pub fn same_text(a: &str, b: &str) -> (same: bool)
    ensures
        same == (a@ == b@),
{
    String::from_str(a) == String::from_str(b)
}

/// The position of the first transaction of `txs` that has the id `id`.
pub fn find_by_id(txs: &Vec<Transaction>, id: &str) -> (found: Option<usize>)
    ensures
        match found {
            Some(k) => k < txs@.len() && lookup(transactions_view(txs@), id@) == Some(
                txs@[k as int]@,
            ) && txs@[k as int]@.id == id@ && forall|j: int|
                0 <= j < k ==> (#[trigger] txs@[j])@.id != id@,
            None => lookup(transactions_view(txs@), id@) is None,
        },
{
    let mut i: usize = 0;
    while i < txs.len()
        invariant
            i <= txs@.len(),
            forall|j: int| 0 <= j < i ==> (#[trigger] txs@[j])@.id != id@,
            lookup(transactions_view(txs@), id@) == lookup_from(
                transactions_view(txs@),
                id@,
                i as int,
            ),
        decreases txs@.len() - i,
    {
        if same_text(txs[i].id.as_str(), id) {
            return Some(i);
        }
        i += 1;
    }
    None
}

impl Transaction {
    /// The coinbase that pays the subsidy to `to`. With empty `data` the
    /// input carries a reward label and 32 random bytes, so that two rewards
    /// to one address differ; with other `data` it carries the data and 32
    /// zero bytes. An address that does not decode is refused before any
    /// random bytes are drawn.
    pub fn new_coinbase(to: String, data: String) -> (made: Result<Transaction, Error>)
        ensures
            match made {
                Ok(tx) => exists|key: Seq<u8>|
                    key.len() == 32 && (data@.len() > 0 ==> key == zeros(32)) && #[trigger] coinbase_of(
                        to@,
                        data@,
                        key,
                    ) == Some(tx@),
                Err(e) => if address_body_of(to@) is None {
                    e == Error::Format
                } else {
                    e == Error::Random && data@.len() == 0
                },
            },
    {
        if address_body(to.as_str()).is_none() {
            return Err(Error::Format);
        }
        let key = if data.as_str().is_empty() {
            match random_bytes(32) {
                Some(key) => key,
                None => {
                    return Err(Error::Random);
                },
            }
        } else {
            let mut zero: Vec<u8> = Vec::new();
            while zero.len() < 32
                invariant
                    zero@.len() <= 32,
                    forall|k: int| 0 <= k < zero@.len() ==> zero@[k] == 0u8,
                decreases 32 - zero@.len(),
            {
                zero.push(0u8);
            }
            zero
        };
        Self::coinbase_with_key(to, data, key.as_slice())
    }

    /// The coinbase that pays the subsidy to `to`, with `key` as the bytes
    /// that follow the label or the data in its input.
    pub fn coinbase_with_key(to: String, data: String, key: &[u8]) -> (made: Result<
        Transaction,
        Error,
    >)
        ensures
            match made {
                Ok(tx) => coinbase_of(to@, data@, key@) == Some(tx@),
                Err(e) => coinbase_of(to@, data@, key@) is None && e == Error::Format,
            },
    {
        let label = if data.as_str().is_empty() {
            String::from_str("Reward to '").concat(to.as_str()).concat("'")
        } else {
            data
        };
        let mut pub_key = label.as_str().as_bytes_vec();
        let mut i: usize = 0;
        while i < key.len()
            invariant
                i <= key@.len(),
                pub_key@ == encode_utf8(label@) + key@.subrange(0, i as int),
            decreases key@.len() - i,
        {
            pub_key.push(key[i]);
            i += 1;
        }
        assert(key@.subrange(0, i as int) =~= key@);
        let output = match TXOutput::new(SUBSIDY, to) {
            Ok(output) => output,
            Err(e) => {
                return Err(e);
            },
        };
        let mut vin: Vec<TXInput> = Vec::new();
        vin.push(TXInput { txid: String::new(), vout: -1, signature: Vec::new(), pub_key });
        let mut vout: Vec<TXOutput> = Vec::new();
        vout.push(output);
        let mut tx = Transaction { id: String::new(), vin, vout };
        let id = tx.digest();
        tx.id = id;
        proof {
            let body = coinbase_of(to@, data@, key@)->0;
            assert(tx@.vin =~= body.vin);
            assert(tx@.vout =~= body.vout);
        }
        Ok(tx)
    }

    /// A signed transaction that moves `amount` from the wallet to the
    /// address `to`. It spends outputs of the index that are locked to the
    /// wallet, and returns what they hold beyond the amount to the wallet.
    pub fn new_utxo(wallet: &Wallet, to: &str, amount: i32, utxo: &UTXOSet) -> (made: Result<
        Transaction,
        Error,
    >)
        ensures
            match made {
                Ok(tx) => transfer(
                    wallet@,
                    to@,
                    amount,
                    utxo.unspent(),
                    chain_transactions(best_chain(utxo.blockchain@)),
                ) == Ok::<TransactionView, Error>(tx@) && signatures_whole(tx@),
                Err(e) => transfer(
                    wallet@,
                    to@,
                    amount,
                    utxo.unspent(),
                    chain_transactions(best_chain(utxo.blockchain@)),
                ) == Err::<TransactionView, Error>(e),
            },
    {
        let mut own_hash = wallet.public_key.clone();
        hash_pub_key(&mut own_hash);
        let (sum, picked) = match utxo.find_spendable_outputs(own_hash.as_slice(), amount) {
            Ok(found) => found,
            Err(e) => {
                return Err(e);
            },
        };
        if sum < amount {
            return Err(Error::InsufficientFunds { balance: sum });
        }
        let mut vin: Vec<TXInput> = Vec::new();
        let mut i: usize = 0;
        while i < picked.len()
            invariant
                i <= picked@.len(),
                vin@.len() == i,
                forall|k: int|
                    0 <= k < i ==> vin@[k]@ == transfer_inputs(
                        picked_view(picked@),
                        wallet.public_key@,
                    )[k],
            decreases picked@.len() - i,
        {
            vin.push(
                TXInput {
                    txid: picked[i].0.clone(),
                    vout: picked[i].1,
                    signature: Vec::new(),
                    pub_key: wallet.public_key.clone(),
                },
            );
            i += 1;
        }
        let first = match TXOutput::new(amount, String::from_str(to)) {
            Ok(output) => output,
            Err(e) => {
                return Err(e);
            },
        };
        let mut vout: Vec<TXOutput> = Vec::new();
        vout.push(first);
        if sum > amount {
            let rest = match sum.checked_sub(amount) {
                Some(rest) => rest,
                None => {
                    return Err(Error::Overflow);
                },
            };
            match TXOutput::new(rest, wallet.get_address()) {
                Ok(output) => {
                    vout.push(output);
                },
                Err(e) => {
                    return Err(e);
                },
            }
        }
        let mut tx = Transaction { id: String::new(), vin, vout };
        let id = tx.digest();
        tx.id = id;
        proof {
            let to_hash = address_body_of(to@)->0;
            assert(tx@.vin =~= transfer_inputs(picked_view(picked@), wallet.public_key@));
            assert(tx@.vout =~= transfer_outputs(amount, sum as int, to_hash, own_hash@));
            lemma_picked_places(utxo.unspent(), own_hash@, amount);
            if tx@.vin.len() == 1 {
                assert(picked_view(picked@)[0].1 >= 0);
            }
            assert(!is_coinbase_tx(tx@));
        }
        match utxo.blockchain.sign_transaction(&mut tx, wallet.secret_key.as_slice()) {
            Ok(()) => Ok(tx),
            Err(e) => Err(e),
        }
    }

    /// A signed transaction that moves `amount` from the wallet that the
    /// keystore holds under the address `from` to the address `to`. The
    /// keystore must hold a wallet under either address.
    pub fn new_transfer(wallets: &Wallets, from: &str, to: &str, amount: i32, utxo: &UTXOSet) -> (made:
        Result<Transaction, Error>)
        ensures
            match made {
                Ok(tx) => transfer_from(
                    wallets@,
                    from@,
                    to@,
                    amount,
                    utxo.unspent(),
                    chain_transactions(best_chain(utxo.blockchain@)),
                ) == Ok::<TransactionView, Error>(tx@) && signatures_whole(tx@),
                Err(e) => transfer_from(
                    wallets@,
                    from@,
                    to@,
                    amount,
                    utxo.unspent(),
                    chain_transactions(best_chain(utxo.blockchain@)),
                ) == Err::<TransactionView, Error>(e),
            },
    {
        match wallets.get_wallet(from) {
            Some(wallet) => if wallets.get_wallet(to).is_some() {
                Transaction::new_utxo(wallet, to, amount, utxo)
            } else {
                Err(Error::NotFound)
            },
            None => Err(Error::NotFound),
        }
    }

    /// Whether this is a coinbase.
    pub fn is_coinbase(&self) -> (coinbase: bool)
        ensures
            coinbase == is_coinbase_tx(self@),
    {
        self.vin.len() == 1 && self.vin[0].txid.as_str().is_empty() && self.vin[0].vout == -1
    }

    /// The id that the contents give, whatever the `id` field holds.
    pub fn digest(&self) -> (id: String)
        ensures
            id@ == tx_hash(self@),
            id@.len() == 64,
    {
        let copy = Transaction {
            id: String::new(),
            vin: clone_inputs(&self.vin),
            vout: clone_outputs(&self.vout),
        };
        let data = encode_transaction(&copy);
        sha256_hex(data.as_slice())
    }

    /// The id that the contents give, whatever the `id` field holds. It
    /// never fails.
    pub fn hash(&self) -> (id: Result<String, Error>)
        ensures
            id is Ok,
            id->Ok_0@ == tx_hash(self@),
            id->Ok_0@.len() == 64,
    {
        Ok(self.digest())
    }

    /// The trimmed copy: the transaction without the signatures and public
    /// keys of its inputs.
    pub fn trim_copy(&self) -> (copy: Transaction)
        ensures
            copy@ == trimmed(self@),
    {
        let mut vin: Vec<TXInput> = Vec::new();
        let mut i: usize = 0;
        while i < self.vin.len()
            invariant
                i <= self.vin@.len(),
                vin@.len() == i,
                forall|k: int| 0 <= k < i ==> vin@[k]@ == cleared_input(self.vin@[k]@),
            decreases self.vin@.len() - i,
        {
            vin.push(
                TXInput {
                    txid: self.vin[i].txid.clone(),
                    vout: self.vin[i].vout,
                    signature: Vec::new(),
                    pub_key: Vec::new(),
                },
            );
            i += 1;
        }
        let copy = Transaction { id: self.id.clone(), vin, vout: clone_outputs(&self.vout) };
        assert(copy@.vin =~= trimmed(self@).vin);
        copy
    }

    /// The bytes that the signature of input `i` is made of.
    fn message_for(&self, i: usize, pub_key_hash: &Vec<u8>) -> (message: Vec<u8>)
        requires
            i < self.vin@.len(),
        ensures
            message@ == signing_message(self@, i as int, pub_key_hash@),
    {
        let mut copy = self.trim_copy();
        assert(copy.vin@.len() == copy@.vin.len());
        copy.vin.set(
            i,
            TXInput {
                txid: self.vin[i].txid.clone(),
                vout: self.vin[i].vout,
                signature: Vec::new(),
                pub_key: pub_key_hash.clone(),
            },
        );
        assert(copy@.vin =~= signing_copy(self@, i as int, pub_key_hash@).vin);
        let id = copy.digest();
        id.as_str().as_bytes_vec()
    }

    /// Whether every input names a transaction of `prev_txs` that has an id.
    fn prevs_known(&self, prev_txs: &Vec<Transaction>) -> (known: bool)
        ensures
            known == forall|i: int|
                0 <= i < self@.vin.len() ==> prev_known(
                    transactions_view(prev_txs@),
                    #[trigger] self@.vin[i],
                ),
    {
        let mut i: usize = 0;
        while i < self.vin.len()
            invariant
                i <= self.vin@.len(),
                forall|k: int|
                    0 <= k < i ==> prev_known(
                        transactions_view(prev_txs@),
                        #[trigger] self@.vin[k],
                    ),
            decreases self.vin@.len() - i,
        {
            let known = match find_by_id(prev_txs, self.vin[i].txid.as_str()) {
                Some(_) => !self.vin[i].txid.as_str().is_empty(),
                None => false,
            };
            if !known {
                assert(!prev_known(transactions_view(prev_txs@), self@.vin[i as int]));
                return false;
            }
            i += 1;
        }
        true
    }

    /// The hash that locks the output which input `i` spends.
    fn spent_key_hash(&self, i: usize, prev_txs: &Vec<Transaction>) -> (hash: Option<Vec<u8>>)
        requires
            i < self.vin@.len(),
        ensures
            match hash {
                Some(h) => spent_output(transactions_view(prev_txs@), self@.vin[i as int]) is Some
                    && spent_output(
                    transactions_view(prev_txs@),
                    self@.vin[i as int],
                )->0.pub_key_hash == h@,
                None => spent_output(transactions_view(prev_txs@), self@.vin[i as int]) is None,
            },
    {
        let input = &self.vin[i];
        match find_by_id(prev_txs, input.txid.as_str()) {
            Some(k) => {
                let prev = &prev_txs[k];
                if input.vout >= 0 && (input.vout as usize) < prev.vout.len() {
                    Some(prev.vout[input.vout as usize].pub_key_hash.clone())
                } else {
                    None
                }
            },
            None => None,
        }
    }

    /// Checks every input against the transactions that the inputs spend
    /// from: its public key must hash to the lock of the output it spends,
    /// and its signature must be accepted for that key.
    pub fn verify(&self, prev_txs: &Vec<Transaction>) -> (verdict: Result<bool, Error>)
        ensures
            verdict == verification(self@, transactions_view(prev_txs@)),
    {
        if self.is_coinbase() {
            return Ok(true);
        }
        if !self.prevs_known(prev_txs) {
            return Err(Error::InvalidTransaction);
        }
        let ghost prevs = transactions_view(prev_txs@);
        let mut i: usize = 0;
        while i < self.vin.len()
            invariant
                i <= self.vin@.len(),
                prevs == transactions_view(prev_txs@),
                verification(self@, prevs) == verify_inputs(self@, prevs, i as int),
            decreases self.vin@.len() - i,
        {
            let hash = match self.spent_key_hash(i, prev_txs) {
                Some(hash) => hash,
                None => {
                    return Err(Error::InvalidTransaction);
                },
            };
            let input = &self.vin[i];
            if !input.uses_key(hash.as_slice()) {
                return Ok(false);
            }
            if input.pub_key.len() < 32 || input.signature.len() < 64 {
                return Ok(false);
            }
            let message = self.message_for(i, &hash);
            if !ed25519::verify(
                message.as_slice(),
                input.pub_key.as_slice(),
                input.signature.as_slice(),
            ) {
                return Ok(false);
            }
            i += 1;
        }
        Ok(true)
    }

    /// Signs every input with `private_key`, over the transactions that the
    /// inputs spend from. On an error nothing is changed.
    pub fn sign(&mut self, private_key: &[u8], prev_txs: &Vec<Transaction>) -> (done: Result<
        (),
        Error,
    >)
        ensures
            match done {
                Ok(()) => signing(old(self)@, private_key@, transactions_view(prev_txs@)) == Ok::<
                    TransactionView,
                    Error,
                >(final(self)@) && (!is_coinbase_tx(old(self)@) ==> signatures_whole(final(self)@)),
                Err(e) => signing(old(self)@, private_key@, transactions_view(prev_txs@)) == Err::<
                    TransactionView,
                    Error,
                >(e) && final(self)@ == old(self)@,
            },
    {
        if self.is_coinbase() {
            return Ok(());
        }
        if !self.prevs_known(prev_txs) {
            return Err(Error::InvalidTransaction);
        }
        let mut hashes: Vec<Vec<u8>> = Vec::new();
        let mut i: usize = 0;
        while i < self.vin.len()
            invariant
                *self == *old(self),
                !is_coinbase_tx(self@),
                i <= self.vin@.len(),
                hashes@.len() == i,
                forall|k: int|
                    0 <= k < i ==> spent_output(
                        transactions_view(prev_txs@),
                        #[trigger] self@.vin[k],
                    ) is Some && spent_output(
                        transactions_view(prev_txs@),
                        self@.vin[k],
                    )->0.pub_key_hash == hashes@[k]@,
            decreases self.vin@.len() - i,
        {
            match self.spent_key_hash(i, prev_txs) {
                Some(hash) => {
                    hashes.push(hash);
                },
                None => {
                    return Err(Error::InvalidTransaction);
                },
            }
            i += 1;
        }
        if private_key.len() < 64 {
            return Err(Error::Format);
        }
        let mut vin: Vec<TXInput> = Vec::new();
        let mut j: usize = 0;
        while j < self.vin.len()
            invariant
                *self == *old(self),
                j <= self.vin@.len(),
                vin@.len() == j,
                hashes@.len() == self.vin@.len(),
                private_key@.len() >= 64,
                forall|k: int|
                    0 <= k < self.vin@.len() ==> spent_output(
                        transactions_view(prev_txs@),
                        #[trigger] self@.vin[k],
                    )->0.pub_key_hash == hashes@[k]@,
                forall|k: int|
                    0 <= k < j ==> vin@[k]@ == signed_inputs(
                        self@,
                        private_key@,
                        transactions_view(prev_txs@),
                    )[k],
                forall|k: int| 0 <= k < j ==> (#[trigger] vin@[k]).signature@.len() == 64,
            decreases self.vin@.len() - j,
        {
            let message = self.message_for(j, &hashes[j]);
            let sig = ed25519::signature(message.as_slice(), private_key);
            vin.push(
                TXInput {
                    txid: self.vin[j].txid.clone(),
                    vout: self.vin[j].vout,
                    signature: sig,
                    pub_key: self.vin[j].pub_key.clone(),
                },
            );
            j += 1;
        }
        assert(inputs_view(vin@) =~= signed_inputs(
            self@,
            private_key@,
            transactions_view(prev_txs@),
        ));
        self.vin = vin;
        Ok(())
    }
}

} // verus!
