use crate::block::Block;
use crate::blockchain::{best_chain, chain_transactions, Blockchain};
use crate::error::Error;
use crate::transaction::{
    is_coinbase_tx, same_text, transactions_view, TXOutput, TXOutputView, TXOutputs,
    Transaction, TransactionView,
};
use vstd::prelude::*;

verus! {

/// An unspent output: the id of its transaction, its place among that
/// transaction's outputs, and the output itself.
#[derive(Debug)]
pub struct Utxo {
    pub txid: String,
    pub index: usize,
    pub output: TXOutput,
}

/// An unspent output as the contracts see it.
pub struct UtxoView {
    pub txid: Seq<char>,
    pub index: int,
    pub output: TXOutputView,
}

impl View for Utxo {
    type V = UtxoView;

    open spec fn view(&self) -> UtxoView {
        UtxoView { txid: self.txid@, index: self.index as int, output: self.output@ }
    }
}

impl Clone for Utxo {
    fn clone(&self) -> (copy: Self)
        ensures
            copy@ == self@,
    {
        Utxo { txid: self.txid.clone(), index: self.index, output: self.output.clone() }
    }
}

/// The unspent outputs of a list, each by its view.
pub open spec fn utxos_view(utxos: Seq<Utxo>) -> Seq<UtxoView> {
    Seq::new(utxos.len(), |i: int| utxos[i]@)
}

/// The outputs that a transaction spends: for a coinbase none, for any
/// other transaction the pairs of id and place that its inputs name.
pub open spec fn spends(tx: TransactionView) -> Set<(Seq<char>, int)> {
    if is_coinbase_tx(tx) {
        Set::empty()
    } else {
        Set::new(
            |p: (Seq<char>, int)|
                exists|i: int|
                    0 <= i < tx.vin.len() && (#[trigger] tx.vin[i]).txid == p.0 && tx.vin[i].vout
                        == p.1,
        )
    }
}

/// The outputs that a transaction makes, each with the transaction's id
/// and its place.
pub open spec fn outputs_of(tx: TransactionView) -> Seq<UtxoView> {
    Seq::new(tx.vout.len(), |i: int| UtxoView { txid: tx.id, index: i, output: tx.vout[i] })
}

/// The outputs of a list that are not among `spent`, in their order.
pub open spec fn remaining(utxos: Seq<UtxoView>, spent: Set<(Seq<char>, int)>) -> Seq<UtxoView>
    decreases utxos.len(),
{
    if utxos.len() == 0 {
        Seq::empty()
    } else {
        let rest = remaining(utxos.drop_last(), spent);
        let u = utxos.last();
        if spent.contains((u.txid, u.index)) {
            rest
        } else {
            rest.push(u)
        }
    }
}

/// The unspent outputs that a walk over the transactions finds, when the
/// outputs in `spent` count as spent at its start. The walk takes the
/// transactions in order; of each it keeps the outputs that no transaction
/// before it in the walk has spent, and then counts what it spends itself.
pub open spec fn scan(txs: Seq<TransactionView>, spent: Set<(Seq<char>, int)>) -> Seq<UtxoView>
    decreases txs.len(),
{
    if txs.len() == 0 {
        Seq::empty()
    } else {
        remaining(outputs_of(txs[0]), spent) + scan(
            txs.drop_first(),
            spent.union(spends(txs[0])),
        )
    }
}

/// The unspent outputs of a chain, given its transactions in the order of
/// a walk from the tip down.
pub open spec fn unspent_outputs(chain_txs: Seq<TransactionView>) -> Seq<UtxoView> {
    scan(chain_txs, Set::empty())
}

/// The index after the transactions of a new block, from position `from`
/// on, are applied. `fresh` holds the outputs that the block has made so
/// far, `old` what is left of the index from before. Each transaction
/// removes what it spends, and then adds its outputs behind those of the
/// transactions before it.
pub open spec fn update_from(
    fresh: Seq<UtxoView>,
    old: Seq<UtxoView>,
    txs: Seq<TransactionView>,
    from: int,
) -> Seq<UtxoView>
    decreases txs.len() - from,
{
    if from < 0 || from >= txs.len() {
        fresh + old
    } else {
        let tx = txs[from];
        update_from(
            remaining(fresh, spends(tx)) + outputs_of(tx),
            remaining(old, spends(tx)),
            txs,
            from + 1,
        )
    }
}

/// The index after a new block's transactions are applied to it.
pub open spec fn updated(utxos: Seq<UtxoView>, block_txs: Seq<TransactionView>) -> Seq<UtxoView> {
    update_from(Seq::empty(), utxos, block_txs, 0)
}

/// The outputs among the unspent ones that are locked to a key hash, in
/// their order.
pub open spec fn outputs_locked_with(utxos: Seq<UtxoView>, pub_key_hash: Seq<u8>) -> Seq<
    TXOutputView,
>
    decreases utxos.len(),
{
    if utxos.len() == 0 {
        Seq::empty()
    } else {
        let rest = outputs_locked_with(utxos.drop_last(), pub_key_hash);
        if utxos.last().output.pub_key_hash == pub_key_hash {
            rest.push(utxos.last().output)
        } else {
            rest
        }
    }
}

/// The sum of the values of a list of outputs.
pub open spec fn total_value(outputs: Seq<TXOutputView>) -> int
    decreases outputs.len(),
{
    if outputs.len() == 0 {
        0
    } else {
        total_value(outputs.drop_last()) + outputs.last().value
    }
}

/// The choice of outputs to spend: the outputs are taken in order, and one
/// that is locked to the key hash and can be named by an input is picked
/// as long as the sum so far is below the amount. The result is the sum
/// and the picked outputs by id and place, or `None` where the sum leaves
/// the range of a 32-bit signed integer.
pub open spec fn selection(utxos: Seq<UtxoView>, pub_key_hash: Seq<u8>, amount: i32) -> Option<
    (int, Seq<(Seq<char>, i32)>),
>
    decreases utxos.len(),
{
    if utxos.len() == 0 {
        Some((0int, Seq::empty()))
    } else {
        match selection(utxos.drop_last(), pub_key_hash, amount) {
            None => None,
            Some((sum, picked)) => {
                let u = utxos.last();
                if u.output.pub_key_hash == pub_key_hash && sum < amount && u.index <= i32::MAX {
                    if i32::MIN <= sum + u.output.value <= i32::MAX {
                        Some((sum + u.output.value, picked.push((u.txid, u.index as i32))))
                    } else {
                        None
                    }
                } else {
                    Some((sum, picked))
                }
            },
        }
    }
}

/// No picked output stands at a negative place.
pub proof fn lemma_picked_places(utxos: Seq<UtxoView>, pub_key_hash: Seq<u8>, amount: i32)
    requires
        forall|k: int| 0 <= k < utxos.len() ==> (#[trigger] utxos[k]).index >= 0,
        selection(utxos, pub_key_hash, amount) is Some,
    ensures
        match selection(utxos, pub_key_hash, amount) {
            Some((_, picked)) => forall|k: int| 0 <= k < picked.len() ==> (#[trigger] picked[k]).1 >= 0,
            None => true,
        },
    decreases utxos.len(),
{
    if utxos.len() > 0 {
        lemma_picked_places(utxos.drop_last(), pub_key_hash, amount);
    }
}

/// The ids of the transactions that have an unspent output.
pub open spec fn indexed_ids(utxos: Seq<UtxoView>) -> Set<Seq<char>> {
    Set::new(|id: Seq<char>| exists|i: int| 0 <= i < utxos.len() && (#[trigger] utxos[i]).txid == id)
}

/// Whether a transaction spends the output at `index` of the transaction
/// `txid`.
pub fn is_spent_by(tx: &Transaction, txid: &str, index: usize) -> (spent: bool)
    ensures
        spent == spends(tx@).contains((txid@, index as int)),
{
    if tx.is_coinbase() {
        return false;
    }
    let mut i: usize = 0;
    while i < tx.vin.len()
        invariant
            i <= tx.vin@.len(),
            !is_coinbase_tx(tx@),
            forall|k: int|
                0 <= k < i ==> !((#[trigger] tx@.vin[k]).txid == txid@ && tx@.vin[k].vout
                    == index as int),
        decreases tx.vin@.len() - i,
    {
        let input = &tx.vin[i];
        if input.vout >= 0 && input.vout as usize == index && same_text(input.txid.as_str(), txid) {
            assert(tx@.vin[i as int].txid == txid@ && tx@.vin[i as int].vout == index as int);
            return true;
        }
        i += 1;
    }
    false
}

/// Whether one of the transactions before position `upto` spends the
/// output at `index` of the transaction `txid`.
pub fn is_spent_before(txs: &Vec<Transaction>, upto: usize, txid: &str, index: usize) -> (spent: bool)
    requires
        upto <= txs@.len(),
    ensures
        spent == spent_before(transactions_view(txs@), upto as int).contains((txid@, index as int)),
{
    let mut k: usize = 0;
    while k < upto
        invariant
            k <= upto <= txs@.len(),
            !spent_before(transactions_view(txs@), k as int).contains((txid@, index as int)),
        decreases upto - k,
    {
        if is_spent_by(&txs[k], txid, index) {
            proof {
                lemma_spent_before_grows(transactions_view(txs@), k as int + 1, upto as int);
            }
            return true;
        }
        k += 1;
    }
    false
}

/// What the first `upto` transactions of a walk spend.
pub open spec fn spent_before(txs: Seq<TransactionView>, upto: int) -> Set<(Seq<char>, int)>
    decreases upto,
{
    if upto <= 0 || upto > txs.len() {
        Set::empty()
    } else {
        spent_before(txs, upto - 1).union(spends(txs[upto - 1]))
    }
}

/// What is spent before a position is spent before every later position.
pub proof fn lemma_spent_before_grows(txs: Seq<TransactionView>, a: int, b: int)
    requires
        0 <= a <= b <= txs.len(),
    ensures
        spent_before(txs, a).subset_of(spent_before(txs, b)),
    decreases b - a,
{
    if a < b {
        lemma_spent_before_grows(txs, a, b - 1);
    }
}

/// A walk finds what it has found after its first `from` transactions,
/// followed by what a walk over the other transactions finds that starts
/// with the outputs spent that the first `from` transactions spend.
pub proof fn lemma_scan_suffix(txs: Seq<TransactionView>, from: int)
    requires
        0 <= from <= txs.len(),
    ensures
        scan(txs, Set::empty()) == scan_prefix(txs, from) + scan(
            txs.skip(from),
            spent_before(txs, from),
        ),
    decreases from,
{
    if from == 0 {
        assert(txs.skip(0) =~= txs);
    } else {
        lemma_scan_suffix(txs, from - 1);
        let tail = txs.skip(from - 1);
        assert(tail.drop_first() =~= txs.skip(from));
    }
}

/// What a walk has found when it has taken the first `upto` transactions.
pub open spec fn scan_prefix(txs: Seq<TransactionView>, upto: int) -> Seq<UtxoView>
    decreases upto,
{
    if upto <= 0 || upto > txs.len() {
        Seq::empty()
    } else {
        scan_prefix(txs, upto - 1) + remaining(outputs_of(txs[upto - 1]), spent_before(txs, upto - 1))
    }
}

impl Blockchain {
    /// The unspent outputs of the best chain, in the order of a walk from
    /// the tip down.
    pub fn find_utxo(&self) -> (utxos: Vec<Utxo>)
        ensures
            utxos_view(utxos@) == unspent_outputs(chain_transactions(best_chain(self@))),
    {
        let all = self.all_transactions();
        let ghost txs = transactions_view(all@);
        let mut utxos: Vec<Utxo> = Vec::new();
        let mut t: usize = 0;
        while t < all.len()
            invariant
                t <= all@.len(),
                txs == transactions_view(all@),
                utxos_view(utxos@) == scan_prefix(txs, t as int),
            decreases all@.len() - t,
        {
            let tx = &all[t];
            let ghost before = utxos_view(utxos@);
            let ghost outs = outputs_of(tx@);
            let ghost spent = spent_before(txs, t as int);
            let mut i: usize = 0;
            while i < tx.vout.len()
                invariant
                    i <= tx.vout@.len(),
                    t < all@.len(),
                    tx == &all@[t as int],
                    txs == transactions_view(all@),
                    outs == outputs_of(tx@),
                    spent == spent_before(txs, t as int),
                    utxos_view(utxos@) == before + remaining(outs.subrange(0, i as int), spent),
                decreases tx.vout@.len() - i,
            {
                let ghost sofar = utxos_view(utxos@);
                proof {
                    let part = outs.subrange(0, i as int + 1);
                    assert(part.drop_last() =~= outs.subrange(0, i as int));
                }
                if !is_spent_before(&all, t, tx.id.as_str(), i) {
                    utxos.push(Utxo { txid: tx.id.clone(), index: i, output: tx.vout[i].clone() });
                    assert(utxos_view(utxos@) =~= sofar.push(outs[i as int]));
                }
                i += 1;
            }
            assert(outs.subrange(0, i as int) =~= outs);
            t += 1;
        }
        proof {
            lemma_scan_suffix(txs, txs.len() as int);
        }
        utxos
    }
}

impl TXOutputs {
    /// The sum of the values of the outputs.
    pub fn total(&self) -> (sum: i128)
        ensures
            sum == total_value(self@),
    {
        let mut sum: i128 = 0;
        let mut i: usize = 0;
        while i < self.outputs.len()
            invariant
                i <= self.outputs@.len(),
                self@.len() == self.outputs@.len(),
                sum == total_value(self@.subrange(0, i as int)),
                -(i as int) * 0x8000_0000 <= sum <= (i as int) * 0x8000_0000,
            decreases self.outputs@.len() - i,
        {
            proof {
                let part = self@.subrange(0, i as int + 1);
                assert(part.drop_last() =~= self@.subrange(0, i as int));
            }
            sum = sum + self.outputs[i].value as i128;
            i += 1;
        }
        assert(self@.subrange(0, i as int) =~= self@);
        sum
    }
}

/// The index of unspent outputs beside the chain that it is an index of.
#[derive(Debug)]
pub struct UTXOSet {
    pub blockchain: Blockchain,
    pub utxos: Vec<Utxo>,
}

impl UTXOSet {
    /// The unspent outputs that the index holds, in its order.
    pub open spec fn unspent(&self) -> Seq<UtxoView> {
        utxos_view(self.utxos@)
    }

    /// An empty index beside a chain.
    pub fn new(blockchain: Blockchain) -> (set: UTXOSet)
        ensures
            set.blockchain == blockchain,
            set.unspent() == Seq::<UtxoView>::empty(),
    {
        let set = UTXOSet { blockchain, utxos: Vec::new() };
        set
    }

    /// Builds the index anew from the best chain.
    pub fn reindex(&mut self)
        ensures
            final(self).blockchain == old(self).blockchain,
            final(self).unspent() == unspent_outputs(
                chain_transactions(best_chain(old(self).blockchain@)),
            ),
    {
        let utxos = self.blockchain.find_utxo();
        self.utxos = utxos;
    }

    /// The outputs of a list that a transaction does not spend.
    fn strike(utxos: &Vec<Utxo>, tx: &Transaction) -> (kept: Vec<Utxo>)
        ensures
            utxos_view(kept@) == remaining(utxos_view(utxos@), spends(tx@)),
    {
        let mut kept: Vec<Utxo> = Vec::new();
        let mut i: usize = 0;
        let ghost all = utxos_view(utxos@);
        while i < utxos.len()
            invariant
                i <= utxos@.len(),
                all == utxos_view(utxos@),
                utxos_view(kept@) == remaining(all.subrange(0, i as int), spends(tx@)),
            decreases utxos@.len() - i,
        {
            let u = &utxos[i];
            proof {
                let part = all.subrange(0, i as int + 1);
                assert(part.drop_last() =~= all.subrange(0, i as int));
            }
            if !is_spent_by(tx, u.txid.as_str(), u.index) {
                kept.push(u.clone());
            }
            i += 1;
        }
        assert(all.subrange(0, i as int) =~= all);
        kept
    }

    /// Applies a new block to the index: each of its transactions, in
    /// order, removes the outputs that it spends and adds its own.
    pub fn update(&mut self, block: &Block)
        ensures
            final(self).blockchain == old(self).blockchain,
            final(self).unspent() == updated(old(self).unspent(), block@.transactions),
    {
        let txs = block.get_transaction();
        let mut fresh: Vec<Utxo> = Vec::new();
        let mut t: usize = 0;
        while t < txs.len()
            invariant
                t <= txs@.len(),
                self.blockchain == old(self).blockchain,
                transactions_view(txs@) == block@.transactions,
                updated(old(self).unspent(), block@.transactions) == update_from(
                    utxos_view(fresh@),
                    self.unspent(),
                    block@.transactions,
                    t as int,
                ),
            decreases txs@.len() - t,
        {
            let tx = &txs[t];
            let mut kept = Self::strike(&fresh, tx);
            let old_kept = Self::strike(&self.utxos, tx);
            let ghost base = utxos_view(kept@);
            let mut i: usize = 0;
            while i < tx.vout.len()
                invariant
                    i <= tx.vout@.len(),
                    utxos_view(kept@) == base + outputs_of(tx@).subrange(0, i as int),
                decreases tx.vout@.len() - i,
            {
                let ghost sofar = utxos_view(kept@);
                kept.push(Utxo { txid: tx.id.clone(), index: i, output: tx.vout[i].clone() });
                assert(utxos_view(kept@) =~= sofar.push(outputs_of(tx@)[i as int]));
                i += 1;
            }
            assert(outputs_of(tx@).subrange(0, i as int) =~= outputs_of(tx@));
            fresh = kept;
            self.utxos = old_kept;
            t += 1;
        }
        let mut j: usize = 0;
        let ghost front = utxos_view(fresh@);
        let ghost back = self.unspent();
        while j < self.utxos.len()
            invariant
                j <= self.utxos@.len(),
                self.blockchain == old(self).blockchain,
                back == self.unspent(),
                back.len() == self.utxos@.len(),
                utxos_view(fresh@) == front + back.subrange(0, j as int),
            decreases self.utxos@.len() - j,
        {
            let ghost sofar = utxos_view(fresh@);
            fresh.push(self.utxos[j].clone());
            assert(utxos_view(fresh@) =~= sofar.push(back[j as int]));
            j += 1;
        }
        self.utxos = fresh;
    }

    /// Picks outputs locked to a key hash until their sum reaches the
    /// amount. Gives the sum and the picked outputs by id and place.
    pub fn find_spendable_outputs(&self, pub_key_hash: &[u8], amount: i32) -> (found: Result<
        (i32, Vec<(String, i32)>),
        Error,
    >)
        ensures
            match found {
                Ok((sum, picked)) => selection(self.unspent(), pub_key_hash@, amount) == Some(
                    (sum as int, picked_view(picked@)),
                ),
                Err(e) => selection(self.unspent(), pub_key_hash@, amount) is None && e
                    == Error::Overflow,
            },
    {
        let mut picked: Vec<(String, i32)> = Vec::new();
        let mut sum: i32 = 0;
        let mut i: usize = 0;
        let ghost all = self.unspent();
        while i < self.utxos.len()
            invariant
                i <= self.utxos@.len(),
                all == self.unspent(),
                all.len() == self.utxos@.len(),
                selection(all.subrange(0, i as int), pub_key_hash@, amount) == Some(
                    (sum as int, picked_view(picked@)),
                ),
            decreases self.utxos@.len() - i,
        {
            let u = &self.utxos[i];
            proof {
                let part = all.subrange(0, i as int + 1);
                assert(part.drop_last() =~= all.subrange(0, i as int));
            }
            if u.output.is_locked_with_key(pub_key_hash) && sum < amount && u.index
                <= i32::MAX as usize {
                match sum.checked_add(u.output.value) {
                    Some(next) => {
                        sum = next;
                        picked.push((u.txid.clone(), u.index as i32));
                    },
                    None => {
                        proof {
                            lemma_selection_fails(all, i as int + 1, pub_key_hash@, amount);
                        }
                        return Err(Error::Overflow);
                    },
                }
            }
            i += 1;
        }
        assert(all.subrange(0, i as int) =~= all);
        Ok((sum, picked))
    }

    /// The unspent outputs that are locked to a key hash, in the order of
    /// the index.
    pub fn find_utxos(&self, pub_key_hash: &[u8]) -> (found: TXOutputs)
        ensures
            found@ == outputs_locked_with(self.unspent(), pub_key_hash@),
    {
        let mut outputs: Vec<TXOutput> = Vec::new();
        let mut i: usize = 0;
        let ghost all = self.unspent();
        let mut found = TXOutputs { outputs };
        while i < self.utxos.len()
            invariant
                i <= self.utxos@.len(),
                all == self.unspent(),
                all.len() == self.utxos@.len(),
                found@ == outputs_locked_with(all.subrange(0, i as int), pub_key_hash@),
            decreases self.utxos@.len() - i,
        {
            let u = &self.utxos[i];
            proof {
                let part = all.subrange(0, i as int + 1);
                assert(part.drop_last() =~= all.subrange(0, i as int));
            }
            if u.output.is_locked_with_key(pub_key_hash) {
                found.outputs.push(u.output.clone());
            }
            i += 1;
        }
        assert(all.subrange(0, i as int) =~= all);
        found
    }

    /// The number of transactions that have an unspent output in the
    /// index.
    pub fn count_transactions(&self) -> (count: usize)
        ensures
            count == indexed_ids(self.unspent()).len(),
    {
        let mut count: usize = 0;
        let mut i: usize = 0;
        let ghost all = self.unspent();
        assert(indexed_ids(all.subrange(0, 0)) =~= Set::empty());
        while i < self.utxos.len()
            invariant
                i <= self.utxos@.len(),
                all == self.unspent(),
                all.len() == self.utxos@.len(),
                count == indexed_ids(all.subrange(0, i as int)).len(),
                indexed_ids(all.subrange(0, i as int)).finite(),
                count <= i,
            decreases self.utxos@.len() - i,
        {
            let mut seen = false;
            let mut k: usize = 0;
            while k < i
                invariant
                    k <= i < self.utxos@.len(),
                    all == self.unspent(),
                    all.len() == self.utxos@.len(),
                    seen ==> exists|m: int|
                        0 <= m < k && (#[trigger] all[m]).txid == all[i as int].txid,
                    !seen ==> forall|m: int|
                        0 <= m < k ==> (#[trigger] all[m]).txid != all[i as int].txid,
                decreases i - k,
            {
                if same_text(self.utxos[k].txid.as_str(), self.utxos[i].txid.as_str()) {
                    assert(all[k as int].txid == all[i as int].txid);
                    seen = true;
                }
                k += 1;
            }
            proof {
                let before = all.subrange(0, i as int);
                let after = all.subrange(0, i as int + 1);
                let id = all[i as int].txid;
                assert(after[i as int].txid == id);
                assert(indexed_ids(after) =~= indexed_ids(before).insert(id));
                if seen {
                    let m = choose|m: int| 0 <= m < i && (#[trigger] all[m]).txid == id;
                    assert(before[m].txid == id);
                }
            }
            if !seen {
                count += 1;
            }
            i += 1;
        }
        assert(all.subrange(0, i as int) =~= all);
        count
    }
}

/// The picked outputs of a list, each by the view of its id.
pub open spec fn picked_view(picked: Seq<(String, i32)>) -> Seq<(Seq<char>, i32)> {
    Seq::new(picked.len(), |i: int| (picked[i].0@, picked[i].1))
}

/// Once the choice has failed on a front part of the outputs, it fails on
/// the whole of them.
pub proof fn lemma_selection_fails(utxos: Seq<UtxoView>, upto: int, pub_key_hash: Seq<u8>, amount: i32)
    requires
        0 <= upto <= utxos.len(),
        selection(utxos.subrange(0, upto), pub_key_hash, amount) is None,
    ensures
        selection(utxos, pub_key_hash, amount) is None,
    decreases utxos.len() - upto,
{
    if upto < utxos.len() {
        let part = utxos.subrange(0, upto + 1);
        assert(part.drop_last() =~= utxos.subrange(0, upto));
        lemma_selection_fails(utxos, upto + 1, pub_key_hash, amount);
    } else {
        assert(utxos.subrange(0, upto) =~= utxos);
    }
}

} // verus!
