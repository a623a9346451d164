use crate::blockchain::{
    best_chain, chain_at, chain_from, chain_transactions, lemma_new_parent, lemma_no_rejection,
    lemma_position_from, lemma_position_push, mining, position, verification_in_chain,
    well_formed, BlockchainView,
};
use crate::error::Error;
use crate::transaction::{lookup, lookup_from, TXOutputView, TransactionView};
use crate::utxo_set::{
    lemma_scan_suffix, outputs_locked_with, outputs_of, remaining, scan, scan_prefix, spends,
    spent_before, total_value, unspent_outputs, update_from, updated, UtxoView,
};
use vstd::prelude::*;

verus! {

/// What the transactions of a list spend, all together.
pub open spec fn spent_by_all(txs: Seq<TransactionView>) -> Set<(Seq<char>, int)>
    decreases txs.len(),
{
    if txs.len() == 0 {
        Set::empty()
    } else {
        spends(txs[0]).union(spent_by_all(txs.drop_first()))
    }
}

/// The outputs that the transactions of a list make, in order.
pub open spec fn outputs_of_all(txs: Seq<TransactionView>) -> Seq<UtxoView>
    decreases txs.len(),
{
    if txs.len() == 0 {
        Seq::empty()
    } else {
        outputs_of(txs[0]) + outputs_of_all(txs.drop_first())
    }
}

/// Whether a transaction spends an output of the transaction `id`.
pub open spec fn spends_from(tx: TransactionView, id: Seq<char>) -> bool {
    exists|index: int| spends(tx).contains((id, index))
}

/// Whether no output of the list is among `spent`.
pub open spec fn none_spent(utxos: Seq<UtxoView>, spent: Set<(Seq<char>, int)>) -> bool {
    forall|i: int|
        0 <= i < utxos.len() ==> !spent.contains(((#[trigger] utxos[i]).txid, utxos[i].index))
}

/// Whether no transaction of a block spends an output of a transaction of
/// the same block.
pub open spec fn spends_outside(block_txs: Seq<TransactionView>) -> bool {
    forall|i: int, j: int|
        0 <= i < block_txs.len() && 0 <= j < block_txs.len() ==> !spends_from(
            #[trigger] block_txs[i],
            (#[trigger] block_txs[j]).id,
        )
}

/// Removing from two joined lists is removing from each.
pub proof fn lemma_remaining_add(a: Seq<UtxoView>, b: Seq<UtxoView>, spent: Set<(Seq<char>, int)>)
    ensures
        remaining(a + b, spent) == remaining(a, spent) + remaining(b, spent),
    decreases b.len(),
{
    if b.len() == 0 {
        assert(a + b =~= a);
    } else {
        assert((a + b).drop_last() =~= a + b.drop_last());
        lemma_remaining_add(a, b.drop_last(), spent);
    }
}

/// Removing what is in one set and then what is in another is removing
/// what is in either.
pub proof fn lemma_remaining_twice(
    utxos: Seq<UtxoView>,
    first: Set<(Seq<char>, int)>,
    second: Set<(Seq<char>, int)>,
)
    ensures
        remaining(remaining(utxos, first), second) == remaining(utxos, first.union(second)),
    decreases utxos.len(),
{
    if utxos.len() > 0 {
        let u = utxos.last();
        lemma_remaining_twice(utxos.drop_last(), first, second);
        let inner = remaining(utxos.drop_last(), first);
        if !first.contains((u.txid, u.index)) {
            assert(inner.push(u).drop_last() =~= inner);
        }
    }
}

/// Removing leaves a list as it is where none of its outputs is spent.
pub proof fn lemma_remaining_same(utxos: Seq<UtxoView>, spent: Set<(Seq<char>, int)>)
    requires
        none_spent(utxos, spent),
    ensures
        remaining(utxos, spent) == utxos,
    decreases utxos.len(),
{
    if utxos.len() > 0 {
        let front = utxos.drop_last();
        lemma_remaining_same(front, spent);
    }
}

/// A walk that starts with more outputs spent finds what the walk without
/// them finds, less those outputs.
pub proof fn lemma_scan_spent(
    txs: Seq<TransactionView>,
    spent: Set<(Seq<char>, int)>,
    more: Set<(Seq<char>, int)>,
)
    ensures
        scan(txs, spent.union(more)) == remaining(scan(txs, spent), more),
    decreases txs.len(),
{
    if txs.len() > 0 {
        let own = spends(txs[0]);
        let rest = txs.drop_first();
        assert(spent.union(more).union(own) =~= spent.union(own).union(more));
        lemma_scan_spent(rest, spent.union(own), more);
        lemma_remaining_twice(outputs_of(txs[0]), spent, more);
        lemma_remaining_add(
            remaining(outputs_of(txs[0]), spent),
            scan(rest, spent.union(own)),
            more,
        );
    }
}

/// A walk over two joined lists finds what the walk over the front list
/// finds, and then what a walk over the back list finds that starts with
/// the spendings of the front list.
pub proof fn lemma_scan_add(
    a: Seq<TransactionView>,
    b: Seq<TransactionView>,
    spent: Set<(Seq<char>, int)>,
)
    ensures
        scan(a + b, spent) == scan(a, spent) + scan(b, spent.union(spent_by_all(a))),
    decreases a.len(),
{
    if a.len() == 0 {
        assert(spent.union(spent_by_all(a)) =~= spent);
    } else {
        let own = spends(a[0]);
        assert((a + b).drop_first() =~= a.drop_first() + b);
        lemma_scan_add(a.drop_first(), b, spent.union(own));
        assert(spent.union(own).union(spent_by_all(a.drop_first())) =~= spent.union(
            spent_by_all(a),
        ));
    }
}

/// A walk keeps every output of its transactions where nothing spent at
/// its start or by its transactions is an output of one of them.
pub proof fn lemma_scan_untouched(txs: Seq<TransactionView>, spent: Set<(Seq<char>, int)>)
    requires
        spends_outside(txs),
        forall|j: int, index: int|
            0 <= j < txs.len() ==> !#[trigger] spent.contains((txs[j].id, index)),
    ensures
        scan(txs, spent) == outputs_of_all(txs),
    decreases txs.len(),
{
    if txs.len() > 0 {
        let rest = txs.drop_first();
        let own = spends(txs[0]);
        let outs = outputs_of(txs[0]);
        lemma_remaining_same(outs, spent);
        lemma_scan_untouched(rest, spent.union(own));
    }
}

/// Applying the transactions of a block from position `from` on, where
/// the block spends none of its own outputs: the outputs made so far stay,
/// the outputs of the transactions to come follow, and of the index from
/// before what none of them spends is left.
pub proof fn lemma_update_from(
    fresh: Seq<UtxoView>,
    old: Seq<UtxoView>,
    txs: Seq<TransactionView>,
    from: int,
)
    requires
        0 <= from <= txs.len(),
        spends_outside(txs),
        forall|k: int| from <= k < txs.len() ==> none_spent(fresh, spends(#[trigger] txs[k])),
    ensures
        update_from(fresh, old, txs, from) == fresh + outputs_of_all(txs.skip(from)) + remaining(
            old,
            spent_by_all(txs.skip(from)),
        ),
    decreases txs.len() - from,
{
    let later = txs.skip(from);
    if from == txs.len() {
        lemma_remaining_same(old, Set::empty());
        assert(fresh + Seq::<UtxoView>::empty() =~= fresh);
    } else {
        let tx = txs[from];
        let own = spends(tx);
        assert(later.drop_first() =~= txs.skip(from + 1));
        lemma_remaining_same(fresh, own);
        let next_fresh = fresh + outputs_of(tx);
        let next_old = remaining(old, own);
        assert forall|k: int| from + 1 <= k < txs.len() implies none_spent(
            next_fresh,
            spends(#[trigger] txs[k]),
        ) by {
            assert(none_spent(fresh, spends(txs[k])));
            assert(!spends_from(txs[k], txs[from].id));
            assert forall|i: int| 0 <= i < next_fresh.len() implies !spends(txs[k]).contains(
                ((#[trigger] next_fresh[i]).txid, next_fresh[i].index),
            ) by {
                if i < fresh.len() {
                    assert(next_fresh[i] == fresh[i]);
                } else {
                    assert(next_fresh[i] == outputs_of(tx)[i - fresh.len()]);
                }
            }
        }
        lemma_update_from(next_fresh, next_old, txs, from + 1);
        lemma_remaining_twice(old, own, spent_by_all(txs.skip(from + 1)));
        assert(fresh + outputs_of(tx) + outputs_of_all(txs.skip(from + 1)) =~= fresh
            + outputs_of_all(later));
    }
}

/// An index that was built from a chain and then updated with a new block
/// is the index that is built from the chain with the block on top. The
/// block must spend none of its own outputs.
pub proof fn lemma_update_matches_reindex(
    chain_txs: Seq<TransactionView>,
    block_txs: Seq<TransactionView>,
)
    requires
        spends_outside(block_txs),
    ensures
        updated(unspent_outputs(chain_txs), block_txs) == unspent_outputs(block_txs + chain_txs),
{
    let index = unspent_outputs(chain_txs);
    let nothing = Set::<(Seq<char>, int)>::empty();
    lemma_scan_add(block_txs, chain_txs, nothing);
    assert(nothing.union(spent_by_all(block_txs)) =~= spent_by_all(block_txs));
    lemma_scan_untouched(block_txs, nothing);
    lemma_scan_spent(chain_txs, nothing, spent_by_all(block_txs));
    let none = Seq::<UtxoView>::empty();
    lemma_update_from(none, index, block_txs, 0);
    assert(block_txs.skip(0) =~= block_txs);
    assert(none + outputs_of_all(block_txs) =~= outputs_of_all(block_txs));
}

/// Mining puts the new block's transactions before those of the chain as
/// it was, in the order of a walk from the tip down.
pub proof fn lemma_chain_after_mining(
    chain: BlockchainView,
    txs: Seq<TransactionView>,
    timestamp: u128,
)
    requires
        well_formed(chain),
        mining(chain, txs, timestamp) is Ok,
    ensures
        mining(chain, txs, timestamp)->Ok_0.1.transactions == txs,
        chain_transactions(best_chain(mining(chain, txs, timestamp)->Ok_0.0)) == txs
            + chain_transactions(best_chain(chain)),
{
    let (after, block) = mining(chain, txs, timestamp)->Ok_0;
    let n = chain.blocks.len() as int;
    lemma_position_push(chain.blocks, block, block.hash, 0);
    lemma_position_from(chain.blocks, block.hash, 0);
    lemma_new_parent(chain.blocks, block);
    let below = chain_from(chain.blocks, position(chain.blocks, chain.tip));
    let whole = chain_at(after.blocks, n);
    assert(whole.drop_first() =~= below);
}

/// An index that was built from the best chain and then updated with a
/// block that was mined on top of it is the index that is built from the
/// best chain after mining. None of the mined transactions may spend an
/// output of another of them.
pub proof fn lemma_update_after_mining(
    chain: BlockchainView,
    txs: Seq<TransactionView>,
    timestamp: u128,
)
    requires
        well_formed(chain),
        mining(chain, txs, timestamp) is Ok,
        spends_outside(txs),
    ensures
        updated(
            unspent_outputs(chain_transactions(best_chain(chain))),
            mining(chain, txs, timestamp)->Ok_0.1.transactions,
        ) == unspent_outputs(
            chain_transactions(best_chain(mining(chain, txs, timestamp)->Ok_0.0)),
        ),
{
    lemma_chain_after_mining(chain, txs, timestamp);
    lemma_update_matches_reindex(chain_transactions(best_chain(chain)), txs);
}

/// A transaction that a list gives for an id stands in the list and has
/// that id.
pub proof fn lemma_lookup_names(txs: Seq<TransactionView>, id: Seq<char>, from: int)
    requires
        0 <= from,
    ensures
        lookup_from(txs, id, from) is Some ==> exists|j: int|
            from <= j < txs.len() && (#[trigger] txs[j]).id == id,
    decreases txs.len() - from,
{
    if from < txs.len() && txs[from].id != id {
        lemma_lookup_names(txs, id, from + 1);
    }
}

/// A block that was mined on top of a chain, and of which no id is an id
/// of the chain, spends none of its own outputs: each of its inputs names
/// a transaction of the chain.
pub proof fn lemma_mined_spends_outside(
    chain: BlockchainView,
    txs: Seq<TransactionView>,
    timestamp: u128,
)
    requires
        well_formed(chain),
        mining(chain, txs, timestamp) is Ok,
        forall|i: int, j: int|
            0 <= i < txs.len() && 0 <= j < chain_transactions(best_chain(chain)).len() ==> (
            #[trigger] txs[i]).id != (#[trigger] chain_transactions(best_chain(chain))[j]).id,
    ensures
        spends_outside(txs),
{
    let chain_txs = chain_transactions(best_chain(chain));
    lemma_no_rejection(txs, chain_txs, 0);
    assert forall|i: int, j: int| 0 <= i < txs.len() && 0 <= j < txs.len() implies !spends_from(
        #[trigger] txs[i],
        (#[trigger] txs[j]).id,
    ) by {
        if spends_from(txs[i], txs[j].id) {
            let index = choose|index: int| spends(txs[i]).contains((txs[j].id, index));
            let k = choose|k: int|
                0 <= k < txs[i].vin.len() && (#[trigger] txs[i].vin[k]).txid == txs[j].id
                    && txs[i].vin[k].vout == index;
            assert(verification_in_chain(txs[i], chain_txs) == Ok::<bool, Error>(true));
            assert(lookup(chain_txs, txs[i].vin[k].txid) is Some);
            lemma_lookup_names(chain_txs, txs[j].id, 0);
            let m = choose|m: int| 0 <= m < chain_txs.len() && (#[trigger] chain_txs[m]).id == txs[j].id;
            assert(txs[j].id != chain_txs[m].id);
        }
    }
}

/// An index that was built from the best chain and then updated with a
/// block that was mined on top of it is the index that is built from the
/// best chain after mining, where no id of the block is an id of the
/// chain.
pub proof fn lemma_update_after_mining_new_ids(
    chain: BlockchainView,
    txs: Seq<TransactionView>,
    timestamp: u128,
)
    requires
        well_formed(chain),
        mining(chain, txs, timestamp) is Ok,
        forall|i: int, j: int|
            0 <= i < txs.len() && 0 <= j < chain_transactions(best_chain(chain)).len() ==> (
            #[trigger] txs[i]).id != (#[trigger] chain_transactions(best_chain(chain))[j]).id,
    ensures
        updated(
            unspent_outputs(chain_transactions(best_chain(chain))),
            mining(chain, txs, timestamp)->Ok_0.1.transactions,
        ) == unspent_outputs(
            chain_transactions(best_chain(mining(chain, txs, timestamp)->Ok_0.0)),
        ),
{
    lemma_mined_spends_outside(chain, txs, timestamp);
    lemma_update_after_mining(chain, txs, timestamp);
}

/// The index after each of a list of blocks, the earliest first, has been
/// applied to it.
pub open spec fn updated_by_all(utxos: Seq<UtxoView>, blocks: Seq<Seq<TransactionView>>) -> Seq<
    UtxoView,
>
    decreases blocks.len(),
{
    if blocks.len() == 0 {
        utxos
    } else {
        updated(updated_by_all(utxos, blocks.drop_last()), blocks.last())
    }
}

/// The transactions of a chain after a list of blocks, the earliest first,
/// has been put on top of it, in the order of a walk from the tip down.
pub open spec fn stacked(chain_txs: Seq<TransactionView>, blocks: Seq<Seq<TransactionView>>) -> Seq<
    TransactionView,
>
    decreases blocks.len(),
{
    if blocks.len() == 0 {
        chain_txs
    } else {
        blocks.last() + stacked(chain_txs, blocks.drop_last())
    }
}

/// Whether none of the blocks of a list spends one of its own outputs.
pub open spec fn all_spend_outside(blocks: Seq<Seq<TransactionView>>) -> bool {
    forall|k: int| 0 <= k < blocks.len() ==> spends_outside(#[trigger] blocks[k])
}

/// An index that was built from a chain and then updated with each of a
/// list of new blocks in turn is the index that is built from the chain
/// with all the blocks on top.
pub proof fn lemma_updates_match_reindex(
    chain_txs: Seq<TransactionView>,
    blocks: Seq<Seq<TransactionView>>,
)
    requires
        all_spend_outside(blocks),
    ensures
        updated_by_all(unspent_outputs(chain_txs), blocks) == unspent_outputs(
            stacked(chain_txs, blocks),
        ),
    decreases blocks.len(),
{
    if blocks.len() > 0 {
        lemma_updates_match_reindex(chain_txs, blocks.drop_last());
        lemma_update_matches_reindex(stacked(chain_txs, blocks.drop_last()), blocks.last());
    }
}

/// Output `i` of transaction `k` of a walk, with the transaction's id and
/// its place.
pub open spec fn output_at(txs: Seq<TransactionView>, k: int, i: int) -> UtxoView {
    UtxoView { txid: txs[k].id, index: i, output: txs[k].vout[i] }
}

/// Whether `u` is an output of one of the first `upto` transactions of a
/// walk that no transaction before its own in the walk spends.
pub open spec fn unspent_in(txs: Seq<TransactionView>, upto: int, u: UtxoView) -> bool {
    exists|k: int, i: int|
        0 <= k < upto && 0 <= i < txs[k].vout.len() && u == #[trigger] output_at(txs, k, i)
            && !spent_before(txs, k).contains((txs[k].id, i))
}

/// A list joined of two holds what either holds.
pub proof fn lemma_add_contains(a: Seq<UtxoView>, b: Seq<UtxoView>, u: UtxoView)
    ensures
        (a + b).contains(u) <==> a.contains(u) || b.contains(u),
{
    if a.contains(u) {
        let w = choose|w: int| 0 <= w < a.len() && a[w] == u;
        assert((a + b)[w] == u);
    }
    if b.contains(u) {
        let w = choose|w: int| 0 <= w < b.len() && b[w] == u;
        assert((a + b)[a.len() + w] == u);
    }
}

/// What is left after removing the spent outputs holds the outputs of the
/// list that are not spent, and no others.
pub proof fn lemma_remaining_contains(utxos: Seq<UtxoView>, spent: Set<(Seq<char>, int)>, u: UtxoView)
    ensures
        remaining(utxos, spent).contains(u) <==> utxos.contains(u) && !spent.contains(
            (u.txid, u.index),
        ),
    decreases utxos.len(),
{
    if utxos.len() > 0 {
        let front = utxos.drop_last();
        let last = utxos.last();
        lemma_remaining_contains(front, spent, u);
        let kept = remaining(front, spent);
        assert(utxos =~= front.push(last));
        assert(front.push(last) =~= front + seq![last]);
        lemma_add_contains(front, seq![last], u);
        if !spent.contains((last.txid, last.index)) {
            assert(kept.push(last) =~= kept + seq![last]);
            lemma_add_contains(kept, seq![last], u);
        }
    }
}

/// What a walk has found after its first `upto` transactions are the
/// outputs of those transactions that no transaction before their own
/// spends.
pub proof fn lemma_scan_prefix_contains(txs: Seq<TransactionView>, upto: int, u: UtxoView)
    requires
        0 <= upto <= txs.len(),
    ensures
        scan_prefix(txs, upto).contains(u) <==> unspent_in(txs, upto, u),
    decreases upto,
{
    if upto > 0 {
        let k = upto - 1;
        let outs = outputs_of(txs[k]);
        let kept = remaining(outs, spent_before(txs, k));
        lemma_scan_prefix_contains(txs, k, u);
        lemma_add_contains(scan_prefix(txs, k), kept, u);
        lemma_remaining_contains(outs, spent_before(txs, k), u);
        if unspent_in(txs, upto, u) && !unspent_in(txs, k, u) {
            let (a, i) = choose|a: int, i: int|
                0 <= a < upto && 0 <= i < txs[a].vout.len() && u == #[trigger] output_at(txs, a, i)
                    && !spent_before(txs, a).contains((txs[a].id, i));
            assert(outs[i] == u);
        }
        if kept.contains(u) {
            let i = choose|i: int| 0 <= i < outs.len() && outs[i] == u;
            assert(u == output_at(txs, k, i));
        }
    }
}

/// The index that is built from a chain holds an output exactly if it is
/// an output of a transaction of the chain that no transaction before it,
/// on a walk from the tip down, spends.
pub proof fn lemma_index_holds_the_unspent(chain_txs: Seq<TransactionView>, u: UtxoView)
    ensures
        unspent_outputs(chain_txs).contains(u) <==> unspent_in(
            chain_txs,
            chain_txs.len() as int,
            u,
        ),
{
    let n = chain_txs.len() as int;
    lemma_scan_suffix(chain_txs, n);
    lemma_scan_prefix_contains(chain_txs, n, u);
}

/// The sum of the values of the outputs locked to a key hash that a walk
/// over a chain's transactions finds unspent, counted transaction by
/// transaction: the balance by a plain scan of the chain.
pub open spec fn scanned_balance(
    txs: Seq<TransactionView>,
    spent: Set<(Seq<char>, int)>,
    pub_key_hash: Seq<u8>,
) -> int
    decreases txs.len(),
{
    if txs.len() == 0 {
        0
    } else {
        unspent_value(txs[0], spent, pub_key_hash, txs[0].vout.len() as int) + scanned_balance(
            txs.drop_first(),
            spent.union(spends(txs[0])),
            pub_key_hash,
        )
    }
}

/// The sum of the values of the first `upto` outputs of a transaction that
/// are locked to a key hash and not among `spent`.
pub open spec fn unspent_value(
    tx: TransactionView,
    spent: Set<(Seq<char>, int)>,
    pub_key_hash: Seq<u8>,
    upto: int,
) -> int
    decreases upto,
{
    if upto <= 0 || upto > tx.vout.len() {
        0
    } else {
        unspent_value(tx, spent, pub_key_hash, upto - 1) + (if tx.vout[upto - 1].pub_key_hash
            == pub_key_hash && !spent.contains((tx.id, upto - 1)) {
            tx.vout[upto - 1].value as int
        } else {
            0
        })
    }
}

/// The outputs locked to a key hash among two joined lists are those of
/// the front list followed by those of the back list.
pub proof fn lemma_locked_add(a: Seq<UtxoView>, b: Seq<UtxoView>, pub_key_hash: Seq<u8>)
    ensures
        outputs_locked_with(a + b, pub_key_hash) == outputs_locked_with(a, pub_key_hash)
            + outputs_locked_with(b, pub_key_hash),
    decreases b.len(),
{
    if b.len() == 0 {
    } else {
        assert((a + b).drop_last() =~= a + b.drop_last());
        lemma_locked_add(a, b.drop_last(), pub_key_hash);
    }
}

/// The sum of the values of two joined lists is the sum of the two sums.
pub proof fn lemma_total_add(a: Seq<TXOutputView>, b: Seq<TXOutputView>)
    ensures
        total_value(a + b) == total_value(a) + total_value(b),
    decreases b.len(),
{
    if b.len() == 0 {
    } else {
        assert((a + b).drop_last() =~= a + b.drop_last());
        lemma_total_add(a, b.drop_last());
    }
}

/// The values of the unspent outputs of one transaction that are locked to
/// a key hash add up to the transaction's part of the balance.
pub proof fn lemma_unspent_value(
    tx: TransactionView,
    spent: Set<(Seq<char>, int)>,
    pub_key_hash: Seq<u8>,
    upto: int,
)
    requires
        0 <= upto <= tx.vout.len(),
    ensures
        total_value(
            outputs_locked_with(
                remaining(outputs_of(tx).subrange(0, upto), spent),
                pub_key_hash,
            ),
        ) == unspent_value(tx, spent, pub_key_hash, upto),
    decreases upto,
{
    let part = outputs_of(tx).subrange(0, upto);
    if upto == 0 {
    } else {
        lemma_unspent_value(tx, spent, pub_key_hash, upto - 1);
        assert(part.drop_last() =~= outputs_of(tx).subrange(0, upto - 1));
        let u = part.last();
        let kept = remaining(part.drop_last(), spent);
        if !spent.contains((u.txid, u.index)) {
            assert(kept.push(u).drop_last() =~= kept);
            let locked = outputs_locked_with(kept, pub_key_hash);
            if u.output.pub_key_hash == pub_key_hash {
                assert(locked.push(u.output).drop_last() =~= locked);
            }
        }
    }
}

/// The values of the outputs locked to a key hash that a walk finds
/// unspent add up to the balance by a plain scan.
pub proof fn lemma_scan_balance(
    txs: Seq<TransactionView>,
    spent: Set<(Seq<char>, int)>,
    pub_key_hash: Seq<u8>,
)
    ensures
        total_value(outputs_locked_with(scan(txs, spent), pub_key_hash)) == scanned_balance(
            txs,
            spent,
            pub_key_hash,
        ),
    decreases txs.len(),
{
    if txs.len() > 0 {
        let head = remaining(outputs_of(txs[0]), spent);
        let tail = scan(txs.drop_first(), spent.union(spends(txs[0])));
        lemma_scan_balance(txs.drop_first(), spent.union(spends(txs[0])), pub_key_hash);
        lemma_locked_add(head, tail, pub_key_hash);
        lemma_total_add(
            outputs_locked_with(head, pub_key_hash),
            outputs_locked_with(tail, pub_key_hash),
        );
        lemma_unspent_value(txs[0], spent, pub_key_hash, txs[0].vout.len() as int);
        assert(outputs_of(txs[0]).subrange(0, txs[0].vout.len() as int) =~= outputs_of(txs[0]));
    }
}

/// After the index is built from a chain, the values of its outputs that
/// are locked to a key hash add up to the balance of that key hash by a
/// plain scan of the chain.
pub proof fn lemma_index_balance(chain_txs: Seq<TransactionView>, pub_key_hash: Seq<u8>)
    ensures
        total_value(outputs_locked_with(unspent_outputs(chain_txs), pub_key_hash))
            == scanned_balance(chain_txs, Set::empty(), pub_key_hash),
{
    lemma_scan_balance(chain_txs, Set::empty(), pub_key_hash);
}

} // verus!
