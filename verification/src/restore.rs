use crate::block::BlockView;
use crate::blockchain::{
    acceptable, admitted, best_chain, block_valid, chain_at, chain_from, lemma_new_parent,
    lemma_position_from, lemma_position_push, lemma_with_block, parent_position, position,
    restored, taken, taken_in_rounds, transactions_verified, well_formed, BlockchainView,
};
use vstd::prelude::*;
use vstd::seq_lib::seq_to_set_is_finite;
use vstd::set_lib::lemma_len_subset;

verus! {

/// Whether every block of `part` is a block of `whole`.
pub open spec fn inside(part: Seq<BlockView>, whole: Seq<BlockView>) -> bool {
    forall|k: int| 0 <= k < part.len() ==> whole.contains(#[trigger] part[k])
}

/// Whether a pass with the given bound takes every one of the blocks.
pub open spec fn all_admitted(blocks: Seq<BlockView>, below: Option<int>, last: Seq<char>) -> bool {
    forall|k: int| 0 <= k < blocks.len() ==> admitted(#[trigger] blocks[k], below, last)
}

/// Whether a store is made of blocks of another store, all of which a pass
/// with the given bound takes, and meets its invariant.
pub open spec fn drawn_from(
    part: BlockchainView,
    whole: BlockchainView,
    below: Option<int>,
    last: Seq<char>,
) -> bool {
    well_formed(part) && inside(part.blocks, whole.blocks) && all_admitted(part.blocks, below, last)
}

/// In a store that meets its invariant a hash stands in one place.
pub proof fn lemma_one_place(chain: BlockchainView, i: int, j: int)
    requires
        well_formed(chain),
        0 <= i < chain.blocks.len(),
        0 <= j < chain.blocks.len(),
        chain.blocks[i].hash == chain.blocks[j].hash,
    ensures
        i == j,
{
    if i < j {
        assert(chain.blocks[i].hash != chain.blocks[j].hash);
    } else if j < i {
        assert(chain.blocks[j].hash != chain.blocks[i].hash);
    }
}

/// A block of blocks that lie inside a store is the store's block of the
/// same hash.
pub proof fn lemma_same_block(part: Seq<BlockView>, whole: BlockchainView, k: int, i: int)
    requires
        well_formed(whole),
        inside(part, whole.blocks),
        0 <= k < part.len(),
        0 <= i < whole.blocks.len(),
        part[k].hash == whole.blocks[i].hash,
    ensures
        part[k] == whole.blocks[i],
{
    assert(whole.blocks.contains(part[k]));
    let x = choose|x: int| 0 <= x < whole.blocks.len() && whole.blocks[x] == part[k];
    lemma_one_place(whole, x, i);
}

/// No block of a store that meets its invariant has the empty hash.
pub proof fn lemma_no_empty_hash(chain: BlockchainView, hash: Seq<char>)
    requires
        well_formed(chain),
        hash.len() == 0,
    ensures
        position(chain.blocks, hash) is None,
{
    lemma_position_from(chain.blocks, hash, 0);
    if let Some(j) = position(chain.blocks, hash) {
        assert(block_valid(chain.blocks, j));
    }
}

/// The height of a block is at least 0 and at most its place in the store.
pub proof fn lemma_height_is_low(chain: BlockchainView, i: int)
    requires
        well_formed(chain),
        0 <= i < chain.blocks.len(),
    ensures
        0 <= chain.blocks[i].height <= i,
    decreases i,
{
    assert(block_valid(chain.blocks, i));
    if chain.blocks[i].prev_block_hash.len() > 0 {
        lemma_height_is_low(chain, parent_position(chain.blocks, i)->0);
    }
}

/// A block that stands in a store and in a store inside it ends the same
/// chain in both.
pub proof fn lemma_same_chain(part: BlockchainView, whole: BlockchainView, k: int, i: int)
    requires
        well_formed(part),
        well_formed(whole),
        inside(part.blocks, whole.blocks),
        0 <= k < part.blocks.len(),
        0 <= i < whole.blocks.len(),
        part.blocks[k] == whole.blocks[i],
    ensures
        chain_at(part.blocks, k) == chain_at(whole.blocks, i),
    decreases k,
{
    let prev = part.blocks[k].prev_block_hash;
    assert(block_valid(part.blocks, k));
    assert(block_valid(whole.blocks, i));
    lemma_position_from(part.blocks, prev, 0);
    lemma_position_from(whole.blocks, prev, 0);
    if prev.len() == 0 {
        lemma_no_empty_hash(part, prev);
        lemma_no_empty_hash(whole, prev);
    } else {
        let kp = parent_position(part.blocks, k)->0;
        let ip = parent_position(whole.blocks, i)->0;
        lemma_same_block(part.blocks, whole, kp, ip);
        lemma_same_chain(part, whole, kp, ip);
    }
}

/// A store inside another may accept each block of the other whose
/// previous block it holds.
pub proof fn lemma_fits(part: BlockchainView, whole: BlockchainView, i: int)
    requires
        well_formed(part),
        well_formed(whole),
        inside(part.blocks, whole.blocks),
        0 <= i < whole.blocks.len(),
        whole.blocks[i].prev_block_hash.len() > 0 ==> position(
            part.blocks,
            whole.blocks[i].prev_block_hash,
        ) is Some,
    ensures
        acceptable(part.blocks, whole.blocks[i]),
{
    let block = whole.blocks[i];
    let prev = block.prev_block_hash;
    let pushed = part.blocks.push(block);
    let n = part.blocks.len() as int;
    assert(block_valid(whole.blocks, i));
    lemma_new_parent(part.blocks, block);
    lemma_position_from(part.blocks, prev, 0);
    lemma_position_from(whole.blocks, prev, 0);
    assert(pushed[n] == block);
    if prev.len() == 0 {
        lemma_no_empty_hash(part, prev);
        lemma_no_empty_hash(whole, prev);
    } else {
        let kp = position(part.blocks, prev)->0;
        let ip = parent_position(whole.blocks, i)->0;
        lemma_same_block(part.blocks, whole, kp, ip);
        lemma_same_chain(part, whole, kp, ip);
    }
    assert(chain_from(pushed, parent_position(pushed, n)) == chain_from(
        whole.blocks,
        parent_position(whole.blocks, i),
    ));
    assert(transactions_verified(whole.blocks, i));
    assert(transactions_verified(pushed, n));
}

/// Blocks with a hash each of their own, all of whose hashes stand among
/// other blocks, are no more than those.
pub proof fn lemma_no_more_blocks(a: Seq<BlockView>, c: Seq<BlockView>)
    requires
        forall|i: int, j: int| 0 <= i < j < a.len() ==> a[i].hash != a[j].hash,
        forall|k: int| 0 <= k < a.len() ==> position(c, (#[trigger] a[k]).hash) is Some,
    ensures
        a.len() <= c.len(),
{
    let ha = a.map_values(|b: BlockView| b.hash);
    let hc = c.map_values(|b: BlockView| b.hash);
    assert(ha.no_duplicates()) by {
        assert forall|i: int, j: int| 0 <= i < ha.len() && 0 <= j < ha.len() && i != j implies ha[i]
            != ha[j] by {
            if i < j {
                assert(a[i].hash != a[j].hash);
            } else {
                assert(a[j].hash != a[i].hash);
            }
        }
    }
    ha.unique_seq_to_set();
    hc.lemma_cardinality_of_set();
    seq_to_set_is_finite(hc);
    assert(ha.to_set().subset_of(hc.to_set())) by {
        assert forall|x: Seq<char>| ha.to_set().contains(x) implies hc.to_set().contains(x) by {
            assert(ha.contains(x));
            let k = choose|k: int| 0 <= k < ha.len() && ha[k] == x;
            assert(position(c, a[k].hash) is Some);
            lemma_position_from(c, x, 0);
            let j = position(c, x)->0;
            assert(hc[j] == x);
            assert(hc.contains(x));
        }
    }
    lemma_len_subset(ha.to_set(), hc.to_set());
}

/// What one pass over stored blocks of a store does to a store drawn from
/// it: the result is drawn from it too and holds every hash that was held;
/// it holds each block that the pass takes and whose previous block was
/// held; and a tip that is the tip of the whole store stays.
pub proof fn lemma_pass(
    start: BlockchainView,
    stored: Seq<BlockView>,
    upto: int,
    below: Option<int>,
    last: Seq<char>,
    whole: BlockchainView,
)
    requires
        well_formed(whole),
        drawn_from(start, whole, below, last),
        inside(stored, whole.blocks),
        0 <= upto <= stored.len(),
    ensures
        drawn_from(taken(start, stored, upto, below, last), whole, below, last),
        forall|hash: Seq<char>|
            position(start.blocks, hash) is Some ==> #[trigger] position(
                taken(start, stored, upto, below, last).blocks,
                hash,
            ) is Some,
        forall|k: int|
            0 <= k < upto && admitted(stored[k], below, last) && (stored[k].prev_block_hash.len()
                == 0 || position(start.blocks, stored[k].prev_block_hash) is Some) ==> position(
                taken(start, stored, upto, below, last).blocks,
                (#[trigger] stored[k]).hash,
            ) is Some,
        start.blocks.len() > 0 && start.tip == whole.tip ==> taken(
            start,
            stored,
            upto,
            below,
            last,
        ).tip == whole.tip,
    decreases upto,
{
    if upto > 0 {
        lemma_pass(start, stored, upto - 1, below, last, whole);
        let before = taken(start, stored, upto - 1, below, last);
        let after = taken(start, stored, upto, below, last);
        let block = stored[upto - 1];
        assert(whole.blocks.contains(block));
        let i = choose|i: int| 0 <= i < whole.blocks.len() && whole.blocks[i] == block;
        let added = admitted(block, below, last) && position(before.blocks, block.hash) is None
            && acceptable(before.blocks, block);
        if added {
            lemma_with_block(before, block);
            assert(after.blocks == before.blocks.push(block));
            assert forall|k: int| 0 <= k < after.blocks.len() implies whole.blocks.contains(
                #[trigger] after.blocks[k],
            ) by {
                if k < before.blocks.len() {
                    assert(after.blocks[k] == before.blocks[k]);
                }
            }
            assert forall|k: int| 0 <= k < after.blocks.len() implies admitted(
                #[trigger] after.blocks[k],
                below,
                last,
            ) by {
                if k < before.blocks.len() {
                    assert(after.blocks[k] == before.blocks[k]);
                }
            }
            if start.blocks.len() > 0 && start.tip == whole.tip {
                assert(position(start.blocks, whole.tip) is Some);
                assert(position(before.blocks, whole.tip) is Some);
                lemma_position_from(before.blocks, whole.tip, 0);
                lemma_position_from(whole.blocks, whole.tip, 0);
                let p = position(before.blocks, whole.tip)->0;
                let t = position(whole.blocks, whole.tip)->0;
                lemma_same_block(before.blocks, whole, p, t);
                assert(whole.blocks[i].height <= whole.blocks[t].height);
            }
        } else {
            assert(after == before);
        }
        assert forall|hash: Seq<char>| position(start.blocks, hash) is Some implies #[trigger] position(
            after.blocks,
            hash,
        ) is Some by {
            assert(position(before.blocks, hash) is Some);
            if added {
                lemma_position_push(before.blocks, block, hash, 0);
            }
        }
        assert forall|k: int|
            0 <= k < upto && admitted(stored[k], below, last) && (stored[k].prev_block_hash.len()
                == 0 || position(start.blocks, stored[k].prev_block_hash) is Some) implies position(
            after.blocks,
            (#[trigger] stored[k]).hash,
        ) is Some by {
            if k < upto - 1 {
                assert(position(before.blocks, stored[k].hash) is Some);
                if added {
                    lemma_position_push(before.blocks, block, stored[k].hash, 0);
                }
            } else {
                if position(before.blocks, block.hash) is None {
                    if block.prev_block_hash.len() > 0 {
                        assert(position(before.blocks, block.prev_block_hash) is Some);
                    }
                    lemma_fits(before, whole, i);
                    lemma_position_push(before.blocks, block, block.hash, 0);
                }
            }
        }
    }
}

/// What passes over stored blocks of a store do to a store drawn from it:
/// as one pass, and after `rounds` passes the result holds every block
/// that the passes take and that stands lower than `rounds`.
pub proof fn lemma_rounds(
    start: BlockchainView,
    stored: Seq<BlockView>,
    rounds: int,
    below: Option<int>,
    last: Seq<char>,
    whole: BlockchainView,
)
    requires
        well_formed(whole),
        drawn_from(start, whole, below, last),
        inside(stored, whole.blocks),
        0 <= rounds,
        forall|k: int|
            0 <= k < stored.len() && admitted(#[trigger] stored[k], below, last)
                && stored[k].prev_block_hash.len() > 0 ==> exists|p: int|
                0 <= p < stored.len() && admitted(#[trigger] stored[p], below, last)
                    && stored[p].hash == stored[k].prev_block_hash && stored[p].height
                    == stored[k].height - 1,
    ensures
        drawn_from(taken_in_rounds(start, stored, rounds, below, last), whole, below, last),
        forall|hash: Seq<char>|
            position(start.blocks, hash) is Some ==> #[trigger] position(
                taken_in_rounds(start, stored, rounds, below, last).blocks,
                hash,
            ) is Some,
        forall|k: int|
            0 <= k < stored.len() && admitted(stored[k], below, last) && stored[k].height < rounds
                ==> position(
                taken_in_rounds(start, stored, rounds, below, last).blocks,
                (#[trigger] stored[k]).hash,
            ) is Some,
        start.blocks.len() > 0 && start.tip == whole.tip ==> taken_in_rounds(
            start,
            stored,
            rounds,
            below,
            last,
        ).tip == whole.tip,
    decreases rounds,
{
    if rounds > 0 {
        lemma_rounds(start, stored, rounds - 1, below, last, whole);
        let before = taken_in_rounds(start, stored, rounds - 1, below, last);
        let after = taken_in_rounds(start, stored, rounds, below, last);
        lemma_pass(before, stored, stored.len() as int, below, last, whole);
        assert forall|hash: Seq<char>| position(start.blocks, hash) is Some implies #[trigger] position(
            after.blocks,
            hash,
        ) is Some by {
            assert(position(before.blocks, hash) is Some);
        }
        if start.blocks.len() > 0 && start.tip == whole.tip {
            assert(position(start.blocks, start.tip) is Some);
            assert(position(before.blocks, start.tip) is Some);
            lemma_position_from(before.blocks, start.tip, 0);
        }
        assert forall|k: int|
            0 <= k < stored.len() && admitted(stored[k], below, last) && stored[k].height
                < rounds implies position(after.blocks, (#[trigger] stored[k]).hash) is Some by {
            if stored[k].prev_block_hash.len() > 0 {
                let p = choose|p: int|
                    0 <= p < stored.len() && admitted(#[trigger] stored[p], below, last)
                        && stored[p].hash == stored[k].prev_block_hash && stored[p].height
                        == stored[k].height - 1;
                assert(position(before.blocks, stored[p].hash) is Some);
            }
        }
    } else {
        assert forall|k: int| 0 <= k < stored.len() implies (#[trigger] stored[k]).height >= 0 by {
            assert(whole.blocks.contains(stored[k]));
            let i = choose|i: int| 0 <= i < whole.blocks.len() && whole.blocks[i] == stored[k];
            lemma_height_is_low(whole, i);
        }
    }
}

/// Whatever the order in which the blocks of a store are kept, they and
/// the hash of the tip give back a store that meets its invariant, with the
/// same tip, as many blocks and the same best chain.
pub proof fn lemma_stored_blocks_restore(whole: BlockchainView, stored: Seq<BlockView>)
    requires
        well_formed(whole),
        stored.len() == whole.blocks.len(),
        inside(stored, whole.blocks),
        inside(whole.blocks, stored),
    ensures
        restored(stored, whole.tip) is Ok,
        well_formed(restored(stored, whole.tip)->Ok_0),
        restored(stored, whole.tip)->Ok_0.tip == whole.tip,
        restored(stored, whole.tip)->Ok_0.blocks.len() == whole.blocks.len(),
        best_chain(restored(stored, whole.tip)->Ok_0) == best_chain(whole),
{
    let none = BlockchainView { tip: Seq::empty(), blocks: Seq::empty() };
    let last = whole.tip;
    let n = stored.len() as int;
    if n == 0 {
        lemma_position_from(stored, last, 0);
        assert(whole.tip =~= Seq::empty());
        assert(whole.blocks =~= Seq::empty());
    } else {
        lemma_position_from(whole.blocks, last, 0);
        lemma_position_from(stored, last, 0);
        let t = position(whole.blocks, last)->0;
        assert(stored.contains(whole.blocks[t]));
        let at = position(stored, last)->0;
        lemma_same_block(stored, whole, at, t);
        let h = whole.blocks[t].height as int;
        let below = Some(h);
        assert forall|k: int| 0 <= k < n implies (#[trigger] stored[k]).height < n && stored[k].height
            <= h && (stored[k].hash == last ==> stored[k].height == h) && (
        stored[k].prev_block_hash.len() > 0 ==> exists|p: int|
            0 <= p < n && (#[trigger] stored[p]).hash == stored[k].prev_block_hash && stored[p].height
                == stored[k].height - 1) by {
            assert(whole.blocks.contains(stored[k]));
            let i = choose|i: int| 0 <= i < whole.blocks.len() && whole.blocks[i] == stored[k];
            lemma_height_is_low(whole, i);
            assert(whole.blocks[i].height <= h);
            if stored[k].hash == last {
                lemma_one_place(whole, i, t);
            }
            if stored[k].prev_block_hash.len() > 0 {
                assert(block_valid(whole.blocks, i));
                lemma_position_from(whole.blocks, stored[k].prev_block_hash, 0);
                let ip = parent_position(whole.blocks, i)->0;
                assert(stored.contains(whole.blocks[ip]));
                let p = choose|p: int| 0 <= p < stored.len() && stored[p] == whole.blocks[ip];
                assert(stored[p].hash == stored[k].prev_block_hash);
            }
        }
        assert forall|k: int|
            0 <= k < stored.len() && admitted(#[trigger] stored[k], below, last)
                && stored[k].prev_block_hash.len() > 0 implies exists|p: int|
            0 <= p < stored.len() && admitted(#[trigger] stored[p], below, last) && stored[p].hash
                == stored[k].prev_block_hash && stored[p].height == stored[k].height - 1 by {
            let p = choose|p: int|
                0 <= p < n && (#[trigger] stored[p]).hash == stored[k].prev_block_hash
                    && stored[p].height == stored[k].height - 1;
            assert(admitted(stored[p], below, last));
        }
        lemma_rounds(none, stored, n, below, last, whole);
        let lower = taken_in_rounds(none, stored, n, below, last);
        assert(position(lower.blocks, stored[at].hash) is Some);
        lemma_position_from(lower.blocks, last, 0);
        lemma_position_from(lower.blocks, lower.tip, 0);
        let q = position(lower.blocks, last)->0;
        let p = position(lower.blocks, lower.tip)->0;
        lemma_same_block(lower.blocks, whole, q, t);
        assert(lower.blocks[q].height <= lower.blocks[p].height);
        assert(admitted(lower.blocks[p], below, last));
        assert(lower.tip == last);
        assert(all_admitted(lower.blocks, None, last));
        assert forall|k: int|
            0 <= k < stored.len() && admitted(#[trigger] stored[k], None, last)
                && stored[k].prev_block_hash.len() > 0 implies exists|p: int|
            0 <= p < stored.len() && admitted(#[trigger] stored[p], None, last) && stored[p].hash
                == stored[k].prev_block_hash && stored[p].height == stored[k].height - 1 by {
            let p = choose|p: int|
                0 <= p < n && (#[trigger] stored[p]).hash == stored[k].prev_block_hash
                    && stored[p].height == stored[k].height - 1;
            assert(admitted(stored[p], None, last));
        }
        lemma_rounds(lower, stored, n, None, last, whole);
        let all = taken_in_rounds(lower, stored, n, None, last);
        assert forall|k: int| 0 <= k < all.blocks.len() implies position(
            whole.blocks,
            (#[trigger] all.blocks[k]).hash,
        ) is Some by {
            assert(whole.blocks.contains(all.blocks[k]));
            lemma_position_from(whole.blocks, all.blocks[k].hash, 0);
        }
        lemma_no_more_blocks(all.blocks, whole.blocks);
        assert forall|i: int| 0 <= i < whole.blocks.len() implies position(
            all.blocks,
            (#[trigger] whole.blocks[i]).hash,
        ) is Some by {
            assert(stored.contains(whole.blocks[i]));
            let k = choose|k: int| 0 <= k < stored.len() && stored[k] == whole.blocks[i];
            assert(position(all.blocks, stored[k].hash) is Some);
        }
        lemma_no_more_blocks(whole.blocks, all.blocks);
        assert(restored(stored, last) == Ok::<BlockchainView, crate::error::Error>(all));
        lemma_position_from(all.blocks, last, 0);
        let e = position(all.blocks, last)->0;
        lemma_same_block(all.blocks, whole, e, t);
        lemma_same_chain(all, whole, e, t);
    }
}

} // verus!
