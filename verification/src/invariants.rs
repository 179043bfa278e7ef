//! Why the book stays well formed: matching and coming to rest keep every
//! level non-empty and in price order, every queue in arrival order, and
//! every ordinal unique.

use crate::book::{
    flatten, lemma_with_resting_wf, ordinals_at_most, ordinals_within, prices_within, queue_wf,
    side_wf, LevelView,
};
use crate::matching::{
    beyond, best, book_wf, crosses, match_queue, outcome, residue, sweep,
};
use crate::ordinals::{
    law_sorted_listing_unique, lemma_count_above, lemma_count_concat, lemma_distinct_permuted,
    lemma_sweep_count, lemma_with_resting_count, ordinal_count,
};
use crate::sorting::sorted;
use crate::types::{OrderView, PartialOrderView, Side};
use vstd::prelude::*;

verus! {

/// Matching leaves a queue well formed, invents no ordinal, and fills no more
/// than was needed.
pub proof fn lemma_match_queue_wf(
    queue: Seq<PartialOrderView>,
    side: Side,
    price: u64,
    taker: Seq<char>,
    need: u64,
    above: int,
    at_most: int,
)
    requires
        queue_wf(queue, side, price),
        ordinals_within(queue, above, at_most),
    ensures
        queue_wf(match_queue(queue, price, taker, need).kept, side, price),
        ordinals_within(match_queue(queue, price, taker, need).kept, above, at_most),
        match_queue(queue, price, taker, need).left <= need,
    decreases queue.len(),
{
    if queue.len() == 0 || need == 0 {
    } else {
        let head = queue.first();
        let rest = queue.drop_first();
        if head.signer == taker {
            lemma_match_queue_wf(rest, side, price, taker, need, head.ordinal as int, at_most);
        } else if need < head.remaining_amount {
        } else {
            lemma_match_queue_wf(
                rest,
                side,
                price,
                taker,
                (need - head.remaining_amount) as u64,
                above,
                at_most,
            );
        }
    }
}

/// Matching leaves a side of the book well formed: no level is left empty,
/// prices stay in order and within their bounds, no ordinal is invented, and
/// no more is filled than was needed.
pub proof fn lemma_sweep_wf(
    levels: Seq<LevelView>,
    side: Side,
    taker_side: Side,
    limit: u64,
    taker: Seq<char>,
    need: u64,
    above: int,
    below: int,
    bound: int,
)
    requires
        side_wf(levels, side),
        prices_within(levels, above, below),
        ordinals_at_most(levels, bound),
    ensures
        side_wf(sweep(levels, taker_side, limit, taker, need).levels, side),
        prices_within(sweep(levels, taker_side, limit, taker, need).levels, above, below),
        ordinals_at_most(sweep(levels, taker_side, limit, taker, need).levels, bound),
        sweep(levels, taker_side, limit, taker, need).left <= need,
    decreases levels.len(),
{
    if levels.len() == 0 || need == 0 || !crosses(
        taker_side,
        limit,
        best(levels, taker_side).price,
    ) {
    } else {
        let level = best(levels, taker_side);
        let m = match_queue(level.orders, level.price, taker, need);
        let inner = beyond(levels, taker_side);
        lemma_match_queue_wf(level.orders, side, level.price, taker, need, -1, bound);
        match taker_side {
            Side::Buy => {
                lemma_sweep_wf(
                    inner,
                    side,
                    taker_side,
                    limit,
                    taker,
                    m.left,
                    level.price as int,
                    below,
                    bound,
                );
            },
            Side::Sell => {
                lemma_sweep_wf(
                    inner,
                    side,
                    taker_side,
                    limit,
                    taker,
                    m.left,
                    above,
                    level.price as int,
                    bound,
                );
            },
        }
    }
}

/// Processing an order with the next ordinal keeps the book well formed.
pub proof fn lemma_outcome_wf(
    asks: Seq<LevelView>,
    bids: Seq<LevelView>,
    order: OrderView,
    ordinal: u64,
)
    requires
        ordinal > 0,
        book_wf(asks, bids, (ordinal - 1) as u64),
    ensures
        book_wf(
            outcome(asks, bids, order, ordinal).asks,
            outcome(asks, bids, order, ordinal).bids,
            ordinal,
        ),
        outcome(asks, bids, order, ordinal).left <= order.initial_amount,
{
    let top = u64::MAX + 1;
    let o = outcome(asks, bids, order, ordinal);
    assert forall|other: u64| #[trigger]
        ordinal_count(flatten(o.asks) + flatten(o.bids), other) <= 1 by {
        let rest = residue(order, ordinal, o.left);
        lemma_count_concat(flatten(asks), flatten(bids), other);
        lemma_count_concat(flatten(o.asks), flatten(o.bids), other);
        lemma_count_above(asks, ordinal - 1, ordinal);
        lemma_count_above(bids, ordinal - 1, ordinal);
        match order.side {
            Side::Buy => {
                lemma_sweep_count(
                    asks,
                    Side::Buy,
                    order.price,
                    order.signer,
                    order.initial_amount,
                    other,
                );
                lemma_with_resting_count(bids, rest, other);
            },
            Side::Sell => {
                lemma_sweep_count(
                    bids,
                    Side::Sell,
                    order.price,
                    order.signer,
                    order.initial_amount,
                    other,
                );
                lemma_with_resting_count(asks, rest, other);
            },
        }
    }
    match order.side {
        Side::Buy => {
            let s = sweep(asks, Side::Buy, order.price, order.signer, order.initial_amount);
            lemma_sweep_wf(
                asks,
                Side::Sell,
                Side::Buy,
                order.price,
                order.signer,
                order.initial_amount,
                -1,
                top,
                ordinal - 1,
            );
            if s.left > 0 {
                lemma_with_resting_wf(
                    bids,
                    residue(order, ordinal, s.left),
                    Side::Buy,
                    -1,
                    top,
                    ordinal - 1,
                );
            }
        },
        Side::Sell => {
            let s = sweep(bids, Side::Sell, order.price, order.signer, order.initial_amount);
            lemma_sweep_wf(
                bids,
                Side::Buy,
                Side::Sell,
                order.price,
                order.signer,
                order.initial_amount,
                -1,
                top,
                ordinal - 1,
            );
            if s.left > 0 {
                lemma_with_resting_wf(
                    asks,
                    residue(order, ordinal, s.left),
                    Side::Sell,
                    -1,
                    top,
                    ordinal - 1,
                );
            }
        },
    }
}

/// The sorted listing of a well-formed book is unique: two listings of its
/// positions that are sorted alike are the same.
pub proof fn law_sorted_book_unique(
    asks: Seq<LevelView>,
    bids: Seq<LevelView>,
    ordinal: u64,
    a: Seq<PartialOrderView>,
    b: Seq<PartialOrderView>,
    by_price: bool,
    desc: bool,
)
    requires
        book_wf(asks, bids, ordinal),
        a.to_multiset() == (flatten(asks) + flatten(bids)).to_multiset(),
        b.to_multiset() == (flatten(asks) + flatten(bids)).to_multiset(),
        sorted(a, by_price, desc),
        sorted(b, by_price, desc),
    ensures
        a == b,
{
    lemma_distinct_permuted(flatten(asks) + flatten(bids), a);
    law_sorted_listing_unique(a, b, by_price, desc);
}

} // verus!
