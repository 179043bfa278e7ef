//! What every receipt and every book that the engine produces satisfies.

use crate::book::{flatten, queue_wf, side_wf, single_level, with_resting, LevelView};
use crate::matching::{
    beyond, best, crosses, fill, level_of, match_queue, outcome, residual, residue, sweep,
};
use crate::ordinals::lemma_with_resting_count;
use crate::types::{OrderView, PartialOrderView, Side};
use vstd::prelude::*;

verus! {

/// If `fits` holds of every position in a queue, and `good` holds of every
/// fill that can be taken at `price` from a position of which `fits` holds,
/// then `good` holds of every fill that matching reports.
pub proof fn lemma_match_queue_fills(
    queue: Seq<PartialOrderView>,
    price: u64,
    taker: Seq<char>,
    need: u64,
    fits: spec_fn(u64, PartialOrderView) -> bool,
    good: spec_fn(PartialOrderView) -> bool,
)
    requires
        forall|j: int| 0 <= j < queue.len() ==> #[trigger] fits(price, queue[j]),
        forall|x: PartialOrderView, t: u64|
            fits(price, x) && t <= x.remaining_amount && t <= need && x.signer != taker
                ==> #[trigger] good(fill(x, t, price)),
    ensures
        forall|k: int|
            0 <= k < match_queue(queue, price, taker, need).fills.len() ==> good(
                #[trigger] match_queue(queue, price, taker, need).fills[k],
            ),
    decreases queue.len(),
{
    if queue.len() == 0 || need == 0 {
    } else {
        let head = queue.first();
        let rest = queue.drop_first();
        let fills = match_queue(queue, price, taker, need).fills;
        assert(fits(price, queue[0]));
        assert forall|j: int| 0 <= j < rest.len() implies #[trigger] fits(price, rest[j]) by {
            assert(rest[j] == queue[j + 1]);
        }
        if head.signer == taker {
            lemma_match_queue_fills(rest, price, taker, need, fits, good);
            let m = match_queue(rest, price, taker, need);
            assert forall|k: int| 0 <= k < fills.len() implies good(#[trigger] fills[k]) by {
                assert(fills[k] == m.fills[k]);
            }
        } else if need < head.remaining_amount {
            assert(good(fill(head, need, price)));
            assert forall|k: int| 0 <= k < fills.len() implies good(#[trigger] fills[k]) by {
                assert(fills[k] == fill(head, need, price));
            }
        } else {
            let less = (need - head.remaining_amount) as u64;
            lemma_match_queue_fills(rest, price, taker, less, fits, good);
            let m = match_queue(rest, price, taker, less);
            assert(good(fill(head, head.remaining_amount, price)));
            assert forall|k: int| 0 <= k < fills.len() implies good(#[trigger] fills[k]) by {
                if k > 0 {
                    assert(fills[k] == m.fills[k - 1]);
                }
            }
        }
    }
}

/// If `fits` holds of every position in the book side, together with the
/// price of its level, and `good` holds of every fill that can be taken
/// within the limit from such a position, then `good` holds of every fill
/// that matching reports.
pub proof fn lemma_sweep_fills(
    levels: Seq<LevelView>,
    taker_side: Side,
    limit: u64,
    taker: Seq<char>,
    need: u64,
    fits: spec_fn(u64, PartialOrderView) -> bool,
    good: spec_fn(PartialOrderView) -> bool,
)
    requires
        forall|i: int, j: int|
            0 <= i < levels.len() && 0 <= j < levels[i].orders.len() ==> #[trigger] fits(
                levels[i].price,
                levels[i].orders[j],
            ),
        forall|price: u64, x: PartialOrderView, t: u64|
            fits(price, x) && t <= x.remaining_amount && t <= need && x.signer != taker
                && crosses(taker_side, limit, price) ==> #[trigger] good(fill(x, t, price)),
    ensures
        forall|k: int|
            0 <= k < sweep(levels, taker_side, limit, taker, need).fills.len() ==> good(
                #[trigger] sweep(levels, taker_side, limit, taker, need).fills[k],
            ),
    decreases levels.len(),
{
    if levels.len() == 0 || need == 0 || !crosses(
        taker_side,
        limit,
        best(levels, taker_side).price,
    ) {
    } else {
        let level = best(levels, taker_side);
        let at = match taker_side {
            Side::Buy => 0,
            Side::Sell => levels.len() - 1,
        };
        assert(level == levels[at]);
        let m = match_queue(level.orders, level.price, taker, need);
        let inner = beyond(levels, taker_side);
        let s = sweep(inner, taker_side, limit, taker, m.left);
        let fills = sweep(levels, taker_side, limit, taker, need).fills;
        assert forall|j: int| 0 <= j < level.orders.len() implies #[trigger] fits(
            level.price,
            level.orders[j],
        ) by {
            assert(fits(levels[at].price, levels[at].orders[j]));
        }
        lemma_match_queue_fills(level.orders, level.price, taker, need, fits, good);
        lemma_match_queue_left(level.orders, level.price, taker, need);
        assert forall|i: int, j: int|
            0 <= i < inner.len() && 0 <= j < inner[i].orders.len() implies #[trigger] fits(
            inner[i].price,
            inner[i].orders[j],
        ) by {
            let from = match taker_side {
                Side::Buy => i + 1,
                Side::Sell => i,
            };
            assert(inner[i] == levels[from]);
            assert(fits(levels[from].price, levels[from].orders[j]));
        }
        lemma_sweep_fills(inner, taker_side, limit, taker, m.left, fits, good);
        assert forall|k: int| 0 <= k < fills.len() implies good(#[trigger] fills[k]) by {
            if k < m.fills.len() {
                assert(fills[k] == m.fills[k]);
            } else {
                assert(fills[k] == s.fills[k - m.fills.len()]);
            }
        }
    }
}

/// If `fits` holds of every position in a queue, and of what is left of a
/// position of which it holds after part of it was taken, then it holds of
/// every position in the queue after matching.
pub proof fn lemma_match_queue_kept(
    queue: Seq<PartialOrderView>,
    price: u64,
    taker: Seq<char>,
    need: u64,
    fits: spec_fn(PartialOrderView) -> bool,
)
    requires
        forall|j: int| 0 <= j < queue.len() ==> #[trigger] fits(queue[j]),
        forall|x: PartialOrderView, t: u64|
            fits(x) && t < x.remaining_amount ==> #[trigger] fits(residual(x, t)),
    ensures
        forall|k: int|
            0 <= k < match_queue(queue, price, taker, need).kept.len() ==> #[trigger] fits(
                match_queue(queue, price, taker, need).kept[k],
            ),
    decreases queue.len(),
{
    if queue.len() == 0 || need == 0 {
        assert(match_queue(queue, price, taker, need).kept == queue);
    } else {
        let head = queue.first();
        let rest = queue.drop_first();
        let kept = match_queue(queue, price, taker, need).kept;
        assert(fits(queue[0]));
        assert forall|j: int| 0 <= j < rest.len() implies #[trigger] fits(rest[j]) by {
            assert(rest[j] == queue[j + 1]);
        }
        if head.signer == taker {
            lemma_match_queue_kept(rest, price, taker, need, fits);
            let m = match_queue(rest, price, taker, need);
            assert forall|k: int| 0 <= k < kept.len() implies #[trigger] fits(kept[k]) by {
                if k > 0 {
                    assert(kept[k] == m.kept[k - 1]);
                }
            }
        } else if need < head.remaining_amount {
            assert(fits(residual(head, need)));
            assert forall|k: int| 0 <= k < kept.len() implies #[trigger] fits(kept[k]) by {
                if k > 0 {
                    assert(kept[k] == rest[k - 1]);
                }
            }
        } else {
            let less = (need - head.remaining_amount) as u64;
            lemma_match_queue_kept(rest, price, taker, less, fits);
            let m = match_queue(rest, price, taker, less);
            assert forall|k: int| 0 <= k < kept.len() implies #[trigger] fits(kept[k]) by {
                assert(kept[k] == m.kept[k]);
            }
        }
    }
}

/// If `fits` holds of every position on a side of the book, and of what is
/// left of a position of which it holds after part of it was taken, then it
/// holds of every position on the side after matching.
pub proof fn lemma_sweep_kept(
    levels: Seq<LevelView>,
    taker_side: Side,
    limit: u64,
    taker: Seq<char>,
    need: u64,
    fits: spec_fn(PartialOrderView) -> bool,
)
    requires
        forall|i: int, j: int|
            0 <= i < levels.len() && 0 <= j < levels[i].orders.len() ==> #[trigger] fits(
                levels[i].orders[j],
            ),
        forall|x: PartialOrderView, t: u64|
            fits(x) && t < x.remaining_amount ==> #[trigger] fits(residual(x, t)),
    ensures
        forall|i: int, j: int|
            0 <= i < sweep(levels, taker_side, limit, taker, need).levels.len() && 0 <= j
                < sweep(levels, taker_side, limit, taker, need).levels[i].orders.len()
                ==> #[trigger] fits(
                sweep(levels, taker_side, limit, taker, need).levels[i].orders[j],
            ),
    decreases levels.len(),
{
    if levels.len() == 0 || need == 0 || !crosses(
        taker_side,
        limit,
        best(levels, taker_side).price,
    ) {
    } else {
        let level = best(levels, taker_side);
        let at = match taker_side {
            Side::Buy => 0,
            Side::Sell => levels.len() - 1,
        };
        assert(level == levels[at]);
        let m = match_queue(level.orders, level.price, taker, need);
        let inner = beyond(levels, taker_side);
        let s = sweep(inner, taker_side, limit, taker, m.left);
        let after = sweep(levels, taker_side, limit, taker, need).levels;
        let here = level_of(level.price, m.kept);
        assert forall|j: int| 0 <= j < level.orders.len() implies #[trigger] fits(
            level.orders[j],
        ) by {
            assert(fits(levels[at].orders[j]));
        }
        lemma_match_queue_kept(level.orders, level.price, taker, need, fits);
        assert forall|i: int, j: int|
            0 <= i < inner.len() && 0 <= j < inner[i].orders.len() implies #[trigger] fits(
            inner[i].orders[j],
        ) by {
            let from = match taker_side {
                Side::Buy => i + 1,
                Side::Sell => i,
            };
            assert(inner[i] == levels[from]);
            assert(fits(levels[from].orders[j]));
        }
        lemma_sweep_kept(inner, taker_side, limit, taker, m.left, fits);
        assert forall|i: int, j: int|
            0 <= i < after.len() && 0 <= j < after[i].orders.len() implies #[trigger] fits(
            after[i].orders[j],
        ) by {
            match taker_side {
                Side::Buy => {
                    if i < here.len() {
                        assert(after[i].orders == m.kept);
                    } else {
                        assert(after[i] == s.levels[i - here.len()]);
                        assert(fits(s.levels[i - here.len()].orders[j]));
                    }
                },
                Side::Sell => {
                    if i < s.levels.len() {
                        assert(after[i] == s.levels[i]);
                        assert(fits(s.levels[i].orders[j]));
                    } else {
                        assert(after[i].orders == m.kept);
                    }
                },
            }
        }
    }
}

/// If `fits` holds of every position on a side and of a position that comes
/// to rest on it, it holds of every position on the side afterwards.
pub proof fn lemma_with_resting_kept(
    levels: Seq<LevelView>,
    position: PartialOrderView,
    fits: spec_fn(PartialOrderView) -> bool,
)
    requires
        forall|i: int, j: int|
            0 <= i < levels.len() && 0 <= j < levels[i].orders.len() ==> #[trigger] fits(
                levels[i].orders[j],
            ),
        fits(position),
    ensures
        forall|i: int, j: int|
            0 <= i < with_resting(levels, position).len() && 0 <= j < with_resting(
                levels,
                position,
            )[i].orders.len() ==> #[trigger] fits(with_resting(levels, position)[i].orders[j]),
    decreases levels.len(),
{
    let after = with_resting(levels, position);
    if levels.len() == 0 {
        assert(after[0] == single_level(position));
    } else if levels.first().price == position.price {
        assert forall|i: int, j: int|
            0 <= i < after.len() && 0 <= j < after[i].orders.len() implies #[trigger] fits(
            after[i].orders[j],
        ) by {
            if i > 0 {
                assert(after[i] == levels[i]);
                assert(fits(levels[i].orders[j]));
            } else if j < levels[0].orders.len() {
                assert(fits(levels[0].orders[j]));
            }
        }
    } else if levels.first().price > position.price {
        assert forall|i: int, j: int|
            0 <= i < after.len() && 0 <= j < after[i].orders.len() implies #[trigger] fits(
            after[i].orders[j],
        ) by {
            if i > 0 {
                assert(after[i] == levels[i - 1]);
                assert(fits(levels[i - 1].orders[j]));
            } else {
                assert(after[0] == single_level(position));
            }
        }
    } else {
        let rest = levels.drop_first();
        assert forall|i: int, j: int|
            0 <= i < rest.len() && 0 <= j < rest[i].orders.len() implies #[trigger] fits(
            rest[i].orders[j],
        ) by {
            assert(rest[i] == levels[i + 1]);
            assert(fits(levels[i + 1].orders[j]));
        }
        lemma_with_resting_kept(rest, position, fits);
        let tail = with_resting(rest, position);
        assert forall|i: int, j: int|
            0 <= i < after.len() && 0 <= j < after[i].orders.len() implies #[trigger] fits(
            after[i].orders[j],
        ) by {
            if i > 0 {
                assert(after[i] == tail[i - 1]);
                assert(fits(tail[i - 1].orders[j]));
            } else {
                assert(after[0] == levels[0]);
                assert(fits(levels[0].orders[j]));
            }
        }
    }
}

/// Matching never leaves more to fill than there was.
pub proof fn lemma_match_queue_left(
    queue: Seq<PartialOrderView>,
    price: u64,
    taker: Seq<char>,
    need: u64,
)
    ensures
        match_queue(queue, price, taker, need).left <= need,
    decreases queue.len(),
{
    if queue.len() == 0 || need == 0 {
    } else {
        let head = queue.first();
        let rest = queue.drop_first();
        if head.signer == taker {
            lemma_match_queue_left(rest, price, taker, need);
        } else if need < head.remaining_amount {
        } else {
            lemma_match_queue_left(rest, price, taker, (need - head.remaining_amount) as u64);
        }
    }
}

/// The sum of the units filled over the entries of a receipt.
pub open spec fn units_filled_sum(fills: Seq<PartialOrderView>) -> int
    decreases fills.len(),
{
    if fills.len() == 0 {
        0
    } else {
        units_filled_sum(fills.drop_last()) + fills.last().units_filled()
    }
}

/// The units filled over two receipts' entries add up.
pub proof fn lemma_units_filled_sum_concat(a: Seq<PartialOrderView>, b: Seq<PartialOrderView>)
    ensures
        units_filled_sum(a + b) == units_filled_sum(a) + units_filled_sum(b),
    decreases b.len(),
{
    if b.len() == 0 {
    } else {
        assert((a + b).drop_last() =~= a + b.drop_last());
        lemma_units_filled_sum_concat(a, b.drop_last());
    }
}

/// Matching against a queue of positions at rest fills exactly what it
/// takes off the incoming order.
pub proof fn lemma_match_queue_units(
    queue: Seq<PartialOrderView>,
    price: u64,
    taker: Seq<char>,
    need: u64,
)
    requires
        forall|j: int|
            0 <= j < queue.len() ==> (#[trigger] queue[j]).remaining_amount
                == queue[j].current_amount,
    ensures
        units_filled_sum(match_queue(queue, price, taker, need).fills) == need - match_queue(
            queue,
            price,
            taker,
            need,
        ).left,
    decreases queue.len(),
{
    if queue.len() == 0 || need == 0 {
    } else {
        let head = queue.first();
        let rest = queue.drop_first();
        if head.signer == taker {
            lemma_match_queue_units(rest, price, taker, need);
        } else if need < head.remaining_amount {
            let only = seq![fill(head, need, price)];
            assert(units_filled_sum(only) == units_filled_sum(only.drop_last())
                + only.last().units_filled());
        } else {
            let less = (need - head.remaining_amount) as u64;
            lemma_match_queue_units(rest, price, taker, less);
            let m = match_queue(rest, price, taker, less);
            let first = seq![fill(head, head.remaining_amount, price)];
            assert(units_filled_sum(first) == units_filled_sum(first.drop_last())
                + first.last().units_filled());
            lemma_units_filled_sum_concat(first, m.fills);
        }
    }
}

/// Matching against a well-formed side fills exactly what it takes off the
/// incoming order.
pub proof fn lemma_sweep_units(
    levels: Seq<LevelView>,
    side: Side,
    taker_side: Side,
    limit: u64,
    taker: Seq<char>,
    need: u64,
)
    requires
        side_wf(levels, side),
    ensures
        units_filled_sum(sweep(levels, taker_side, limit, taker, need).fills) == need - sweep(
            levels,
            taker_side,
            limit,
            taker,
            need,
        ).left,
    decreases levels.len(),
{
    if levels.len() == 0 || need == 0 || !crosses(
        taker_side,
        limit,
        best(levels, taker_side).price,
    ) {
    } else {
        let level = best(levels, taker_side);
        let m = match_queue(level.orders, level.price, taker, need);
        let inner = beyond(levels, taker_side);
        let s = sweep(inner, taker_side, limit, taker, m.left);
        lemma_match_queue_units(level.orders, level.price, taker, need);
        lemma_sweep_units(inner, side, taker_side, limit, taker, m.left);
        lemma_units_filled_sum_concat(m.fills, s.fills);
    }
}

/// Whether fill `a` is served before fill `b` by right: at a better price
/// for the incoming order, or at the same price from an older position.
pub open spec fn served_before(a: PartialOrderView, b: PartialOrderView, taker_side: Side)
    -> bool {
    if a.price == b.price {
        a.ordinal < b.ordinal
    } else {
        match taker_side {
            Side::Buy => a.price < b.price,
            Side::Sell => a.price > b.price,
        }
    }
}

/// The fills out of one well-formed queue come at the level's price, oldest
/// position first.
pub proof fn lemma_match_queue_order(
    queue: Seq<PartialOrderView>,
    side: Side,
    price: u64,
    taker: Seq<char>,
    need: u64,
    above: int,
)
    requires
        queue_wf(queue, side, price),
        forall|j: int| 0 <= j < queue.len() ==> above < (#[trigger] queue[j]).ordinal,
    ensures
        forall|k: int|
            0 <= k < match_queue(queue, price, taker, need).fills.len() ==> {
                let f = #[trigger] match_queue(queue, price, taker, need).fills[k];
                f.price == price && above < f.ordinal
            },
        forall|a: int, b: int|
            0 <= a < b < match_queue(queue, price, taker, need).fills.len() ==> match_queue(
                queue,
                price,
                taker,
                need,
            ).fills[a].ordinal < match_queue(queue, price, taker, need).fills[b].ordinal,
    decreases queue.len(),
{
    if queue.len() == 0 || need == 0 {
    } else {
        let head = queue.first();
        let rest = queue.drop_first();
        if head.signer == taker {
            lemma_match_queue_order(rest, side, price, taker, need, head.ordinal as int);
        } else if need < head.remaining_amount {
        } else {
            let less = (need - head.remaining_amount) as u64;
            lemma_match_queue_order(rest, side, price, taker, less, head.ordinal as int);
        }
    }
}

/// The fills out of a well-formed side come best price first and, within a
/// price, oldest position first; and all at prices of that side.
pub proof fn lemma_sweep_order(
    levels: Seq<LevelView>,
    side: Side,
    taker_side: Side,
    limit: u64,
    taker: Seq<char>,
    need: u64,
    above: int,
    below: int,
)
    requires
        side_wf(levels, side),
        forall|i: int| 0 <= i < levels.len() ==> above < (#[trigger] levels[i]).price < below,
    ensures
        forall|k: int|
            0 <= k < sweep(levels, taker_side, limit, taker, need).fills.len() ==> above < (
            #[trigger] sweep(levels, taker_side, limit, taker, need).fills[k]).price < below,
        forall|a: int, b: int|
            0 <= a < b < sweep(levels, taker_side, limit, taker, need).fills.len()
                ==> served_before(
                sweep(levels, taker_side, limit, taker, need).fills[a],
                sweep(levels, taker_side, limit, taker, need).fills[b],
                taker_side,
            ),
    decreases levels.len(),
{
    if levels.len() == 0 || need == 0 || !crosses(
        taker_side,
        limit,
        best(levels, taker_side).price,
    ) {
    } else {
        let level = best(levels, taker_side);
        let m = match_queue(level.orders, level.price, taker, need);
        let inner = beyond(levels, taker_side);
        lemma_match_queue_order(level.orders, side, level.price, taker, need, -1);
        let inner_above = match taker_side {
            Side::Buy => level.price as int,
            Side::Sell => above,
        };
        let inner_below = match taker_side {
            Side::Buy => below,
            Side::Sell => level.price as int,
        };
        lemma_sweep_order(inner, side, taker_side, limit, taker, m.left, inner_above, inner_below);
    }
}

/// The side of the book that an order is matched against.
pub open spec fn opposite_side(asks: Seq<LevelView>, bids: Seq<LevelView>, side: Side) -> Seq<
    LevelView,
> {
    match side {
        Side::Buy => asks,
        Side::Sell => bids,
    }
}

/// No self-fill: no entry of a receipt is a position of the order's own
/// signer.
pub proof fn law_no_self_fill(
    asks: Seq<LevelView>,
    bids: Seq<LevelView>,
    order: OrderView,
    ordinal: u64,
)
    ensures
        forall|k: int|
            0 <= k < outcome(asks, bids, order, ordinal).fills.len() ==> (#[trigger] outcome(
                asks,
                bids,
                order,
                ordinal,
            ).fills[k]).signer != order.signer,
{
    let against = opposite_side(asks, bids, order.side);
    let fits = |price: u64, x: PartialOrderView| true;
    let good = |f: PartialOrderView| f.signer != order.signer;
    lemma_sweep_fills(
        against,
        order.side,
        order.price,
        order.signer,
        order.initial_amount,
        fits,
        good,
    );
}

/// `f` is a fill out of a position that rested in `levels`: same ordinal,
/// signer, side and size, realised at the price the position rested at.
pub open spec fn filled_from(f: PartialOrderView, levels: Seq<LevelView>) -> bool {
    exists|i: int, j: int|
        0 <= i < levels.len() && 0 <= j < levels[i].orders.len() && f.ordinal == (
        #[trigger] levels[i].orders[j]).ordinal && f.signer == levels[i].orders[j].signer
            && f.side == levels[i].orders[j].side && f.current_amount
            == levels[i].orders[j].current_amount && f.price == levels[i].orders[j].price
}

/// Price improvement: every fill is realised at a price within the order's
/// limit (at most the limit of a buy, at least the limit of a sell), and that
/// price is the price at which the filled position rested.
pub proof fn law_price_improvement(
    asks: Seq<LevelView>,
    bids: Seq<LevelView>,
    order: OrderView,
    ordinal: u64,
)
    requires
        side_wf(asks, Side::Sell),
        side_wf(bids, Side::Buy),
    ensures
        forall|k: int|
            0 <= k < outcome(asks, bids, order, ordinal).fills.len() ==> {
                let f = #[trigger] outcome(asks, bids, order, ordinal).fills[k];
                crosses(order.side, order.price, f.price) && filled_from(
                    f,
                    opposite_side(asks, bids, order.side),
                )
            },
{
    let against = opposite_side(asks, bids, order.side);
    let fits = |price: u64, x: PartialOrderView|
        x.price == price && exists|i: int, j: int|
            0 <= i < against.len() && 0 <= j < against[i].orders.len() && x
                == #[trigger] against[i].orders[j];
    let good = |f: PartialOrderView|
        crosses(order.side, order.price, f.price) && filled_from(f, against);
    lemma_sweep_fills(
        against,
        order.side,
        order.price,
        order.signer,
        order.initial_amount,
        fits,
        good,
    );
}

/// Conservation of units: no entry of a receipt has more remaining than it
/// had when its fill began, and the units filled over the receipt are the
/// order's initial amount less what is left of the order.
pub proof fn law_units_conserved(
    asks: Seq<LevelView>,
    bids: Seq<LevelView>,
    order: OrderView,
    ordinal: u64,
)
    requires
        side_wf(asks, Side::Sell),
        side_wf(bids, Side::Buy),
    ensures
        forall|k: int|
            0 <= k < outcome(asks, bids, order, ordinal).fills.len() ==> (#[trigger] outcome(
                asks,
                bids,
                order,
                ordinal,
            ).fills[k]).units_filled() >= 0,
        units_filled_sum(outcome(asks, bids, order, ordinal).fills) == order.initial_amount
            - outcome(asks, bids, order, ordinal).left,
        outcome(asks, bids, order, ordinal).left <= order.initial_amount,
{
    let against = opposite_side(asks, bids, order.side);
    let resting_side = order.side.opposite();
    let fits = |price: u64, x: PartialOrderView| x.remaining_amount == x.current_amount;
    let good = |f: PartialOrderView| f.units_filled() >= 0;
    lemma_sweep_fills(
        against,
        order.side,
        order.price,
        order.signer,
        order.initial_amount,
        fits,
        good,
    );
    lemma_sweep_units(
        against,
        resting_side,
        order.side,
        order.price,
        order.signer,
        order.initial_amount,
    );
    let fills = outcome(asks, bids, order, ordinal).fills;
    assert(units_filled_sum(fills) >= 0) by {
        lemma_units_filled_sum_nonnegative(fills);
    }
}

/// A sum of units filled that are each non-negative is non-negative.
pub proof fn lemma_units_filled_sum_nonnegative(fills: Seq<PartialOrderView>)
    requires
        forall|k: int| 0 <= k < fills.len() ==> (#[trigger] fills[k]).units_filled() >= 0,
    ensures
        units_filled_sum(fills) >= 0,
    decreases fills.len(),
{
    if fills.len() > 0 {
        let front = fills.drop_last();
        lemma_units_filled_sum_nonnegative(front);
    }
}

/// Best price first: on a receipt, each fill comes before those at a worse
/// price for the order (higher for a buy, lower for a sell) and, among fills
/// at one price, before those out of younger positions.
pub proof fn law_best_price_first(
    asks: Seq<LevelView>,
    bids: Seq<LevelView>,
    order: OrderView,
    ordinal: u64,
)
    requires
        side_wf(asks, Side::Sell),
        side_wf(bids, Side::Buy),
    ensures
        forall|a: int, b: int|
            0 <= a < b < outcome(asks, bids, order, ordinal).fills.len() ==> served_before(
                outcome(asks, bids, order, ordinal).fills[a],
                outcome(asks, bids, order, ordinal).fills[b],
                order.side,
            ),
{
    let against = opposite_side(asks, bids, order.side);
    let resting_side = order.side.opposite();
    lemma_sweep_order(
        against,
        resting_side,
        order.side,
        order.price,
        order.signer,
        order.initial_amount,
        -1,
        u64::MAX + 1,
    );
}

/// A receipt without entries means the queue was not touched.
pub proof fn lemma_match_queue_untouched(
    queue: Seq<PartialOrderView>,
    price: u64,
    taker: Seq<char>,
    need: u64,
)
    requires
        match_queue(queue, price, taker, need).fills.len() == 0,
    ensures
        match_queue(queue, price, taker, need).kept == queue,
        match_queue(queue, price, taker, need).left == need,
    decreases queue.len(),
{
    if queue.len() == 0 || need == 0 {
    } else {
        let head = queue.first();
        let rest = queue.drop_first();
        if head.signer == taker {
            lemma_match_queue_untouched(rest, price, taker, need);
        } else if need < head.remaining_amount {
        }
    }
}

/// A receipt without entries means the side was not touched.
pub proof fn lemma_sweep_untouched(
    levels: Seq<LevelView>,
    taker_side: Side,
    limit: u64,
    taker: Seq<char>,
    need: u64,
)
    requires
        forall|i: int| 0 <= i < levels.len() ==> (#[trigger] levels[i]).orders.len() > 0,
        sweep(levels, taker_side, limit, taker, need).fills.len() == 0,
    ensures
        sweep(levels, taker_side, limit, taker, need).levels == levels,
        sweep(levels, taker_side, limit, taker, need).left == need,
    decreases levels.len(),
{
    if levels.len() == 0 || need == 0 || !crosses(
        taker_side,
        limit,
        best(levels, taker_side).price,
    ) {
    } else {
        let level = best(levels, taker_side);
        let at = match taker_side {
            Side::Buy => 0,
            Side::Sell => levels.len() - 1,
        };
        assert(level == levels[at]);
        let m = match_queue(level.orders, level.price, taker, need);
        let inner = beyond(levels, taker_side);
        let s = sweep(inner, taker_side, limit, taker, m.left);
        assert(m.fills.len() + s.fills.len() == 0);
        lemma_match_queue_untouched(level.orders, level.price, taker, need);
        assert forall|i: int| 0 <= i < inner.len() implies (#[trigger] inner[i]).orders.len()
            > 0 by {
            let from = match taker_side {
                Side::Buy => i + 1,
                Side::Sell => i,
            };
            assert(inner[i] == levels[from]);
        }
        lemma_sweep_untouched(inner, taker_side, limit, taker, m.left);
        assert(level_of(level.price, m.kept) =~= seq![level]);
        match taker_side {
            Side::Buy => {
                assert(seq![level] + inner =~= levels);
            },
            Side::Sell => {
                assert(inner + seq![level] =~= levels);
            },
        }
    }
}

/// An order whose receipt has no entries comes to rest whole: the opposite
/// side is as it was, and the order's own side holds one more position, the
/// order at its full size.
pub proof fn law_unfilled_order_rests(
    asks: Seq<LevelView>,
    bids: Seq<LevelView>,
    order: OrderView,
    ordinal: u64,
)
    requires
        side_wf(asks, Side::Sell),
        side_wf(bids, Side::Buy),
        order.initial_amount > 0,
        outcome(asks, bids, order, ordinal).fills.len() == 0,
    ensures
        opposite_side(
            outcome(asks, bids, order, ordinal).asks,
            outcome(asks, bids, order, ordinal).bids,
            order.side,
        ) == opposite_side(asks, bids, order.side),
        opposite_side(
            outcome(asks, bids, order, ordinal).bids,
            outcome(asks, bids, order, ordinal).asks,
            order.side,
        ) == with_resting(
            opposite_side(bids, asks, order.side),
            residue(order, ordinal, order.initial_amount),
        ),
        flatten(outcome(asks, bids, order, ordinal).asks).len() + flatten(
            outcome(asks, bids, order, ordinal).bids,
        ).len() == flatten(asks).len() + flatten(bids).len() + 1,
{
    let against = opposite_side(asks, bids, order.side);
    lemma_sweep_untouched(against, order.side, order.price, order.signer, order.initial_amount);
    lemma_with_resting_count(
        opposite_side(bids, asks, order.side),
        residue(order, ordinal, order.initial_amount),
        ordinal,
    );
}

/// An order that no resting position can trade with comes to rest whole: if
/// no price level of the opposite side is within the order's limit, the
/// receipt has no entries, the opposite side is as it was, and the book
/// holds one more position, the order at its full size on its own side.
pub proof fn law_unmatched_order_rests(
    asks: Seq<LevelView>,
    bids: Seq<LevelView>,
    order: OrderView,
    ordinal: u64,
)
    requires
        side_wf(asks, Side::Sell),
        side_wf(bids, Side::Buy),
        order.initial_amount > 0,
        forall|i: int|
            0 <= i < opposite_side(asks, bids, order.side).len() ==> !crosses(
                order.side,
                order.price,
                (#[trigger] opposite_side(asks, bids, order.side)[i]).price,
            ),
    ensures
        outcome(asks, bids, order, ordinal).fills.len() == 0,
        opposite_side(
            outcome(asks, bids, order, ordinal).asks,
            outcome(asks, bids, order, ordinal).bids,
            order.side,
        ) == opposite_side(asks, bids, order.side),
        opposite_side(
            outcome(asks, bids, order, ordinal).bids,
            outcome(asks, bids, order, ordinal).asks,
            order.side,
        ) == with_resting(
            opposite_side(bids, asks, order.side),
            residue(order, ordinal, order.initial_amount),
        ),
        flatten(outcome(asks, bids, order, ordinal).asks).len() + flatten(
            outcome(asks, bids, order, ordinal).bids,
        ).len() == flatten(asks).len() + flatten(bids).len() + 1,
{
    let against = opposite_side(asks, bids, order.side);
    if against.len() > 0 {
        let at = match order.side {
            Side::Buy => 0,
            Side::Sell => against.len() - 1,
        };
        assert(best(against, order.side) == against[at]);
    }
    law_unfilled_order_rests(asks, bids, order, ordinal);
}

/// If `fits` holds of every position in every level of a side, it holds of
/// every position in the side's listing.
pub proof fn lemma_flatten_all(levels: Seq<LevelView>, fits: spec_fn(PartialOrderView) -> bool)
    requires
        forall|i: int, j: int|
            0 <= i < levels.len() && 0 <= j < levels[i].orders.len() ==> #[trigger] fits(
                levels[i].orders[j],
            ),
    ensures
        forall|k: int| 0 <= k < flatten(levels).len() ==> #[trigger] fits(flatten(levels)[k]),
    decreases levels.len(),
{
    if levels.len() > 0 {
        let front = levels.drop_last();
        lemma_flatten_all(front, fits);
        assert forall|k: int| 0 <= k < flatten(levels).len() implies #[trigger] fits(
            flatten(levels)[k],
        ) by {
            if k >= flatten(front).len() {
                assert(flatten(levels)[k] == levels.last().orders[k - flatten(front).len()]);
            }
        }
    }
}

/// Of every position resting on a well-formed side, no more remains to be
/// filled than its current amount.
pub proof fn law_remaining_within_current(levels: Seq<LevelView>, side: Side)
    requires
        side_wf(levels, side),
    ensures
        forall|k: int|
            0 <= k < flatten(levels).len() ==> (#[trigger] flatten(levels)[k]).remaining_amount
                <= flatten(levels)[k].current_amount,
{
    let fits = |x: PartialOrderView| x.remaining_amount <= x.current_amount;
    lemma_flatten_all(levels, fits);
    assert forall|k: int| 0 <= k < flatten(levels).len() implies (#[trigger] flatten(
        levels,
    )[k]).remaining_amount <= flatten(levels)[k].current_amount by {
        assert(fits(flatten(levels)[k]));
    }
}

} // verus!
