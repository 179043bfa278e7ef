//! The matching engine: a two-sided book under price, then arrival-order
//! priority, with no fill between two orders of one signer.

use crate::book::{flatten, ordinals_at_most, side_wf, with_resting, BookSide, LevelView};
use crate::errors::AccountingError;
use crate::invariants::lemma_outcome_wf;
use crate::ordinals::distinct_ordinals;
use crate::sorting::{sort_positions, sorted};
use crate::types::{Order, OrderView, PartialOrder, PartialOrderView, Receipt, ReceiptView, Side};
use vstd::prelude::*;

verus! {

/// What remains at rest of a position after an incoming order took `taken`
/// units of it: a fresh position of the reduced size, with the same ordinal,
/// signer, side and price.
pub open spec fn residual(resting: PartialOrderView, taken: u64) -> PartialOrderView {
    PartialOrderView {
        current_amount: (resting.remaining_amount - taken) as u64,
        remaining_amount: (resting.remaining_amount - taken) as u64,
        ..resting
    }
}

/// The receipt entry for a fill of `taken` units out of a resting position:
/// the position as it stood when the fill began, its remaining amount reduced
/// by the fill and its price set to the price of the level it rested in.
pub open spec fn fill(resting: PartialOrderView, taken: u64, price: u64) -> PartialOrderView {
    PartialOrderView {
        price,
        remaining_amount: (resting.remaining_amount - taken) as u64,
        ..resting
    }
}

/// The result of matching an incoming order against one queue.
pub struct QueueMatch {
    /// The queue afterwards.
    pub kept: Seq<PartialOrderView>,
    /// The receipt entries, in the order the fills happened.
    pub fills: Seq<PartialOrderView>,
    /// Units of the incoming order still unfilled.
    pub left: u64,
}

/// Matches `need` units of an order signed by `taker` against a queue, oldest
/// position first. Positions of `taker` are passed over and keep their place.
/// A position larger than what is needed is filled in part and its residual
/// keeps its place; a position that is not is consumed whole.
pub open spec fn match_queue(
    queue: Seq<PartialOrderView>,
    price: u64,
    taker: Seq<char>,
    need: u64,
) -> QueueMatch
    decreases queue.len(),
{
    if queue.len() == 0 || need == 0 {
        QueueMatch { kept: queue, fills: Seq::empty(), left: need }
    } else {
        let head = queue.first();
        let rest = queue.drop_first();
        if head.signer == taker {
            let m = match_queue(rest, price, taker, need);
            QueueMatch { kept: seq![head] + m.kept, fills: m.fills, left: m.left }
        } else if need < head.remaining_amount {
            QueueMatch {
                kept: seq![residual(head, need)] + rest,
                fills: seq![fill(head, need, price)],
                left: 0,
            }
        } else {
            let m = match_queue(rest, price, taker, (need - head.remaining_amount) as u64);
            QueueMatch {
                kept: m.kept,
                fills: seq![fill(head, head.remaining_amount, price)] + m.fills,
                left: m.left,
            }
        }
    }
}

/// Matches an incoming order against the queue of one price level and
/// appends the receipt entries to `matches`. Returns the queue afterwards and
/// the units still unfilled.
pub fn drain_queue(
    queue: Vec<PartialOrder>,
    price: u64,
    taker: &String,
    need: u64,
    matches: &mut Vec<PartialOrder>,
) -> (out: (Vec<PartialOrder>, u64))
    ensures
        out.0.deep_view() == match_queue(queue.deep_view(), price, taker@, need).kept,
        final(matches).deep_view() == old(matches).deep_view() + match_queue(
            queue.deep_view(),
            price,
            taker@,
            need,
        ).fills,
        out.1 == match_queue(queue.deep_view(), price, taker@, need).left,
{
    let ghost whole = queue.deep_view();
    let ghost items = queue@;
    let ghost fills_before = matches.deep_view();
    let mut kept: Vec<PartialOrder> = Vec::new();
    let mut left = need;
    proof {
        assert(whole.skip(0) =~= whole);
        assert(kept.deep_view() =~= Seq::<PartialOrderView>::empty());
    }
    for position in it: queue
        invariant
            it.seq() == items,
            whole.len() == items.len(),
            forall|k: int| 0 <= k < items.len() ==> whole[k] == items[k]@,
            match_queue(whole, price, taker@, need).kept == kept.deep_view() + match_queue(
                whole.skip(it.index()),
                price,
                taker@,
                left,
            ).kept,
            fills_before + match_queue(whole, price, taker@, need).fills == matches.deep_view()
                + match_queue(whole.skip(it.index()), price, taker@, left).fills,
            match_queue(whole, price, taker@, need).left == match_queue(
                whole.skip(it.index()),
                price,
                taker@,
                left,
            ).left,
    {
        let ghost k = it.index();
        let ghost tail = whole.skip(k);
        let ghost kept_before = kept.deep_view();
        let ghost matches_before = matches.deep_view();
        let ghost left_before = left;
        proof {
            assert(position@ == whole[k]);
            assert(tail.drop_first() =~= whole.skip(k + 1));
        }
        if left == 0 {
            kept.push(position);
            proof {
                assert(kept.deep_view() =~= kept_before.push(whole[k]));
            }
        } else if position.signer == *taker {
            kept.push(position);
            proof {
                let m = match_queue(whole.skip(k + 1), price, taker@, left);
                assert(kept_before + (seq![whole[k]] + m.kept) =~= kept.deep_view() + m.kept);
            }
        } else if left < position.remaining_amount {
            let mut rest = position.clone();
            rest.remaining_amount = position.remaining_amount - left;
            rest.current_amount = rest.remaining_amount;
            let mut taken = position;
            taken.remaining_amount = rest.remaining_amount;
            taken.price = price;
            proof {
                assert(rest@ == residual(whole[k], left));
            }
            kept.push(rest);
            matches.push(taken);
            left = 0;
            proof {
                let m = match_queue(whole.skip(k + 1), price, taker@, 0);
                assert(m.kept == whole.skip(k + 1));
                assert(kept.deep_view() =~= kept_before.push(residual(whole[k], left_before)));
                assert(kept_before + (seq![residual(whole[k], left_before)] + tail.drop_first())
                    =~= kept.deep_view() + m.kept);
            }
        } else {
            left = left - position.remaining_amount;
            let mut taken = position;
            taken.remaining_amount = 0;
            taken.price = price;
            matches.push(taken);
            proof {
                assert(matches.deep_view() =~= matches_before.push(
                    fill(whole[k], whole[k].remaining_amount, price),
                ));
            }
        }
    }
    (kept, left)
}

/// Whether an incoming order of side `taker_side` with limit price `limit`
/// can trade at `price`.
pub open spec fn crosses(taker_side: Side, limit: u64, price: u64) -> bool {
    match taker_side {
        Side::Buy => price <= limit,
        Side::Sell => price >= limit,
    }
}

/// The level that an incoming order of `taker_side` tries first: for a buy
/// the lowest ask, for a sell the highest bid.
pub open spec fn best(levels: Seq<LevelView>, taker_side: Side) -> LevelView {
    match taker_side {
        Side::Buy => levels.first(),
        Side::Sell => levels.last(),
    }
}

/// The levels that come after the best one.
pub open spec fn beyond(levels: Seq<LevelView>, taker_side: Side) -> Seq<LevelView> {
    match taker_side {
        Side::Buy => levels.drop_first(),
        Side::Sell => levels.drop_last(),
    }
}

/// Puts what is left of the best level back beside the levels beyond it.
pub open spec fn rejoin(level: Seq<LevelView>, others: Seq<LevelView>, taker_side: Side) -> Seq<
    LevelView,
> {
    match taker_side {
        Side::Buy => level + others,
        Side::Sell => others + level,
    }
}

/// A level at `price` holding `orders`, or nothing if `orders` is empty: an
/// emptied level does not stay in the book.
pub open spec fn level_of(price: u64, orders: Seq<PartialOrderView>) -> Seq<LevelView> {
    if orders.len() == 0 {
        Seq::empty()
    } else {
        seq![LevelView { price, orders }]
    }
}

/// The result of matching an incoming order against one side of the book.
pub struct Sweep {
    /// The side afterwards.
    pub levels: Seq<LevelView>,
    /// The receipt entries, in the order the fills happened.
    pub fills: Seq<PartialOrderView>,
    /// Units of the incoming order still unfilled.
    pub left: u64,
}

/// Matches `need` units of an order of `taker_side`, signed by `taker`, with
/// limit price `limit`, against the opposite side of the book. Levels are
/// taken best price first, as long as the order is not filled and the level's
/// price is within the limit.
pub open spec fn sweep(
    levels: Seq<LevelView>,
    taker_side: Side,
    limit: u64,
    taker: Seq<char>,
    need: u64,
) -> Sweep
    decreases levels.len(),
{
    if levels.len() == 0 || need == 0 || !crosses(
        taker_side,
        limit,
        best(levels, taker_side).price,
    ) {
        Sweep { levels, fills: Seq::empty(), left: need }
    } else {
        let level = best(levels, taker_side);
        let m = match_queue(level.orders, level.price, taker, need);
        let s = sweep(beyond(levels, taker_side), taker_side, limit, taker, m.left);
        Sweep {
            levels: rejoin(level_of(level.price, m.kept), s.levels, taker_side),
            fills: m.fills + s.fills,
            left: s.left,
        }
    }
}

/// What is left of an order after matching, as it comes to rest at its own
/// limit price: a position of `left` units, none of them filled.
pub open spec fn residue(order: OrderView, ordinal: u64, left: u64) -> PartialOrderView {
    PartialOrderView {
        price: order.price,
        current_amount: left,
        side: order.side,
        signer: order.signer,
        ordinal,
        remaining_amount: left,
    }
}

/// The result of processing one order.
pub struct Outcome {
    /// The sell side afterwards.
    pub asks: Seq<LevelView>,
    /// The buy side afterwards.
    pub bids: Seq<LevelView>,
    /// The receipt entries, in the order the fills happened.
    pub fills: Seq<PartialOrderView>,
    /// Units of the order that were not filled and came to rest.
    pub left: u64,
}

/// Processes an order that was given `ordinal`: it is matched against the
/// opposite side, and what is left of it, if anything, comes to rest on its
/// own side at its limit price.
pub open spec fn outcome(
    asks: Seq<LevelView>,
    bids: Seq<LevelView>,
    order: OrderView,
    ordinal: u64,
) -> Outcome {
    match order.side {
        Side::Buy => {
            let s = sweep(asks, Side::Buy, order.price, order.signer, order.initial_amount);
            Outcome {
                asks: s.levels,
                bids: if s.left > 0 {
                    with_resting(bids, residue(order, ordinal, s.left))
                } else {
                    bids
                },
                fills: s.fills,
                left: s.left,
            }
        },
        Side::Sell => {
            let s = sweep(bids, Side::Sell, order.price, order.signer, order.initial_amount);
            Outcome {
                asks: if s.left > 0 {
                    with_resting(asks, residue(order, ordinal, s.left))
                } else {
                    asks
                },
                bids: s.levels,
                fills: s.fills,
                left: s.left,
            }
        },
    }
}

/// The receipts of the first `ordinal` orders, in order: receipt `i` carries
/// ordinal `i + 1`.
pub open spec fn history_wf(history: Seq<ReceiptView>, ordinal: u64) -> bool {
    &&& history.len() == ordinal
    &&& forall|i: int| 0 <= i < history.len() ==> (#[trigger] history[i]).ordinal == i + 1
}

/// A book is well formed if both its sides are, no position in it has an
/// ordinal that was not given out yet, and no two have the same.
pub open spec fn book_wf(asks: Seq<LevelView>, bids: Seq<LevelView>, ordinal: u64) -> bool {
    &&& side_wf(asks, Side::Sell)
    &&& side_wf(bids, Side::Buy)
    &&& ordinals_at_most(asks, ordinal as int)
    &&& ordinals_at_most(bids, ordinal as int)
    &&& distinct_ordinals(flatten(asks) + flatten(bids))
}

/// The order-matching engine: the book, the counter that numbers the orders,
/// and every receipt issued so far.
#[derive(Debug, PartialEq, Eq)]
pub struct MatchingEngine {
    /// The ordinal given to the order admitted last; 0 before the first.
    pub ordinal: u64,
    /// Resting sell positions.
    pub asks: BookSide,
    /// Resting buy positions.
    pub bids: BookSide,
    /// The receipts issued, oldest first, whether or not anything matched.
    pub history: Vec<Receipt>,
}

/// Removing the level that stands first in the middle part of a side.
proof fn lemma_frame_remove_first(
    front: Seq<LevelView>,
    window: Seq<LevelView>,
    back: Seq<LevelView>,
)
    requires
        window.len() > 0,
    ensures
        (front + window + back)[front.len() as int] == window.first(),
        (front + window + back).remove(front.len() as int) == front + window.drop_first() + back,
        forall|level: LevelView|
            (front + window + back).update(front.len() as int, level) == #[trigger] front.push(
                level,
            ) + window.drop_first() + back,
{
    let whole = front + window + back;
    assert(whole.remove(front.len() as int) =~= front + window.drop_first() + back);
}

/// Removing the level that stands last in the middle part of a side.
proof fn lemma_frame_remove_last(
    front: Seq<LevelView>,
    window: Seq<LevelView>,
    back: Seq<LevelView>,
)
    requires
        window.len() > 0,
    ensures
        (front + window + back)[front.len() + window.len() - 1] == window.last(),
        (front + window + back).remove(front.len() + window.len() - 1) == front
            + window.drop_last() + back,
        forall|level: LevelView|
            (front + window + back).update(front.len() + window.len() - 1, level) == front
                + window.drop_last() + #[trigger] (seq![level] + back),
{
    let whole = front + window + back;
    let at = front.len() + window.len() - 1;
    assert(whole.remove(at) =~= front + window.drop_last() + back);
}

/// Matches an incoming order against the queue of level `idx` of `side`.
/// The level keeps what is left of its queue, or leaves the side if nothing
/// is. Returns the units still unfilled.
fn drain_level(
    side: &mut BookSide,
    idx: usize,
    taker: &String,
    need: u64,
    matches: &mut Vec<PartialOrder>,
) -> (left: u64)
    requires
        idx < old(side)@.len(),
    ensures
        ({
            let level = old(side)@[idx as int];
            let m = match_queue(level.orders, level.price, taker@, need);
            &&& left == m.left
            &&& final(matches).deep_view() == old(matches).deep_view() + m.fills
            &&& m.kept.len() == 0 ==> final(side)@ == old(side)@.remove(idx as int)
            &&& m.kept.len() > 0 ==> final(side)@ == old(side)@.update(
                idx as int,
                LevelView { price: level.price, orders: m.kept },
            )
        }),
{
    let ghost before = side@;
    let price = side.levels[idx].price;
    let mut queue: Vec<PartialOrder> = Vec::new();
    core::mem::swap(&mut side.levels[idx].orders, &mut queue);
    let (kept, left) = drain_queue(queue, price, taker, need, matches);
    if kept.len() == 0 {
        side.levels.remove(idx);
    } else {
        let ghost level = LevelView { price, orders: kept.deep_view() };
        side.levels[idx].orders = kept;
        assert(side@ =~= before.update(idx as int, level));
    }
    left
}

impl MatchingEngine {
    /// The engine's invariant: the book is well formed, and the history
    /// holds one receipt for each ordinal given out.
    pub open spec fn wf(&self) -> bool {
        &&& book_wf(self.asks@, self.bids@, self.ordinal)
        &&& history_wf(self.history.deep_view(), self.ordinal)
    }

    /// Every resting position: the asks in ascending price order, then the
    /// bids in ascending price order, each price level oldest first.
    pub open spec fn resting(&self) -> Seq<PartialOrderView> {
        flatten(self.asks@) + flatten(self.bids@)
    }

    /// An engine with an empty book that has admitted no order.
    pub fn new() -> (engine: MatchingEngine)
        ensures
            engine.wf(),
            engine.ordinal == 0,
            engine.asks@.len() == 0,
            engine.bids@.len() == 0,
            engine.history@.len() == 0,
    {
        MatchingEngine {
            ordinal: 0,
            asks: BookSide::new(),
            bids: BookSide::new(),
            history: Vec::new(),
        }
    }

    /// Admits an order: gives it the next ordinal, matches it against the
    /// opposite side of the book best price first and, within a price,
    /// oldest position first, lets what is left of it rest on its own side,
    /// and records and returns the receipt. Matching itself cannot fail: the
    /// result is always `Ok`.
    pub fn process(&mut self, order: Order) -> (result: Result<Receipt, AccountingError>)
        requires
            old(self).wf(),
            old(self).ordinal < u64::MAX,
        ensures
            final(self).wf(),
            final(self).ordinal == old(self).ordinal + 1,
            ({
                let o = outcome(old(self).asks@, old(self).bids@, order@, final(self).ordinal);
                &&& result matches Ok(receipt)
                &&& receipt@ == (ReceiptView { ordinal: final(self).ordinal, matches: o.fills })
                &&& final(self).asks@ == o.asks
                &&& final(self).bids@ == o.bids
                &&& final(self).history.deep_view() == old(self).history.deep_view().push(
                    receipt@,
                )
            }),
    {
        let ghost submitted = order@;
        self.ordinal = self.ordinal + 1;
        proof {
            lemma_outcome_wf(old(self).asks@, old(self).bids@, submitted, self.ordinal);
        }
        let initial_amount = order.get_initial_amount();
        let mut partial_order = order.into_partial_order(self.ordinal, initial_amount);
        let receipt = match partial_order.side {
            Side::Buy => {
                let receipt = MatchingEngine::match_order(&mut partial_order, &mut self.asks);
                if partial_order.remaining_amount > 0 {
                    partial_order.current_amount = partial_order.remaining_amount;
                    self.bids.enqueue(partial_order);
                }
                receipt
            },
            Side::Sell => {
                let receipt = MatchingEngine::match_order(&mut partial_order, &mut self.bids);
                if partial_order.remaining_amount > 0 {
                    partial_order.current_amount = partial_order.remaining_amount;
                    self.asks.enqueue(partial_order);
                }
                receipt
            },
        };
        let ghost history_before = self.history.deep_view();
        self.history.push(receipt.clone());
        proof {
            assert(self.history.deep_view() =~= history_before.push(receipt@));
        }
        Ok(receipt)
    }

    /// Lists the resting positions without changing the book. Unsorted, the
    /// asks come first and then the bids, each side in ascending price order
    /// and each price level oldest first. With `sort` the listing is ordered
    /// by ordinal: ascending, or descending if `desc`.
    pub fn order_book(&self, sort: bool, desc: bool) -> (book: Vec<PartialOrder>)
        ensures
            !sort ==> book.deep_view() == self.resting(),
            sort ==> sorted(book.deep_view(), false, desc) && book.deep_view().to_multiset()
                == self.resting().to_multiset(),
    {
        let mut book: Vec<PartialOrder> = Vec::new();
        self.asks.append_positions(&mut book);
        self.bids.append_positions(&mut book);
        if sort {
            sort_positions(book, false, desc)
        } else {
            book
        }
    }

    /// Lists the resting positions, both sides together, by price:
    /// ascending, or descending if `desc`. Positions at one price are listed
    /// in ascending ordinal order either way.
    pub fn order_book_by_price(&self, desc: bool) -> (book: Vec<PartialOrder>)
        ensures
            sorted(book.deep_view(), true, desc),
            book.deep_view().to_multiset() == self.resting().to_multiset(),
    {
        let book = self.order_book(false, false);
        sort_positions(book, true, desc)
    }

    /// Matches a working position against the opposite side of the book.
    /// Fills are taken out of `side`, the position's remaining amount is
    /// reduced by what was filled, and the fills are returned on a receipt
    /// that carries the position's ordinal.
    pub fn match_order(partial_order: &mut PartialOrder, side: &mut BookSide) -> (receipt: Receipt)
        ensures
            ({
                let taker = old(partial_order)@;
                let s = sweep(
                    old(side)@,
                    taker.side,
                    taker.price,
                    taker.signer,
                    taker.remaining_amount,
                );
                &&& final(side)@ == s.levels
                &&& receipt@ == (ReceiptView { ordinal: taker.ordinal, matches: s.fills })
                &&& final(partial_order)@ == (PartialOrderView {
                    remaining_amount: s.left,
                    ..taker
                })
            }),
    {
        let ghost taker = partial_order@;
        let ghost total = sweep(
            side@,
            taker.side,
            taker.price,
            taker.signer,
            taker.remaining_amount,
        );
        let buy = match partial_order.side {
            Side::Buy => true,
            Side::Sell => false,
        };
        let limit = partial_order.price;
        let mut matches: Vec<PartialOrder> = Vec::new();
        let mut left = partial_order.remaining_amount;
        let mut lo: usize = 0;
        let mut hi: usize = side.levels.len();
        let mut open = true;
        let ghost mut front: Seq<LevelView> = Seq::empty();
        let ghost mut window: Seq<LevelView> = side@;
        let ghost mut back: Seq<LevelView> = Seq::empty();
        proof {
            assert(front + window + back =~= side@);
            assert(front + total.levels + back =~= total.levels);
        }
        while open && left > 0 && lo < hi
            invariant
                partial_order@ == taker,
                buy == (taker.side == Side::Buy),
                limit == taker.price,
                side@ == front + window + back,
                lo == front.len(),
                hi == front.len() + window.len(),
                buy ==> back.len() == 0,
                !buy ==> front.len() == 0,
                !open ==> window.len() > 0 && !crosses(
                    taker.side,
                    limit,
                    best(window, taker.side).price,
                ),
                total.levels == front + sweep(
                    window,
                    taker.side,
                    limit,
                    taker.signer,
                    left,
                ).levels + back,
                total.fills == matches.deep_view() + sweep(
                    window,
                    taker.side,
                    limit,
                    taker.signer,
                    left,
                ).fills,
                total.left == sweep(window, taker.side, limit, taker.signer, left).left,
            decreases window.len() + if open { 1int } else { 0int },
        {
            let idx = if buy { lo } else { hi - 1 };
            proof {
                if buy {
                    lemma_frame_remove_first(front, window, back);
                } else {
                    lemma_frame_remove_last(front, window, back);
                }
            }
            let price = side.levels[idx].price;
            assert(price == best(window, taker.side).price);
            let crossing = if buy { price <= limit } else { price >= limit };
            if !crossing {
                open = false;
            } else {
                let ghost done = matches.deep_view();
                let ghost level = best(window, taker.side);
                let ghost m = match_queue(level.orders, level.price, taker.signer, left);
                let ghost inner = beyond(window, taker.side);
                let ghost s = sweep(inner, taker.side, limit, taker.signer, m.left);
                left = drain_level(side, idx, &partial_order.signer, left, &mut matches);
                proof {
                    assert(done + (m.fills + s.fills) =~= matches.deep_view() + s.fills);
                    if buy {
                        front = front + level_of(level.price, m.kept);
                    } else {
                        back = level_of(level.price, m.kept) + back;
                    }
                    window = inner;
                }
                if buy {
                    if side.levels.len() == hi {
                        lo = lo + 1;
                    }
                    hi = side.levels.len();
                } else {
                    hi = hi - 1;
                }
            }
        }
        partial_order.remaining_amount = left;
        Receipt { ordinal: partial_order.ordinal, matches }
    }
}

} // verus!
