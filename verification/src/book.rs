//! One side of the order book: price levels in ascending price order, each a
//! first-in-first-out queue of resting positions.

use crate::types::{PartialOrder, PartialOrderView, Side};
use vstd::prelude::*;

verus! {

/// The positions resting at one price, oldest first.
#[derive(Debug, PartialEq, Eq)]
pub struct PriceLevel {
    pub price: u64,
    pub orders: Vec<PartialOrder>,
}

/// The mathematical value of a [`PriceLevel`].
pub struct LevelView {
    pub price: u64,
    pub orders: Seq<PartialOrderView>,
}

impl View for PriceLevel {
    type V = LevelView;

    open spec fn view(&self) -> LevelView {
        LevelView { price: self.price, orders: self.orders.deep_view() }
    }
}

impl DeepView for PriceLevel {
    type V = LevelView;

    open spec fn deep_view(&self) -> LevelView {
        self@
    }
}

/// One side of the book. Its value is the sequence of its levels' values.
#[derive(Debug, PartialEq, Eq)]
pub struct BookSide {
    pub levels: Vec<PriceLevel>,
}

impl View for BookSide {
    type V = Seq<LevelView>;

    open spec fn view(&self) -> Seq<LevelView> {
        self.levels.deep_view()
    }
}

/// A position as it rests in the book on `side` at `price`: nothing of it is
/// filled yet in the current step, and something is left to fill.
pub open spec fn resting_wf(position: PartialOrderView, side: Side, price: u64) -> bool {
    &&& position.side == side
    &&& position.price == price
    &&& position.remaining_amount == position.current_amount
    &&& position.remaining_amount > 0
}

/// A queue holds positions of one side and price, in strictly ascending
/// ordinal order: the oldest is served first.
pub open spec fn queue_wf(orders: Seq<PartialOrderView>, side: Side, price: u64) -> bool {
    &&& forall|i: int| 0 <= i < orders.len() ==> resting_wf(#[trigger] orders[i], side, price)
    &&& forall|i: int, j: int|
        0 <= i < j < orders.len() ==> orders[i].ordinal < orders[j].ordinal
}

/// A side holds no empty level, its levels stand in strictly ascending price
/// order, and each level's queue is well formed.
pub open spec fn side_wf(levels: Seq<LevelView>, side: Side) -> bool {
    &&& forall|i: int|
        0 <= i < levels.len() ==> (#[trigger] levels[i]).orders.len() > 0 && queue_wf(
            levels[i].orders,
            side,
            levels[i].price,
        )
    &&& forall|i: int, j: int| 0 <= i < j < levels.len() ==> levels[i].price < levels[j].price
}

/// Every ordinal in the queue is above `above` and at most `at_most`.
pub open spec fn ordinals_within(orders: Seq<PartialOrderView>, above: int, at_most: int) -> bool {
    forall|j: int| 0 <= j < orders.len() ==> above < (#[trigger] orders[j]).ordinal <= at_most
}

/// No position on the side has an ordinal above `bound`.
pub open spec fn ordinals_at_most(levels: Seq<LevelView>, bound: int) -> bool {
    forall|i: int|
        0 <= i < levels.len() ==> ordinals_within((#[trigger] levels[i]).orders, -1, bound)
}

/// Every level's price lies strictly between `above` and `below`.
pub open spec fn prices_within(levels: Seq<LevelView>, above: int, below: int) -> bool {
    forall|i: int| 0 <= i < levels.len() ==> above < (#[trigger] levels[i]).price < below
}

/// All positions of a side: level by level in ascending price order, each
/// level oldest first.
pub open spec fn flatten(levels: Seq<LevelView>) -> Seq<PartialOrderView>
    decreases levels.len(),
{
    if levels.len() == 0 {
        Seq::empty()
    } else {
        flatten(levels.drop_last()) + levels.last().orders
    }
}

/// A level that holds one position.
pub open spec fn single_level(position: PartialOrderView) -> LevelView {
    LevelView { price: position.price, orders: seq![position] }
}

/// The side after `position` came to rest on it: at the back of the queue at
/// its price, which is opened where its price belongs if no position rests
/// there yet.
pub open spec fn with_resting(levels: Seq<LevelView>, position: PartialOrderView) -> Seq<
    LevelView,
>
    decreases levels.len(),
{
    if levels.len() == 0 {
        seq![single_level(position)]
    } else if levels.first().price == position.price {
        seq![
            LevelView { price: position.price, orders: levels.first().orders.push(position) },
        ] + levels.drop_first()
    } else if levels.first().price > position.price {
        seq![single_level(position)] + levels
    } else {
        seq![levels.first()] + with_resting(levels.drop_first(), position)
    }
}

/// A position that comes to rest with an ordinal above all others keeps the
/// side well formed.
pub proof fn lemma_with_resting_wf(
    levels: Seq<LevelView>,
    position: PartialOrderView,
    side: Side,
    above: int,
    below: int,
    bound: int,
)
    requires
        side_wf(levels, side),
        resting_wf(position, side, position.price),
        ordinals_at_most(levels, bound),
        bound < position.ordinal,
        prices_within(levels, above, below),
        above < position.price < below,
    ensures
        side_wf(with_resting(levels, position), side),
        ordinals_at_most(with_resting(levels, position), position.ordinal as int),
        prices_within(with_resting(levels, position), above, below),
    decreases levels.len(),
{
    if levels.len() == 0 {
    } else if levels.first().price == position.price {
    } else if levels.first().price > position.price {
    } else {
        let rest = levels.drop_first();
        let head = levels.first();
        lemma_with_resting_wf(rest, position, side, head.price as int, below, bound);
    }
}

impl PriceLevel {
    /// The number of positions resting at this price.
    pub fn len(&self) -> (count: usize)
        ensures
            count == self@.orders.len(),
    {
        self.orders.len()
    }

    pub fn is_empty(&self) -> (empty: bool)
        ensures
            empty == (self@.orders.len() == 0),
    {
        self.orders.len() == 0
    }

    /// The position that is served next: the oldest one.
    pub fn peek(&self) -> (front: Option<&PartialOrder>)
        ensures
            match front {
                Some(position) => self@.orders.len() > 0 && position@ == self@.orders.first(),
                None => self@.orders.len() == 0,
            },
    {
        if self.orders.len() == 0 {
            None
        } else {
            Some(&self.orders[0])
        }
    }
}

impl BookSide {
    /// The side's invariant, for a book side that holds positions of `side`.
    pub open spec fn wf(&self, side: Side) -> bool {
        side_wf(self@, side)
    }

    /// A side without positions.
    pub fn new() -> (side: Self)
        ensures
            side@ == Seq::<LevelView>::empty(),
    {
        BookSide { levels: Vec::new() }
    }

    /// The number of price levels.
    pub fn len(&self) -> (count: usize)
        ensures
            count == self@.len(),
    {
        self.levels.len()
    }

    pub fn is_empty(&self) -> (empty: bool)
        ensures
            empty == (self@.len() == 0),
    {
        self.levels.len() == 0
    }

    /// The level at `price`, if any position rests there.
    pub fn get(&self, price: &u64) -> (found: Option<&PriceLevel>)
        ensures
            match found {
                Some(level) => exists|i: int|
                    0 <= i < self@.len() && self@[i] == level@ && level@.price == *price,
                None => forall|i: int| 0 <= i < self@.len() ==> self@[i].price != *price,
            },
    {
        let mut i: usize = 0;
        while i < self.levels.len()
            invariant
                i <= self.levels.len(),
                forall|j: int| 0 <= j < i ==> self@[j].price != *price,
            decreases self.levels.len() - i,
        {
            if self.levels[i].price == *price {
                assert(self@[i as int] == self.levels[i as int]@);
                return Some(&self.levels[i]);
            }
            i += 1;
        }
        None
    }

    /// Appends a copy of every position of the side to `out`: level by level
    /// in ascending price order, each level oldest first.
    pub fn append_positions(&self, out: &mut Vec<PartialOrder>)
        ensures
            final(out).deep_view() == old(out).deep_view() + flatten(self@),
    {
        let ghost before = out.deep_view();
        let mut i: usize = 0;
        while i < self.levels.len()
            invariant
                i <= self.levels.len(),
                out.deep_view() == before + flatten(self@.take(i as int)),
            decreases self.levels.len() - i,
        {
            let level = &self.levels[i];
            let ghost done = out.deep_view();
            let mut j: usize = 0;
            while j < level.orders.len()
                invariant
                    j <= level.orders.len(),
                    out.deep_view() == done + level@.orders.take(j as int),
                decreases level.orders.len() - j,
            {
                let ghost so_far = out.deep_view();
                out.push(level.orders[j].clone());
                proof {
                    assert(out.deep_view() =~= so_far.push(level@.orders[j as int]));
                }
                j += 1;
            }
            proof {
                assert(self@.take(i + 1).drop_last() =~= self@.take(i as int));
            }
            i += 1;
        }
        proof {
            assert(self@.take(i as int) =~= self@);
        }
    }

    /// Puts `position` to rest at the back of the queue at its price.
    pub fn enqueue(&mut self, position: PartialOrder)
        ensures
            final(self)@ == with_resting(old(self)@, position@),
    {
        let ghost before = self@;
        let mut i: usize = 0;
        proof {
            assert(before.skip(0) =~= before);
        }
        while i < self.levels.len() && self.levels[i].price < position.price
            invariant
                self@ == before,
                i <= self.levels.len(),
                with_resting(before, position@) == before.take(i as int) + with_resting(
                    before.skip(i as int),
                    position@,
                ),
            decreases self.levels.len() - i,
        {
            proof {
                let rest = before.skip(i as int);
                assert(rest.drop_first() =~= before.skip(i + 1));
            }
            i += 1;
        }
        if i < self.levels.len() && self.levels[i].price == position.price {
            let ghost resting = position@;
            let ghost levels_before = self.levels@;
            self.levels[i].orders.push(position);
            proof {
                assert(self.levels@[i as int]@.orders =~= levels_before[i as int]@.orders.push(
                    resting,
                ));
            }
        } else {
            let ghost resting = position@;
            let price = position.price;
            let mut orders: Vec<PartialOrder> = Vec::new();
            orders.push(position);
            let level = PriceLevel { price, orders };
            proof {
                assert(level@.orders =~= seq![resting]);
            }
            self.levels.insert(i, level);
        }
    }
}

} // verus!
