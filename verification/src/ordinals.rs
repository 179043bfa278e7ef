//! No two positions in the book have the same ordinal: what that means, and
//! why matching keeps it so.

use crate::book::{
    flatten, ordinals_at_most, ordinals_within, single_level, with_resting, LevelView,
};
use crate::matching::{beyond, best, crosses, level_of, match_queue, sweep};
use crate::sorting::{in_order, sorted};
use crate::types::{PartialOrderView, Side};
use vstd::prelude::*;

verus! {

/// How many positions of a listing have the ordinal `ordinal`.
pub open spec fn ordinal_count(listing: Seq<PartialOrderView>, ordinal: u64) -> nat
    decreases listing.len(),
{
    if listing.len() == 0 {
        0
    } else {
        ordinal_count(listing.drop_last(), ordinal) + if listing.last().ordinal == ordinal {
            1nat
        } else {
            0nat
        }
    }
}

/// No ordinal occurs twice in the listing.
pub open spec fn distinct_ordinals(listing: Seq<PartialOrderView>) -> bool {
    forall|ordinal: u64| #[trigger] ordinal_count(listing, ordinal) <= 1
}

/// The count over two listings, one after the other, is the sum of the
/// counts.
pub proof fn lemma_count_concat(a: Seq<PartialOrderView>, b: Seq<PartialOrderView>, ordinal: u64)
    ensures
        ordinal_count(a + b, ordinal) == ordinal_count(a, ordinal) + ordinal_count(b, ordinal),
    decreases b.len(),
{
    if b.len() == 0 {
    } else {
        assert((a + b).drop_last() =~= a + b.drop_last());
        lemma_count_concat(a, b.drop_last(), ordinal);
    }
}

/// The count of a listing of one position.
pub proof fn lemma_count_single(position: PartialOrderView, ordinal: u64)
    ensures
        ordinal_count(seq![position], ordinal) == if position.ordinal == ordinal {
            1nat
        } else {
            0nat
        },
{
    let only = seq![position];
    assert(ordinal_count(only.drop_last(), ordinal) == 0);
}

/// An ordinal that no position has is counted zero times.
pub proof fn lemma_count_absent(listing: Seq<PartialOrderView>, ordinal: u64)
    requires
        forall|k: int| 0 <= k < listing.len() ==> (#[trigger] listing[k]).ordinal != ordinal,
    ensures
        ordinal_count(listing, ordinal) == 0,
    decreases listing.len(),
{
    if listing.len() > 0 {
        let front = listing.drop_last();
        lemma_count_absent(front, ordinal);
    }
}

/// A position that is counted is in the listing.
pub proof fn lemma_count_present(listing: Seq<PartialOrderView>, ordinal: u64) -> (at: int)
    requires
        ordinal_count(listing, ordinal) > 0,
    ensures
        0 <= at < listing.len(),
        listing[at].ordinal == ordinal,
    decreases listing.len(),
{
    if listing.last().ordinal == ordinal {
        listing.len() - 1
    } else {
        lemma_count_present(listing.drop_last(), ordinal)
    }
}

/// Taking a position out of a listing lowers the count of its ordinal by
/// one and leaves the other counts.
pub proof fn lemma_count_remove(listing: Seq<PartialOrderView>, at: int, ordinal: u64)
    requires
        0 <= at < listing.len(),
    ensures
        ordinal_count(listing, ordinal) == ordinal_count(listing.remove(at), ordinal)
            + if listing[at].ordinal == ordinal {
            1nat
        } else {
            0nat
        },
{
    let before = listing.take(at);
    let after = listing.skip(at + 1);
    assert(listing =~= before + seq![listing[at]] + after);
    lemma_count_concat(before, seq![listing[at]], ordinal);
    lemma_count_concat(before + seq![listing[at]], after, ordinal);
    lemma_count_concat(before, after, ordinal);
    lemma_count_single(listing[at], ordinal);
}

/// Two listings of the same positions count every ordinal alike.
pub proof fn lemma_count_permuted(
    a: Seq<PartialOrderView>,
    b: Seq<PartialOrderView>,
    ordinal: u64,
)
    requires
        a.to_multiset() == b.to_multiset(),
    ensures
        ordinal_count(a, ordinal) == ordinal_count(b, ordinal),
    decreases a.len(),
{
    a.to_multiset_ensures();
    b.to_multiset_ensures();
    if a.len() == 0 {
    } else {
        let at = a.len() - 1;
        let x = a[at];
        assert(b.to_multiset().count(x) > 0);
        let j = choose|j: int| 0 <= j < b.len() && b[j] == x;
        lemma_count_permuted(a.remove(at), b.remove(j), ordinal);
        lemma_count_remove(b, j, ordinal);
    }
}

/// Matching adds no position to a queue.
pub proof fn lemma_match_queue_count(
    queue: Seq<PartialOrderView>,
    price: u64,
    taker: Seq<char>,
    need: u64,
    ordinal: u64,
)
    ensures
        ordinal_count(match_queue(queue, price, taker, need).kept, ordinal) <= ordinal_count(
            queue,
            ordinal,
        ),
    decreases queue.len(),
{
    if queue.len() == 0 || need == 0 {
    } else {
        let head = queue.first();
        let rest = queue.drop_first();
        assert(queue =~= seq![head] + rest);
        lemma_count_concat(seq![head], rest, ordinal);
        if head.signer == taker {
            let m = match_queue(rest, price, taker, need);
            lemma_match_queue_count(rest, price, taker, need, ordinal);
            lemma_count_concat(seq![head], m.kept, ordinal);
        } else if need < head.remaining_amount {
            let left = match_queue(queue, price, taker, need).kept.first();
            lemma_count_concat(seq![left], rest, ordinal);
            lemma_count_single(left, ordinal);
        } else {
            lemma_match_queue_count(
                rest,
                price,
                taker,
                (need - head.remaining_amount) as u64,
                ordinal,
            );
        }
    }
}

/// The positions of a side whose first level is `level`.
pub proof fn lemma_flatten_first(level: LevelView, rest: Seq<LevelView>)
    ensures
        flatten(seq![level] + rest) == level.orders + flatten(rest),
    decreases rest.len(),
{
    let whole = seq![level] + rest;
    if rest.len() == 0 {
        assert(flatten(whole.drop_last()) + level.orders =~= level.orders + flatten(rest));
    } else {
        assert(whole.drop_last() =~= seq![level] + rest.drop_last());
        lemma_flatten_first(level, rest.drop_last());
    }
}

/// The positions of what is left of a level.
pub proof fn lemma_flatten_level_of(price: u64, orders: Seq<PartialOrderView>)
    ensures
        flatten(level_of(price, orders)) == orders,
{
    if orders.len() == 0 {
    } else {
        let only = seq![LevelView { price, orders }];
        assert(flatten(only.drop_last()) + orders =~= orders);
    }
}

/// The positions of two runs of levels, one after the other.
pub proof fn lemma_flatten_concat(a: Seq<LevelView>, b: Seq<LevelView>)
    ensures
        flatten(a + b) == flatten(a) + flatten(b),
    decreases b.len(),
{
    if b.len() == 0 {
    } else {
        assert((a + b).drop_last() =~= a + b.drop_last());
        lemma_flatten_concat(a, b.drop_last());
    }
}

/// Matching adds no position to a side.
pub proof fn lemma_sweep_count(
    levels: Seq<LevelView>,
    taker_side: Side,
    limit: u64,
    taker: Seq<char>,
    need: u64,
    ordinal: u64,
)
    ensures
        ordinal_count(flatten(sweep(levels, taker_side, limit, taker, need).levels), ordinal)
            <= ordinal_count(flatten(levels), ordinal),
    decreases levels.len(),
{
    if levels.len() == 0 || need == 0 || !crosses(
        taker_side,
        limit,
        best(levels, taker_side).price,
    ) {
    } else {
        let level = best(levels, taker_side);
        let m = match_queue(level.orders, level.price, taker, need);
        let inner = beyond(levels, taker_side);
        let s = sweep(inner, taker_side, limit, taker, m.left);
        let here = level_of(level.price, m.kept);
        lemma_match_queue_count(level.orders, level.price, taker, need, ordinal);
        lemma_sweep_count(inner, taker_side, limit, taker, m.left, ordinal);
        lemma_flatten_level_of(level.price, m.kept);
        match taker_side {
            Side::Buy => {
                assert(levels =~= seq![level] + inner);
                lemma_flatten_first(level, inner);
                lemma_flatten_concat(here, s.levels);
                lemma_count_concat(level.orders, flatten(inner), ordinal);
                lemma_count_concat(m.kept, flatten(s.levels), ordinal);
            },
            Side::Sell => {
                lemma_flatten_concat(s.levels, here);
                lemma_count_concat(flatten(inner), level.orders, ordinal);
                lemma_count_concat(flatten(s.levels), m.kept, ordinal);
            },
        }
    }
}

/// A position that comes to rest is counted once more under its ordinal.
pub proof fn lemma_with_resting_count(
    levels: Seq<LevelView>,
    position: PartialOrderView,
    ordinal: u64,
)
    ensures
        ordinal_count(flatten(with_resting(levels, position)), ordinal) == ordinal_count(
            flatten(levels),
            ordinal,
        ) + if position.ordinal == ordinal {
            1nat
        } else {
            0nat
        },
        flatten(with_resting(levels, position)).len() == flatten(levels).len() + 1,
    decreases levels.len(),
{
    lemma_count_single(position, ordinal);
    let alone = single_level(position);
    lemma_flatten_level_of(position.price, seq![position]);
    if levels.len() == 0 {
    } else {
        let head = levels.first();
        let rest = levels.drop_first();
        assert(seq![head] + rest =~= levels);
        lemma_flatten_first(head, rest);
        lemma_count_concat(head.orders, flatten(rest), ordinal);
        if head.price == position.price {
            let grown = LevelView { price: position.price, orders: head.orders.push(position) };
            lemma_flatten_first(grown, rest);
            lemma_count_concat(grown.orders, flatten(rest), ordinal);
            assert(grown.orders =~= head.orders + seq![position]);
            lemma_count_concat(head.orders, seq![position], ordinal);
        } else if head.price > position.price {
            lemma_flatten_first(alone, levels);
            lemma_count_concat(seq![position], flatten(levels), ordinal);
        } else {
            lemma_with_resting_count(rest, position, ordinal);
            lemma_flatten_first(head, with_resting(rest, position));
            lemma_count_concat(head.orders, flatten(with_resting(rest, position)), ordinal);
        }
    }
}

/// Every position of the listing of a side is a position of one of its
/// levels.
pub proof fn lemma_flatten_source(levels: Seq<LevelView>, k: int) -> (at: (int, int))
    requires
        0 <= k < flatten(levels).len(),
    ensures
        0 <= at.0 < levels.len(),
        0 <= at.1 < levels[at.0].orders.len(),
        flatten(levels)[k] == levels[at.0].orders[at.1],
    decreases levels.len(),
{
    let front = levels.drop_last();
    if k < flatten(front).len() {
        lemma_flatten_source(front, k)
    } else {
        (levels.len() - 1, k - flatten(front).len())
    }
}

/// An ordinal above all that a side holds is counted zero times.
pub proof fn lemma_count_above(levels: Seq<LevelView>, bound: int, ordinal: u64)
    requires
        ordinals_at_most(levels, bound),
        bound < ordinal,
    ensures
        ordinal_count(flatten(levels), ordinal) == 0,
{
    assert forall|k: int| 0 <= k < flatten(levels).len() implies (#[trigger] flatten(
        levels,
    )[k]).ordinal != ordinal by {
        let at = lemma_flatten_source(levels, k);
        assert(ordinals_within(levels[at.0].orders, -1, bound));
    }
    lemma_count_absent(flatten(levels), ordinal);
}

/// Two positions of a listing with the same ordinal make that ordinal
/// occur twice.
pub proof fn lemma_count_twice(listing: Seq<PartialOrderView>, i: int, j: int)
    requires
        0 <= i < j < listing.len(),
        listing[i].ordinal == listing[j].ordinal,
    ensures
        ordinal_count(listing, listing[i].ordinal) >= 2,
{
    let ordinal = listing[i].ordinal;
    lemma_count_remove(listing, j, ordinal);
    lemma_count_remove(listing.remove(j), i, ordinal);
}

/// Sorted listings of the same positions are the same listing, if no two of
/// the positions have the same ordinal: sorting such positions, by ordinal
/// or by price, in either direction, has one result.
pub proof fn law_sorted_listing_unique(
    a: Seq<PartialOrderView>,
    b: Seq<PartialOrderView>,
    by_price: bool,
    desc: bool,
)
    requires
        sorted(a, by_price, desc),
        sorted(b, by_price, desc),
        a.to_multiset() == b.to_multiset(),
        distinct_ordinals(a),
    ensures
        a == b,
    decreases a.len(),
{
    a.to_multiset_ensures();
    b.to_multiset_ensures();
    if a.len() == 0 {
    } else {
        let x = a[0];
        let y = b[0];
        assert(b.to_multiset().count(x) > 0);
        let j = choose|j: int| 0 <= j < b.len() && b[j] == x;
        assert(a.to_multiset().count(y) > 0);
        let i = choose|i: int| 0 <= i < a.len() && a[i] == y;
        if i > 0 && j > 0 {
            assert(in_order(a[0], a[i], by_price, desc));
            assert(in_order(b[0], b[j], by_price, desc));
            lemma_count_twice(a, 0, i);
        }
        let a_rest = a.remove(0);
        let b_rest = b.remove(0);
        assert forall|ordinal: u64| #[trigger] ordinal_count(a_rest, ordinal) <= 1 by {
            lemma_count_remove(a, 0, ordinal);
        }
        law_sorted_listing_unique(a_rest, b_rest, by_price, desc);
        assert(a =~= seq![x] + a_rest);
    }
}

/// A listing of the positions of a book in which no ordinal occurs twice
/// has no ordinal twice either.
pub proof fn lemma_distinct_permuted(a: Seq<PartialOrderView>, b: Seq<PartialOrderView>)
    requires
        a.to_multiset() == b.to_multiset(),
        distinct_ordinals(a),
    ensures
        distinct_ordinals(b),
{
    assert forall|ordinal: u64| #[trigger] ordinal_count(b, ordinal) <= 1 by {
        lemma_count_permuted(a, b, ordinal);
    }
}

} // verus!
