//! Sorting of position listings, by ordinal or by price.

use crate::types::{PartialOrder, PartialOrderView};
use vstd::prelude::*;

verus! {

/// Whether `a` may stand before `b` in a listing.
///
/// By price: the lower price first, or the higher if `desc`; at one price
/// the lower ordinal first, whatever `desc` says. Otherwise by ordinal: the
/// lower first, or the higher if `desc`.
pub open spec fn in_order(a: PartialOrderView, b: PartialOrderView, by_price: bool, desc: bool)
    -> bool {
    if by_price {
        if a.price != b.price {
            if desc {
                a.price > b.price
            } else {
                a.price < b.price
            }
        } else {
            a.ordinal <= b.ordinal
        }
    } else {
        if desc {
            a.ordinal >= b.ordinal
        } else {
            a.ordinal <= b.ordinal
        }
    }
}

/// Every position of the listing may stand before all that follow it.
pub open spec fn sorted(listing: Seq<PartialOrderView>, by_price: bool, desc: bool) -> bool {
    forall|i: int, j: int|
        0 <= i < j < listing.len() ==> in_order(listing[i], listing[j], by_price, desc)
}

/// Inserting an element adds it to the multiset of the sequence.
pub proof fn lemma_insert_to_multiset<A>(s: Seq<A>, at: int, a: A)
    requires
        0 <= at <= s.len(),
    ensures
        s.insert(at, a).to_multiset() == s.to_multiset().insert(a),
{
    let grown = s.insert(at, a);
    assert(grown.remove(at) =~= s);
    grown.to_multiset_ensures();
}

fn stands_before(a: &PartialOrder, b: &PartialOrder, by_price: bool, desc: bool) -> (yes: bool)
    ensures
        yes == in_order(a@, b@, by_price, desc),
{
    if by_price {
        if a.price != b.price {
            if desc {
                a.price > b.price
            } else {
                a.price < b.price
            }
        } else {
            a.ordinal <= b.ordinal
        }
    } else {
        if desc {
            a.ordinal >= b.ordinal
        } else {
            a.ordinal <= b.ordinal
        }
    }
}

/// Sorts a listing. The result holds the same positions, each as often as
/// the input does, in an order in which each may stand before all that follow.
pub fn sort_positions(items: Vec<PartialOrder>, by_price: bool, desc: bool) -> (out: Vec<
    PartialOrder,
>)
    ensures
        sorted(out.deep_view(), by_price, desc),
        out.deep_view().to_multiset() == items.deep_view().to_multiset(),
{
    let ghost all = items.deep_view();
    let ghost elements = items@;
    let mut out: Vec<PartialOrder> = Vec::new();
    proof {
        assert(all.take(0) =~= Seq::<PartialOrderView>::empty());
        assert(out.deep_view() =~= Seq::<PartialOrderView>::empty());
    }
    for item in it: items
        invariant
            it.seq() == elements,
            all.len() == elements.len(),
            forall|k: int| 0 <= k < elements.len() ==> all[k] == elements[k]@,
            sorted(out.deep_view(), by_price, desc),
            out.deep_view().to_multiset() == all.take(it.index()).to_multiset(),
    {
        let ghost k = it.index();
        let ghost placed = out.deep_view();
        let mut at: usize = out.len();
        while at > 0 && !stands_before(&out[at - 1], &item, by_price, desc)
            invariant
                at <= out.len(),
                out.deep_view() == placed,
                forall|j: int|
                    at <= j < placed.len() ==> !in_order(placed[j], item@, by_price, desc),
            decreases at,
        {
            at = at - 1;
        }
        out.insert(at, item);
        proof {
            let grown = placed.insert(at as int, all[k]);
            assert(out.deep_view() =~= grown);
            lemma_insert_to_multiset(placed, at as int, all[k]);
            assert(all.take(k + 1) =~= all.take(k).push(all[k]));
            all.take(k).to_multiset_ensures();
            assert forall|i: int, j: int| 0 <= i < j < grown.len() implies in_order(
                grown[i],
                grown[j],
                by_price,
                desc,
            ) by {
                if j == at {
                    assert(in_order(placed[i], placed[at - 1], by_price, desc) || i == at - 1);
                }
            }
        }
    }
    proof {
        assert(all.take(all.len() as int) =~= all);
    }
    out
}

} // verus!
