//! Value shapes for submitted orders, resting positions and receipts.

use vstd::prelude::*;

verus! {

/// The side of an order or of a resting position.
#[derive(Clone, Copy, Debug, PartialEq, Eq, PartialOrd, Ord, Structural)]
pub enum Side {
    /// Wants to buy.
    Buy,
    /// Wants to sell.
    Sell,
}

impl Side {
    /// The side an order of this side is matched against.
    pub open spec fn opposite(self) -> Side {
        match self {
            Side::Buy => Side::Sell,
            Side::Sell => Side::Buy,
        }
    }
}

/// A limit order as submitted: buy or sell `initial_amount` units at `price`
/// per unit or better. The engine, not the submitter, issues its ordinal.
#[derive(Debug, PartialEq, Eq)]
pub struct Order {
    /// Highest price to pay, or lowest price to sell at, per unit.
    pub price: u64,
    /// Units requested; fixed at construction.
    initial_amount: u64,
    /// Buy or sell.
    pub side: Side,
    /// The signer's account.
    pub signer: String,
}

/// The mathematical value of an [`Order`].
pub struct OrderView {
    pub price: u64,
    pub initial_amount: u64,
    pub side: Side,
    pub signer: Seq<char>,
}

impl View for Order {
    type V = OrderView;

    closed spec fn view(&self) -> OrderView {
        OrderView {
            price: self.price,
            initial_amount: self.initial_amount,
            side: self.side,
            signer: self.signer@,
        }
    }
}

impl Clone for Order {
    fn clone(&self) -> (copy: Self)
        ensures
            copy == *self,
    {
        Order {
            price: self.price,
            initial_amount: self.initial_amount,
            side: self.side,
            signer: self.signer.clone(),
        }
    }
}

impl Order {
    pub fn new(price: u64, initial_amount: u64, side: Side, signer: String) -> (order: Self)
        ensures
            order@ == (OrderView { price, initial_amount, side, signer: signer@ }),
    {
        Order { price, initial_amount, side, signer }
    }

    /// Turns the order into a position with the given ordinal and remaining
    /// amount; its current amount is the order's initial amount.
    pub fn into_partial_order(self, ordinal: u64, remaining_amount: u64) -> (position:
        PartialOrder)
        ensures
            position@ == (PartialOrderView {
                price: self@.price,
                current_amount: self@.initial_amount,
                side: self@.side,
                signer: self@.signer,
                ordinal,
                remaining_amount,
            }),
    {
        PartialOrder {
            price: self.price,
            current_amount: self.initial_amount,
            side: self.side,
            signer: self.signer,
            ordinal,
            remaining_amount,
        }
    }

    pub fn get_initial_amount(&self) -> (amount: u64)
        ensures
            amount == self@.initial_amount,
    {
        self.initial_amount
    }

    /// The limit price.
    pub fn limit_price(&self) -> (price: u64)
        ensures
            price == self@.price,
    {
        self.price
    }

    /// The side the order is on.
    pub fn order_side(&self) -> (side: Side)
        ensures
            side == self@.side,
    {
        self.side
    }

    /// The name of the account that signed the order.
    pub fn signer_name(&self) -> (name: &String)
        ensures
            name@ == self@.signer,
    {
        &self.signer
    }
}

/// A position: the state of an order inside the book, or one fill on a
/// receipt.
///
/// At rest, `price` is the price the position rests at. On a receipt it is the
/// price the fill was realised at, `current_amount` is the size the position
/// had when the fill began and `remaining_amount` what was left of it after.
#[derive(Debug, PartialEq, Eq)]
pub struct PartialOrder {
    /// Price per unit.
    pub price: u64,
    /// Units in the position when its current processing step began.
    pub current_amount: u64,
    /// Buy or sell side of the book.
    pub side: Side,
    /// Signer of the order.
    pub signer: String,
    /// The sequence number the engine gave the order.
    pub ordinal: u64,
    /// Units still to be filled.
    pub remaining_amount: u64,
}

/// The mathematical value of a [`PartialOrder`].
pub struct PartialOrderView {
    pub price: u64,
    pub current_amount: u64,
    pub side: Side,
    pub signer: Seq<char>,
    pub ordinal: u64,
    pub remaining_amount: u64,
}

impl PartialOrderView {
    /// Units that a fill took out of the position.
    pub open spec fn units_filled(self) -> int {
        self.current_amount - self.remaining_amount
    }
}

impl View for PartialOrder {
    type V = PartialOrderView;

    open spec fn view(&self) -> PartialOrderView {
        PartialOrderView {
            price: self.price,
            current_amount: self.current_amount,
            side: self.side,
            signer: self.signer@,
            ordinal: self.ordinal,
            remaining_amount: self.remaining_amount,
        }
    }
}

impl DeepView for PartialOrder {
    type V = PartialOrderView;

    open spec fn deep_view(&self) -> PartialOrderView {
        self@
    }
}

impl Clone for PartialOrder {
    fn clone(&self) -> (copy: Self)
        ensures
            copy == *self,
    {
        PartialOrder {
            price: self.price,
            current_amount: self.current_amount,
            side: self.side,
            signer: self.signer.clone(),
            ordinal: self.ordinal,
            remaining_amount: self.remaining_amount,
        }
    }
}

/// What the engine reports for one submitted order.
#[derive(Debug, PartialEq, Eq)]
pub struct Receipt {
    /// The ordinal given to the submitted order.
    pub ordinal: u64,
    /// The resting positions this order consumed, fully or in part, in the
    /// order in which they were filled.
    pub matches: Vec<PartialOrder>,
}

/// The mathematical value of a [`Receipt`].
pub struct ReceiptView {
    pub ordinal: u64,
    pub matches: Seq<PartialOrderView>,
}

impl View for Receipt {
    type V = ReceiptView;

    open spec fn view(&self) -> ReceiptView {
        ReceiptView { ordinal: self.ordinal, matches: self.matches.deep_view() }
    }
}

impl Clone for Receipt {
    fn clone(&self) -> (copy: Self)
        ensures
            copy@ == self@,
    {
        let mut matches: Vec<PartialOrder> = Vec::new();
        let mut i: usize = 0;
        while i < self.matches.len()
            invariant
                i <= self.matches.len(),
                matches.len() == i,
                forall|k: int| 0 <= k < i ==> matches@[k] == self.matches@[k],
            decreases self.matches.len() - i,
        {
            matches.push(self.matches[i].clone());
            i += 1;
        }
        let copy = Receipt { ordinal: self.ordinal, matches };
        assert(copy@.matches =~= self@.matches);
        copy
    }
}

impl DeepView for Receipt {
    type V = ReceiptView;

    open spec fn deep_view(&self) -> ReceiptView {
        self@
    }
}

} // verus!
