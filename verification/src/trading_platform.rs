//! The trading platform: it owns the ledger, the transaction log and the
//! matching engine, admits orders only from signers that can pay for them,
//! and moves the funds for every fill.

use crate::accounts::{deposit_outcome, send_outcome, withdraw_outcome, Accounts};
use crate::book::LevelView;
use crate::errors::{AccountingError, AccountingErrorView};
use crate::invariants::lemma_outcome_wf;
use crate::matching::{
    book_wf, crosses, fill, outcome, residual, residue, MatchingEngine,
};
use crate::matching_laws::{lemma_sweep_fills, lemma_sweep_kept, lemma_with_resting_kept};
use crate::sorting::sorted;
use crate::tx::{net_deposits, replay, Tx, TxView};
use crate::types::{Order, OrderView, PartialOrder, PartialOrderView, Receipt, ReceiptView, Side};
use vstd::prelude::*;

verus! {

/// The amount that changes hands for a fill: the units filled, at the price
/// the fill was realised at.
pub open spec fn notional(f: PartialOrderView) -> int {
    (f.current_amount - f.remaining_amount) * f.price
}

/// The worth of every position on the side, at its own price, fits in `u64`.
pub open spec fn affordable(levels: Seq<LevelView>) -> bool {
    forall|i: int, j: int|
        0 <= i < levels.len() && 0 <= j < levels[i].orders.len() ==> worth_fits(
            #[trigger] levels[i].orders[j],
        )
}

/// The worth of the position, at its own price, fits in `u64`.
pub open spec fn worth_fits(position: PartialOrderView) -> bool {
    position.remaining_amount * position.price <= u64::MAX
}

/// Why an order is turned away before it reaches the book, if it is: its
/// signer has no account, or it is a buy order whose cost at its limit price
/// exceeds the signer's balance. The error then carries that cost.
pub open spec fn refusal(ledger: Map<Seq<char>, u64>, order: OrderView) -> Option<
    AccountingErrorView,
> {
    if !ledger.contains_key(order.signer) {
        Some(AccountingErrorView::AccountNotFound(order.signer))
    } else if order.side == Side::Buy && ledger[order.signer] < order.initial_amount
        * order.price {
        Some(
            AccountingErrorView::AccountUnderFunded(
                order.signer,
                (order.initial_amount * order.price) as u64,
            ),
        )
    } else {
        None
    }
}

/// The ledger and the log after the fills of a receipt were paid for.
pub struct Settlement {
    pub ledger: Map<Seq<char>, u64>,
    pub log: Seq<TxView>,
    /// The error that stopped the payments, if one did.
    pub refusal: Option<AccountingErrorView>,
}

/// Pays for the fills of a receipt in order: for each, the buyer sends the
/// seller the fill's notional, and the transfer's two entries go to the log.
/// The first transfer that the ledger refuses ends the payments.
pub open spec fn settle(
    ledger: Map<Seq<char>, u64>,
    log: Seq<TxView>,
    taker_side: Side,
    taker: Seq<char>,
    fills: Seq<PartialOrderView>,
) -> Settlement
    decreases fills.len(),
{
    if fills.len() == 0 {
        Settlement { ledger, log, refusal: None }
    } else {
        let f = fills.first();
        let amount = notional(f) as u64;
        let sender = if taker_side == Side::Buy { taker } else { f.signer };
        let recipient = if taker_side == Side::Buy { f.signer } else { taker };
        match send_outcome(ledger, sender, recipient, amount) {
            Err(e) => Settlement { ledger, log, refusal: Some(e) },
            Ok(paid) => settle(
                paid,
                log.push(TxView::Withdraw { account: sender, amount }).push(
                    TxView::Deposit { account: recipient, amount },
                ),
                taker_side,
                taker,
                fills.drop_first(),
            ),
        }
    }
}

/// For an order that the platform admits into a well-formed book whose bids
/// are affordable, the notional of every fill fits in `u64`, and the bids
/// stay affordable.
pub proof fn lemma_fills_payable(
    asks: Seq<LevelView>,
    bids: Seq<LevelView>,
    order: OrderView,
    ordinal: u64,
)
    requires
        ordinal > 0,
        book_wf(asks, bids, (ordinal - 1) as u64),
        affordable(bids),
        order.side == Side::Buy ==> order.initial_amount * order.price <= u64::MAX,
    ensures
        forall|k: int|
            0 <= k < outcome(asks, bids, order, ordinal).fills.len() ==> {
                let f = #[trigger] outcome(asks, bids, order, ordinal).fills[k];
                f.remaining_amount <= f.current_amount && notional(f) <= u64::MAX
            },
        affordable(outcome(asks, bids, order, ordinal).bids),
{
    let o = outcome(asks, bids, order, ordinal);
    let good = |f: PartialOrderView|
        f.remaining_amount <= f.current_amount && notional(f) <= u64::MAX;
    let cheap = |x: PartialOrderView| worth_fits(x);
    lemma_outcome_wf(asks, bids, order, ordinal);
    match order.side {
        Side::Buy => {
            let fits = |price: u64, x: PartialOrderView|
                x.remaining_amount == x.current_amount;
            assert forall|price: u64, x: PartialOrderView, t: u64|
                fits(price, x) && t <= x.remaining_amount && t <= order.initial_amount
                    && x.signer != order.signer && crosses(
                    Side::Buy,
                    order.price,
                    price,
                ) implies #[trigger] good(fill(x, t, price)) by {
                assert(t * price <= order.initial_amount * order.price) by (nonlinear_arith)
                    requires
                        t <= order.initial_amount,
                        price <= order.price,
                ;
            }
            lemma_sweep_fills(
                asks,
                Side::Buy,
                order.price,
                order.signer,
                order.initial_amount,
                fits,
                good,
            );
            if o.left > 0 {
                let rest = residue(order, ordinal, o.left);
                assert(rest.remaining_amount * rest.price <= order.initial_amount * order.price)
                    by (nonlinear_arith)
                    requires
                        rest.remaining_amount <= order.initial_amount,
                        rest.price == order.price,
                ;
                lemma_with_resting_kept(bids, rest, cheap);
            }
        },
        Side::Sell => {
            let fits = |price: u64, x: PartialOrderView|
                x.remaining_amount == x.current_amount && x.price == price && worth_fits(x);
            assert forall|price: u64, x: PartialOrderView, t: u64|
                fits(price, x) && t <= x.remaining_amount && t <= order.initial_amount
                    && x.signer != order.signer && crosses(
                    Side::Sell,
                    order.price,
                    price,
                ) implies #[trigger] good(fill(x, t, price)) by {
                assert(t * price <= x.remaining_amount * x.price) by (nonlinear_arith)
                    requires
                        t <= x.remaining_amount,
                        price == x.price,
                ;
            }
            lemma_sweep_fills(
                bids,
                Side::Sell,
                order.price,
                order.signer,
                order.initial_amount,
                fits,
                good,
            );
            assert forall|x: PartialOrderView, t: u64|
                cheap(x) && t < x.remaining_amount implies #[trigger] cheap(residual(x, t)) by {
                assert((x.remaining_amount - t) * x.price <= x.remaining_amount * x.price)
                    by (nonlinear_arith)
                    requires
                        t <= x.remaining_amount,
                ;
            }
            lemma_sweep_kept(
                bids,
                Side::Sell,
                order.price,
                order.signer,
                order.initial_amount,
                cheap,
            );
        },
    }
    assert forall|i: int, j: int|
        0 <= i < o.bids.len() && 0 <= j < o.bids[i].orders.len() implies worth_fits(
        #[trigger] o.bids[i].orders[j],
    ) by {
        assert(cheap(o.bids[i].orders[j]));
    }
}

/// The platform: the engine, the ledger and the log of every movement of
/// funds.
#[derive(Debug, PartialEq)]
pub struct TradingPlatform {
    pub matching_engine: MatchingEngine,
    pub accounts: Accounts,
    pub tx_log: Vec<Tx>,
}

impl TradingPlatform {
    /// The platform's invariant: engine and ledger are well formed, and
    /// every resting bid is affordable.
    pub open spec fn wf(&self) -> bool {
        &&& self.matching_engine.wf()
        &&& self.accounts.wf()
        &&& affordable(self.matching_engine.bids@)
    }

    /// The transaction log, as a sequence of values.
    pub open spec fn log(&self) -> Seq<TxView> {
        self.tx_log.deep_view()
    }

    /// The log accounts for the ledger: replayed into an empty ledger it
    /// gives the current balances, and the balances sum up to the log's
    /// deposits less its withdrawals.
    pub open spec fn ledger_matches_log(&self) -> bool {
        &&& replay(self.log()) == Ok::<Map<Seq<char>, u64>, AccountingErrorView>(self.accounts@)
        &&& self.accounts.total() == net_deposits(self.log())
    }

    /// A platform without accounts, orders or log entries.
    pub fn new() -> (platform: Self)
        ensures
            platform.wf(),
            platform.ledger_matches_log(),
            platform.accounts@ == Map::<Seq<char>, u64>::empty(),
            platform.log() == Seq::<TxView>::empty(),
            platform.matching_engine.ordinal == 0,
            platform.matching_engine.resting() == Seq::<PartialOrderView>::empty(),
    {
        TradingPlatform {
            matching_engine: MatchingEngine::new(),
            accounts: Accounts::new(),
            tx_log: Vec::new(),
        }
    }

    /// Lists the resting positions; see [`MatchingEngine::order_book`].
    pub fn order_book(&self, sort: bool, desc: bool) -> (book: Vec<PartialOrder>)
        ensures
            !sort ==> book.deep_view() == self.matching_engine.resting(),
            sort ==> sorted(book.deep_view(), false, desc) && book.deep_view().to_multiset()
                == self.matching_engine.resting().to_multiset(),
    {
        self.matching_engine.order_book(sort, desc)
    }

    /// Lists the resting positions by price; see
    /// [`MatchingEngine::order_book_by_price`].
    pub fn order_book_by_price(&self, desc: bool) -> (book: Vec<PartialOrder>)
        ensures
            sorted(book.deep_view(), true, desc),
            book.deep_view().to_multiset() == self.matching_engine.resting().to_multiset(),
    {
        self.matching_engine.order_book_by_price(desc)
    }

    /// The balance of an account.
    pub fn balance_of(&self, signer: &str) -> (result: Result<&u64, AccountingError>)
        requires
            self.accounts.wf(),
        ensures
            match result {
                Ok(balance) => self.accounts@.contains_key(signer@) && *balance
                    == self.accounts@[signer@],
                Err(e) => !self.accounts@.contains_key(signer@) && e@
                    == AccountingErrorView::AccountNotFound(signer@),
            },
    {
        self.accounts.balance_of(signer)
    }

    /// Deposits funds and, if the ledger accepts, logs the deposit.
    pub fn deposit(&mut self, signer: &str, amount: u64) -> (result: Result<Tx, AccountingError>)
        requires
            old(self).wf(),
        ensures
            final(self).wf(),
            final(self).matching_engine == old(self).matching_engine,
            old(self).ledger_matches_log() ==> final(self).ledger_matches_log(),
            match deposit_outcome(old(self).accounts@, signer@, amount) {
                Ok(ledger) => {
                    &&& result matches Ok(tx)
                    &&& tx@ == (TxView::Deposit { account: signer@, amount })
                    &&& final(self).accounts@ == ledger
                    &&& final(self).log() == old(self).log().push(tx@)
                    &&& final(self).accounts.total() == old(self).accounts.total() + amount
                },
                Err(refused) => {
                    &&& result matches Err(e)
                    &&& e@ == refused
                    &&& *final(self) == *old(self)
                },
            },
    {
        match self.accounts.deposit(signer, amount) {
            Ok(tx) => {
                let ghost log_before = self.log();
                self.tx_log.push(tx.clone());
                proof {
                    assert(self.log().drop_last() =~= log_before);
                }
                Ok(tx)
            },
            Err(e) => Err(e),
        }
    }

    /// Withdraws funds and, if the ledger accepts, logs the withdrawal.
    pub fn withdraw(&mut self, signer: &str, amount: u64) -> (result: Result<
        Tx,
        AccountingError,
    >)
        requires
            old(self).wf(),
        ensures
            final(self).wf(),
            final(self).matching_engine == old(self).matching_engine,
            old(self).ledger_matches_log() ==> final(self).ledger_matches_log(),
            match withdraw_outcome(old(self).accounts@, signer@, amount) {
                Ok(ledger) => {
                    &&& result matches Ok(tx)
                    &&& tx@ == (TxView::Withdraw { account: signer@, amount })
                    &&& final(self).accounts@ == ledger
                    &&& final(self).log() == old(self).log().push(tx@)
                    &&& final(self).accounts.total() == old(self).accounts.total() - amount
                },
                Err(refused) => {
                    &&& result matches Err(e)
                    &&& e@ == refused
                    &&& *final(self) == *old(self)
                },
            },
    {
        match self.accounts.withdraw(signer, amount) {
            Ok(tx) => {
                let ghost log_before = self.log();
                self.tx_log.push(tx.clone());
                proof {
                    assert(self.log().drop_last() =~= log_before);
                }
                Ok(tx)
            },
            Err(e) => Err(e),
        }
    }

    /// Transfers funds and, if the ledger accepts, logs the transfer as a
    /// withdrawal followed by a deposit.
    pub fn send(&mut self, sender: &str, recipient: &str, amount: u64) -> (result: Result<
        (Tx, Tx),
        AccountingError,
    >)
        requires
            old(self).wf(),
        ensures
            final(self).wf(),
            final(self).matching_engine == old(self).matching_engine,
            old(self).ledger_matches_log() ==> final(self).ledger_matches_log(),
            final(self).accounts.total() == old(self).accounts.total(),
            match send_outcome(old(self).accounts@, sender@, recipient@, amount) {
                Ok(ledger) => {
                    &&& result matches Ok(pair)
                    &&& pair.0@ == (TxView::Withdraw { account: sender@, amount })
                    &&& pair.1@ == (TxView::Deposit { account: recipient@, amount })
                    &&& final(self).accounts@ == ledger
                    &&& final(self).log() == old(self).log().push(pair.0@).push(pair.1@)
                },
                Err(refused) => {
                    &&& result matches Err(e)
                    &&& e@ == refused
                    &&& *final(self) == *old(self)
                },
            },
    {
        match self.accounts.send(sender, recipient, amount) {
            Ok(pair) => {
                let ghost log_before = self.log();
                self.tx_log.push(pair.0.clone());
                self.tx_log.push(pair.1.clone());
                proof {
                    let one = log_before.push(pair.0@);
                    assert(self.log().drop_last() =~= one);
                    assert(one.drop_last() =~= log_before);
                    assert(net_deposits(one) == net_deposits(log_before) - amount);
                    if old(self).ledger_matches_log() {
                        assert(replay(one) == withdraw_outcome(
                            old(self).accounts@,
                            sender@,
                            amount,
                        ));
                    }
                }
                Ok(pair)
            },
            Err(e) => Err(e),
        }
    }

    /// Processes an order and moves the funds for its fills.
    ///
    /// The signer must have an account, whatever the order's side. A buy
    /// order is admitted only if the signer's balance covers its cost at the
    /// limit price; nothing is asked of a seller. An order that is turned
    /// away changes nothing. An admitted order is matched, and each fill is
    /// paid for, in receipt order, by a transfer of its notional from the
    /// buyer to the seller. If the ledger refuses a transfer, the payments
    /// stop and the refusal is returned; the book and the earlier payments
    /// stand.
    pub fn process_order(&mut self, order: Order) -> (result: Result<Receipt, AccountingError>)
        requires
            old(self).wf(),
            old(self).matching_engine.ordinal < u64::MAX,
            order@.side == Side::Buy && old(self).accounts@.contains_key(order@.signer)
                ==> order@.initial_amount * order@.price <= u64::MAX,
        ensures
            final(self).wf(),
            old(self).ledger_matches_log() ==> final(self).ledger_matches_log(),
            final(self).accounts.total() == old(self).accounts.total(),
            match refusal(old(self).accounts@, order@) {
                Some(refused) => {
                    &&& result matches Err(e)
                    &&& e@ == refused
                    &&& *final(self) == *old(self)
                },
                None => {
                    let ordinal = final(self).matching_engine.ordinal;
                    let o = outcome(
                        old(self).matching_engine.asks@,
                        old(self).matching_engine.bids@,
                        order@,
                        ordinal,
                    );
                    let receipt = ReceiptView { ordinal, matches: o.fills };
                    let paid = settle(
                        old(self).accounts@,
                        old(self).log(),
                        order@.side,
                        order@.signer,
                        o.fills,
                    );
                    &&& ordinal == old(self).matching_engine.ordinal + 1
                    &&& final(self).matching_engine.asks@ == o.asks
                    &&& final(self).matching_engine.bids@ == o.bids
                    &&& final(self).matching_engine.history.deep_view() == old(
                        self,
                    ).matching_engine.history.deep_view().push(receipt)
                    &&& final(self).accounts@ == paid.ledger
                    &&& final(self).log() == paid.log
                    &&& match paid.refusal {
                        None => result matches Ok(r) && r@ == receipt,
                        Some(refused) => result matches Err(e) && e@ == refused,
                    }
                },
            },
    {
        let order_signer = order.signer_name().clone();
        let account_balance = match self.accounts.balance_of(order_signer.as_str()) {
            Ok(balance) => *balance,
            Err(e) => {
                return Err(e);
            },
        };
        let order_side = order.order_side();
        if order_side == Side::Buy {
            let required_amount = order.get_initial_amount() * order.limit_price();
            if account_balance < required_amount {
                return Err(AccountingError::AccountUnderFunded(order_signer, required_amount));
            }
        }
        let ghost submitted = order@;
        let ghost ordinal = (self.matching_engine.ordinal + 1) as u64;
        let ghost o = outcome(
            self.matching_engine.asks@,
            self.matching_engine.bids@,
            submitted,
            ordinal,
        );
        let ghost ledger_before = self.accounts@;
        let ghost log_before = self.log();
        proof {
            lemma_fills_payable(
                self.matching_engine.asks@,
                self.matching_engine.bids@,
                submitted,
                ordinal,
            );
        }
        let receipt = match self.matching_engine.process(order) {
            Ok(receipt) => receipt,
            Err(e) => {
                return Err(e);
            },
        };
        let mut i: usize = 0;
        proof {
            assert(o.fills.skip(0) =~= o.fills);
        }
        while i < receipt.matches.len()
            invariant
                i <= receipt.matches.len(),
                receipt@ == (ReceiptView { ordinal, matches: o.fills }),
                order_signer@ == submitted.signer,
                order_side == submitted.side,
                submitted == order@,
                refusal(old(self).accounts@, submitted) is None,
                ordinal == old(self).matching_engine.ordinal + 1,
                ledger_before == old(self).accounts@,
                log_before == old(self).log(),
                o == outcome(
                    old(self).matching_engine.asks@,
                    old(self).matching_engine.bids@,
                    submitted,
                    ordinal,
                ),
                self.wf(),
                self.matching_engine.ordinal == ordinal,
                self.matching_engine.asks@ == o.asks,
                self.matching_engine.bids@ == o.bids,
                self.matching_engine.history.deep_view() == old(
                    self,
                ).matching_engine.history.deep_view().push(receipt@),
                self.accounts.total() == old(self).accounts.total(),
                old(self).ledger_matches_log() ==> self.ledger_matches_log(),
                forall|k: int|
                    0 <= k < o.fills.len() ==> {
                        let f = #[trigger] o.fills[k];
                        f.remaining_amount <= f.current_amount && notional(f) <= u64::MAX
                    },
                settle(ledger_before, log_before, submitted.side, submitted.signer, o.fills)
                    == settle(
                    self.accounts@,
                    self.log(),
                    submitted.side,
                    submitted.signer,
                    o.fills.skip(i as int),
                ),
            decreases receipt.matches.len() - i,
        {
            let m = &receipt.matches[i];
            proof {
                assert(o.fills.skip(i as int).drop_first() =~= o.fills.skip(i + 1));
                assert(notional(m@) >= 0) by (nonlinear_arith)
                    requires
                        m@.remaining_amount <= m@.current_amount,
                        notional(m@) == (m@.current_amount - m@.remaining_amount) * m@.price,
                ;
            }
            let units = m.current_amount - m.remaining_amount;
            let amount = units * m.price;
            let sent = match order_side {
                Side::Buy => self.send(order_signer.as_str(), m.signer.as_str(), amount),
                Side::Sell => self.send(m.signer.as_str(), order_signer.as_str(), amount),
            };
            match sent {
                Ok(_) => {},
                Err(e) => {
                    return Err(e);
                },
            }
            i += 1;
        }
        Ok(receipt)
    }
}

} // verus!
