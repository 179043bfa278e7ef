//! The account ledger: balances keyed by signer, with overflow-checked
//! deposit, withdrawal and transfer.

use crate::errors::{AccountingError, AccountingErrorView};
use crate::tx::{Tx, TxView};
use vstd::prelude::*;

verus! {

/// One signer's balance.
#[derive(Debug, PartialEq, Eq)]
pub struct Account {
    pub signer: String,
    pub balance: u64,
}

/// A map from signer to balance, kept as a list in which no signer occurs
/// twice. Entries are added on a signer's first deposit and never removed.
#[derive(Debug, PartialEq, Eq)]
pub struct Balances {
    pub entries: Vec<Account>,
}

/// Entry `i` of `entries` belongs to `who`.
pub open spec fn holds(entries: Seq<Account>, i: int, who: Seq<char>) -> bool {
    0 <= i < entries.len() && entries[i].signer@ == who
}

/// No signer has two entries.
pub open spec fn distinct_signers(entries: Seq<Account>) -> bool {
    forall|i: int, j: int|
        0 <= i < j < entries.len() ==> entries[i].signer@ != entries[j].signer@
}

/// The map that a list of entries stands for.
pub open spec fn balance_map(entries: Seq<Account>) -> Map<Seq<char>, u64> {
    Map::new(
        |who: Seq<char>| exists|i: int| holds(entries, i, who),
        |who: Seq<char>| entries[choose|i: int| holds(entries, i, who)].balance,
    )
}

/// The sum of all balances.
pub open spec fn sum_of_balances(entries: Seq<Account>) -> int
    decreases entries.len(),
{
    if entries.len() == 0 {
        0
    } else {
        sum_of_balances(entries.drop_last()) + entries.last().balance
    }
}

/// An entry's balance is the value of its signer in the map.
pub proof fn lemma_entry_in_map(entries: Seq<Account>, i: int)
    requires
        distinct_signers(entries),
        0 <= i < entries.len(),
    ensures
        balance_map(entries).contains_key(entries[i].signer@),
        balance_map(entries)[entries[i].signer@] == entries[i].balance,
{
    let who = entries[i].signer@;
    assert(holds(entries, i, who));
}

/// Replacing the balance of entry `i` changes the map at its signer only, and
/// the sum by the difference.
pub proof fn lemma_set_balance(entries: Seq<Account>, i: int, changed: Account)
    requires
        distinct_signers(entries),
        0 <= i < entries.len(),
        changed.signer@ == entries[i].signer@,
    ensures
        distinct_signers(entries.update(i, changed)),
        balance_map(entries.update(i, changed)) == balance_map(entries).insert(
            changed.signer@,
            changed.balance,
        ),
        sum_of_balances(entries.update(i, changed)) == sum_of_balances(entries)
            - entries[i].balance + changed.balance,
    decreases entries.len(),
{
    let after = entries.update(i, changed);
    let who = changed.signer@;
    assert forall|other: Seq<char>|
        balance_map(after).contains_key(other) <==> #[trigger] balance_map(entries).insert(
            who,
            changed.balance,
        ).contains_key(other) by {
        if exists|j: int| holds(after, j, other) {
            let j = choose|j: int| holds(after, j, other);
            assert(holds(entries, j, other));
        }
        if exists|j: int| holds(entries, j, other) {
            let j = choose|j: int| holds(entries, j, other);
            assert(holds(after, j, other));
        }
        assert(holds(after, i, who));
    }
    if i == entries.len() - 1 {
        assert(after.drop_last() =~= entries.drop_last());
    } else {
        assert(after.drop_last() =~= entries.drop_last().update(i, changed));
        lemma_set_balance(entries.drop_last(), i, changed);
    }
}

/// Adding an entry for a signer that has none adds that signer to the map,
/// and its balance to the sum.
pub proof fn lemma_add_entry(entries: Seq<Account>, added: Account)
    requires
        distinct_signers(entries),
        !balance_map(entries).contains_key(added.signer@),
    ensures
        distinct_signers(entries.push(added)),
        balance_map(entries.push(added)) == balance_map(entries).insert(
            added.signer@,
            added.balance,
        ),
        sum_of_balances(entries.push(added)) == sum_of_balances(entries) + added.balance,
{
    let after = entries.push(added);
    let who = added.signer@;
    assert forall|i: int, j: int| 0 <= i < j < after.len() implies after[i].signer@
        != after[j].signer@ by {
        if j == entries.len() {
            assert(!holds(entries, i, who));
        }
    }
    assert forall|other: Seq<char>|
        balance_map(after).contains_key(other) <==> #[trigger] balance_map(entries).insert(
            who,
            added.balance,
        ).contains_key(other) by {
        if exists|j: int| holds(after, j, other) {
            let j = choose|j: int| holds(after, j, other);
            if j < entries.len() {
                assert(holds(entries, j, other));
            }
        }
        if exists|j: int| holds(entries, j, other) {
            let j = choose|j: int| holds(entries, j, other);
            assert(holds(after, j, other));
        }
        assert(holds(after, entries.len() as int, who));
    }
    assert forall|other: Seq<char>| #[trigger]
        balance_map(after).contains_key(other) implies balance_map(after)[other]
        == balance_map(entries).insert(who, added.balance)[other] by {
        let j = choose|j: int| holds(after, j, other);
        if other != who {
            lemma_entry_in_map(entries, j);
        } else {
            assert(holds(after, entries.len() as int, who));
        }
    }
    assert(after.drop_last() =~= entries);
}

impl View for Balances {
    type V = Map<Seq<char>, u64>;

    open spec fn view(&self) -> Map<Seq<char>, u64> {
        balance_map(self.entries@)
    }
}

impl Balances {
    /// No signer occurs twice.
    pub open spec fn wf(&self) -> bool {
        distinct_signers(self.entries@)
    }

    /// The sum of all balances.
    pub open spec fn total(&self) -> int {
        sum_of_balances(self.entries@)
    }

    pub fn new() -> (balances: Self)
        ensures
            balances.wf(),
            balances@ == Map::<Seq<char>, u64>::empty(),
            balances.total() == 0,
    {
        Balances { entries: Vec::new() }
    }

    /// Where the signer's entry stands, if there is one.
    pub fn position(&self, signer: &String) -> (found: Option<usize>)
        requires
            self.wf(),
        ensures
            match found {
                Some(i) => holds(self.entries@, i as int, signer@) && self@.contains_key(
                    signer@,
                ) && self@[signer@] == self.entries@[i as int].balance,
                None => !self@.contains_key(signer@),
            },
    {
        let mut i: usize = 0;
        while i < self.entries.len()
            invariant
                self.wf(),
                i <= self.entries.len(),
                forall|j: int| 0 <= j < i ==> !holds(self.entries@, j, signer@),
            decreases self.entries.len() - i,
        {
            if self.entries[i].signer == *signer {
                return Some(i);
            }
            i += 1;
        }
        None
    }

    /// The signer's balance, if the signer has an entry.
    pub fn get(&self, signer: &str) -> (balance: Option<&u64>)
        requires
            self.wf(),
        ensures
            match balance {
                Some(balance) => self@.contains_key(signer@) && *balance == self@[signer@],
                None => !self@.contains_key(signer@),
            },
    {
        let name = signer.to_owned();
        match self.position(&name) {
            Some(i) => Some(&self.entries[i].balance),
            None => None,
        }
    }

    /// The number of signers.
    pub fn len(&self) -> (count: usize)
        ensures
            count == self.entries@.len(),
    {
        self.entries.len()
    }
}

/// The ledger: every signer's current balance.
#[derive(Debug, PartialEq, Eq)]
pub struct Accounts {
    pub accounts: Balances,
}

/// The signer's balance, or zero for a signer without an account.
pub open spec fn balance_or_zero(ledger: Map<Seq<char>, u64>, who: Seq<char>) -> u64 {
    if ledger.contains_key(who) {
        ledger[who]
    } else {
        0
    }
}

/// What a deposit does to a ledger: the ledger with `amount` added to the
/// signer's balance, a new account being opened if there was none, or the
/// error if the balance would exceed `u64::MAX`.
pub open spec fn deposit_outcome(ledger: Map<Seq<char>, u64>, who: Seq<char>, amount: u64)
    -> Result<Map<Seq<char>, u64>, AccountingErrorView> {
    if balance_or_zero(ledger, who) + amount > u64::MAX {
        Err(AccountingErrorView::AccountOverFunded(who, amount))
    } else {
        Ok(ledger.insert(who, (balance_or_zero(ledger, who) + amount) as u64))
    }
}

/// What a withdrawal does to a ledger: the ledger with `amount` taken from
/// the signer's balance, or the error if there is no such account or its
/// balance is below `amount`.
pub open spec fn withdraw_outcome(ledger: Map<Seq<char>, u64>, who: Seq<char>, amount: u64)
    -> Result<Map<Seq<char>, u64>, AccountingErrorView> {
    if !ledger.contains_key(who) {
        Err(AccountingErrorView::AccountNotFound(who))
    } else if amount > ledger[who] {
        Err(AccountingErrorView::AccountUnderFunded(who, amount))
    } else {
        Ok(ledger.insert(who, (ledger[who] - amount) as u64))
    }
}

/// What a transfer does to a ledger. The recipient is examined first: it must
/// exist and have room for `amount`. Then the sender must exist and hold
/// `amount`. Only then do both balances change.
pub open spec fn send_outcome(
    ledger: Map<Seq<char>, u64>,
    sender: Seq<char>,
    recipient: Seq<char>,
    amount: u64,
) -> Result<Map<Seq<char>, u64>, AccountingErrorView> {
    if !ledger.contains_key(recipient) {
        Err(AccountingErrorView::AccountNotFound(recipient))
    } else if ledger[recipient] + amount > u64::MAX {
        Err(AccountingErrorView::AccountOverFunded(recipient, amount))
    } else {
        match withdraw_outcome(ledger, sender, amount) {
            Err(e) => Err(e),
            Ok(debited) => deposit_outcome(debited, recipient, amount),
        }
    }
}

/// A deposit that brings a balance to exactly `u64::MAX` is accepted, and
/// every deposit of more than nothing to an account that holds `u64::MAX` is
/// refused as over-funding.
pub proof fn law_deposit_up_to_max(ledger: Map<Seq<char>, u64>, who: Seq<char>, amount: u64)
    ensures
        balance_or_zero(ledger, who) + amount == u64::MAX ==> deposit_outcome(ledger, who, amount)
            == Ok::<Map<Seq<char>, u64>, AccountingErrorView>(ledger.insert(who, u64::MAX)),
        balance_or_zero(ledger, who) == u64::MAX && amount > 0 ==> deposit_outcome(
            ledger,
            who,
            amount,
        ) == Err::<Map<Seq<char>, u64>, AccountingErrorView>(
            AccountingErrorView::AccountOverFunded(who, amount),
        ),
{
}

/// Withdrawing exactly the balance leaves the account in the ledger, at 0.
pub proof fn law_withdraw_all_keeps_account(ledger: Map<Seq<char>, u64>, who: Seq<char>)
    requires
        ledger.contains_key(who),
    ensures
        withdraw_outcome(ledger, who, ledger[who]) == Ok::<
            Map<Seq<char>, u64>,
            AccountingErrorView,
        >(ledger.insert(who, 0)),
        ledger.insert(who, 0).contains_key(who),
{
}

/// An amount of zero is like any other: a deposit of 0 is accepted, and a
/// withdrawal or a transfer of 0 is accepted exactly if the accounts exist.
pub proof fn law_zero_amounts(
    ledger: Map<Seq<char>, u64>,
    who: Seq<char>,
    recipient: Seq<char>,
)
    ensures
        deposit_outcome(ledger, who, 0) is Ok,
        withdraw_outcome(ledger, who, 0) is Ok <==> ledger.contains_key(who),
        send_outcome(ledger, who, recipient, 0) is Ok <==> ledger.contains_key(who)
            && ledger.contains_key(recipient),
{
}

impl View for Accounts {
    type V = Map<Seq<char>, u64>;

    open spec fn view(&self) -> Map<Seq<char>, u64> {
        self.accounts@
    }
}

impl Accounts {
    /// No signer has two accounts.
    pub open spec fn wf(&self) -> bool {
        self.accounts.wf()
    }

    /// The sum of all balances.
    pub open spec fn total(&self) -> int {
        self.accounts.total()
    }

    /// An empty ledger.
    pub fn new() -> (ledger: Self)
        ensures
            ledger.wf(),
            ledger@ == Map::<Seq<char>, u64>::empty(),
            ledger.total() == 0,
    {
        Accounts { accounts: Balances::new() }
    }

    /// The balance of an account. Does not open one.
    pub fn balance_of(&self, signer: &str) -> (result: Result<&u64, AccountingError>)
        requires
            self.wf(),
        ensures
            match result {
                Ok(balance) => self@.contains_key(signer@) && *balance == self@[signer@],
                Err(e) => !self@.contains_key(signer@) && e@
                    == AccountingErrorView::AccountNotFound(signer@),
            },
    {
        match self.accounts.get(signer) {
            Some(balance) => Ok(balance),
            None => Err(AccountingError::AccountNotFound(signer.to_owned())),
        }
    }

    /// Adds `amount` to the signer's account, opening it if the signer has
    /// none. Fails, leaving the ledger as it was, if and only if the balance
    /// would exceed `u64::MAX`.
    pub fn deposit(&mut self, signer: &str, amount: u64) -> (result: Result<Tx, AccountingError>)
        requires
            old(self).wf(),
        ensures
            final(self).wf(),
            match deposit_outcome(old(self)@, signer@, amount) {
                Ok(ledger) => {
                    &&& result matches Ok(tx)
                    &&& tx@ == (TxView::Deposit { account: signer@, amount })
                    &&& final(self)@ == ledger
                    &&& final(self).total() == old(self).total() + amount
                },
                Err(refusal) => {
                    &&& result matches Err(e)
                    &&& e@ == refusal
                    &&& *final(self) == *old(self)
                },
            },
    {
        let name = signer.to_owned();
        match self.accounts.position(&name) {
            Some(i) => {
                let balance = self.accounts.entries[i].balance;
                if balance > u64::MAX - amount {
                    return Err(AccountingError::AccountOverFunded(name, amount));
                }
                let ghost before = self.accounts.entries@;
                self.accounts.entries[i].balance = balance + amount;
                proof {
                    lemma_set_balance(before, i as int, self.accounts.entries@[i as int]);
                }
            },
            None => {
                let ghost before = self.accounts.entries@;
                let account = Account { signer: signer.to_owned(), balance: amount };
                proof {
                    lemma_add_entry(before, account);
                }
                self.accounts.entries.push(account);
            },
        }
        Ok(Tx::Deposit { account: name, amount })
    }

    /// Takes `amount` from the signer's account. Fails, leaving the ledger as
    /// it was, if the signer has no account or holds less than `amount`; the
    /// error carries the amount that was asked for.
    pub fn withdraw(&mut self, signer: &str, amount: u64) -> (result: Result<
        Tx,
        AccountingError,
    >)
        requires
            old(self).wf(),
        ensures
            final(self).wf(),
            match withdraw_outcome(old(self)@, signer@, amount) {
                Ok(ledger) => {
                    &&& result matches Ok(tx)
                    &&& tx@ == (TxView::Withdraw { account: signer@, amount })
                    &&& final(self)@ == ledger
                    &&& final(self).total() == old(self).total() - amount
                },
                Err(refusal) => {
                    &&& result matches Err(e)
                    &&& e@ == refusal
                    &&& *final(self) == *old(self)
                },
            },
    {
        let name = signer.to_owned();
        match self.accounts.position(&name) {
            Some(i) => {
                let balance = self.accounts.entries[i].balance;
                if amount > balance {
                    return Err(AccountingError::AccountUnderFunded(name, amount));
                }
                let ghost before = self.accounts.entries@;
                self.accounts.entries[i].balance = balance - amount;
                proof {
                    lemma_set_balance(before, i as int, self.accounts.entries@[i as int]);
                }
                Ok(Tx::Withdraw { account: name, amount })
            },
            None => Err(AccountingError::AccountNotFound(name)),
        }
    }

    /// Moves `amount` from the sender's account to the recipient's. Neither
    /// balance changes unless both steps succeed, and no account is opened.
    pub fn send(&mut self, sender: &str, recipient: &str, amount: u64) -> (result: Result<
        (Tx, Tx),
        AccountingError,
    >)
        requires
            old(self).wf(),
        ensures
            final(self).wf(),
            final(self).total() == old(self).total(),
            match send_outcome(old(self)@, sender@, recipient@, amount) {
                Ok(ledger) => {
                    &&& result matches Ok(pair)
                    &&& pair.0@ == (TxView::Withdraw { account: sender@, amount })
                    &&& pair.1@ == (TxView::Deposit { account: recipient@, amount })
                    &&& final(self)@ == ledger
                },
                Err(refusal) => {
                    &&& result matches Err(e)
                    &&& e@ == refusal
                    &&& *final(self) == *old(self)
                },
            },
    {
        let recipient_balance = match self.accounts.get(recipient) {
            Some(balance) => *balance,
            None => {
                return Err(AccountingError::AccountNotFound(recipient.to_owned()));
            },
        };
        if recipient_balance > u64::MAX - amount {
            return Err(AccountingError::AccountOverFunded(recipient.to_owned(), amount));
        }
        let withdrawal = match self.withdraw(sender, amount) {
            Ok(tx) => tx,
            Err(e) => {
                return Err(e);
            },
        };
        match self.deposit(recipient, amount) {
            Ok(deposit) => Ok((withdrawal, deposit)),
            Err(e) => Err(e),
        }
    }
}

} // verus!
