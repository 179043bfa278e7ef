//! The reading of command lines: what a line asks for.
//!
//! A line is split into words at white space. The first word, in any case,
//! names the command; the words after it are the command's arguments. A
//! signer's name may consist of several words and may stand in single or
//! double quotes; amounts and prices are unsigned integers and stand last.

use crate::cli::constants::{
    ACCOUNTS, CLIENT, DEPOSIT, HELP, LEDGER, ORDER, ORDER_BOOK, ORDER_BOOK_BY_PRICE, PRINT, QUIT,
    SEND, SEPARATOR, TX_LOG, WITHDRAW,
};
use crate::text::{
    join_words, joined, lowercased, parse_u64, parsed_u64, same_text, split_whitespace,
    strip_quotes, to_lowercase, trim, trimmed, unquoted, words_of,
};
use crate::types::Side;
use crate::validation;
use vstd::prelude::*;

verus! {

/// The commands that take arguments, for the usage line of each.
#[derive(Clone, Copy, Debug, PartialEq, Eq)]
pub enum Usage {
    Deposit,
    Withdraw,
    Send,
    Client,
    Order,
}

/// What a command line asks for.
#[derive(Debug, PartialEq, Eq)]
pub enum Command {
    /// A line without words.
    Empty,
    Help,
    Deposit { signer: String, amount: u64 },
    Withdraw { signer: String, amount: u64 },
    Send { sender: String, recipient: String, amount: u64 },
    /// Show the transaction log.
    Ledger,
    /// Show all accounts.
    Accounts,
    /// Show one signer's balance.
    Client { signer: String },
    Order { signer: String, side: Side, price: u64, amount: u64 },
    OrderBook { sort: bool, desc: bool },
    OrderBookByPrice { desc: bool },
    Quit,
    /// The first word names no command.
    Unrecognized,
    /// The command lacks arguments: show its usage line.
    Usage(Usage),
    /// The word that should be a number is none.
    NotANumber(String),
    /// The word that should name a side names none.
    BadSide,
    /// The signer's name is empty.
    InvalidName(String),
}

/// The mathematical value of a [`Command`].
pub enum CommandView {
    Empty,
    Help,
    Deposit { signer: Seq<char>, amount: u64 },
    Withdraw { signer: Seq<char>, amount: u64 },
    Send { sender: Seq<char>, recipient: Seq<char>, amount: u64 },
    Ledger,
    Accounts,
    Client { signer: Seq<char> },
    Order { signer: Seq<char>, side: Side, price: u64, amount: u64 },
    OrderBook { sort: bool, desc: bool },
    OrderBookByPrice { desc: bool },
    Quit,
    Unrecognized,
    Usage(Usage),
    NotANumber(Seq<char>),
    BadSide,
    InvalidName(Seq<char>),
}

impl View for Command {
    type V = CommandView;

    open spec fn view(&self) -> CommandView {
        match *self {
            Command::Empty => CommandView::Empty,
            Command::Help => CommandView::Help,
            Command::Deposit { signer, amount } => CommandView::Deposit {
                signer: signer@,
                amount,
            },
            Command::Withdraw { signer, amount } => CommandView::Withdraw {
                signer: signer@,
                amount,
            },
            Command::Send { sender, recipient, amount } => CommandView::Send {
                sender: sender@,
                recipient: recipient@,
                amount,
            },
            Command::Ledger => CommandView::Ledger,
            Command::Accounts => CommandView::Accounts,
            Command::Client { signer } => CommandView::Client { signer: signer@ },
            Command::Order { signer, side, price, amount } => CommandView::Order {
                signer: signer@,
                side,
                price,
                amount,
            },
            Command::OrderBook { sort, desc } => CommandView::OrderBook { sort, desc },
            Command::OrderBookByPrice { desc } => CommandView::OrderBookByPrice { desc },
            Command::Quit => CommandView::Quit,
            Command::Unrecognized => CommandView::Unrecognized,
            Command::Usage(usage) => CommandView::Usage(usage),
            Command::NotANumber(word) => CommandView::NotANumber(word@),
            Command::BadSide => CommandView::BadSide,
            Command::InvalidName(signer) => CommandView::InvalidName(signer@),
        }
    }
}

/// The signer's name that the words from `from` up to `to` spell: the words
/// joined by spaces, without the quotes around them and the white space
/// inside those.
pub open spec fn name_in(words: Seq<Seq<char>>, from: int, to: int) -> Seq<char> {
    trimmed(unquoted(joined(words, from, to)))
}

/// Whether a name is valid: not empty but for white space.
pub open spec fn valid_name(name: Seq<char>) -> bool {
    trimmed(name).len() > 0
}

/// What the words of a deposit or withdrawal ask for: the last word is the
/// amount, the words between the command and the amount are the signer.
pub open spec fn update_of(words: Seq<Seq<char>>, deposit: bool) -> CommandView {
    let n = words.len() as int;
    if n < 3 {
        CommandView::Usage(if deposit { Usage::Deposit } else { Usage::Withdraw })
    } else {
        let signer = name_in(words, 1, n - 1);
        match parsed_u64(words[n - 1]) {
            None => CommandView::NotANumber(words[n - 1]),
            Some(amount) => if !valid_name(signer) {
                CommandView::InvalidName(signer)
            } else if deposit {
                CommandView::Deposit { signer, amount }
            } else {
                CommandView::Withdraw { signer, amount }
            },
        }
    }
}

/// The index of the first word that is the separator, or the number of words
/// if none is.
pub open spec fn separator_at(words: Seq<Seq<char>>) -> int
    decreases words.len(),
{
    if words.len() == 0 {
        0
    } else if words.first() == SEPARATOR@ {
        0
    } else {
        1 + separator_at(words.drop_first())
    }
}

/// What the words of a transfer ask for: the sender stands between the
/// command and the first separator, the recipient between the separator and
/// the amount, which is the last word. A line in which the separator is
/// missing, or is the first or the last word, gets the usage line.
pub open spec fn send_of(words: Seq<Seq<char>>) -> CommandView {
    let n = words.len() as int;
    let at = separator_at(words);
    if n < 4 || at < 1 || at > n - 2 {
        CommandView::Usage(Usage::Send)
    } else {
        let sender = name_in(words, 1, at);
        let recipient = name_in(words, at + 1, n - 1);
        match parsed_u64(words[n - 1]) {
            None => CommandView::NotANumber(words[n - 1]),
            Some(amount) => if !valid_name(sender) {
                CommandView::InvalidName(sender)
            } else if !valid_name(recipient) {
                CommandView::InvalidName(recipient)
            } else {
                CommandView::Send { sender, recipient, amount }
            },
        }
    }
}

/// What the words of a balance query ask for: all words after the command
/// are the signer.
pub open spec fn client_of(words: Seq<Seq<char>>) -> CommandView {
    let n = words.len() as int;
    if n < 2 {
        CommandView::Usage(Usage::Client)
    } else {
        let signer = name_in(words, 1, n);
        if valid_name(signer) {
            CommandView::Client { signer }
        } else {
            CommandView::InvalidName(signer)
        }
    }
}

/// The side that a word names: `buy` or `bid`, `sell` or `ask`.
pub open spec fn side_of(word: Seq<char>) -> Option<Side> {
    if word == "buy"@ || word == "bid"@ {
        Some(Side::Buy)
    } else if word == "sell"@ || word == "ask"@ {
        Some(Side::Sell)
    } else {
        None
    }
}

/// What the words of an order ask for: the last three words are the side,
/// the price and the amount, the words before them the signer.
pub open spec fn order_of(words: Seq<Seq<char>>) -> CommandView {
    let n = words.len() as int;
    if n < 5 {
        CommandView::Usage(Usage::Order)
    } else {
        let signer = name_in(words, 1, n - 3);
        match side_of(words[n - 3]) {
            None => CommandView::BadSide,
            Some(side) => match parsed_u64(words[n - 2]) {
                None => CommandView::NotANumber(words[n - 2]),
                Some(price) => match parsed_u64(words[n - 1]) {
                    None => CommandView::NotANumber(words[n - 1]),
                    Some(amount) => if valid_name(signer) {
                        CommandView::Order { signer, side, price, amount }
                    } else {
                        CommandView::InvalidName(signer)
                    },
                },
            },
        }
    }
}

/// What the words of an order-book query ask for: sorted if the second word
/// is `sort`, descending if the third is `desc`.
pub open spec fn order_book_of(words: Seq<Seq<char>>) -> CommandView {
    CommandView::OrderBook {
        sort: words.len() > 1 && words[1] == "sort"@,
        desc: words.len() > 2 && words[2] == "desc"@,
    }
}

/// What the words of a query for the order book by price ask for:
/// descending if the second word is `desc`.
pub open spec fn order_book_by_price_of(words: Seq<Seq<char>>) -> CommandView {
    CommandView::OrderBookByPrice { desc: words.len() > 1 && words[1] == "desc"@ }
}

/// What the words of a line ask for. The command is the first word in lower
/// case: its full name or its short form.
pub open spec fn command_of(words: Seq<Seq<char>>) -> CommandView {
    if words.len() == 0 {
        CommandView::Empty
    } else {
        let name = lowercased(words[0]);
        if name == HELP@ || name == "h"@ {
            CommandView::Help
        } else if name == DEPOSIT@ || name == "d"@ {
            update_of(words, true)
        } else if name == WITHDRAW@ || name == "w"@ {
            update_of(words, false)
        } else if name == SEND@ || name == "s"@ {
            send_of(words)
        } else if name == PRINT@ || name == LEDGER@ || name == TX_LOG@ || name == "p"@ || name
            == "l"@ || name == "t"@ {
            CommandView::Ledger
        } else if name == ACCOUNTS@ || name == "a"@ {
            CommandView::Accounts
        } else if name == CLIENT@ || name == "c"@ {
            client_of(words)
        } else if name == ORDER@ || name == "o"@ {
            order_of(words)
        } else if name == ORDER_BOOK@ || name == "ob"@ {
            order_book_of(words)
        } else if name == ORDER_BOOK_BY_PRICE@ || name == "obp"@ {
            order_book_by_price_of(words)
        } else if name == QUIT@ || name == "q"@ {
            CommandView::Quit
        } else {
            CommandView::Unrecognized
        }
    }
}

/// Reads a signer's name from the words `from` up to `to`.
fn read_name(words: &Vec<String>, from: usize, to: usize) -> (name: String)
    requires
        from <= to <= words.len(),
    ensures
        name@ == name_in(words.deep_view(), from as int, to as int),
{
    let line = join_words(words, from, to);
    trim(strip_quotes(line.as_str())).to_owned()
}

/// Whether a name is valid.
fn name_is_valid(name: &String) -> (valid: bool)
    ensures
        valid == valid_name(name@),
{
    validation::is_valid_name(name.as_str()).is_none()
}

/// Reads a deposit command.
pub fn deposit(words: &Vec<String>) -> (command: Command)
    ensures
        command@ == update_of(words.deep_view(), true),
{
    read_update(words, true)
}

/// Reads a withdrawal command.
pub fn withdraw(words: &Vec<String>) -> (command: Command)
    ensures
        command@ == update_of(words.deep_view(), false),
{
    read_update(words, false)
}

fn read_update(words: &Vec<String>, deposit: bool) -> (command: Command)
    ensures
        command@ == update_of(words.deep_view(), deposit),
{
    let n = words.len();
    if n < 3 {
        return Command::Usage(if deposit { Usage::Deposit } else { Usage::Withdraw });
    }
    let signer = read_name(words, 1, n - 1);
    let amount = match parse_u64(words[n - 1].as_str()) {
        Some(amount) => amount,
        None => {
            return Command::NotANumber(words[n - 1].clone());
        },
    };
    if !name_is_valid(&signer) {
        Command::InvalidName(signer)
    } else if deposit {
        Command::Deposit { signer, amount }
    } else {
        Command::Withdraw { signer, amount }
    }
}

/// Finds the first word that is the separator.
fn find_separator(words: &Vec<String>) -> (at: usize)
    ensures
        at == separator_at(words.deep_view()),
        at <= words.len(),
{
    let ghost all = words.deep_view();
    let mut i: usize = 0;
    proof {
        assert(all.skip(0) =~= all);
    }
    while i < words.len() && !same_text(words[i].as_str(), SEPARATOR)
        invariant
            i <= words.len(),
            all == words.deep_view(),
            separator_at(all) == i + separator_at(all.skip(i as int)),
        decreases words.len() - i,
    {
        proof {
            assert(all.skip(i as int).drop_first() =~= all.skip(i + 1));
        }
        i += 1;
    }
    i
}

/// Reads a transfer command.
pub fn send(words: &Vec<String>) -> (command: Command)
    ensures
        command@ == send_of(words.deep_view()),
{
    let n = words.len();
    let at = find_separator(words);
    if n < 4 || at < 1 || at > n - 2 {
        return Command::Usage(Usage::Send);
    }
    let sender = read_name(words, 1, at);
    let recipient = read_name(words, at + 1, n - 1);
    let amount = match parse_u64(words[n - 1].as_str()) {
        Some(amount) => amount,
        None => {
            return Command::NotANumber(words[n - 1].clone());
        },
    };
    if !name_is_valid(&sender) {
        Command::InvalidName(sender)
    } else if !name_is_valid(&recipient) {
        Command::InvalidName(recipient)
    } else {
        Command::Send { sender, recipient, amount }
    }
}

/// Reads a query for one signer's balance.
pub fn print_single_account(words: &Vec<String>) -> (command: Command)
    ensures
        command@ == client_of(words.deep_view()),
{
    let n = words.len();
    if n < 2 {
        return Command::Usage(Usage::Client);
    }
    let signer = read_name(words, 1, n);
    if name_is_valid(&signer) {
        Command::Client { signer }
    } else {
        Command::InvalidName(signer)
    }
}

/// Reads the side that a word names.
fn read_side(word: &str) -> (side: Option<Side>)
    ensures
        side == side_of(word@),
{
    if same_text(word, "buy") || same_text(word, "bid") {
        Some(Side::Buy)
    } else if same_text(word, "sell") || same_text(word, "ask") {
        Some(Side::Sell)
    } else {
        None
    }
}

/// Reads an order command.
pub fn order(words: &Vec<String>) -> (command: Command)
    ensures
        command@ == order_of(words.deep_view()),
{
    let n = words.len();
    if n < 5 {
        return Command::Usage(Usage::Order);
    }
    let signer = read_name(words, 1, n - 3);
    let side = match read_side(words[n - 3].as_str()) {
        Some(side) => side,
        None => {
            return Command::BadSide;
        },
    };
    let price = match parse_u64(words[n - 2].as_str()) {
        Some(price) => price,
        None => {
            return Command::NotANumber(words[n - 2].clone());
        },
    };
    let amount = match parse_u64(words[n - 1].as_str()) {
        Some(amount) => amount,
        None => {
            return Command::NotANumber(words[n - 1].clone());
        },
    };
    if name_is_valid(&signer) {
        Command::Order { signer, side, price, amount }
    } else {
        Command::InvalidName(signer)
    }
}

/// Reads an order-book query.
pub fn order_book(words: &Vec<String>) -> (command: Command)
    ensures
        command@ == order_book_of(words.deep_view()),
{
    let n = words.len();
    let sort = n > 1 && same_text(words[1].as_str(), "sort");
    let desc = n > 2 && same_text(words[2].as_str(), "desc");
    Command::OrderBook { sort, desc }
}

/// Reads a query for the order book by price.
pub fn order_book_by_price(words: &Vec<String>) -> (command: Command)
    ensures
        command@ == order_book_by_price_of(words.deep_view()),
{
    let n = words.len();
    let desc = n > 1 && same_text(words[1].as_str(), "desc");
    Command::OrderBookByPrice { desc }
}

/// Reads the command that words ask for.
pub fn read_words(words: &Vec<String>) -> (command: Command)
    ensures
        command@ == command_of(words.deep_view()),
{
    if words.len() == 0 {
        return Command::Empty;
    }
    let lower = to_lowercase(words[0].as_str());
    let name = lower.as_str();
    if same_text(name, HELP) || same_text(name, "h") {
        Command::Help
    } else if same_text(name, DEPOSIT) || same_text(name, "d") {
        deposit(words)
    } else if same_text(name, WITHDRAW) || same_text(name, "w") {
        withdraw(words)
    } else if same_text(name, SEND) || same_text(name, "s") {
        send(words)
    } else if same_text(name, PRINT) || same_text(name, LEDGER) || same_text(name, TX_LOG)
        || same_text(name, "p") || same_text(name, "l") || same_text(name, "t") {
        Command::Ledger
    } else if same_text(name, ACCOUNTS) || same_text(name, "a") {
        Command::Accounts
    } else if same_text(name, CLIENT) || same_text(name, "c") {
        print_single_account(words)
    } else if same_text(name, ORDER) || same_text(name, "o") {
        order(words)
    } else if same_text(name, ORDER_BOOK) || same_text(name, "ob") {
        order_book(words)
    } else if same_text(name, ORDER_BOOK_BY_PRICE) || same_text(name, "obp") {
        order_book_by_price(words)
    } else if same_text(name, QUIT) || same_text(name, "q") {
        Command::Quit
    } else {
        Command::Unrecognized
    }
}

/// Reads a command line: splits it into words at white space and reads the
/// command that the words ask for.
pub fn read_line(line: &str) -> (command: Command)
    ensures
        command@ == command_of(words_of(line@)),
{
    let words = split_whitespace(line);
    read_words(&words)
}

} // verus!
