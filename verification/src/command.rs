//! The command grammar: an explicit parser from a tokenized line to a
//! closed set of command variants, validated before dispatch.
//!
//! Quantities are plain decimal share counts; prices are decimal literals
//! with at most four fractional digits, captured exactly in fixed-point
//! units (an input with more precision is rejected, never rounded); dates
//! are RFC 3339 date-times, carried as milliseconds since the Unix epoch.

use vstd::prelude::*;

verus! {

use crate::text::{
    all_digits, chars_eq_str, chars_of, digits_value, lemma_deep_view_chars,
    lemma_pow10_increases, parse_digits, pow10, string_from_chars,
};
use crate::PRICE_SCALE;
use crate::tokenizer::{spec_tokenize, tokenize_chars};

/// Why an input line was rejected.
#[derive(Clone, Copy, PartialEq, Eq, Structural, Debug)]
pub enum ParseError {
    /// The first token names no known command.
    UnknownCommand,
    /// A trade command came with fewer than its three required arguments.
    MissingArgument,
    /// More arguments than the command takes.
    TooManyArguments,
    /// The ticker argument is empty.
    EmptyTicker,
    /// The quantity is not a positive decimal count of at most 18 digits.
    InvalidQuantity,
    /// The price is not a decimal literal the ledger's scale can hold
    /// exactly.
    InvalidPrice,
    /// The date argument is not an RFC 3339 date-time.
    InvalidDate,
}

/// A parsed instruction, ready for dispatch.
#[derive(Debug, PartialEq, Eq)]
pub enum Command {
    Ls { filter: Option<String> },
    Buy { ticker: String, quantity: u64, price: u64, date: Option<i64> },
    Sell { ticker: String, quantity: u64, price: u64, date: Option<i64> },
    AvgPrice { filter: Option<String>, until: Option<i64> },
}

/// The mathematical shape of a parsed instruction: strings as character
/// sequences.
pub enum CommandView {
    Ls { filter: Option<Seq<char>> },
    Buy { ticker: Seq<char>, quantity: u64, price: u64, date: Option<i64> },
    Sell { ticker: Seq<char>, quantity: u64, price: u64, date: Option<i64> },
    AvgPrice { filter: Option<Seq<char>>, until: Option<i64> },
}

impl View for Command {
    type V = CommandView;

    open spec fn view(&self) -> CommandView {
        match self {
            Command::Ls { filter } => CommandView::Ls {
                filter: match filter {
                    Some(f) => Some(f@),
                    None => None,
                },
            },
            Command::Buy { ticker, quantity, price, date } => CommandView::Buy {
                ticker: ticker@,
                quantity: *quantity,
                price: *price,
                date: *date,
            },
            Command::Sell { ticker, quantity, price, date } => CommandView::Sell {
                ticker: ticker@,
                quantity: *quantity,
                price: *price,
                date: *date,
            },
            Command::AvgPrice { filter, until } => CommandView::AvgPrice {
                filter: match filter {
                    Some(f) => Some(f@),
                    None => None,
                },
                until: *until,
            },
        }
    }
}

/// The instant a date-time token denotes, in milliseconds since the Unix
/// epoch, or nothing if the token is not an RFC 3339 date-time.
pub uninterp spec fn datetime_of(s: Seq<char>) -> Option<int>;

/// Relies on chrono's `DateTime::parse_from_rfc3339` and
/// `timestamp_millis`: the string carries its own offset, so the parsed
/// instant is a function of the characters alone.
#[verifier::external_body]
fn parse_datetime(s: &str) -> (r: Option<i64>)
    ensures
        match r {
            Some(t) => datetime_of(s@) == Some(t as int),
            None => datetime_of(s@) is None,
        },
{
    match chrono::DateTime::parse_from_rfc3339(s) {
        Ok(d) => Some(d.timestamp_millis()),
        Err(_) => None,
    }
}

/// The share count a quantity token denotes: a run of one to eighteen
/// decimal digits, strictly positive.
pub open spec fn spec_parse_quantity(t: Seq<char>) -> Option<u64> {
    if 1 <= t.len() <= 18 && all_digits(t) && digits_value(t) >= 1 {
        Some(digits_value(t) as u64)
    } else {
        None
    }
}

/// Reads a quantity token.
pub fn parse_quantity(t: &Vec<char>) -> (r: Option<u64>)
    ensures
        r == spec_parse_quantity(t@),
{
    if t.len() < 1 || t.len() > 18 {
        return None;
    }
    proof {
        assert(t@.subrange(0, t@.len() as int) =~= t@);
    }
    match parse_digits(t, 0, t.len()) {
        Some(v) => if v >= 1 {
            Some(v)
        } else {
            None
        },
        None => None,
    }
}

/// The index of the first decimal point of a token, or -1 if it has none.
pub open spec fn first_dot(s: Seq<char>) -> int
    decreases s.len(),
{
    if s.len() == 0 {
        -1
    } else if s[0] == '.' {
        0
    } else if first_dot(s.drop_first()) == -1 {
        -1
    } else {
        first_dot(s.drop_first()) + 1
    }
}

proof fn lemma_first_dot(s: Seq<char>, i: int)
    requires
        0 <= i <= s.len(),
        forall|m: int| 0 <= m < i ==> s[m] != '.',
        i < s.len() ==> s[i] == '.',
    ensures
        first_dot(s) == if i == s.len() {
            -1int
        } else {
            i
        },
    decreases s.len(),
{
    if s.len() > 0 && i > 0 {
        assert(s[0] != '.');
        let d = s.drop_first();
        assert(forall|m: int| 0 <= m < i - 1 ==> d[m] == s[m + 1] && s[m + 1] != '.');
        lemma_first_dot(d, i - 1);
    }
}

/// The fixed-point value a price token denotes: a decimal literal of at
/// most fourteen whole digits and, after an optional point, one to four
/// fractional digits.  Everything else — including a second point, a sign,
/// or more precision than the ledger's scale holds — is rejected.
pub open spec fn spec_parse_price(t: Seq<char>) -> Option<u64> {
    let d = first_dot(t);
    if d == -1 {
        if 1 <= t.len() <= 14 && all_digits(t) {
            Some((digits_value(t) * PRICE_SCALE) as u64)
        } else {
            None
        }
    } else {
        let ip = t.subrange(0, d);
        let fp = t.subrange(d + 1, t.len() as int);
        if 1 <= ip.len() <= 14 && all_digits(ip) && 1 <= fp.len() <= 4 && all_digits(fp) {
            Some(
                (digits_value(ip) * PRICE_SCALE + digits_value(fp) * pow10(
                    (4 - fp.len()) as nat,
                )) as u64,
            )
        } else {
            None
        }
    }
}

proof fn lemma_pow10_small()
    ensures
        pow10(0) == 1,
        pow10(1) == 10,
        pow10(2) == 100,
        pow10(3) == 1000,
        pow10(4) == 10000,
        pow10(14) == 100000000000000,
{
    reveal_with_fuel(pow10, 15);
}

/// Reads a price token into fixed-point units.
pub fn parse_price(t: &Vec<char>) -> (r: Option<u64>)
    ensures
        r == spec_parse_price(t@),
{
    let n = t.len();
    let mut di: usize = 0;
    while di < n && t[di] != '.'
        invariant
            di <= n,
            n == t@.len(),
            forall|m: int| 0 <= m < di ==> t@[m] != '.',
        decreases n - di,
    {
        di = di + 1;
    }
    proof {
        lemma_first_dot(t@, di as int);
        lemma_pow10_small();
    }
    if di == n {
        if n < 1 || n > 14 {
            return None;
        }
        proof {
            assert(t@.subrange(0, n as int) =~= t@);
        }
        match parse_digits(t, 0, n) {
            Some(v) => {
                proof {
                    lemma_pow10_increases(n as nat, 14);
                }
                Some(v * PRICE_SCALE)
            },
            None => None,
        }
    } else {
        let fp_len = n - di - 1;
        if di < 1 || di > 14 {
            return None;
        }
        if fp_len < 1 || fp_len > 4 {
            return None;
        }
        let ip = match parse_digits(t, 0, di) {
            Some(v) => v,
            None => {
                return None;
            },
        };
        let fp = match parse_digits(t, di + 1, n) {
            Some(v) => v,
            None => {
                return None;
            },
        };
        let mult: u64 = if fp_len == 1 {
            1000
        } else if fp_len == 2 {
            100
        } else if fp_len == 3 {
            10
        } else {
            1
        };
        proof {
            lemma_pow10_increases(di as nat, 14);
            lemma_pow10_increases(fp_len as nat, 4);
        }
        Some(ip * PRICE_SCALE + fp * mult)
    }
}

/// The meaning of a trade command's arguments (everything after the `buy`
/// or `sell` keyword): ticker, quantity, price, optional date.  Checked in
/// that order, so the reported error is the first offending argument.
pub open spec fn spec_parse_trade(args: Seq<Seq<char>>) -> Result<
    (Seq<char>, u64, u64, Option<i64>),
    ParseError,
> {
    if args.len() < 3 {
        Err(ParseError::MissingArgument)
    } else if args.len() > 4 {
        Err(ParseError::TooManyArguments)
    } else if args[0].len() == 0 {
        Err(ParseError::EmptyTicker)
    } else {
        match spec_parse_quantity(args[1]) {
            None => Err(ParseError::InvalidQuantity),
            Some(q) => match spec_parse_price(args[2]) {
                None => Err(ParseError::InvalidPrice),
                Some(p) => if args.len() == 3 {
                    Ok((args[0], q, p, None))
                } else {
                    match datetime_of(args[3]) {
                        Some(d) => Ok((args[0], q, p, Some(d as i64))),
                        None => Err(ParseError::InvalidDate),
                    }
                },
            },
        }
    }
}

/// The meaning of one tokenized line: no tokens ask for nothing; otherwise
/// the first token picks the command and the rest are its arguments.
pub open spec fn spec_parse_statement(toks: Seq<Seq<char>>) -> Result<
    Option<CommandView>,
    ParseError,
> {
    if toks.len() == 0 {
        Ok(None)
    } else {
        let head = toks[0];
        let args = toks.drop_first();
        if head == seq!['l', 's'] {
            if args.len() == 0 {
                Ok(Some(CommandView::Ls { filter: None }))
            } else if args.len() == 1 {
                Ok(Some(CommandView::Ls { filter: Some(args[0]) }))
            } else {
                Err(ParseError::TooManyArguments)
            }
        } else if head == seq!['b', 'u', 'y'] {
            match spec_parse_trade(args) {
                Ok(t) => Ok(
                    Some(CommandView::Buy { ticker: t.0, quantity: t.1, price: t.2, date: t.3 }),
                ),
                Err(e) => Err(e),
            }
        } else if head == seq!['s', 'e', 'l', 'l'] {
            match spec_parse_trade(args) {
                Ok(t) => Ok(
                    Some(CommandView::Sell { ticker: t.0, quantity: t.1, price: t.2, date: t.3 }),
                ),
                Err(e) => Err(e),
            }
        } else if head == seq!['a', 'v', 'g', 'p', 'r', 'i', 'c', 'e'] {
            if args.len() == 0 {
                Ok(Some(CommandView::AvgPrice { filter: None, until: None }))
            } else if args.len() == 1 {
                Ok(Some(CommandView::AvgPrice { filter: Some(args[0]), until: None }))
            } else if args.len() == 2 {
                match datetime_of(args[1]) {
                    Some(d) => Ok(
                        Some(
                            CommandView::AvgPrice {
                                filter: Some(args[0]),
                                until: Some(d as i64),
                            },
                        ),
                    ),
                    None => Err(ParseError::InvalidDate),
                }
            } else {
                Err(ParseError::TooManyArguments)
            }
        } else {
            Err(ParseError::UnknownCommand)
        }
    }
}

fn parse_trade_args(toks: &Vec<Vec<char>>) -> (r: Result<(String, u64, u64, Option<i64>), ParseError>)
    requires
        toks@.len() >= 1,
    ensures
        ({
            let s = spec_parse_trade(toks.deep_view().drop_first());
            match (r, s) {
                (Ok(t), Ok(v)) => t.0@ == v.0 && t.1 == v.1 && t.2 == v.2 && t.3 == v.3,
                (Err(a), Err(b)) => a == b,
                _ => false,
            }
        }),
{
    let ghost args = toks.deep_view().drop_first();
    proof {
        lemma_deep_view_chars(toks);
        assert(args.len() == toks@.len() - 1);
        assert(forall|m: int| 0 <= m < args.len() ==> args[m] == toks.deep_view()[m + 1]);
    }
    if toks.len() < 4 {
        return Err(ParseError::MissingArgument);
    }
    if toks.len() > 5 {
        return Err(ParseError::TooManyArguments);
    }
    if toks[1].len() == 0 {
        return Err(ParseError::EmptyTicker);
    }
    let quantity = match parse_quantity(&toks[2]) {
        Some(q) => q,
        None => {
            return Err(ParseError::InvalidQuantity);
        },
    };
    let price = match parse_price(&toks[3]) {
        Some(p) => p,
        None => {
            return Err(ParseError::InvalidPrice);
        },
    };
    let ticker = string_from_chars(&toks[1]);
    if toks.len() == 4 {
        Ok((ticker, quantity, price, None))
    } else {
        let date_token = string_from_chars(&toks[4]);
        match parse_datetime(date_token.as_str()) {
            Some(d) => Ok((ticker, quantity, price, Some(d))),
            None => Err(ParseError::InvalidDate),
        }
    }
}

fn parse_tokens(toks: &Vec<Vec<char>>) -> (r: Result<Option<Command>, ParseError>)
    ensures
        ({
            let s = spec_parse_statement(toks.deep_view());
            match (r, s) {
                (Ok(Some(c)), Ok(Some(v))) => c@ == v,
                (Ok(None), Ok(None)) => true,
                (Err(a), Err(b)) => a == b,
                _ => false,
            }
        }),
{
    if toks.len() == 0 {
        return Ok(None);
    }
    proof {
        reveal_strlit("ls");
        reveal_strlit("buy");
        reveal_strlit("sell");
        reveal_strlit("avgprice");
        assert("ls"@ =~= seq!['l', 's']);
        assert("buy"@ =~= seq!['b', 'u', 'y']);
        assert("sell"@ =~= seq!['s', 'e', 'l', 'l']);
        assert("avgprice"@ =~= seq!['a', 'v', 'g', 'p', 'r', 'i', 'c', 'e']);
    }
    let ghost args = toks.deep_view().drop_first();
    proof {
        lemma_deep_view_chars(toks);
        assert(forall|m: int| 0 <= m < args.len() ==> args[m] == toks.deep_view()[m + 1]);
    }
    let head = &toks[0];
    if chars_eq_str(head, "ls") {
        if toks.len() == 1 {
            Ok(Some(Command::Ls { filter: None }))
        } else if toks.len() == 2 {
            Ok(Some(Command::Ls { filter: Some(string_from_chars(&toks[1])) }))
        } else {
            Err(ParseError::TooManyArguments)
        }
    } else if chars_eq_str(head, "buy") {
        match parse_trade_args(toks) {
            Ok(t) => Ok(
                Some(Command::Buy { ticker: t.0, quantity: t.1, price: t.2, date: t.3 }),
            ),
            Err(e) => Err(e),
        }
    } else if chars_eq_str(head, "sell") {
        match parse_trade_args(toks) {
            Ok(t) => Ok(
                Some(Command::Sell { ticker: t.0, quantity: t.1, price: t.2, date: t.3 }),
            ),
            Err(e) => Err(e),
        }
    } else if chars_eq_str(head, "avgprice") {
        if toks.len() == 1 {
            Ok(Some(Command::AvgPrice { filter: None, until: None }))
        } else if toks.len() == 2 {
            Ok(Some(Command::AvgPrice { filter: Some(string_from_chars(&toks[1])), until: None }))
        } else if toks.len() == 3 {
            let filter = string_from_chars(&toks[1]);
            let until_token = string_from_chars(&toks[2]);
            match parse_datetime(until_token.as_str()) {
                Some(d) => Ok(Some(Command::AvgPrice { filter: Some(filter), until: Some(d) })),
                None => Err(ParseError::InvalidDate),
            }
        } else {
            Err(ParseError::TooManyArguments)
        }
    } else {
        Err(ParseError::UnknownCommand)
    }
}

/// Parses a pre-tokenized statement, as handed over on the command line.
pub fn parse_statement(tokens: &Vec<String>) -> (r: Result<Option<Command>, ParseError>)
    ensures
        ({
            let s = spec_parse_statement(tokens.deep_view());
            match (r, s) {
                (Ok(Some(c)), Ok(Some(v))) => c@ == v,
                (Ok(None), Ok(None)) => true,
                (Err(a), Err(b)) => a == b,
                _ => false,
            }
        }),
{
    let mut toks: Vec<Vec<char>> = Vec::new();
    let mut i: usize = 0;
    while i < tokens.len()
        invariant
            i <= tokens.len(),
            toks@.len() == i,
            forall|m: int| 0 <= m < i ==> toks@[m]@ == tokens@[m]@,
        decreases tokens.len() - i,
    {
        toks.push(chars_of(tokens[i].as_str()));
        i = i + 1;
    }
    proof {
        assert(toks.deep_view() =~~= tokens.deep_view());
    }
    parse_tokens(&toks)
}

/// Parses one interactive input line: tokenizes it quote-aware and reads
/// the statement.  The second component flags an unterminated quote, which
/// is reported but does not abort the line.
pub fn parse_line(line: &str) -> (r: (Result<Option<Command>, ParseError>, bool))
    ensures
        ({
            let s = spec_parse_statement(spec_tokenize(line@).0);
            match (r.0, s) {
                (Ok(Some(c)), Ok(Some(v))) => c@ == v,
                (Ok(None), Ok(None)) => true,
                (Err(a), Err(b)) => a == b,
                _ => false,
            }
        }),
        r.1 == spec_tokenize(line@).1,
{
    let chars = chars_of(line);
    let toks = tokenize_chars(&chars);
    let res = parse_tokens(&toks.0);
    (res, toks.1)
}

} // verus!
