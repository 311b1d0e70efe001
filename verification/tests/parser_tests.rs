use stonks::command::{parse_line, parse_statement, Command, ParseError};
use stonks::tokenizer::tokenize_line;

fn strings(words: &[&str]) -> Vec<String> {
    words.iter().map(|w| String::from(*w)).collect()
}

#[test]
fn tokenize_splits_on_spaces() {
    let (tokens, unterminated) = tokenize_line("buy AAPL 10 100");
    assert_eq!(tokens, strings(&["buy", "AAPL", "10", "100"]));
    assert!(!unterminated);
}

#[test]
fn tokenize_quotes_protect_spaces() {
    let (tokens, unterminated) = tokenize_line("ls \"a b\" c");
    assert_eq!(tokens, strings(&["ls", "a b", "c"]));
    assert!(!unterminated);
}

#[test]
fn tokenize_flags_unterminated_quote() {
    let (tokens, unterminated) = tokenize_line("ls \"a b");
    assert_eq!(tokens, strings(&["ls", "a b"]));
    assert!(unterminated);
}

#[test]
fn tokenize_consecutive_spaces_yield_empty_tokens() {
    let (tokens, _) = tokenize_line("a  b");
    assert_eq!(tokens, strings(&["a", "", "b"]));
}

#[test]
fn tokenize_drops_empty_trailing_token() {
    let (tokens, _) = tokenize_line("a ");
    assert_eq!(tokens, strings(&["a"]));
    let (tokens, _) = tokenize_line("a");
    assert_eq!(tokens, strings(&["a"]));
}

#[test]
fn parse_empty_line_is_no_command() {
    assert_eq!(parse_line("").0, Ok(None));
}

#[test]
fn parse_buy_without_date() {
    let (r, _) = parse_line("buy AAPL 10 100");
    assert_eq!(
        r,
        Ok(Some(Command::Buy {
            ticker: String::from("AAPL"),
            quantity: 10,
            price: 100_0000,
            date: None,
        }))
    );
}

#[test]
fn parse_sell_with_fractional_price() {
    let (r, _) = parse_line("sell AAPL 3 100.25");
    assert_eq!(
        r,
        Ok(Some(Command::Sell {
            ticker: String::from("AAPL"),
            quantity: 3,
            price: 100_2500,
            date: None,
        }))
    );
}

#[test]
fn parse_price_partial_fraction_is_scaled() {
    let (r, _) = parse_line("buy X 1 0.5");
    assert_eq!(
        r,
        Ok(Some(Command::Buy {
            ticker: String::from("X"),
            quantity: 1,
            price: 5000,
            date: None,
        }))
    );
}

#[test]
fn parse_buy_with_rfc3339_date() {
    let (r, _) = parse_line("buy AAPL 1 1 1970-01-02T00:00:00+00:00");
    assert_eq!(
        r,
        Ok(Some(Command::Buy {
            ticker: String::from("AAPL"),
            quantity: 1,
            price: 10000,
            date: Some(86_400_000),
        }))
    );
}

#[test]
fn parse_date_honours_offset() {
    let (r, _) = parse_line("buy AAPL 1 1 1970-01-01T02:00:00+02:00");
    assert_eq!(
        r,
        Ok(Some(Command::Buy {
            ticker: String::from("AAPL"),
            quantity: 1,
            price: 10000,
            date: Some(0),
        }))
    );
}

#[test]
fn parse_ls_variants() {
    assert_eq!(parse_line("ls").0, Ok(Some(Command::Ls { filter: None })));
    assert_eq!(
        parse_line("ls AA").0,
        Ok(Some(Command::Ls { filter: Some(String::from("AA")) }))
    );
    assert_eq!(parse_line("ls a b").0, Err(ParseError::TooManyArguments));
}

#[test]
fn parse_avgprice_variants() {
    assert_eq!(
        parse_line("avgprice").0,
        Ok(Some(Command::AvgPrice { filter: None, until: None }))
    );
    assert_eq!(
        parse_line("avgprice AA").0,
        Ok(Some(Command::AvgPrice { filter: Some(String::from("AA")), until: None }))
    );
    assert_eq!(
        parse_line("avgprice AA 1970-01-02T00:00:00+00:00").0,
        Ok(Some(Command::AvgPrice {
            filter: Some(String::from("AA")),
            until: Some(86_400_000),
        }))
    );
    assert_eq!(
        parse_line("avgprice AA nonsense").0,
        Err(ParseError::InvalidDate)
    );
    assert_eq!(
        parse_line("avgprice a b c").0,
        Err(ParseError::TooManyArguments)
    );
}

#[test]
fn parse_unknown_command() {
    assert_eq!(parse_line("frobnicate").0, Err(ParseError::UnknownCommand));
    assert_eq!(parse_line("BUY AAPL 1 1").0, Err(ParseError::UnknownCommand));
}

#[test]
fn parse_trade_argument_counts() {
    assert_eq!(parse_line("buy AAPL 10").0, Err(ParseError::MissingArgument));
    assert_eq!(
        parse_line("buy AAPL 10 100 1970-01-02T00:00:00+00:00 extra").0,
        Err(ParseError::TooManyArguments)
    );
}

#[test]
fn parse_empty_ticker_rejected() {
    assert_eq!(parse_line("buy \"\" 10 100").0, Err(ParseError::EmptyTicker));
}

#[test]
fn parse_invalid_quantities() {
    assert_eq!(parse_line("buy AAPL 0 100").0, Err(ParseError::InvalidQuantity));
    assert_eq!(parse_line("buy AAPL -1 100").0, Err(ParseError::InvalidQuantity));
    assert_eq!(parse_line("buy AAPL ten 100").0, Err(ParseError::InvalidQuantity));
    assert_eq!(parse_line("buy AAPL 3.5 100").0, Err(ParseError::InvalidQuantity));
    assert_eq!(
        parse_line("buy AAPL 1000000000000000000000 100").0,
        Err(ParseError::InvalidQuantity)
    );
}

#[test]
fn parse_invalid_prices() {
    assert_eq!(parse_line("buy AAPL 1 1.23456").0, Err(ParseError::InvalidPrice));
    assert_eq!(parse_line("buy AAPL 1 100.").0, Err(ParseError::InvalidPrice));
    assert_eq!(parse_line("buy AAPL 1 .5").0, Err(ParseError::InvalidPrice));
    assert_eq!(parse_line("buy AAPL 1 1.2.3").0, Err(ParseError::InvalidPrice));
    assert_eq!(parse_line("buy AAPL 1 -4").0, Err(ParseError::InvalidPrice));
    assert_eq!(parse_line("buy AAPL 1 12a").0, Err(ParseError::InvalidPrice));
}

#[test]
fn parse_invalid_date() {
    assert_eq!(
        parse_line("buy AAPL 1 1 yesterday").0,
        Err(ParseError::InvalidDate)
    );
}

#[test]
fn parse_statement_from_argument_vector() {
    let r = parse_statement(&strings(&["sell", "MSFT", "2", "50"]));
    assert_eq!(
        r,
        Ok(Some(Command::Sell {
            ticker: String::from("MSFT"),
            quantity: 2,
            price: 50_0000,
            date: None,
        }))
    );
    assert_eq!(parse_statement(&strings(&[])), Ok(None));
}

#[test]
fn parse_largest_quantity_and_price() {
    let (r, _) = parse_line("buy X 999999999999999999 99999999999999");
    assert_eq!(
        r,
        Ok(Some(Command::Buy {
            ticker: String::from("X"),
            quantity: 999_999_999_999_999_999,
            price: 999_999_999_999_990_000,
            date: None,
        }))
    );
}

#[test]
fn parse_zero_price_is_allowed() {
    let (r, _) = parse_line("buy X 1 0");
    assert_eq!(
        r,
        Ok(Some(Command::Buy {
            ticker: String::from("X"),
            quantity: 1,
            price: 0,
            date: None,
        }))
    );
}

#[test]
fn parse_quoted_ticker_with_space() {
    let (r, _) = parse_line("buy \"BRK B\" 1 100");
    assert_eq!(
        r,
        Ok(Some(Command::Buy {
            ticker: String::from("BRK B"),
            quantity: 1,
            price: 100_0000,
            date: None,
        }))
    );
}
