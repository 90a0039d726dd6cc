use recount::accounts_doc::{Account, AccountsDocument};
use recount::calendar::Date;
use recount::dec::Dec;
use recount::parser::parse;
use recount::tokenizer::{lex_document, Token, TokenKind, TokenizeError};
use recount::types::{AccountId, AccountType, Amount};

fn dec(mantissa: i128, scale: u32) -> Dec {
    Dec::new(mantissa, scale).expect("hard coded value will parse")
}

fn date(year: u32, month: u32, day: u32) -> Date {
    Date::new(year, month, day).expect("hard coded date is valid")
}

fn parse_text(buffer: &str) -> Result<AccountsDocument, recount::parser::ParseError> {
    parse(lex_document(buffer.to_string()))
}

#[test]
fn happy_path() {
    let mut tokens = vec![];
    tokens.push(Ok(Token {
        kind: TokenKind::OptionLine,
        line: 0,
        column: 0,
    }));
    tokens.push(Ok(Token {
        kind: TokenKind::Newline,
        line: 0,
        column: 0,
    }));
    add_open_account_tokens(
        &mut tokens,
        "1912-01-12",
        AccountType::Asset,
        "account name",
        "GBP",
    );
    tokens.push(Ok(Token {
        kind: TokenKind::Newline,
        line: 0,
        column: 0,
    }));
    add_open_account_tokens(
        &mut tokens,
        "1912-01-12",
        AccountType::Asset,
        "another account",
        "GBP",
    );
    tokens.push(Ok(Token {
        kind: TokenKind::Newline,
        line: 0,
        column: 0,
    }));
    add_open_account_tokens(
        &mut tokens,
        "1912-01-12",
        AccountType::Asset,
        "yet another account",
        "EUR",
    );
    tokens.push(Ok(Token {
        kind: TokenKind::Newline,
        line: 0,
        column: 0,
    }));
    tokens.push(Ok(Token {
        kind: TokenKind::Newline,
        line: 0,
        column: 0,
    }));
    add_tx_declaration_tokens(&mut tokens, "1912-01-12");
    tokens.push(Ok(Token {
        kind: TokenKind::Newline,
        line: 0,
        column: 0,
    }));
    add_post_tokens(
        &mut tokens,
        dec(645, 2),
        AccountType::Asset,
        "another account",
        "GBP",
    );
    tokens.push(Ok(Token {
        kind: TokenKind::Newline,
        line: 0,
        column: 0,
    }));
    add_post_tokens(
        &mut tokens,
        dec(-345, 2),
        AccountType::Asset,
        "account name",
        "GBP",
    );
    tokens.push(Ok(Token {
        kind: TokenKind::Newline,
        line: 0,
        column: 0,
    }));
    add_conversion_post_tokens(
        &mut tokens,
        dec(-15, 1),
        AccountType::Asset,
        "yet another account",
        "EUR",
        dec(2, 0),
        "GBP",
    );

    let accts = parse(tokens).expect("the test token sequence is valid");

    assert_eq!(
        accts.accounts(),
        &vec![
            Account {
                id: AccountId {
                    name: "account name".to_string(),
                    type_: AccountType::Asset
                },
                currency: "GBP".to_string(),
                opening_date: date(1912, 1, 12)
            },
            Account {
                id: AccountId {
                    name: "another account".to_string(),
                    type_: AccountType::Asset
                },
                currency: "GBP".to_string(),
                opening_date: date(1912, 1, 12)
            },
            Account {
                id: AccountId {
                    name: "yet another account".to_string(),
                    type_: AccountType::Asset
                },
                currency: "EUR".to_string(),
                opening_date: date(1912, 1, 12)
            }
        ]
    );

    let mut balances = accts.balances();

    assert_eq!(
        balances.next(),
        Some((
            AccountId {
                name: "account name".to_string(),
                type_: AccountType::Asset,
            },
            Amount {
                amount: dec(-345, 2),
                currency: "GBP".to_string(),
            }
        ))
    );

    assert_eq!(
        balances.next(),
        Some((
            AccountId {
                name: "another account".to_string(),
                type_: AccountType::Asset,
            },
            Amount {
                amount: dec(645, 2),
                currency: "GBP".to_string(),
            }
        ))
    );

    assert_eq!(
        balances.next(),
        Some((
            AccountId {
                name: "yet another account".to_string(),
                type_: AccountType::Asset,
            },
            Amount {
                amount: dec(-15, 1),
                currency: "EUR".to_string(),
            }
        ))
    );

    assert_eq!(balances.next(), None);
}

fn add_open_account_tokens(
    tokens: &mut Vec<Result<Token, TokenizeError>>,
    date: &str,
    account_type: AccountType,
    account_name: &str,
    currency: &str,
) {
    let mut open = vec![
        Ok(Token {
            kind: TokenKind::Date(date.to_string()),
            line: 0,
            column: 0,
        }),
        Ok(Token {
            kind: TokenKind::DirectiveOpen,
            line: 0,
            column: 0,
        }),
        Ok(Token {
            kind: TokenKind::Account(AccountId {
                type_: account_type,
                name: account_name.to_string(),
            }),
            line: 0,
            column: 0,
        }),
        Ok(Token {
            kind: TokenKind::Currency(currency.to_string()),
            line: 0,
            column: 0,
        }),
    ];

    tokens.append(&mut open);
}

fn add_tx_declaration_tokens(tokens: &mut Vec<Result<Token, TokenizeError>>, date: &str) {
    let mut tx_declare = vec![
        Ok(Token {
            kind: TokenKind::Date(date.to_string()),
            line: 0,
            column: 0,
        }),
        Ok(Token {
            kind: TokenKind::DirectivePostTx,
            line: 0,
            column: 0,
        }),
        Ok(Token {
            kind: TokenKind::TxDescription,
            line: 0,
            column: 0,
        }),
    ];

    tokens.append(&mut tx_declare);
}

fn add_post_tokens(
    tokens: &mut Vec<Result<Token, TokenizeError>>,
    amount: Dec,
    account_type: AccountType,
    account_name: &str,
    currency: &str,
) {
    let mut open = vec![
        Ok(Token {
            kind: TokenKind::Account(AccountId {
                type_: account_type,
                name: account_name.to_string(),
            }),
            line: 0,
            column: 0,
        }),
        Ok(Token {
            kind: TokenKind::Amount(Amount {
                currency: currency.to_string(),
                amount,
            }),
            line: 0,
            column: 0,
        }),
    ];

    tokens.append(&mut open);
}

fn add_conversion_post_tokens(
    tokens: &mut Vec<Result<Token, TokenizeError>>,
    amount: Dec,
    account_type: AccountType,
    account_name: &str,
    currency: &str,
    conversion_amount: Dec,
    conversion_currency: &str,
) {
    let mut open = vec![
        Ok(Token {
            kind: TokenKind::Account(AccountId {
                type_: account_type,
                name: account_name.to_string(),
            }),
            line: 0,
            column: 0,
        }),
        Ok(Token {
            kind: TokenKind::Amount(Amount {
                currency: currency.to_string(),
                amount,
            }),
            line: 0,
            column: 0,
        }),
        Ok(Token {
            kind: TokenKind::At,
            line: 0,
            column: 0,
        }),
        Ok(Token {
            kind: TokenKind::Amount(Amount {
                currency: conversion_currency.to_string(),
                amount: conversion_amount,
            }),
            line: 0,
            column: 0,
        }),
    ];

    tokens.append(&mut open);
}

#[test]
fn round_trip_minimal_document() {
    // A minimal valid document: one open line and a balanced two-posting
    // transaction. Both balances are defined and they sum to zero.
    let text = "option \"operating_currency\" \"GBP\"\n\n2012-01-01 open Assets:Checking GBP\n2012-01-01 open Income:Salary GBP\n\n2012-01-02 * \"pay\"\n  Assets:Checking 100 GBP\n  Income:Salary -100 GBP\n";
    let doc = parse_text(text).expect("the document is valid");
    let checking = AccountId {
        name: "Checking".to_string(),
        type_: AccountType::Asset,
    };
    let salary = AccountId {
        name: "Salary".to_string(),
        type_: AccountType::Income,
    };
    let checking_balance = doc.balance(&checking).expect("the account was opened");
    let salary_balance = doc.balance(&salary).expect("the account was opened");
    assert_eq!(checking_balance, dec(100, 0));
    assert_eq!(salary_balance, dec(-100, 0));
    assert_eq!(checking_balance.checked_add(&salary_balance), Some(dec(0, 0)));
    // An account that was never opened has no balance.
    assert_eq!(
        doc.balance(&AccountId {
            name: "Nowhere".to_string(),
            type_: AccountType::Expense,
        }),
        None
    );
}

#[test]
fn invalid_calendar_date_is_rejected() {
    let text = "option \"k\" \"v\"\n2023-02-31 open Assets:Checking GBP\n";
    let err = parse_text(text).unwrap_err();
    assert_eq!(err.message(), "invalid date");
    assert_eq!(err.line(), 2);
    assert_eq!(err.column(), 1);
}

#[test]
fn missing_option_line_is_rejected() {
    let err = parse_text("2012-01-01 open Assets:Checking GBP\n").unwrap_err();
    assert_eq!(err.message(), "expected option line");
}

#[test]
fn ledger_rejection_surfaces_as_parse_error() {
    // The second posting is not balanced and there is no auto posting.
    let text = "option \"k\" \"v\"\n2012-01-01 open Assets:Checking GBP\n\n2012-01-02 * \"broken\"\n  Assets:Checking 100 GBP\n";
    let err = parse_text(text).unwrap_err();
    assert_eq!(err.message(), "transaction is not balanced");
}

#[test]
fn lexical_error_position_carries_through_parse() {
    let text = "option \"k\" \"v\"\n792281USDopen\n";
    let err = parse_text(text).unwrap_err();
    assert_eq!(err.message(), "unexpected character sequence");
    assert_eq!(err.line(), 2);
    assert_eq!(err.column(), 1);
}

#[test]
fn duplicate_open_surfaces_as_parse_error() {
    let text = "option \"k\" \"v\"\n2012-01-01 open Assets:Checking GBP\n2012-01-02 open Assets:Checking EUR\n";
    let err = parse_text(text).unwrap_err();
    assert_eq!(err.message(), "account already exists");
}
