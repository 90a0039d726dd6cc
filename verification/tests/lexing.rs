use recount::dec::Dec;
use recount::tokenizer::{Token, TokenKind, TokenizeError, Tokenizer};
use recount::types::{AccountId, AccountType, Amount};

fn dec(mantissa: i128, scale: u32) -> Dec {
    Dec::new(mantissa, scale).expect("hard coded value is a valid decimal")
}

fn collect_tokens(tokenizer: &mut Tokenizer) -> Result<Vec<Token>, TokenizeError> {
    let mut tokens = Vec::new();
    loop {
        match tokenizer.next_token() {
            Ok(Some(token)) => tokens.push(token),
            Ok(None) => return Ok(tokens),
            Err(e) => return Err(e),
        }
    }
}

#[test]
fn tmp() {
    let mut tokenizer = Tokenizer::new("2023-02-01 open Equity:RetainedEarnings".to_string());
    let tokens = collect_tokens(&mut tokenizer).unwrap();
    assert_eq!(
        vec![
            Token {
                kind: TokenKind::Date("2023-02-01".to_string()),
                line: 1,
                column: 1
            },
            Token {
                kind: TokenKind::DirectiveOpen,
                line: 1,
                column: 11
            },
            Token {
                kind: TokenKind::Account(AccountId {
                    name: "RetainedEarnings".to_string(),
                    type_: AccountType::Equity
                }),
                line: 1,
                column: 16
            }
        ],
        tokens
    )
}

#[test]
fn tokenizer_it_works() {
    let raw = r#"option "operating_currency" "GBP"

2023-02-01 open Equity:RetainedEarnings              GBP ; a comment

;;;;;;;;;;;;;;;;;;;;;;;;;;;;;;;;;;;;;;;
; An account entry

2023-02-03 * "Transaction description"
  Assets:AnAsset                                   12 USD @ 0.82 GBP
  Income:SomeIncome                                     -9,000.84 GBP"#;

    let mut tokenizer = Tokenizer::new(raw.to_string());

    assert_eq!(
        tokenizer.next_token(),
        Ok(Some(Token {
            kind: TokenKind::OptionLine,
            line: 1,
            column: 1,
        })),
    );

    assert_eq!(
        tokenizer.next_token(),
        Ok(Some(Token {
            kind: TokenKind::Newline,
            line: 1,
            column: 33
        })),
    );

    assert_eq!(
        tokenizer.next_token(),
        Ok(Some(Token {
            kind: TokenKind::Newline,
            line: 2,
            column: 1
        })),
    );

    assert_eq!(
        tokenizer.next_token(),
        Ok(Some(Token {
            kind: TokenKind::Date("2023-02-01".to_string()),
            line: 3,
            column: 1,
        }))
    );

    assert_eq!(
        tokenizer.next_token(),
        Ok(Some(Token {
            kind: TokenKind::DirectiveOpen,
            line: 3,
            column: 12
        }))
    );

    assert_eq!(
        tokenizer.next_token(),
        Ok(Some(Token {
            kind: TokenKind::Account(AccountId {
                type_: AccountType::Equity,
                name: "RetainedEarnings".to_string()
            }),
            line: 3,
            column: 17
        }))
    );

    assert_eq!(
        tokenizer.next_token(),
        Ok(Some(Token {
            kind: TokenKind::Currency("GBP".to_string()),
            line: 3,
            column: 54
        }))
    );

    assert_eq!(
        tokenizer.next_token(),
        Ok(Some(Token {
            kind: TokenKind::Newline,
            line: 3,
            column: 69,
        })),
    );

    assert_eq!(
        tokenizer.next_token(),
        Ok(Some(Token {
            kind: TokenKind::Newline,
            line: 4,
            column: 1
        })),
    );

    assert_eq!(
        tokenizer.next_token(),
        Ok(Some(Token {
            kind: TokenKind::Newline,
            line: 5,
            column: 40
        })),
    );

    assert_eq!(
        tokenizer.next_token(),
        Ok(Some(Token {
            kind: TokenKind::Newline,
            line: 6,
            column: 19
        })),
    );

    assert_eq!(
        tokenizer.next_token(),
        Ok(Some(Token {
            kind: TokenKind::Newline,
            line: 7,
            column: 1
        })),
    );

    assert_eq!(
        tokenizer.next_token(),
        Ok(Some(Token {
            kind: TokenKind::Date("2023-02-03".to_string()),
            line: 8,
            column: 1
        }))
    );

    assert_eq!(
        tokenizer.next_token(),
        Ok(Some(Token {
            kind: TokenKind::DirectivePostTx,
            line: 8,
            column: 12
        }))
    );

    assert_eq!(
        tokenizer.next_token(),
        Ok(Some(Token {
            kind: TokenKind::TxDescription,
            line: 8,
            column: 14
        }))
    );

    assert_eq!(
        tokenizer.next_token(),
        Ok(Some(Token {
            kind: TokenKind::Newline,
            line: 8,
            column: 39
        })),
    );

    assert_eq!(
        tokenizer.next_token(),
        Ok(Some(Token {
            kind: TokenKind::Account(AccountId {
                type_: AccountType::Asset,
                name: "AnAsset".to_string()
            }),
            line: 9,
            column: 3
        }))
    );

    assert_eq!(
        tokenizer.next_token(),
        Ok(Some(Token {
            kind: TokenKind::Amount(Amount {
                currency: "USD".to_string(),
                amount: dec(12, 0)
            }),
            line: 9,
            column: 52
        }))
    );

    assert_eq!(
        tokenizer.next_token(),
        Ok(Some(Token {
            kind: TokenKind::At,
            line: 9,
            column: 59
        }))
    );

    assert_eq!(
        tokenizer.next_token(),
        Ok(Some(Token {
            kind: TokenKind::Amount(Amount {
                currency: "GBP".to_string(),
                amount: dec(82, 2)
            }),
            line: 9,
            column: 61
        }))
    );

    assert_eq!(
        tokenizer.next_token(),
        Ok(Some(Token {
            kind: TokenKind::Newline,
            line: 9,
            column: 69
        }))
    );

    assert_eq!(
        tokenizer.next_token(),
        Ok(Some(Token {
            kind: TokenKind::Account(AccountId {
                type_: AccountType::Income,
                name: "SomeIncome".to_string()
            }),
            line: 10,
            column: 3
        }))
    );

    assert_eq!(
        tokenizer.next_token(),
        Ok(Some(Token {
            kind: TokenKind::Amount(Amount {
                currency: "GBP".to_string(),
                amount: dec(-900084, 2)
            }),
            line: 10,
            column: 57
        }))
    );

    assert!(tokenizer
        .next_token()
        .expect("cursor is at the end of file so it should return with no error")
        .is_none());
}

#[test]
fn tokenizer_ensure_error_when_decimal_too_many_digits() {
    let mut tokenizer = Tokenizer::new("79228162514264337593543950336GBP".to_string());

    assert_eq!(
        tokenizer.next_token().unwrap_err(),
        TokenizeError {
            msg: "decimal has too many digits".to_string(),
            line: 1,
            column: 1,
        }
    )
}

#[test]
fn tokenizer_ensure_followed_by_whitespace() {
    // Ensures that tokens are followed by whitespace.
    let mut tokenizer = Tokenizer::new("792281USDopen".to_string());
    assert_eq!(
        tokenizer.next_token().unwrap_err(),
        TokenizeError {
            msg: "unexpected character sequence".to_string(),
            line: 1,
            column: 1,
        }
    );

    let mut tokenizer = Tokenizer::new("2023-02-01open".to_string());
    assert_eq!(
        tokenizer.next_token().unwrap_err(),
        TokenizeError {
            msg: "unexpected character sequence".to_string(),
            line: 1,
            column: 1,
        }
    );

    let mut tokenizer = Tokenizer::new("openX".to_string());
    assert_eq!(
        tokenizer.next_token().unwrap_err(),
        TokenizeError {
            msg: "unexpected character sequence".to_string(),
            line: 1,
            column: 1,
        }
    );

    let mut tokenizer = Tokenizer::new(r#"option "operating_currency" "GBP"X"#.to_string());
    assert_eq!(
        tokenizer.next_token().unwrap_err(),
        TokenizeError {
            msg: "unexpected character sequence".to_string(),
            line: 1,
            column: 1,
        }
    );

    let mut tokenizer = Tokenizer::new("@X".to_string());
    assert_eq!(
        tokenizer.next_token().unwrap_err(),
        TokenizeError {
            msg: "unexpected character sequence".to_string(),
            line: 1,
            column: 1,
        }
    );
}

#[test]
fn tokenizer_account_name_capitalized() {
    let mut tokenizer = Tokenizer::new(r#"Assets:nOtCapitalized"#.to_string());
    assert_eq!(
        tokenizer.next_token().unwrap_err(),
        TokenizeError {
            msg: "unexpected character sequence".to_string(),
            line: 1,
            column: 1,
        }
    );
}

#[test]
fn ensure_error_msg_position() {
    // here we ensure that the line and column are correct on a slightly trickier buffer
    let mut tokenizer = Tokenizer::new("1.2345GBP \n @123sdsabcd".to_string());
    tokenizer
        .next_token()
        .expect("the 1.2345GBP should parse ok");

    tokenizer
        .next_token()
        .expect("the newline and whitespace should parse ok");

    assert_eq!(
        tokenizer.next_token().unwrap_err(),
        TokenizeError {
            msg: "unexpected character sequence".to_string(),
            line: 2,
            column: 2,
        }
    )
}

#[test]
fn tokenizer_test_cursor_position() {
    let mut tokenizer = Tokenizer::new("".to_string());
    tokenizer.set_cursor(0);
    assert_eq!(tokenizer.current_line_column(), (1, 1));

    let mut tokenizer = Tokenizer::new("hello".to_string());
    tokenizer.set_cursor(0);
    assert_eq!(tokenizer.current_line_column(), (1, 1));

    let mut tokenizer = Tokenizer::new("hello\n\n".to_string());
    tokenizer.set_cursor(7);
    assert_eq!(tokenizer.current_line_column(), (3, 1));

    let mut tokenizer = Tokenizer::new("hello\n\n".to_string());
    tokenizer.set_cursor(6);
    assert_eq!(tokenizer.current_line_column(), (2, 1));

    let mut tokenizer = Tokenizer::new("hello\nworld".to_string());
    tokenizer.set_cursor(7);
    assert_eq!(tokenizer.current_line_column(), (2, 2));
}

#[test]
fn mod_test_cursor_position() {
    let mut tokenizer = Tokenizer::new("".to_string());
    tokenizer.set_cursor(0);
    assert_eq!(tokenizer.current_line_column(), (1, 1));

    let mut tokenizer = Tokenizer::new("hello".to_string());
    tokenizer.set_cursor(0);
    assert_eq!(tokenizer.current_line_column(), (1, 1));

    let mut tokenizer = Tokenizer::new("hello\n\n".to_string());
    tokenizer.set_cursor(7);
    assert_eq!(tokenizer.current_line_column(), (3, 1));

    let mut tokenizer = Tokenizer::new("hello\n\n".to_string());
    tokenizer.set_cursor(6);
    assert_eq!(tokenizer.current_line_column(), (2, 1));

    let mut tokenizer = Tokenizer::new("hello\nworld".to_string());
    tokenizer.set_cursor(7);
    assert_eq!(tokenizer.current_line_column(), (2, 2));
}

#[test]
fn relexing_the_same_buffer_is_deterministic() {
    let raw = r#"option "operating_currency" "GBP"
2023-02-01 open Equity:RetainedEarnings GBP
2023-02-03 * "desc"
  Equity:RetainedEarnings 1,234.56 GBP
"#;
    let first = collect_tokens(&mut Tokenizer::new(raw.to_string()));
    let second = collect_tokens(&mut Tokenizer::new(raw.to_string()));
    assert_eq!(first, second);
    assert!(first.is_ok());
}

#[test]
fn thousands_separators_are_removed() {
    let mut tokenizer = Tokenizer::new("1,234.56 GBP".to_string());
    assert_eq!(
        tokenizer.next_token(),
        Ok(Some(Token {
            kind: TokenKind::Amount(Amount {
                currency: "GBP".to_string(),
                amount: dec(123456, 2)
            }),
            line: 1,
            column: 1
        }))
    );

    // A misplaced separator is not an amount at all.
    let mut tokenizer = Tokenizer::new("12,34 GBP".to_string());
    assert_eq!(
        tokenizer.next_token(),
        Err(TokenizeError {
            msg: "unexpected character sequence".to_string(),
            line: 1,
            column: 1,
        })
    );
}

#[test]
fn carriage_return_newlines_lex() {
    let mut tokenizer = Tokenizer::new("open\r\nopen".to_string());
    assert_eq!(
        tokenizer.next_token(),
        Ok(Some(Token {
            kind: TokenKind::DirectiveOpen,
            line: 1,
            column: 1
        }))
    );
    assert_eq!(
        tokenizer.next_token(),
        Ok(Some(Token {
            kind: TokenKind::Newline,
            line: 1,
            column: 4
        }))
    );
    assert_eq!(
        tokenizer.next_token(),
        Ok(Some(Token {
            kind: TokenKind::DirectiveOpen,
            line: 2,
            column: 1
        }))
    );
    assert_eq!(tokenizer.next_token(), Ok(None));
}
