use recount::accounts_doc::{
    Account, AccountsDocument, AddTransactionError, ConversionPosting, OpenAccountError, Posting,
    RegularPosting,
};
use recount::calendar::Date;
use recount::dec::Dec;
use recount::types::{AccountFromStrError, AccountId, AccountType, Amount};

fn date(year: u32, month: u32, day: u32) -> Date {
    Date::new(year, month, day).expect("hard coded date is valid")
}

fn dec(mantissa: i128, scale: u32) -> Dec {
    Dec::new(mantissa, scale).expect("hard coded decimal is representable")
}

fn income(name: &str) -> AccountId {
    AccountId { name: name.to_string(), type_: AccountType::Income }
}

/// A document with four income accounts and one transaction: 100 GBP to
/// AccountA, -50 USD (at rate 1 into GBP) to AccountB, and an auto posting
/// to AccountD absorbing the 50 GBP imbalance.
fn accounts_doc() -> AccountsDocument {
    let mut doc = AccountsDocument::new();
    for (name, currency) in [
        ("AccountA", "GBP"),
        ("AccountB", "USD"),
        ("AccountC", "GBP"),
        ("AccountD", "GBP"),
    ] {
        doc.open_an_account(Account {
            id: income(name),
            currency: currency.to_string(),
            opening_date: date(2012, 4, 12),
        })
        .expect("fresh account ids cannot collide");
    }
    doc.add_transaction(
        date(2012, 4, 21),
        "transaction 1",
        vec![
            Posting::Regular(RegularPosting {
                account_id: income("AccountA"),
                amount: dec(100, 0),
                currency: "GBP".to_string(),
            }),
            Posting::Conversion(ConversionPosting {
                account_id: income("AccountB"),
                account_amount: dec(-50, 0),
                account_currency: "USD".to_string(),
                rate: dec(1, 0),
                tx_currency: "GBP".to_string(),
            }),
            Posting::Auto(income("AccountD")),
        ],
    )
    .expect("the transaction is valid");
    doc
}

#[test]
fn balance_works() {
    let accounts = accounts_doc();
    let sum = accounts.balance(&AccountId {
        name: "AccountA".to_string(),
        type_: AccountType::Income,
    });

    assert_eq!(sum, Some(dec(100, 0)));
}

#[test]
fn balances_works() {
    let accounts = accounts_doc();
    let mut balances = accounts.balances();

    assert_eq!(
        balances.next(),
        Some((
            AccountId {
                name: "AccountA".to_string(),
                type_: AccountType::Income,
            },
            Amount {
                amount: dec(100, 0),
                currency: "GBP".to_string(),
            }
        ))
    );

    assert_eq!(
        balances.next(),
        Some((
            AccountId {
                name: "AccountB".to_string(),
                type_: AccountType::Income,
            },
            Amount {
                amount: dec(-50, 0),
                currency: "USD".to_string(),
            }
        ))
    );

    assert_eq!(
        balances.next(),
        Some((
            AccountId {
                name: "AccountC".to_string(),
                type_: AccountType::Income,
            },
            Amount {
                amount: dec(0, 0),
                currency: "GBP".to_string(),
            }
        ))
    );

    assert_eq!(
        balances.next(),
        Some((
            AccountId {
                name: "AccountD".to_string(),
                type_: AccountType::Income,
            },
            Amount {
                amount: dec(-50, 0),
                currency: "GBP".to_string(),
            }
        ))
    );

    assert_eq!(balances.next(), None);
}

#[test]
fn open_an_account_works() {
    accounts_doc()
        .open_an_account(Account {
            id: AccountId {
                name: "AccountA".to_string(),
                type_: AccountType::Asset,
            },
            currency: "GBP".to_string(),
            opening_date: date(2012, 1, 4),
        })
        .expect("there is no acount with the same AccountId so this won't fail");

    let err = accounts_doc()
        .open_an_account(Account {
            id: AccountId {
                name: "AccountA".to_string(),
                type_: AccountType::Income,
            },
            currency: "GBP".to_string(),
            opening_date: date(2012, 1, 4),
        })
        .unwrap_err();

    assert_eq!(err, OpenAccountError::AccountAlreadyExists)
}

#[test]
fn add_transaction_works() {
    // Two happy paths: a balanced regular+conversion pair, and the same with
    // an auto posting absorbing the imbalance. Then one test per error
    // variant of the validation pass.

    accounts_doc()
        .add_transaction(
            date(2012, 5, 13),
            "Another Tx",
            vec![
                Posting::Regular(RegularPosting {
                    account_id: income("AccountA"),
                    amount: dec(100, 0),
                    currency: "GBP".to_string(),
                }),
                Posting::Conversion(ConversionPosting {
                    account_id: income("AccountB"),
                    account_amount: dec(-100, 0),
                    account_currency: "USD".to_string(),
                    tx_currency: "GBP".to_string(),
                    rate: dec(1, 0),
                }),
            ],
        )
        .expect("won't return an error");

    let mut doc = accounts_doc();
    doc.add_transaction(
        date(2012, 5, 13),
        "Another Tx",
        vec![
            Posting::Regular(RegularPosting {
                account_id: income("AccountA"),
                amount: dec(100, 0),
                currency: "GBP".to_string(),
            }),
            Posting::Conversion(ConversionPosting {
                account_id: income("AccountB"),
                account_amount: dec(-50, 0),
                account_currency: "USD".to_string(),
                tx_currency: "GBP".to_string(),
                rate: dec(1, 0),
            }),
            Posting::Auto(income("AccountD")),
        ],
    )
    .expect("won't return an error");
    assert_eq!(
        doc.balance(&income("AccountD")),
        Some(dec(-100, 0)) // -100 because the balance was -50 before we added this tx
    );

    let err = accounts_doc()
        .add_transaction(
            date(2012, 5, 13),
            "Another Tx",
            vec![
                Posting::Regular(RegularPosting {
                    account_id: income("AccountA"),
                    amount: dec(100, 0),
                    currency: "GBP".to_string(),
                }),
                Posting::Conversion(ConversionPosting {
                    account_id: AccountId {
                        name: "AccountB".to_string(),
                        type_: AccountType::Asset, // There is no account named "AccountB" with
                                                   // type Asset (there is an "AccountB" with type Income).
                    },
                    account_amount: dec(-100, 0),
                    account_currency: "USD".to_string(),
                    tx_currency: "GBP".to_string(),
                    rate: dec(1, 0),
                }),
            ],
        )
        .unwrap_err();
    assert_eq!(err, AddTransactionError::AccountNotFound);

    let err = accounts_doc()
        .add_transaction(
            date(2012, 4, 11), // this is before the accounts were opened
            "Another Tx",
            vec![
                Posting::Regular(RegularPosting {
                    account_id: income("AccountA"),
                    amount: dec(100, 0),
                    currency: "GBP".to_string(),
                }),
                Posting::Conversion(ConversionPosting {
                    account_id: income("AccountB"),
                    account_amount: dec(-100, 0),
                    account_currency: "USD".to_string(),
                    tx_currency: "GBP".to_string(),
                    rate: dec(1, 0),
                }),
            ],
        )
        .unwrap_err();
    assert_eq!(err, AddTransactionError::AccountNotOpen);

    let err = accounts_doc()
        .add_transaction(
            date(2012, 5, 13),
            "Another Tx",
            vec![
                Posting::Regular(RegularPosting {
                    account_id: income("AccountA"),
                    amount: dec(100, 0),
                    currency: "GBP".to_string(),
                }),
                Posting::Conversion(ConversionPosting {
                    account_id: income("AccountB"),
                    account_amount: dec(-100, 0),
                    account_currency: "USD".to_string(),
                    tx_currency: "EUR".to_string(),
                    rate: dec(1, 0),
                }),
            ],
        )
        .unwrap_err();
    assert_eq!(err, AddTransactionError::IncorrectTransactionCurrency);

    let err = accounts_doc()
        .add_transaction(
            date(2012, 5, 13),
            "Another Tx",
            vec![
                Posting::Regular(RegularPosting {
                    account_id: income("AccountA"),
                    amount: dec(100, 0),
                    currency: "GBP".to_string(),
                }),
                Posting::Regular(RegularPosting {
                    account_id: income("AccountB"),
                    amount: dec(-100, 0),
                    currency: "GBP".to_string(), // this doesn't match the account currency
                }),
            ],
        )
        .unwrap_err();
    assert_eq!(err, AddTransactionError::IncorrectAccountCurrency);

    let err = accounts_doc()
        .add_transaction(
            date(2012, 5, 13),
            "Another Tx",
            vec![
                Posting::Regular(RegularPosting {
                    account_id: income("AccountA"),
                    amount: dec(100, 0),
                    currency: "GBP".to_string(),
                }),
                Posting::Conversion(ConversionPosting {
                    account_id: income("AccountB"),
                    account_amount: dec(-100, 0),
                    account_currency: "USD".to_string(),
                    tx_currency: "GBP".to_string(),
                    rate: dec(11, 1),
                }),
            ],
        )
        .unwrap_err();
    assert_eq!(err, AddTransactionError::NotBalanced);

    let err = accounts_doc()
        .add_transaction(
            date(2012, 5, 13),
            "Another Tx",
            vec![
                Posting::Regular(RegularPosting {
                    account_id: income("AccountA"),
                    amount: dec(100, 0),
                    currency: "GBP".to_string(),
                }),
                Posting::Auto(income("AccountC")),
                Posting::Auto(income("AccountD")),
            ],
        )
        .unwrap_err();
    assert_eq!(err, AddTransactionError::MoreThanOneAutoPosting);
}

#[test]
fn auto_posting_incorrect_currency() {
    // An auto-posting account must have the same currency as the transaction currency

    let err = accounts_doc()
        .add_transaction(
            date(2012, 5, 13),
            "Another Tx",
            vec![
                Posting::Regular(RegularPosting {
                    account_id: income("AccountA"),
                    amount: dec(100, 0),
                    currency: "GBP".to_string(),
                }),
                Posting::Auto(income("AccountB")),
            ],
        )
        .unwrap_err();
    assert_eq!(err, AddTransactionError::IncorrectTransactionCurrency);
}

#[test]
fn amount_overflow_is_rejected() {
    // Exact arithmetic refuses a conversion product that cannot be
    // represented within the decimal bounds, instead of rounding it.
    let err = accounts_doc()
        .add_transaction(
            date(2012, 5, 13),
            "Another Tx",
            vec![Posting::Conversion(ConversionPosting {
                account_id: income("AccountB"),
                account_amount: dec(79228162514264337593543950335, 0),
                account_currency: "USD".to_string(),
                tx_currency: "GBP".to_string(),
                rate: dec(3, 0),
            })],
        )
        .unwrap_err();
    assert_eq!(err, AddTransactionError::AmountOverflow);
}

#[test]
fn conversion_scenario_balances() {
    // A regular 100 GBP posting plus a -100 USD posting converted at rate 1
    // into GBP succeeds; each account's balance is in its own currency.
    let mut doc = AccountsDocument::new();
    doc.open_an_account(Account {
        id: income("AccountA"),
        currency: "GBP".to_string(),
        opening_date: date(2012, 1, 1),
    })
    .unwrap();
    doc.open_an_account(Account {
        id: income("AccountB"),
        currency: "USD".to_string(),
        opening_date: date(2012, 1, 1),
    })
    .unwrap();
    doc.add_transaction(
        date(2012, 5, 13),
        "conversion",
        vec![
            Posting::Regular(RegularPosting {
                account_id: income("AccountA"),
                amount: dec(100, 0),
                currency: "GBP".to_string(),
            }),
            Posting::Conversion(ConversionPosting {
                account_id: income("AccountB"),
                account_amount: dec(-100, 0),
                account_currency: "USD".to_string(),
                rate: dec(1, 0),
                tx_currency: "GBP".to_string(),
            }),
        ],
    )
    .unwrap();
    assert_eq!(doc.balance(&income("AccountA")), Some(dec(100, 0)));
    assert_eq!(doc.balance(&income("AccountB")), Some(dec(-100, 0)));
    assert_eq!(doc.balance(&income("Nobody")), None);
}

#[test]
fn account_type_labels_parse() {
    assert_eq!(AccountType::from_label("Assets"), Ok(AccountType::Asset));
    assert_eq!(AccountType::from_label("Liabilities"), Ok(AccountType::Liability));
    assert_eq!(AccountType::from_label("Equity"), Ok(AccountType::Equity));
    assert_eq!(AccountType::from_label("Income"), Ok(AccountType::Income));
    assert_eq!(AccountType::from_label("Expenses"), Ok(AccountType::Expense));
    let err = AccountType::from_label("Banana").unwrap_err();
    assert_eq!(err, AccountFromStrError("Banana".to_string()));
    assert_eq!(err.message(), "unrecognized account type Banana");
    assert_eq!("Income".parse::<AccountType>(), Ok(AccountType::Income));
}
