//! An in-memory, balance-queryable double-entry ledger built from a plain-text,
//! line-oriented accounting document.
//!
//! The pipeline has three stages: a position-tracking lexer ([`tokenizer`]),
//! a recursive-descent parser ([`parser`]), and an invariant-enforcing store
//! ([`accounts_doc`]). Amounts are exact fixed-point decimals ([`dec`]) and
//! dates are plain calendar dates ([`calendar`]).

pub mod accounts_doc;
pub mod calendar;
pub mod dec;
pub mod parser;
pub mod tokenizer;
pub mod types;
