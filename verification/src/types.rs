//! Shared value types: account kinds, account identity, and amounts.

use vstd::prelude::*;

use crate::dec::Dec;

verus! {

/// The closed set of account kinds.
#[derive(Clone, Copy, PartialEq, Eq, Structural, Debug)]
pub enum AccountType {
    Equity,
    Liability,
    Asset,
    Income,
    Expense,
}

/// Account identifier: a name together with a kind. Two identifiers are the
/// same account exactly when both fields match.
#[derive(Debug)]
pub struct AccountId {
    pub name: String,
    pub type_: AccountType,
}

/// Specification-level account identity.
pub struct AccountIdV {
    pub name: Seq<char>,
    pub type_: AccountType,
}

impl View for AccountId {
    type V = AccountIdV;

    open spec fn view(&self) -> AccountIdV {
        AccountIdV { name: self.name@, type_: self.type_ }
    }
}

impl Clone for AccountId {
    fn clone(&self) -> (r: Self)
        ensures
            r@ == self@,
    {
        AccountId { name: self.name.clone(), type_: self.type_ }
    }
}

impl PartialEq for AccountId {
    fn eq(&self, other: &Self) -> (r: bool) {
        self.name == other.name && self.type_ == other.type_
    }
}

impl vstd::std_specs::cmp::PartialEqSpecImpl for AccountId {
    open spec fn obeys_eq_spec() -> bool {
        true
    }

    open spec fn eq_spec(&self, other: &Self) -> bool {
        self@ == other@
    }
}

/// An amount of money: a decimal quantity of one currency.
#[derive(Debug)]
pub struct Amount {
    pub currency: String,
    pub amount: Dec,
}

/// Specification-level amount.
pub struct AmountV {
    pub currency: Seq<char>,
    pub amount: Dec,
}

impl View for Amount {
    type V = AmountV;

    open spec fn view(&self) -> AmountV {
        AmountV { currency: self.currency@, amount: self.amount }
    }
}

impl Clone for Amount {
    fn clone(&self) -> (r: Self)
        ensures
            r@ == self@,
    {
        Amount { currency: self.currency.clone(), amount: self.amount }
    }
}

impl PartialEq for Amount {
    fn eq(&self, other: &Self) -> (r: bool) {
        self.currency == other.currency && self.amount == other.amount
    }
}

impl vstd::std_specs::cmp::PartialEqSpecImpl for Amount {
    open spec fn obeys_eq_spec() -> bool {
        true
    }

    open spec fn eq_spec(&self, other: &Self) -> bool {
        self@ == other@
    }
}

/// The error returned when a label names no account kind. Carries the label.
#[derive(Debug)]
pub struct AccountFromStrError(pub String);

impl PartialEq for AccountFromStrError {
    fn eq(&self, other: &Self) -> (r: bool) {
        self.0 == other.0
    }
}

impl vstd::std_specs::cmp::PartialEqSpecImpl for AccountFromStrError {
    open spec fn obeys_eq_spec() -> bool {
        true
    }

    open spec fn eq_spec(&self, other: &Self) -> bool {
        self.0@ == other.0@
    }
}

impl AccountFromStrError {
    /// A human-readable description of the error.
    pub fn message(&self) -> (r: String)
        ensures
            r@ == "unrecognized account type "@ + self.0@,
    {
        let mut msg = String::from_str("unrecognized account type ");
        msg.append(self.0.as_str());
        msg
    }
}

/// Whether two string slices hold the same characters.
pub fn str_eq(a: &str, b: &str) -> (r: bool)
    ensures
        r == (a@ == b@),
{
    let an = a.unicode_len();
    let bn = b.unicode_len();
    if an != bn {
        return false;
    }
    let mut i: usize = 0;
    while i < an
        invariant
            a@.len() == an,
            b@.len() == bn,
            an == bn,
            i <= an,
            forall|j: int| 0 <= j < i ==> a@[j] == b@[j],
        decreases an - i,
    {
        if a.get_char(i) != b.get_char(i) {
            return false;
        }
        i = i + 1;
    }
    proof {
        assert(a@ =~= b@);
    }
    true
}

/// The account kind named by a label, if any. The five recognized labels are
/// the plural forms used in the text format.
pub open spec fn spec_account_type_of_label(s: Seq<char>) -> Option<AccountType> {
    if s == "Equity"@ {
        Some(AccountType::Equity)
    } else if s == "Liabilities"@ {
        Some(AccountType::Liability)
    } else if s == "Assets"@ {
        Some(AccountType::Asset)
    } else if s == "Income"@ {
        Some(AccountType::Income)
    } else if s == "Expenses"@ {
        Some(AccountType::Expense)
    } else {
        None
    }
}

impl AccountType {
    /// Parses one of the five fixed labels; any other label is an error
    /// carrying the offending text.
    pub fn from_label(s: &str) -> (r: Result<AccountType, AccountFromStrError>)
        ensures
            match r {
                Ok(t) => spec_account_type_of_label(s@) == Some(t),
                Err(e) => spec_account_type_of_label(s@) is None && e.0@ == s@,
            },
    {
        if str_eq(s, "Equity") {
            Ok(AccountType::Equity)
        } else if str_eq(s, "Liabilities") {
            Ok(AccountType::Liability)
        } else if str_eq(s, "Assets") {
            Ok(AccountType::Asset)
        } else if str_eq(s, "Income") {
            Ok(AccountType::Income)
        } else if str_eq(s, "Expenses") {
            Ok(AccountType::Expense)
        } else {
            Err(AccountFromStrError(String::from_str(s)))
        }
    }
}

impl core::str::FromStr for AccountType {
    type Err = AccountFromStrError;

    fn from_str(s: &str) -> Result<Self, AccountFromStrError> {
        AccountType::from_label(s)
    }
}

} // verus!
