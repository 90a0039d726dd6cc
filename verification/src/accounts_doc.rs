//! The ledger store: accounts, transactions, and the validation rules that
//! every accepted transaction satisfies.
//!
//! An [`AccountsDocument`] owns an ordered list of accounts and an ordered
//! list of transactions. Accounts are opened through
//! [`AccountsDocument::open_an_account`] (unique identity enforced) and
//! transactions through [`AccountsDocument::add_transaction`], which checks
//! all invariants in one pass and mutates nothing on failure.

use vstd::prelude::*;

use crate::calendar::{spec_date_lt, Date};
use crate::dec::{
    dec_value, dec_wf, dec_zero, iabs, mantissa_of, pow10, spec_dec_add, spec_dec_mul,
    spec_dec_neg, Dec,
};
use crate::types::{AccountId, AccountIdV, Amount};

verus! {

/// An account: identity, currency, and the date it was opened.
#[derive(Debug)]
pub struct Account {
    pub id: AccountId,
    pub currency: String,
    pub opening_date: Date,
}

/// Specification-level account.
pub struct AccountV {
    pub id: AccountIdV,
    pub currency: Seq<char>,
    pub opening_date: Date,
}

impl View for Account {
    type V = AccountV;

    open spec fn view(&self) -> AccountV {
        AccountV { id: self.id@, currency: self.currency@, opening_date: self.opening_date }
    }
}

impl Clone for Account {
    fn clone(&self) -> (r: Self)
        ensures
            r@ == self@,
    {
        Account {
            id: self.id.clone(),
            currency: self.currency.clone(),
            opening_date: self.opening_date,
        }
    }
}

impl PartialEq for Account {
    fn eq(&self, other: &Self) -> (r: bool) {
        self.id == other.id && self.currency == other.currency && self.opening_date
            == other.opening_date
    }
}

impl vstd::std_specs::cmp::PartialEqSpecImpl for Account {
    open spec fn obeys_eq_spec() -> bool {
        true
    }

    open spec fn eq_spec(&self, other: &Self) -> bool {
        self@ == other@
    }
}

/// A posting whose amount is stated in the transaction currency, which must
/// also be the account's currency.
#[derive(Debug)]
pub struct RegularPosting {
    pub account_id: AccountId,
    pub amount: Dec,
    pub currency: String,
}

/// A posting stated in the account's own currency together with a rate that
/// converts it into the transaction currency: it contributes
/// `account_amount * rate` to the transaction total.
#[derive(Debug)]
pub struct ConversionPosting {
    pub account_id: AccountId,
    pub account_amount: Dec,
    pub account_currency: String,
    pub rate: Dec,
    pub tx_currency: String,
}

/// The three posting shapes. An [`Posting::Auto`] posting states no amount;
/// it absorbs whatever balances the transaction.
#[derive(Debug)]
pub enum Posting {
    Auto(AccountId),
    Regular(RegularPosting),
    Conversion(ConversionPosting),
}

/// Specification-level regular posting.
pub struct RegularPostingV {
    pub account_id: AccountIdV,
    pub amount: Dec,
    pub currency: Seq<char>,
}

/// Specification-level conversion posting.
pub struct ConversionPostingV {
    pub account_id: AccountIdV,
    pub account_amount: Dec,
    pub account_currency: Seq<char>,
    pub rate: Dec,
    pub tx_currency: Seq<char>,
}

/// Specification-level posting.
pub enum PostingV {
    Auto(AccountIdV),
    Regular(RegularPostingV),
    Conversion(ConversionPostingV),
}

impl View for Posting {
    type V = PostingV;

    open spec fn view(&self) -> PostingV {
        match self {
            Posting::Auto(id) => PostingV::Auto(id@),
            Posting::Regular(p) => PostingV::Regular(
                RegularPostingV { account_id: p.account_id@, amount: p.amount, currency: p.currency@ },
            ),
            Posting::Conversion(p) => PostingV::Conversion(
                ConversionPostingV {
                    account_id: p.account_id@,
                    account_amount: p.account_amount,
                    account_currency: p.account_currency@,
                    rate: p.rate,
                    tx_currency: p.tx_currency@,
                },
            ),
        }
    }
}

/// The views of a sequence of postings.
pub open spec fn postings_view(ps: Seq<Posting>) -> Seq<PostingV> {
    ps.map_values(|p: Posting| p@)
}

/// The account a posting refers to.
pub open spec fn spec_posting_id(p: PostingV) -> AccountIdV {
    match p {
        PostingV::Auto(id) => id,
        PostingV::Regular(r) => r.account_id,
        PostingV::Conversion(c) => c.account_id,
    }
}

/// The decimals inside a posting are well-formed.
pub open spec fn posting_wf(p: PostingV) -> bool {
    match p {
        PostingV::Auto(_) => true,
        PostingV::Regular(r) => dec_wf(r.amount),
        PostingV::Conversion(c) => dec_wf(c.account_amount) && dec_wf(c.rate),
    }
}

/// The exact transaction-currency value a posting contributes, in units of
/// `10^-56`: a regular posting contributes its amount, a conversion posting
/// contributes `account_amount * rate`, and an auto posting contributes
/// nothing (its amount is implied, not stated).
pub open spec fn tx_value_of_posting(p: PostingV) -> int {
    match p {
        PostingV::Auto(_) => 0,
        PostingV::Regular(r) => dec_value(r.amount),
        PostingV::Conversion(c) => mantissa_of(c.account_amount) * mantissa_of(c.rate) * pow10(
            (56 - c.account_amount.scale - c.rate.scale) as nat,
        ),
    }
}

/// The signed sum of stated transaction-currency values of `ps[j..]`.
pub open spec fn sum_tx_values_from(ps: Seq<PostingV>, j: int) -> int
    decreases ps.len() - j,
{
    if j < 0 || j >= ps.len() {
        0
    } else {
        tx_value_of_posting(ps[j]) + sum_tx_values_from(ps, j + 1)
    }
}

/// The number of auto postings in `ps[j..]`.
pub open spec fn count_autos_from(ps: Seq<PostingV>, j: int) -> int
    decreases ps.len() - j,
{
    if j < 0 || j >= ps.len() {
        0
    } else {
        (if ps[j] is Auto {
            1int
        } else {
            0int
        }) + count_autos_from(ps, j + 1)
    }
}

impl Posting {
    /// The identity of the account this posting refers to.
    pub fn account_id(&self) -> (r: &AccountId)
        ensures
            r@ == spec_posting_id(self@),
    {
        match self {
            Posting::Auto(id) => id,
            Posting::Regular(posting) => &posting.account_id,
            Posting::Conversion(posting) => &posting.account_id,
        }
    }

    /// The stated account-currency amount, or `None` for an auto posting.
    pub fn account_amount(&self) -> (r: Option<Dec>)
        ensures
            r == spec_account_amount(self@),
    {
        match self {
            Posting::Auto(_) => None,
            Posting::Regular(posting) => Some(posting.amount),
            Posting::Conversion(posting) => Some(posting.account_amount),
        }
    }
}

/// The stated account-currency amount of a posting, if any.
pub open spec fn spec_account_amount(p: PostingV) -> Option<Dec> {
    match p {
        PostingV::Auto(_) => None,
        PostingV::Regular(r) => Some(r.amount),
        PostingV::Conversion(c) => Some(c.account_amount),
    }
}

/// The tolerance within which a transaction without an auto posting must
/// balance: 0.005 in the transaction's currency.
pub open spec fn spec_tolerance() -> Dec {
    Dec { negative: false, magnitude: 5, scale: 3 }
}

/// A transaction: a dated, described, ordered list of postings, together
/// with the signed total of the stated transaction-currency amounts at the
/// moment it was accepted (`balance`). Instances exist only through
/// [`AccountsDocument::add_transaction`], which guarantees:
///
/// 1. all regular postings share one currency (the transaction currency);
/// 2. all conversion postings convert into that same currency;
/// 3. there is at most one auto posting;
/// 4. every posting's account is open on or before the transaction date,
///    with the matching currency;
/// 5. without an auto posting, the total balances to zero within the
///    tolerance; with one, the auto posting absorbs the total.
#[derive(Debug)]
pub struct Transaction {
    date: Date,
    description: String,
    balance: Dec,
    postings: Vec<Posting>,
}

/// Specification-level transaction.
pub struct TransactionV {
    pub date: Date,
    pub description: Seq<char>,
    pub balance: Dec,
    pub postings: Seq<PostingV>,
}

impl View for Transaction {
    type V = TransactionV;

    closed spec fn view(&self) -> TransactionV {
        TransactionV {
            date: self.date,
            description: self.description@,
            balance: self.balance,
            postings: postings_view(self.postings@),
        }
    }
}

/// The invariant every stored transaction satisfies.
pub open spec fn tx_wf(tx: TransactionV) -> bool {
    &&& forall|i: int| 0 <= i < tx.postings.len() ==> posting_wf(#[trigger] tx.postings[i])
    &&& dec_wf(tx.balance)
    &&& dec_value(tx.balance) == sum_tx_values_from(tx.postings, 0)
    &&& count_autos_from(tx.postings, 0) <= 1
    &&& count_autos_from(tx.postings, 0) == 0 ==> iabs(dec_value(tx.balance)) <= iabs(
        dec_value(spec_tolerance()),
    )
}

/// The exact account-currency value (units of `10^-56`) a posting
/// contributes to the balance of `id`: nothing unless it posts to `id`; its
/// stated amount for a regular or conversion posting; and the negation of
/// the transaction's recorded imbalance for an auto posting.
pub open spec fn contribution_units(p: PostingV, id: AccountIdV, tx_balance: Dec) -> int {
    if spec_posting_id(p) == id {
        match p {
            PostingV::Auto(_) => -dec_value(tx_balance),
            PostingV::Regular(r) => dec_value(r.amount),
            PostingV::Conversion(c) => dec_value(c.account_amount),
        }
    } else {
        0
    }
}

/// The summed contributions of `ps[j..]` to the balance of `id`.
pub open spec fn tx_units_from(ps: Seq<PostingV>, id: AccountIdV, tx_balance: Dec, j: int) -> int
    decreases ps.len() - j,
{
    if j < 0 || j >= ps.len() {
        0
    } else {
        contribution_units(ps[j], id, tx_balance) + tx_units_from(ps, id, tx_balance, j + 1)
    }
}

/// Whether some posting in `ps` posts to `id`.
pub open spec fn spec_has_posting_for(ps: Seq<PostingV>, id: AccountIdV) -> bool {
    exists|i: int| 0 <= i < ps.len() && spec_posting_id(#[trigger] ps[i]) == id
}

/// The exact decimal fold of the contributions of `ps[j..]` to `id`, started
/// from `acc`; `None` when a partial sum cannot be represented.
pub open spec fn spec_tx_fold(
    ps: Seq<PostingV>,
    id: AccountIdV,
    tx_balance: Dec,
    j: int,
    acc: Dec,
) -> Option<Dec>
    decreases ps.len() - j,
{
    if j < 0 || j >= ps.len() {
        Some(acc)
    } else if spec_posting_id(ps[j]) == id {
        let amount = match ps[j] {
            PostingV::Auto(_) => spec_dec_neg(tx_balance),
            PostingV::Regular(r) => r.amount,
            PostingV::Conversion(c) => c.account_amount,
        };
        match spec_dec_add(acc, amount) {
            None => None,
            Some(a2) => spec_tx_fold(ps, id, tx_balance, j + 1, a2),
        }
    } else {
        spec_tx_fold(ps, id, tx_balance, j + 1, acc)
    }
}

/// The decimal a transaction's postings sum to for `id`, starting at zero.
pub open spec fn spec_tx_balance(tx: TransactionV, id: AccountIdV) -> Option<Dec> {
    spec_tx_fold(tx.postings, id, tx.balance, 0, dec_zero())
}

/// When nothing in `ps[j..]` posts to `id`, the fold keeps its accumulator
/// and the contributions sum to zero.
pub proof fn lemma_no_match_fold(ps: Seq<PostingV>, id: AccountIdV, tx_balance: Dec, j: int, acc: Dec)
    requires
        forall|i: int| j <= i < ps.len() ==> spec_posting_id(#[trigger] ps[i]) != id,
    ensures
        spec_tx_fold(ps, id, tx_balance, j, acc) == Some(acc),
        tx_units_from(ps, id, tx_balance, j) == 0,
    decreases ps.len() - j,
{
    if 0 <= j < ps.len() {
        lemma_no_match_fold(ps, id, tx_balance, j + 1, acc);
    }
}

impl Transaction {
    /// For the given account, the sum of this transaction's postings to it,
    /// in the account's own currency: `None` when no posting names the
    /// account; an auto posting counts as the amount that balances the
    /// transaction (the negated recorded imbalance).
    pub fn balance(&self, account: &AccountId) -> (r: Option<Dec>)
        requires
            tx_wf(self@),
            spec_tx_balance(self@, account@) is Some,
        ensures
            r is Some <==> spec_has_posting_for(self@.postings, account@),
            r matches Some(v) ==> {
                &&& Some(v) == spec_tx_balance(self@, account@)
                &&& dec_wf(v)
                &&& dec_value(v) == tx_units_from(self@.postings, account@, self@.balance, 0)
            },
    {
        let ghost psv = self@.postings;
        let n = self.postings.len();
        let mut acc = Dec::zero();
        let mut found = false;
        let mut j: usize = 0;
        proof {
            assert(dec_value(dec_zero()) == 0) by {
                assert(mantissa_of(dec_zero()) == 0);
                assert(0 * pow10(56) == 0) by (nonlinear_arith);
            }
        }
        while j < n
            invariant
                tx_wf(self@),
                spec_tx_balance(self@, account@) is Some,
                n == self.postings.len(),
                psv == self@.postings,
                psv.len() == n,
                j <= n,
                dec_wf(acc),
                spec_tx_fold(psv, account@, self@.balance, 0, dec_zero()) == spec_tx_fold(
                    psv,
                    account@,
                    self@.balance,
                    j as int,
                    acc,
                ),
                found <==> spec_has_posting_for(psv.take(j as int), account@),
                dec_value(acc) + tx_units_from(psv, account@, self@.balance, j as int)
                    == tx_units_from(psv, account@, self@.balance, 0),
            decreases n - j,
        {
            let posting = &self.postings[j];
            proof {
                assert(psv[j as int] == self.postings@[j as int]@);
                assert(posting_wf(psv[j as int]));
            }
            if posting.account_id() == account {
                let amount = match posting.account_amount() {
                    Some(a) => a,
                    None => {
                        proof {
                            crate::dec::lemma_neg_value(self.balance);
                        }
                        self.balance.neg()
                    },
                };
                proof {
                    assert(dec_wf(amount));
                    assert(dec_value(amount) == contribution_units(
                        psv[j as int],
                        account@,
                        self@.balance,
                    ));
                    assert(spec_dec_add(acc, amount) is Some);
                    crate::dec::lemma_add_value(acc, amount);
                }
                acc = acc.checked_add(&amount).unwrap();
                found = true;
                proof {
                    assert(spec_has_posting_for(psv.take(j as int + 1), account@)) by {
                        assert(psv.take(j as int + 1)[j as int] == psv[j as int]);
                    }
                }
            } else {
                proof {
                    assert(spec_has_posting_for(psv.take(j as int + 1), account@)
                        <==> spec_has_posting_for(psv.take(j as int), account@)) by {
                        if spec_has_posting_for(psv.take(j as int + 1), account@) {
                            let i = choose|i: int|
                                0 <= i < psv.take(j as int + 1).len() && spec_posting_id(
                                    #[trigger] psv.take(j as int + 1)[i],
                                ) == account@;
                            if i < j {
                                assert(psv.take(j as int)[i] == psv.take(j as int + 1)[i]);
                            }
                        }
                        if spec_has_posting_for(psv.take(j as int), account@) {
                            let i = choose|i: int|
                                0 <= i < psv.take(j as int).len() && spec_posting_id(
                                    #[trigger] psv.take(j as int)[i],
                                ) == account@;
                            assert(psv.take(j as int + 1)[i] == psv.take(j as int)[i]);
                        }
                    }
                }
            }
            j = j + 1;
        }
        proof {
            assert(psv.take(n as int) =~= psv);
        }
        if found {
            Some(acc)
        } else {
            None
        }
    }
}

/// The in-memory ledger. Both lists preserve insertion order.
#[derive(Debug)]
pub struct AccountsDocument {
    accounts: Vec<Account>,
    transactions: Vec<Transaction>,
}

/// Specification-level ledger.
pub struct DocV {
    pub accounts: Seq<AccountV>,
    pub transactions: Seq<TransactionV>,
}

impl View for AccountsDocument {
    type V = DocV;

    closed spec fn view(&self) -> DocV {
        DocV {
            accounts: self.accounts@.map_values(|a: Account| a@),
            transactions: self.transactions@.map_values(|t: Transaction| t@),
        }
    }
}

/// The ledger invariant: account identities are pairwise distinct and every
/// stored transaction is well-formed.
pub open spec fn doc_wf(doc: DocV) -> bool {
    &&& forall|i: int, j: int|
        0 <= i < j < doc.accounts.len() ==> (#[trigger] doc.accounts[i]).id != (
        #[trigger] doc.accounts[j]).id
    &&& forall|i: int| 0 <= i < doc.transactions.len() ==> tx_wf(#[trigger] doc.transactions[i])
}

/// The first account with the given identity, if any.
pub open spec fn spec_find_account(accounts: Seq<AccountV>, id: AccountIdV) -> Option<AccountV>
    decreases accounts.len(),
{
    if accounts.len() == 0 {
        None
    } else if accounts[0].id == id {
        Some(accounts[0])
    } else {
        spec_find_account(accounts.drop_first(), id)
    }
}

/// `spec_find_account` succeeds exactly when some account has the identity.
pub proof fn lemma_find_account_iff(accounts: Seq<AccountV>, id: AccountIdV)
    ensures
        spec_find_account(accounts, id) is Some <==> exists|i: int|
            0 <= i < accounts.len() && (#[trigger] accounts[i]).id == id,
        spec_find_account(accounts, id) matches Some(a) ==> exists|i: int|
            0 <= i < accounts.len() && accounts[i] == a && (#[trigger] accounts[i]).id == id,
    decreases accounts.len(),
{
    if accounts.len() > 0 {
        if accounts[0].id == id {
        } else {
            lemma_find_account_iff(accounts.drop_first(), id);
            let rest = accounts.drop_first();
            if spec_find_account(rest, id) is Some {
                let i = choose|i: int| 0 <= i < rest.len() && (#[trigger] rest[i]).id == id;
                assert(accounts[i + 1].id == id);
            }
            if exists|i: int| 0 <= i < accounts.len() && (#[trigger] accounts[i]).id == id {
                let i = choose|i: int|
                    0 <= i < accounts.len() && (#[trigger] accounts[i]).id == id;
                assert(rest[i - 1].id == id);
            }
            if spec_find_account(rest, id) is Some {
                let a = spec_find_account(rest, id)->Some_0;
                let i = choose|i: int|
                    0 <= i < rest.len() && rest[i] == a && (#[trigger] rest[i]).id == id;
                assert(accounts[i + 1] == a && accounts[i + 1].id == id);
            }
        }
    }
}

/// The exact decimal fold of the per-transaction balances of `txs[j..]` for
/// `id`, started from `acc`; a transaction without a posting to `id`
/// contributes zero. `None` when a partial sum cannot be represented.
pub open spec fn spec_doc_fold(txs: Seq<TransactionV>, id: AccountIdV, j: int, acc: Dec) -> Option<
    Dec,
>
    decreases txs.len() - j,
{
    if j < 0 || j >= txs.len() {
        Some(acc)
    } else {
        match spec_tx_balance(txs[j], id) {
            None => None,
            Some(c) => match spec_dec_add(acc, c) {
                None => None,
                Some(a2) => spec_doc_fold(txs, id, j + 1, a2),
            },
        }
    }
}

/// The mathematical balance of `id` over `txs[j..]`, in units of `10^-56`.
pub open spec fn doc_units_from(txs: Seq<TransactionV>, id: AccountIdV, j: int) -> int
    decreases txs.len() - j,
{
    if j < 0 || j >= txs.len() {
        0
    } else {
        tx_units_from(txs[j].postings, id, txs[j].balance, 0) + doc_units_from(txs, id, j + 1)
    }
}

/// The mathematical balance of `id`: the summed contributions of every
/// stored transaction, in units of `10^-56`.
pub open spec fn spec_balance_units(doc: DocV, id: AccountIdV) -> int {
    doc_units_from(doc.transactions, id, 0)
}

/// Whether the exact balance of `id` is representable, so that
/// [`AccountsDocument::balance`] can return it.
pub open spec fn spec_balance_computable(doc: DocV, id: AccountIdV) -> bool {
    spec_doc_fold(doc.transactions, id, 0, dec_zero()) is Some
}

/// The error returned by [`AccountsDocument::open_an_account`].
#[derive(Clone, Copy, PartialEq, Eq, Structural, Debug)]
pub enum OpenAccountError {
    AccountAlreadyExists,
}

impl OpenAccountError {
    /// A human-readable description of the error.
    pub fn message(&self) -> (r: String)
        ensures
            r@ == "account already exists"@,
    {
        String::from_str("account already exists")
    }
}

/// What opening an account does: fails when the identity is already present,
/// otherwise appends the account, preserving order.
pub open spec fn spec_open_account(doc: DocV, account: AccountV) -> Result<DocV, OpenAccountError> {
    if spec_find_account(doc.accounts, account.id) is Some {
        Err(OpenAccountError::AccountAlreadyExists)
    } else {
        Ok(DocV { accounts: doc.accounts.push(account), transactions: doc.transactions })
    }
}

impl AccountsDocument {
    /// The ledger invariant, stated of the executable value.
    pub open spec fn wf(&self) -> bool {
        doc_wf(self@)
    }

    /// An empty ledger.
    pub fn new() -> (r: AccountsDocument)
        ensures
            r@.accounts.len() == 0,
            r@.transactions.len() == 0,
            r.wf(),
    {
        AccountsDocument { accounts: vec![], transactions: vec![] }
    }

    /// The accounts, in the order they were opened.
    pub fn accounts(&self) -> (r: &Vec<Account>)
        ensures
            r@.map_values(|a: Account| a@) == self@.accounts,
    {
        &self.accounts
    }

    /// The first stored account with the given identity.
    fn find_account(&self, account_id: &AccountId) -> (r: Option<&Account>)
        ensures
            match r {
                Some(a) => spec_find_account(self@.accounts, account_id@) == Some(a@),
                None => spec_find_account(self@.accounts, account_id@) is None,
            },
    {
        let n = self.accounts.len();
        let mut k: usize = 0;
        proof {
            assert(self@.accounts.skip(0) =~= self@.accounts);
        }
        while k < n
            invariant
                n == self.accounts.len(),
                k <= n,
                spec_find_account(self@.accounts, account_id@) == spec_find_account(
                    self@.accounts.skip(k as int),
                    account_id@,
                ),
        decreases n - k,
        {
            proof {
                assert(self@.accounts.skip(k as int)[0] == self@.accounts[k as int]);
                assert(self@.accounts.skip(k as int).drop_first() =~= self@.accounts.skip(
                    k as int + 1,
                ));
            }
            if &self.accounts[k].id == account_id {
                return Some(&self.accounts[k]);
            }
            k = k + 1;
        }
        proof {
            assert(self@.accounts.skip(n as int) =~= Seq::<AccountV>::empty());
        }
        None
    }

    /// Adds the transaction defined by the arguments, if it is valid: every
    /// posting's account must be open on or before `date` with the matching
    /// currency, all stated transaction currencies must agree, at most one
    /// posting may be auto, the arithmetic must stay exactly representable,
    /// and without an auto posting the stated amounts must balance within
    /// the tolerance. The first violated check decides the error and nothing
    /// is mutated; on success the transaction is appended with the running
    /// total as its recorded imbalance.
    pub fn add_transaction(
        &mut self,
        date: Date,
        description: &str,
        postings: Vec<Posting>,
    ) -> (r: Result<(), AddTransactionError>)
        requires
            old(self).wf(),
            forall|i: int|
                0 <= i < postings@.len() ==> posting_wf(#[trigger] postings@[i]@),
        ensures
            final(self).wf(),
            match spec_add_transaction(
                old(self)@,
                date,
                description@,
                postings_view(postings@),
            ) {
                Ok(d) => r is Ok && final(self)@ == d,
                Err(e) => r == Err::<(), AddTransactionError>(e) && final(self)@ == old(self)@,
            },
    {
        let ghost psv = postings_view(postings@);
        let ghost accs = self@.accounts;
        let mut running_total = Dec::zero();
        let mut currency: Option<String> = None;
        let mut auto_account: Option<Account> = None;
        let n = postings.len();
        let mut j: usize = 0;
        while j < n
            invariant
                old(self).wf(),
                self@ == old(self)@,
                accs == self@.accounts,
                n == postings.len(),
                j <= n,
                psv == postings_view(postings@),
                psv.len() == n,
                forall|i: int| 0 <= i < postings@.len() ==> posting_wf(#[trigger] postings@[i]@),
                dec_wf(running_total),
                spec_scan_postings(accs, date, psv, 0, spec_scan_init())
                    == spec_scan_postings(
                    accs,
                    date,
                    psv,
                    j as int,
                    scan_state_of(running_total, currency, auto_account),
                ),
            decreases n - j,
        {
            let ghost st = scan_state_of(running_total, currency, auto_account);
            let posting = &postings[j];
            proof {
                assert(psv[j as int] == postings@[j as int]@);
                assert(posting_wf(psv[j as int]));
            }
            let account = match self.find_account(posting.account_id()) {
                None => {
                    proof {
                        assert(spec_scan_step(accs, date, psv[j as int], st) == Err::<
                            ScanState,
                            AddTransactionError,
                        >(AddTransactionError::AccountNotFound));
                    }
                    return Err(AddTransactionError::AccountNotFound);
                },
                Some(a) => a,
            };
            if date.lt(&account.opening_date) {
                return Err(AddTransactionError::AccountNotOpen);
            }
            match posting {
                Posting::Auto(_) => {
                    if auto_account.is_some() {
                        return Err(AddTransactionError::MoreThanOneAutoPosting);
                    }
                    auto_account = Some(account.clone());
                },
                Posting::Regular(rp) => {
                    if !(account.currency == rp.currency) {
                        return Err(AddTransactionError::IncorrectAccountCurrency);
                    }
                    match &currency {
                        Some(c) => {
                            if !(*c == rp.currency) {
                                return Err(AddTransactionError::IncorrectTransactionCurrency);
                            }
                        },
                        None => {},
                    }
                    match running_total.checked_add(&rp.amount) {
                        None => {
                            return Err(AddTransactionError::AmountOverflow);
                        },
                        Some(t) => {
                            proof {
                                crate::dec::lemma_add_value(running_total, rp.amount);
                            }
                            running_total = t;
                            currency = Some(rp.currency.clone());
                        },
                    }
                },
                Posting::Conversion(cp) => {
                    let product = match cp.account_amount.checked_mul(&cp.rate) {
                        None => {
                            return Err(AddTransactionError::AmountOverflow);
                        },
                        Some(p) => p,
                    };
                    proof {
                        crate::dec::lemma_mul_value(cp.account_amount, cp.rate);
                    }
                    if !(account.currency == cp.account_currency) {
                        return Err(AddTransactionError::IncorrectAccountCurrency);
                    }
                    match &currency {
                        Some(c) => {
                            if !(*c == cp.tx_currency) {
                                return Err(AddTransactionError::IncorrectTransactionCurrency);
                            }
                        },
                        None => {},
                    }
                    match running_total.checked_add(&product) {
                        None => {
                            return Err(AddTransactionError::AmountOverflow);
                        },
                        Some(t) => {
                            proof {
                                crate::dec::lemma_add_value(running_total, product);
                            }
                            running_total = t;
                            currency = Some(cp.tx_currency.clone());
                        },
                    }
                },
            }
            proof {
                let st2 = scan_state_of(running_total, currency, auto_account);
                assert(spec_scan_step(accs, date, psv[j as int], st) == Ok::<
                    ScanState,
                    AddTransactionError,
                >(st2));
            }
            j = j + 1;
        }
        let ghost st = scan_state_of(running_total, currency, auto_account);
        proof {
            assert(spec_scan_postings(accs, date, psv, n as int, st) == Ok::<
                ScanState,
                AddTransactionError,
            >(st));
        }
        match &auto_account {
            Some(account) => {
                match &currency {
                    Some(c) => {
                        if !(*c == account.currency) {
                            return Err(AddTransactionError::IncorrectTransactionCurrency);
                        }
                    },
                    None => {},
                }
            },
            None => {
                let tolerance = Dec { negative: false, magnitude: 5, scale: 3 };
                if running_total.abs_gt(&tolerance) {
                    return Err(AddTransactionError::NotBalanced);
                }
            },
        }
        let ghost old_doc = self@;
        let tx = Transaction {
            date,
            description: String::from_str(description),
            balance: running_total,
            postings,
        };
        proof {
            lemma_scan_value(accs, date, psv, 0, spec_scan_init());
            assert(dec_value(dec_zero()) == 0) by {
                assert(mantissa_of(dec_zero()) == 0);
                assert(0 * pow10(56) == 0) by (nonlinear_arith);
            }
            assert(tx_wf(tx@));
        }
        self.transactions.push(tx);
        proof {
            assert(self@.accounts =~= old_doc.accounts);
            assert(self@.transactions =~= old_doc.transactions.push(
                TransactionV {
                    date,
                    description: description@,
                    balance: running_total,
                    postings: psv,
                },
            ));
        }
        Ok(())
    }

    /// Adds an account. Fails with [`OpenAccountError::AccountAlreadyExists`]
    /// exactly when an account with the same identity is already open;
    /// otherwise appends it, preserving insertion order.
    pub fn open_an_account(&mut self, account: Account) -> (r: Result<(), OpenAccountError>)
        requires
            old(self).wf(),
        ensures
            final(self).wf(),
            match spec_open_account(old(self)@, account@) {
                Ok(d) => r is Ok && final(self)@ == d,
                Err(e) => r == Err::<(), OpenAccountError>(e) && final(self)@ == old(self)@,
            },
    {
        match self.find_account(&account.id) {
            Some(_) => Err(OpenAccountError::AccountAlreadyExists),
            None => {
                proof {
                    lemma_find_account_iff(self@.accounts, account.id@);
                }
                let ghost old_doc = self@;
                self.accounts.push(account);
                proof {
                    assert(self@.accounts =~= old_doc.accounts.push(account@));
                    assert(self@.transactions =~= old_doc.transactions);
                }
                Ok(())
            },
        }
    }

    /// Whether an account with the given identity is open.
    fn account_exists(&self, account: &AccountId) -> (r: bool)
        ensures
            r == (spec_find_account(self@.accounts, account@) is Some),
    {
        self.find_account(account).is_some()
    }

    /// The balance of the account: `None` when the account was never opened,
    /// otherwise the signed sum, over every stored transaction, of that
    /// transaction's postings to the account (an auto posting counting as
    /// the amount that balanced its transaction).
    pub fn balance(&self, account: &AccountId) -> (r: Option<Dec>)
        requires
            self.wf(),
            spec_find_account(self@.accounts, account@) is Some ==> spec_balance_computable(
                self@,
                account@,
            ),
        ensures
            r is Some <==> spec_find_account(self@.accounts, account@) is Some,
            r matches Some(v) ==> {
                &&& Some(v) == spec_doc_fold(self@.transactions, account@, 0, dec_zero())
                &&& dec_wf(v)
                &&& dec_value(v) == spec_balance_units(self@, account@)
            },
    {
        if !self.account_exists(account) {
            return None;
        }
        let ghost txs = self@.transactions;
        let n = self.transactions.len();
        let mut acc = Dec::zero();
        let mut j: usize = 0;
        proof {
            assert(dec_value(dec_zero()) == 0) by {
                assert(mantissa_of(dec_zero()) == 0);
                assert(0 * pow10(56) == 0) by (nonlinear_arith);
            }
        }
        while j < n
            invariant
                self.wf(),
                spec_balance_computable(self@, account@),
                n == self.transactions.len(),
                txs == self@.transactions,
                txs.len() == n,
                j <= n,
                dec_wf(acc),
                spec_doc_fold(txs, account@, 0, dec_zero()) == spec_doc_fold(
                    txs,
                    account@,
                    j as int,
                    acc,
                ),
                dec_value(acc) + doc_units_from(txs, account@, j as int) == doc_units_from(
                    txs,
                    account@,
                    0,
                ),
            decreases n - j,
        {
            let tx = &self.transactions[j];
            proof {
                assert(txs[j as int] == self.transactions@[j as int]@);
                assert(tx_wf(txs[j as int]));
                assert(spec_tx_balance(txs[j as int], account@) is Some);
            }
            let contribution = match tx.balance(account) {
                Some(c) => c,
                None => {
                    proof {
                        assert(!spec_has_posting_for(txs[j as int].postings, account@));
                        assert(forall|i: int|
                            0 <= i < txs[j as int].postings.len() ==> spec_posting_id(
                                #[trigger] txs[j as int].postings[i],
                            ) != account@);
                        lemma_no_match_fold(
                            txs[j as int].postings,
                            account@,
                            txs[j as int].balance,
                            0,
                            dec_zero(),
                        );
                    }
                    Dec::zero()
                },
            };
            proof {
                assert(spec_tx_balance(txs[j as int], account@) == Some(contribution));
                assert(dec_value(contribution) == tx_units_from(
                    txs[j as int].postings,
                    account@,
                    txs[j as int].balance,
                    0,
                )) by {
                    if !spec_has_posting_for(txs[j as int].postings, account@) {
                        lemma_no_match_fold(
                            txs[j as int].postings,
                            account@,
                            txs[j as int].balance,
                            0,
                            dec_zero(),
                        );
                        assert(dec_value(dec_zero()) == 0) by {
                            assert(mantissa_of(dec_zero()) == 0);
                            assert(0 * pow10(56) == 0) by (nonlinear_arith);
                        }
                    }
                }
                assert(spec_dec_add(acc, contribution) is Some);
                crate::dec::lemma_add_value(acc, contribution);
            }
            acc = acc.checked_add(&contribution).unwrap();
            j = j + 1;
        }
        Some(acc)
    }

    /// An enumerator over all accounts and their balances, in the order the
    /// accounts were opened.
    pub fn balances(&self) -> (r: AccountBalances<'_>)
        ensures
            r.accounts_doc == self,
            r.position == 0,
    {
        AccountBalances { accounts_doc: self, position: 0 }
    }
}

/// An enumerator over accounts and balances returned by
/// [`AccountsDocument::balances`]. Each [`AccountBalances::next`] call
/// yields the next account, in opening order, with its freshly computed
/// balance in the account's own currency.
#[derive(Debug)]
pub struct AccountBalances<'a> {
    pub accounts_doc: &'a AccountsDocument,
    pub position: usize,
}

impl<'a> AccountBalances<'a> {
    /// The account at the current position with its balance, or `None` when
    /// every account has been enumerated.
    pub fn next(&mut self) -> (r: Option<(AccountId, Amount)>)
        requires
            old(self).accounts_doc.wf(),
            old(self).position < old(self).accounts_doc@.accounts.len()
                ==> spec_balance_computable(
                old(self).accounts_doc@,
                old(self).accounts_doc@.accounts[old(self).position as int].id,
            ),
        ensures
            final(self).accounts_doc == old(self).accounts_doc,
            old(self).position >= old(self).accounts_doc@.accounts.len() ==> r is None
                && final(self).position == old(self).position,
            old(self).position < old(self).accounts_doc@.accounts.len() ==> {
                let account = old(self).accounts_doc@.accounts[old(self).position as int];
                &&& final(self).position == old(self).position + 1
                &&& r matches Some(pair) && pair.0@ == account.id && pair.1@.currency
                    == account.currency && Some(pair.1@.amount) == spec_doc_fold(
                    old(self).accounts_doc@.transactions,
                    account.id,
                    0,
                    dec_zero(),
                ) && dec_value(pair.1@.amount) == spec_balance_units(
                    old(self).accounts_doc@,
                    account.id,
                )
            },
    {
        if self.position >= self.accounts_doc.accounts.len() {
            return None;
        }
        let account = &self.accounts_doc.accounts[self.position];
        proof {
            lemma_find_account_iff(self.accounts_doc@.accounts, account.id@);
            assert(self.accounts_doc@.accounts[self.position as int].id == account.id@);
        }
        let balance = self.accounts_doc.balance(&account.id).unwrap();
        self.position = self.position + 1;
        Some((account.id.clone(), Amount { amount: balance, currency: account.currency.clone() }))
    }
}

/// The error returned by [`AccountsDocument::add_transaction`].
#[derive(Clone, Copy, PartialEq, Eq, Structural, Debug)]
pub enum AddTransactionError {
    /// A posting names an account that was never opened.
    AccountNotFound,
    /// A posting's account opens after the transaction date.
    AccountNotOpen,
    /// The postings state more than one transaction currency, or an auto
    /// posting's account currency differs from the transaction currency.
    IncorrectTransactionCurrency,
    /// A posting's stated account currency differs from the account's.
    IncorrectAccountCurrency,
    /// Without an auto posting the stated amounts must sum to zero within
    /// the tolerance.
    NotBalanced,
    /// Only one auto posting is allowed per transaction.
    MoreThanOneAutoPosting,
    /// An exact conversion product or running total cannot be represented
    /// within the decimal bounds.
    AmountOverflow,
}

/// The description of each transaction error.
pub open spec fn spec_tx_error_message(e: AddTransactionError) -> Seq<char> {
    match e {
        AddTransactionError::AccountNotFound => "account not found"@,
        AddTransactionError::AccountNotOpen => "account not open"@,
        AddTransactionError::IncorrectTransactionCurrency => "the postings have different transaction currencies"@,
        AddTransactionError::IncorrectAccountCurrency => "the account currency is incorrect"@,
        AddTransactionError::NotBalanced => "transaction is not balanced"@,
        AddTransactionError::MoreThanOneAutoPosting => "only one auto posting is allowed per transaction"@,
        AddTransactionError::AmountOverflow => "amount overflows the representable decimals"@,
    }
}

impl AddTransactionError {
    /// A human-readable description of the error.
    pub fn message(&self) -> (r: String)
        ensures
            r@ == spec_tx_error_message(*self),
    {
        match self {
            AddTransactionError::AccountNotFound => String::from_str("account not found"),
            AddTransactionError::AccountNotOpen => String::from_str("account not open"),
            AddTransactionError::IncorrectTransactionCurrency => String::from_str(
                "the postings have different transaction currencies",
            ),
            AddTransactionError::IncorrectAccountCurrency => String::from_str(
                "the account currency is incorrect",
            ),
            AddTransactionError::NotBalanced => String::from_str("transaction is not balanced"),
            AddTransactionError::MoreThanOneAutoPosting => String::from_str(
                "only one auto posting is allowed per transaction",
            ),
            AddTransactionError::AmountOverflow => String::from_str(
                "amount overflows the representable decimals",
            ),
        }
    }
}

/// The accumulator of the left-to-right validation pass over the postings:
/// the running transaction-currency total, the transaction currency once one
/// is stated, and the account of the auto posting once one is seen.
pub struct ScanState {
    pub total: Dec,
    pub currency: Option<Seq<char>>,
    pub auto_account: Option<AccountV>,
}

/// The accumulator before any posting was examined.
pub open spec fn spec_scan_init() -> ScanState {
    ScanState { total: dec_zero(), currency: None, auto_account: None }
}

/// The accumulator the executable pass carries, seen at the ghost level.
pub open spec fn scan_state_of(total: Dec, currency: Option<String>, auto: Option<Account>) -> ScanState {
    ScanState {
        total,
        currency: match currency {
            Some(c) => Some(c@),
            None => None,
        },
        auto_account: match auto {
            Some(a) => Some(a@),
            None => None,
        },
    }
}

/// Handles the stated amount of one non-auto posting: the account currency
/// must match the account, the transaction currency must agree with any
/// currency stated before, and the amount joins the running total exactly.
pub open spec fn spec_scan_amount(
    account: AccountV,
    account_currency: Seq<char>,
    tx_currency: Seq<char>,
    amount: Option<Dec>,
    st: ScanState,
) -> Result<ScanState, AddTransactionError> {
    match amount {
        None => Err(AddTransactionError::AmountOverflow),
        Some(amt) => {
            if account.currency != account_currency {
                Err(AddTransactionError::IncorrectAccountCurrency)
            } else if st.currency matches Some(cur) && cur != tx_currency {
                Err(AddTransactionError::IncorrectTransactionCurrency)
            } else {
                match spec_dec_add(st.total, amt) {
                    None => Err(AddTransactionError::AmountOverflow),
                    Some(t2) => Ok(ScanState { total: t2, currency: Some(tx_currency), ..st }),
                }
            }
        },
    }
}

/// Validates one posting against the accounts and the accumulator.
pub open spec fn spec_scan_step(
    accounts: Seq<AccountV>,
    date: Date,
    p: PostingV,
    st: ScanState,
) -> Result<ScanState, AddTransactionError> {
    match spec_find_account(accounts, spec_posting_id(p)) {
        None => Err(AddTransactionError::AccountNotFound),
        Some(account) => {
            if spec_date_lt(date, account.opening_date) {
                Err(AddTransactionError::AccountNotOpen)
            } else {
                match p {
                    PostingV::Auto(_) => {
                        if st.auto_account is Some {
                            Err(AddTransactionError::MoreThanOneAutoPosting)
                        } else {
                            Ok(ScanState { auto_account: Some(account), ..st })
                        }
                    },
                    PostingV::Regular(r) => spec_scan_amount(
                        account,
                        r.currency,
                        r.currency,
                        Some(r.amount),
                        st,
                    ),
                    PostingV::Conversion(c) => spec_scan_amount(
                        account,
                        c.account_currency,
                        c.tx_currency,
                        spec_dec_mul(c.account_amount, c.rate),
                        st,
                    ),
                }
            }
        },
    }
}

/// The left-to-right validation pass from posting `j` on; the first violated
/// check decides the error.
pub open spec fn spec_scan_postings(
    accounts: Seq<AccountV>,
    date: Date,
    ps: Seq<PostingV>,
    j: int,
    st: ScanState,
) -> Result<ScanState, AddTransactionError>
    decreases ps.len() - j,
{
    if j < 0 || j >= ps.len() {
        Ok(st)
    } else {
        match spec_scan_step(accounts, date, ps[j], st) {
            Err(e) => Err(e),
            Ok(st2) => spec_scan_postings(accounts, date, ps, j + 1, st2),
        }
    }
}

/// What adding a transaction does: the validation pass over the postings,
/// the closing currency or tolerance check, and on success the new
/// transaction appended with the running total as its `balance`. Failure
/// leaves the ledger untouched.
pub open spec fn spec_add_transaction(
    doc: DocV,
    date: Date,
    description: Seq<char>,
    ps: Seq<PostingV>,
) -> Result<DocV, AddTransactionError> {
    match spec_scan_postings(doc.accounts, date, ps, 0, spec_scan_init()) {
        Err(e) => Err(e),
        Ok(st) => {
            let accepted = DocV {
                accounts: doc.accounts,
                transactions: doc.transactions.push(
                    TransactionV { date, description, balance: st.total, postings: ps },
                ),
            };
            match st.auto_account {
                Some(account) => {
                    if st.currency matches Some(cur) && cur != account.currency {
                        Err(AddTransactionError::IncorrectTransactionCurrency)
                    } else {
                        Ok(accepted)
                    }
                },
                None => {
                    if iabs(dec_value(st.total)) > iabs(dec_value(spec_tolerance())) {
                        Err(AddTransactionError::NotBalanced)
                    } else {
                        Ok(accepted)
                    }
                },
            }
        },
    }
}

/// A successful validation pass keeps the running total exact (it equals the
/// value carried in plus the stated values of the postings scanned) and
/// accounts for every auto posting.
pub proof fn lemma_scan_value(
    accounts: Seq<AccountV>,
    date: Date,
    ps: Seq<PostingV>,
    j: int,
    st: ScanState,
)
    requires
        0 <= j <= ps.len(),
        spec_scan_postings(accounts, date, ps, j, st) is Ok,
        dec_wf(st.total),
        forall|i: int| 0 <= i < ps.len() ==> posting_wf(#[trigger] ps[i]),
    ensures
        ({
            let st2 = spec_scan_postings(accounts, date, ps, j, st)->Ok_0;
            &&& dec_wf(st2.total)
            &&& dec_value(st2.total) == dec_value(st.total) + sum_tx_values_from(ps, j)
            &&& st.auto_account is Some ==> st2.auto_account == st.auto_account
            &&& count_autos_from(ps, j) == if st.auto_account is None && st2.auto_account is Some {
                1int
            } else {
                0int
            }
        }),
    decreases ps.len() - j,
{
    if j < ps.len() {
        let step = spec_scan_step(accounts, date, ps[j], st);
        assert(step is Ok);
        let st2 = step->Ok_0;
        assert(spec_scan_postings(accounts, date, ps, j + 1, st2) is Ok);
        match ps[j] {
            PostingV::Auto(_) => {
                assert(st2.total == st.total);
                assert(tx_value_of_posting(ps[j]) == 0);
                lemma_scan_value(accounts, date, ps, j + 1, st2);
            },
            PostingV::Regular(r) => {
                assert(spec_dec_add(st.total, r.amount) is Some);
                assert(st2.total == spec_dec_add(st.total, r.amount)->Some_0);
                assert(st2.auto_account == st.auto_account);
                crate::dec::lemma_add_value(st.total, r.amount);
                assert(dec_value(st2.total) == dec_value(st.total) + tx_value_of_posting(ps[j]));
                lemma_scan_value(accounts, date, ps, j + 1, st2);
            },
            PostingV::Conversion(c) => {
                assert(spec_dec_mul(c.account_amount, c.rate) is Some);
                crate::dec::lemma_mul_value(c.account_amount, c.rate);
                let product = spec_dec_mul(c.account_amount, c.rate)->Some_0;
                assert(st2.total == spec_dec_add(st.total, product)->Some_0);
                assert(st2.auto_account == st.auto_account);
                crate::dec::lemma_add_value(st.total, product);
                assert(dec_value(st2.total) == dec_value(st.total) + tx_value_of_posting(ps[j]));
                lemma_scan_value(accounts, date, ps, j + 1, st2);
            },
        }
    }
}

/// Opening the same identity twice always fails the second time with
/// [`OpenAccountError::AccountAlreadyExists`], whatever the currency or
/// opening date of either account.
pub proof fn lemma_open_rejects_duplicate(doc: DocV, first: AccountV, second: AccountV)
    requires
        spec_open_account(doc, first) is Ok,
        second.id == first.id,
    ensures
        spec_open_account(spec_open_account(doc, first)->Ok_0, second) == Err::<
            DocV,
            OpenAccountError,
        >(OpenAccountError::AccountAlreadyExists),
{
    let doc2 = spec_open_account(doc, first)->Ok_0;
    lemma_find_account_iff(doc2.accounts, second.id);
    assert(doc2.accounts[doc.accounts.len() as int].id == second.id);
}

/// Auto-posting counts are never negative.
proof fn lemma_count_autos_nonneg(ps: Seq<PostingV>, j: int)
    ensures
        count_autos_from(ps, j) >= 0,
    decreases ps.len() - j,
{
    if 0 <= j < ps.len() {
        lemma_count_autos_nonneg(ps, j + 1);
    }
}

/// A zero auto-posting count means no posting in `ps[j..]` is auto.
proof fn lemma_count_zero_no_auto(ps: Seq<PostingV>, j: int)
    requires
        0 <= j,
        count_autos_from(ps, j) == 0,
    ensures
        forall|i: int| j <= i < ps.len() ==> !(#[trigger] ps[i] is Auto),
    decreases ps.len() - j,
{
    if j < ps.len() {
        lemma_count_autos_nonneg(ps, j + 1);
        lemma_count_zero_no_auto(ps, j + 1);
    }
}

/// When every posting of `ps[j..]` to `id` is auto, and there is at most one
/// auto posting, the contributions of `ps[j..]` to `id` sum to the negated
/// imbalance when such a posting exists and to zero otherwise.
proof fn lemma_auto_only_match_units(ps: Seq<PostingV>, id: AccountIdV, txbal: Dec, j: int)
    requires
        0 <= j <= ps.len(),
        forall|i: int|
            j <= i < ps.len() && spec_posting_id(#[trigger] ps[i]) == id ==> ps[i] is Auto,
        count_autos_from(ps, j) <= 1,
    ensures
        tx_units_from(ps, id, txbal, j) == if exists|i: int|
            j <= i < ps.len() && spec_posting_id(#[trigger] ps[i]) == id {
            -dec_value(txbal)
        } else {
            0
        },
    decreases ps.len() - j,
{
    if j < ps.len() {
        lemma_count_autos_nonneg(ps, j + 1);
        if spec_posting_id(ps[j]) == id {
            assert(ps[j] is Auto);
            assert(count_autos_from(ps, j + 1) == 0);
            lemma_count_zero_no_auto(ps, j + 1);
            assert(forall|i: int|
                j + 1 <= i < ps.len() ==> spec_posting_id(#[trigger] ps[i]) != id);
            lemma_no_match_fold(ps, id, txbal, j + 1, dec_zero());
            assert(contribution_units(ps[j], id, txbal) == -dec_value(txbal));
        } else {
            lemma_auto_only_match_units(ps, id, txbal, j + 1);
            if exists|i: int| j <= i < ps.len() && spec_posting_id(#[trigger] ps[i]) == id {
                let w = choose|i: int|
                    j <= i < ps.len() && spec_posting_id(#[trigger] ps[i]) == id;
                assert(j + 1 <= w < ps.len());
            }
        }
    }
}

/// Appending a transaction adds exactly its own contributions to a balance.
proof fn lemma_doc_units_push(txs: Seq<TransactionV>, tx: TransactionV, id: AccountIdV, j: int)
    requires
        0 <= j <= txs.len(),
    ensures
        doc_units_from(txs.push(tx), id, j) == doc_units_from(txs, id, j) + tx_units_from(
            tx.postings,
            id,
            tx.balance,
            0,
        ),
    decreases txs.len() - j,
{
    let pushed = txs.push(tx);
    if j == txs.len() {
        assert(pushed[j] == tx);
        assert(doc_units_from(pushed, id, j + 1) == 0);
        assert(doc_units_from(txs, id, j) == 0);
    } else {
        assert(pushed[j] == txs[j]);
        lemma_doc_units_push(txs, tx, id, j + 1);
    }
}

/// Every accepted transaction without an auto posting balances: the signed
/// sum of its stated transaction-currency values is at most the tolerance
/// (0.005, in units of `10^-56`: `5 * 10^53`) in absolute value.
pub proof fn lemma_no_auto_balanced(
    doc: DocV,
    date: Date,
    description: Seq<char>,
    ps: Seq<PostingV>,
)
    requires
        forall|i: int| 0 <= i < ps.len() ==> posting_wf(#[trigger] ps[i]),
        spec_add_transaction(doc, date, description, ps) is Ok,
        count_autos_from(ps, 0) == 0,
    ensures
        iabs(sum_tx_values_from(ps, 0)) <= iabs(dec_value(spec_tolerance())),
{
    let st = spec_scan_postings(doc.accounts, date, ps, 0, spec_scan_init())->Ok_0;
    lemma_scan_value(doc.accounts, date, ps, 0, spec_scan_init());
    assert(st.auto_account is None);
    assert(dec_value(dec_zero()) == 0) by {
        assert(mantissa_of(dec_zero()) == 0);
        assert(0 * pow10(56) == 0) by (nonlinear_arith);
    }
    assert(dec_value(st.total) == sum_tx_values_from(ps, 0));
    assert(!(iabs(dec_value(st.total)) > iabs(dec_value(spec_tolerance()))));
}

/// After accepting a transaction whose auto posting is the only posting to
/// its account, that account's balance moves by exactly the negation of the
/// transaction's pre-auto running total.
pub proof fn lemma_auto_posting_balance(
    doc: DocV,
    date: Date,
    description: Seq<char>,
    ps: Seq<PostingV>,
    k: int,
)
    requires
        forall|i: int| 0 <= i < ps.len() ==> posting_wf(#[trigger] ps[i]),
        spec_add_transaction(doc, date, description, ps) is Ok,
        0 <= k < ps.len(),
        ps[k] is Auto,
        forall|i: int|
            0 <= i < ps.len() && spec_posting_id(#[trigger] ps[i]) == spec_posting_id(ps[k])
                ==> ps[i] is Auto,
    ensures
        ({
            let doc2 = spec_add_transaction(doc, date, description, ps)->Ok_0;
            let id = spec_posting_id(ps[k]);
            spec_balance_units(doc2, id) == spec_balance_units(doc, id) - sum_tx_values_from(
                ps,
                0,
            )
        }),
{
    let doc2 = spec_add_transaction(doc, date, description, ps)->Ok_0;
    let id = spec_posting_id(ps[k]);
    let st = spec_scan_postings(doc.accounts, date, ps, 0, spec_scan_init())->Ok_0;
    lemma_scan_value(doc.accounts, date, ps, 0, spec_scan_init());
    assert(dec_value(dec_zero()) == 0) by {
        assert(mantissa_of(dec_zero()) == 0);
        assert(0 * pow10(56) == 0) by (nonlinear_arith);
    }
    assert(dec_value(st.total) == sum_tx_values_from(ps, 0));
    let tx = TransactionV { date, description, balance: st.total, postings: ps };
    assert(doc2.transactions == doc.transactions.push(tx));
    lemma_doc_units_push(doc.transactions, tx, id, 0);
    assert(count_autos_from(ps, 0) <= 1);
    lemma_auto_only_match_units(ps, id, st.total, 0);
    assert(exists|i: int| 0 <= i < ps.len() && spec_posting_id(#[trigger] ps[i]) == id);
}

/// The enumeration of `balances` (one entry per account, in opening order)
/// never repeats an account: stored identities are pairwise distinct.
pub proof fn lemma_accounts_distinct(doc: DocV)
    requires
        doc_wf(doc),
    ensures
        forall|i: int, j: int|
            0 <= i < j < doc.accounts.len() ==> (#[trigger] doc.accounts[i]).id != (
            #[trigger] doc.accounts[j]).id,
{
}

} // verus!
