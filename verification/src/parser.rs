//! The parser: consumes a token sequence and builds a validated ledger.
//!
//! The grammar alternates two directive forms after a mandatory `option`
//! header line: account openings (`<date> open <account> <currency>`) and
//! transaction blocks (`<date> * "<description>"` followed by posting lines,
//! terminated by a blank line or the end of the input). The first violated
//! expectation aborts the whole parse; there is no recovery and no partial
//! result. Ledger validation failures surface as parse errors.
//!
//! Calendar dates are validated here, at the parser boundary: the lexer only
//! carries the raw `YYYY-MM-DD` text.

use vstd::prelude::*;

use crate::accounts_doc::{
    postings_view, spec_add_transaction, spec_open_account, spec_tx_error_message,
    AccountsDocument, AccountV, ConversionPosting, ConversionPostingV, DocV, Posting, PostingV,
    RegularPosting, RegularPostingV,
};
use crate::calendar::{spec_date_valid, Date};
use crate::tokenizer::{
    is_digit, tokens_view, tokens_wf, Token, TokenKind, TokenKindV, TokenV, TokenizeError,
    TokenizeErrorV,
};

verus! {

/// The error returned when parsing fails: a message and, where one is
/// known, the 1-indexed position of the offending token.
#[derive(Debug)]
pub struct ParseError {
    msg: String,
    line: usize,
    column: usize,
}

/// Specification-level parse error.
pub struct ParseErrorV {
    pub msg: Seq<char>,
    pub line: nat,
    pub column: nat,
}

impl View for ParseError {
    type V = ParseErrorV;

    closed spec fn view(&self) -> ParseErrorV {
        ParseErrorV { msg: self.msg@, line: self.line as nat, column: self.column as nat }
    }
}

impl ParseError {
    /// The error message.
    pub fn message(&self) -> (r: &String)
        ensures
            r@ == self@.msg,
    {
        &self.msg
    }

    /// The 1-indexed line of the offending token, or zero when unknown.
    pub fn line(&self) -> (r: usize)
        ensures
            r == self@.line,
    {
        self.line
    }

    /// The 1-indexed column of the offending token, or zero when unknown.
    pub fn column(&self) -> (r: usize)
        ensures
            r == self@.column,
    {
        self.column
    }
}

/// The parse error a lexical error becomes: same message, same position.
pub open spec fn spec_from_lex(e: TokenizeErrorV) -> ParseErrorV {
    ParseErrorV { msg: e.msg, line: e.line, column: e.column }
}

impl From<TokenizeError> for ParseError {
    fn from(error: TokenizeError) -> Self {
        ParseError { msg: error.msg, line: error.line, column: error.column }
    }
}

impl vstd::std_specs::convert::FromSpecImpl<TokenizeError> for ParseError {
    open spec fn obeys_from_spec() -> bool {
        true
    }

    closed spec fn from_spec(error: TokenizeError) -> Self {
        ParseError { msg: error.msg, line: error.line, column: error.column }
    }
}

/// A parse error at a position.
pub open spec fn pe(msg: Seq<char>, line: nat, column: nat) -> ParseErrorV {
    ParseErrorV { msg, line, column }
}

/// The calendar date a `YYYY-MM-DD` literal names, if the text has exactly
/// that shape and the components name a real day.
pub open spec fn spec_parse_date(t: Seq<char>) -> Option<Date> {
    if t.len() == 10 && is_digit(t[0]) && is_digit(t[1]) && is_digit(t[2]) && is_digit(t[3]) && t[4]
        == '-' && is_digit(t[5]) && is_digit(t[6]) && t[7] == '-' && is_digit(t[8]) && is_digit(
        t[9],
    ) {
        let year = ((t[0] as u32 - 48) * 1000 + (t[1] as u32 - 48) * 100 + (t[2] as u32 - 48) * 10
            + (t[3] as u32 - 48)) as u32;
        let month = ((t[5] as u32 - 48) * 10 + (t[6] as u32 - 48)) as u32;
        let day = ((t[8] as u32 - 48) * 10 + (t[9] as u32 - 48)) as u32;
        if spec_date_valid(year, month, day) {
            Some(Date { year, month, day })
        } else {
            None
        }
    } else {
        None
    }
}

/// The empty ledger.
pub open spec fn empty_doc() -> DocV {
    DocV { accounts: Seq::empty(), transactions: Seq::empty() }
}

/// Submitting a finished transaction block: the date text must name a real
/// day, and the ledger must accept the postings; a rejection surfaces as a
/// parse error carrying the ledger's message (with no position).
pub open spec fn sp_submit(
    doc: DocV,
    dtext: Seq<char>,
    dl: nat,
    dc: nat,
    ps: Seq<PostingV>,
) -> Result<DocV, ParseErrorV> {
    match spec_parse_date(dtext) {
        None => Err(pe("invalid date"@, dl, dc)),
        Some(date) => match spec_add_transaction(doc, date, ""@, ps) {
            Err(e) => Err(pe(spec_tx_error_message(e), 0, 0)),
            Ok(d2) => Ok(d2),
        },
    }
}

/// The top-level loop: blank lines are skipped, a date begins a directive,
/// anything else is an error, and the end of the input is a clean stop.
pub open spec fn sp_top(ts: Seq<Result<TokenV, TokenizeErrorV>>, i: int, doc: DocV) -> Result<
    DocV,
    ParseErrorV,
>
    decreases ts.len() - i,
    when i >= 0
{
    if i >= ts.len() {
        Ok(doc)
    } else {
        match ts[i] {
            Err(e) => Err(spec_from_lex(e)),
            Ok(t) => match t.kind {
                TokenKindV::Newline => sp_top(ts, i + 1, doc),
                TokenKindV::Date(dtext) => {
                    if i + 1 >= ts.len() {
                        Err(pe("expected either open or post transaction directive"@, 0, 0))
                    } else {
                        match ts[i + 1] {
                            Err(e) => Err(spec_from_lex(e)),
                            Ok(t2) => match t2.kind {
                                TokenKindV::DirectiveOpen => sp_open_directive(
                                    ts,
                                    i + 2,
                                    doc,
                                    dtext,
                                    t.line,
                                    t.column,
                                    t2.line,
                                    t2.column,
                                ),
                                TokenKindV::DirectivePostTx => sp_tx_directive(
                                    ts,
                                    i + 2,
                                    doc,
                                    dtext,
                                    t.line,
                                    t.column,
                                    t2.line,
                                    t2.column,
                                ),
                                _ => Err(
                                    pe(
                                        "expected either open or post transaction directive"@,
                                        0,
                                        0,
                                    ),
                                ),
                            },
                        }
                    }
                },
                _ => Err(pe("expected date"@, t.line, t.column)),
            },
        }
    }
}

/// An account-open directive after `open`: an account token, a currency
/// token, the date check, the ledger's open, and a newline or the end of the
/// input to finish.
pub open spec fn sp_open_directive(
    ts: Seq<Result<TokenV, TokenizeErrorV>>,
    i: int,
    doc: DocV,
    dtext: Seq<char>,
    dl: nat,
    dc: nat,
    l: nat,
    c: nat,
) -> Result<DocV, ParseErrorV>
    decreases ts.len() - i,
    when i >= 0
{
    if i >= ts.len() {
        Err(pe("expected account"@, l, c))
    } else {
        match ts[i] {
            Err(e) => Err(spec_from_lex(e)),
            Ok(t) => match t.kind {
                TokenKindV::Account(accid) => {
                    if i + 1 >= ts.len() {
                        Err(pe("expected amount"@, t.line, t.column))
                    } else {
                        match ts[i + 1] {
                            Err(e) => Err(spec_from_lex(e)),
                            Ok(t2) => match t2.kind {
                                TokenKindV::Currency(cur) => {
                                    match spec_parse_date(dtext) {
                                        None => Err(pe("invalid date"@, dl, dc)),
                                        Some(date) => {
                                            match spec_open_account(
                                                doc,
                                                AccountV {
                                                    id: accid,
                                                    currency: cur,
                                                    opening_date: date,
                                                },
                                            ) {
                                                Err(_) => Err(pe("account already exists"@, 0, 0)),
                                                Ok(d2) => {
                                                    if i + 2 >= ts.len() {
                                                        Ok(d2)
                                                    } else {
                                                        match ts[i + 2] {
                                                            Err(e) => Err(spec_from_lex(e)),
                                                            Ok(t3) => {
                                                                if t3.kind is Newline {
                                                                    sp_top(ts, i + 3, d2)
                                                                } else {
                                                                    Err(
                                                                        pe(
                                                                            "expected newline"@,
                                                                            t3.line,
                                                                            t3.column,
                                                                        ),
                                                                    )
                                                                }
                                                            },
                                                        }
                                                    }
                                                },
                                            }
                                        },
                                    }
                                },
                                _ => Err(pe("expected amount"@, t2.line, t2.column)),
                            },
                        }
                    }
                },
                _ => Err(pe("expected account"@, t.line, t.column)),
            },
        }
    }
}

/// A transaction block after `*`: a description token, a newline, then the
/// posting lines.
pub open spec fn sp_tx_directive(
    ts: Seq<Result<TokenV, TokenizeErrorV>>,
    i: int,
    doc: DocV,
    dtext: Seq<char>,
    dl: nat,
    dc: nat,
    l: nat,
    c: nat,
) -> Result<DocV, ParseErrorV>
    decreases ts.len() - i,
    when i >= 0
{
    if i >= ts.len() {
        Err(pe("expected tx description"@, l, c))
    } else {
        match ts[i] {
            Err(e) => Err(spec_from_lex(e)),
            Ok(t) => match t.kind {
                TokenKindV::TxDescription => {
                    if i + 1 >= ts.len() {
                        Err(pe("expected newline"@, t.line, t.column))
                    } else {
                        match ts[i + 1] {
                            Err(e) => Err(spec_from_lex(e)),
                            Ok(t2) => {
                                if t2.kind is Newline {
                                    sp_postings(
                                        ts,
                                        i + 2,
                                        doc,
                                        dtext,
                                        dl,
                                        dc,
                                        t2.line,
                                        t2.column,
                                        Seq::empty(),
                                    )
                                } else {
                                    Err(pe("expected newline"@, t2.line, t2.column))
                                }
                            },
                        }
                    }
                },
                _ => Err(pe("expected tx description"@, t.line, t.column)),
            },
        }
    }
}

/// The posting lines of a transaction block: a blank line or the end of the
/// input finishes the block and submits it; each posting line starts with an
/// account token.
pub open spec fn sp_postings(
    ts: Seq<Result<TokenV, TokenizeErrorV>>,
    i: int,
    doc: DocV,
    dtext: Seq<char>,
    dl: nat,
    dc: nat,
    nl: nat,
    nc: nat,
    ps: Seq<PostingV>,
) -> Result<DocV, ParseErrorV>
    decreases ts.len() - i,
    when i >= 0
{
    if i >= ts.len() {
        sp_submit(doc, dtext, dl, dc, ps)
    } else {
        match ts[i] {
            Err(e) => Err(spec_from_lex(e)),
            Ok(t) => match t.kind {
                TokenKindV::Newline => match sp_submit(doc, dtext, dl, dc, ps) {
                    Err(e) => Err(e),
                    Ok(d2) => sp_top(ts, i + 1, d2),
                },
                TokenKindV::Account(accid) => sp_posting_body(
                    ts,
                    i + 1,
                    doc,
                    dtext,
                    dl,
                    dc,
                    nl,
                    nc,
                    accid,
                    ps,
                ),
                _ => Err(pe("expected account"@, t.line, t.column)),
            },
        }
    }
}

/// One posting line after its account token: an amount, then either a line
/// ending (a regular posting), `@` and a second amount (a conversion
/// posting), or the end of the input, which finishes the block.
pub open spec fn sp_posting_body(
    ts: Seq<Result<TokenV, TokenizeErrorV>>,
    i: int,
    doc: DocV,
    dtext: Seq<char>,
    dl: nat,
    dc: nat,
    nl: nat,
    nc: nat,
    accid: crate::types::AccountIdV,
    ps: Seq<PostingV>,
) -> Result<DocV, ParseErrorV>
    decreases ts.len() - i,
    when i >= 0
{
    if i >= ts.len() {
        Err(pe("expected amount"@, nl, nc))
    } else {
        match ts[i] {
            Err(e) => Err(spec_from_lex(e)),
            Ok(t) => match t.kind {
                TokenKindV::Amount(amt) => {
                    let regular = PostingV::Regular(
                        RegularPostingV {
                            account_id: accid,
                            amount: amt.amount,
                            currency: amt.currency,
                        },
                    );
                    if i + 1 >= ts.len() {
                        sp_submit(doc, dtext, dl, dc, ps.push(regular))
                    } else {
                        match ts[i + 1] {
                            Err(e) => Err(spec_from_lex(e)),
                            Ok(t2) => match t2.kind {
                                TokenKindV::Newline => sp_postings(
                                    ts,
                                    i + 2,
                                    doc,
                                    dtext,
                                    dl,
                                    dc,
                                    nl,
                                    nc,
                                    ps.push(regular),
                                ),
                                TokenKindV::At => {
                                    if i + 2 >= ts.len() {
                                        Err(pe("expected amount"@, t2.line, t2.column))
                                    } else {
                                        match ts[i + 2] {
                                            Err(e) => Err(spec_from_lex(e)),
                                            Ok(t3) => match t3.kind {
                                                TokenKindV::Amount(conv) => {
                                                    let cpost = PostingV::Conversion(
                                                        ConversionPostingV {
                                                            account_id: accid,
                                                            account_amount: amt.amount,
                                                            account_currency: amt.currency,
                                                            rate: conv.amount,
                                                            tx_currency: conv.currency,
                                                        },
                                                    );
                                                    if i + 3 >= ts.len() {
                                                        sp_submit(
                                                            doc,
                                                            dtext,
                                                            dl,
                                                            dc,
                                                            ps.push(cpost),
                                                        )
                                                    } else {
                                                        match ts[i + 3] {
                                                            Err(e) => Err(spec_from_lex(e)),
                                                            Ok(t4) => {
                                                                if t4.kind is Newline {
                                                                    sp_postings(
                                                                        ts,
                                                                        i + 4,
                                                                        doc,
                                                                        dtext,
                                                                        dl,
                                                                        dc,
                                                                        nl,
                                                                        nc,
                                                                        ps.push(cpost),
                                                                    )
                                                                } else {
                                                                    Err(
                                                                        pe(
                                                                            "expected newline"@,
                                                                            t4.line,
                                                                            t4.column,
                                                                        ),
                                                                    )
                                                                }
                                                            },
                                                        }
                                                    }
                                                },
                                                _ => Err(
                                                    pe("expected amount"@, t3.line, t3.column),
                                                ),
                                            },
                                        }
                                    }
                                },
                                _ => Err(
                                    pe("expected newline, end of file or @"@, t.line, t.column),
                                ),
                            },
                        }
                    }
                },
                _ => Err(pe("expected amount"@, t.line, t.column)),
            },
        }
    }
}

/// What parsing a token sequence yields: the header line is required first,
/// then the top-level directive loop runs over an initially empty ledger.
pub open spec fn spec_parse(ts: Seq<Result<TokenV, TokenizeErrorV>>) -> Result<DocV, ParseErrorV> {
    if ts.len() == 0 {
        Err(pe("expected option line"@, 0, 0))
    } else {
        match ts[0] {
            Err(e) => Err(spec_from_lex(e)),
            Ok(t) => {
                if t.kind is OptionLine {
                    sp_top(ts, 1, empty_doc())
                } else {
                    Err(pe("expected option line"@, t.line, t.column))
                }
            },
        }
    }
}

/// A parse error with the given message and position.
fn perr(msg: &str, line: usize, column: usize) -> (r: ParseError)
    ensures
        r@ == pe(msg@, line as nat, column as nat),
{
    ParseError { msg: String::from_str(msg), line, column }
}

/// The parse error a lexical error becomes.
fn from_lex(e: &TokenizeError) -> (r: ParseError)
    ensures
        r@ == spec_from_lex(e@),
{
    ParseError { msg: e.msg.clone(), line: e.line, column: e.column }
}

/// Parses a `YYYY-MM-DD` literal into a calendar date, rejecting malformed
/// text and combinations that name no real day.
pub fn parse_date(text: &str) -> (r: Option<Date>)
    ensures
        r == spec_parse_date(text@),
{
    if text.unicode_len() != 10 {
        return None;
    }
    let c0 = text.get_char(0) as u32;
    let c1 = text.get_char(1) as u32;
    let c2 = text.get_char(2) as u32;
    let c3 = text.get_char(3) as u32;
    let c5 = text.get_char(5) as u32;
    let c6 = text.get_char(6) as u32;
    let c8 = text.get_char(8) as u32;
    let c9 = text.get_char(9) as u32;
    let digits_ok = 48 <= c0 && c0 <= 57 && 48 <= c1 && c1 <= 57 && 48 <= c2 && c2 <= 57 && 48
        <= c3 && c3 <= 57 && 48 <= c5 && c5 <= 57 && 48 <= c6 && c6 <= 57 && 48 <= c8 && c8 <= 57
        && 48 <= c9 && c9 <= 57;
    if !digits_ok || text.get_char(4) != '-' || text.get_char(7) != '-' {
        return None;
    }
    let year = (c0 - 48) * 1000 + (c1 - 48) * 100 + (c2 - 48) * 10 + (c3 - 48);
    let month = (c5 - 48) * 10 + (c6 - 48);
    let day = (c8 - 48) * 10 + (c9 - 48);
    Date::new(year, month, day)
}

/// The top-level directive loop; see [`sp_top`].
fn parse_top(
    tokens: &Vec<Result<Token, TokenizeError>>,
    i: usize,
    doc: AccountsDocument,
) -> (r: Result<AccountsDocument, ParseError>)
    requires
        doc.wf(),
        tokens_wf(tokens_view(tokens@)),
    ensures
        match sp_top(tokens_view(tokens@), i as int, doc@) {
            Ok(d) => r matches Ok(out) && out@ == d && out.wf(),
            Err(e) => r matches Err(p) && p@ == e,
        },
    decreases tokens@.len() - i,
{
    let ghost tsv = tokens_view(tokens@);
    if i >= tokens.len() {
        return Ok(doc);
    }
    proof {
        assert(tsv[i as int] == match tokens@[i as int] {
            Ok(tok) => Ok::<TokenV, TokenizeErrorV>(tok@),
            Err(e) => Err::<TokenV, TokenizeErrorV>(e@),
        });
    }
    match &tokens[i] {
        Err(e) => Err(from_lex(e)),
        Ok(t) => match &t.kind {
            TokenKind::Newline => parse_top(tokens, i + 1, doc),
            TokenKind::Date(dtext) => {
                if i + 1 >= tokens.len() {
                    return Err(perr("expected either open or post transaction directive", 0, 0));
                }
                proof {
                    assert(tsv[i + 1] == match tokens@[i + 1] {
                        Ok(tok) => Ok::<TokenV, TokenizeErrorV>(tok@),
                        Err(e) => Err::<TokenV, TokenizeErrorV>(e@),
                    });
                }
                match &tokens[i + 1] {
                    Err(e) => Err(from_lex(e)),
                    Ok(t2) => match &t2.kind {
                        TokenKind::DirectiveOpen => parse_open_directive(
                            tokens,
                            i + 2,
                            doc,
                            dtext.as_str(),
                            t.line,
                            t.column,
                            t2.line,
                            t2.column,
                        ),
                        TokenKind::DirectivePostTx => parse_tx_directive(
                            tokens,
                            i + 2,
                            doc,
                            dtext.as_str(),
                            t.line,
                            t.column,
                            t2.line,
                            t2.column,
                        ),
                        _ => Err(
                            perr("expected either open or post transaction directive", 0, 0),
                        ),
                    },
                }
            },
            _ => Err(perr("expected date", t.line, t.column)),
        },
    }
}

/// One account-open directive; see [`sp_open_directive`].
fn parse_open_directive(
    tokens: &Vec<Result<Token, TokenizeError>>,
    i: usize,
    doc: AccountsDocument,
    dtext: &str,
    dl: usize,
    dc: usize,
    l: usize,
    c: usize,
) -> (r: Result<AccountsDocument, ParseError>)
    requires
        doc.wf(),
        tokens_wf(tokens_view(tokens@)),
    ensures
        match sp_open_directive(
            tokens_view(tokens@),
            i as int,
            doc@,
            dtext@,
            dl as nat,
            dc as nat,
            l as nat,
            c as nat,
        ) {
            Ok(d) => r matches Ok(out) && out@ == d && out.wf(),
            Err(e) => r matches Err(p) && p@ == e,
        },
    decreases tokens@.len() - i,
{
    let ghost tsv = tokens_view(tokens@);
    if i >= tokens.len() {
        return Err(perr("expected account", l, c));
    }
    proof {
        assert(tsv[i as int] == match tokens@[i as int] {
            Ok(tok) => Ok::<TokenV, TokenizeErrorV>(tok@),
            Err(e) => Err::<TokenV, TokenizeErrorV>(e@),
        });
    }
    let (account_id, al, ac) = match &tokens[i] {
        Err(e) => {
            return Err(from_lex(e));
        },
        Ok(t) => match &t.kind {
            TokenKind::Account(id) => (id.clone(), t.line, t.column),
            _ => {
                return Err(perr("expected account", t.line, t.column));
            },
        },
    };
    if i + 1 >= tokens.len() {
        return Err(perr("expected amount", al, ac));
    }
    proof {
        assert(tsv[i + 1] == match tokens@[i + 1] {
            Ok(tok) => Ok::<TokenV, TokenizeErrorV>(tok@),
            Err(e) => Err::<TokenV, TokenizeErrorV>(e@),
        });
    }
    let currency = match &tokens[i + 1] {
        Err(e) => {
            return Err(from_lex(e));
        },
        Ok(t2) => match &t2.kind {
            TokenKind::Currency(cur) => cur.clone(),
            _ => {
                return Err(perr("expected amount", t2.line, t2.column));
            },
        },
    };
    let date = match parse_date(dtext) {
        None => {
            return Err(perr("invalid date", dl, dc));
        },
        Some(d) => d,
    };
    let mut doc = doc;
    match doc.open_an_account(
        crate::accounts_doc::Account { id: account_id, currency, opening_date: date },
    ) {
        Err(_) => {
            return Err(perr("account already exists", 0, 0));
        },
        Ok(()) => {},
    }
    if i + 2 >= tokens.len() {
        return Ok(doc);
    }
    proof {
        assert(tsv[i + 2] == match tokens@[i + 2] {
            Ok(tok) => Ok::<TokenV, TokenizeErrorV>(tok@),
            Err(e) => Err::<TokenV, TokenizeErrorV>(e@),
        });
    }
    match &tokens[i + 2] {
        Err(e) => Err(from_lex(e)),
        Ok(t3) => match &t3.kind {
            TokenKind::Newline => parse_top(tokens, i + 3, doc),
            _ => Err(perr("expected newline", t3.line, t3.column)),
        },
    }
}

/// One transaction block; see [`sp_tx_directive`].
fn parse_tx_directive(
    tokens: &Vec<Result<Token, TokenizeError>>,
    i: usize,
    doc: AccountsDocument,
    dtext: &str,
    dl: usize,
    dc: usize,
    l: usize,
    c: usize,
) -> (r: Result<AccountsDocument, ParseError>)
    requires
        doc.wf(),
        tokens_wf(tokens_view(tokens@)),
    ensures
        match sp_tx_directive(
            tokens_view(tokens@),
            i as int,
            doc@,
            dtext@,
            dl as nat,
            dc as nat,
            l as nat,
            c as nat,
        ) {
            Ok(d) => r matches Ok(out) && out@ == d && out.wf(),
            Err(e) => r matches Err(p) && p@ == e,
        },
    decreases tokens@.len() - i,
{
    let ghost tsv = tokens_view(tokens@);
    if i >= tokens.len() {
        return Err(perr("expected tx description", l, c));
    }
    proof {
        assert(tsv[i as int] == match tokens@[i as int] {
            Ok(tok) => Ok::<TokenV, TokenizeErrorV>(tok@),
            Err(e) => Err::<TokenV, TokenizeErrorV>(e@),
        });
    }
    let (l2, c2) = match &tokens[i] {
        Err(e) => {
            return Err(from_lex(e));
        },
        Ok(t) => match &t.kind {
            TokenKind::TxDescription => (t.line, t.column),
            _ => {
                return Err(perr("expected tx description", t.line, t.column));
            },
        },
    };
    if i + 1 >= tokens.len() {
        return Err(perr("expected newline", l2, c2));
    }
    proof {
        assert(tsv[i + 1] == match tokens@[i + 1] {
            Ok(tok) => Ok::<TokenV, TokenizeErrorV>(tok@),
            Err(e) => Err::<TokenV, TokenizeErrorV>(e@),
        });
    }
    match &tokens[i + 1] {
        Err(e) => Err(from_lex(e)),
        Ok(t2) => match &t2.kind {
            TokenKind::Newline => {
                proof {
                    assert(postings_view(Seq::<Posting>::empty()) =~= Seq::<PostingV>::empty());
                }
                parse_postings(tokens, i + 2, doc, dtext, dl, dc, t2.line, t2.column, Vec::new())
            },
            _ => Err(perr("expected newline", t2.line, t2.column)),
        },
    }
}

/// Submits a finished transaction block to the ledger; see [`sp_submit`].
fn submit(
    doc: AccountsDocument,
    dtext: &str,
    dl: usize,
    dc: usize,
    ps: Vec<Posting>,
) -> (r: Result<AccountsDocument, ParseError>)
    requires
        doc.wf(),
        forall|k: int|
            0 <= k < ps@.len() ==> crate::accounts_doc::posting_wf(#[trigger] ps@[k]@),
    ensures
        match sp_submit(doc@, dtext@, dl as nat, dc as nat, postings_view(ps@)) {
            Ok(d) => r matches Ok(out) && out@ == d && out.wf(),
            Err(e) => r matches Err(p) && p@ == e,
        },
{
    let date = match parse_date(dtext) {
        None => {
            return Err(perr("invalid date", dl, dc));
        },
        Some(d) => d,
    };
    let mut doc = doc;
    proof {
        assert(forall|k: int|
            0 <= k < ps@.len() ==> crate::accounts_doc::posting_wf(
                #[trigger] postings_view(ps@)[k],
            ));
    }
    // The lexer keeps no description text (the description token is
    // positional only), so the stored description is empty.
    match doc.add_transaction(date, "", ps) {
        Err(e) => Err(ParseError { msg: e.message(), line: 0, column: 0 }),
        Ok(()) => Ok(doc),
    }
}

/// The posting lines of one transaction block; see [`sp_postings`].
fn parse_postings(
    tokens: &Vec<Result<Token, TokenizeError>>,
    i: usize,
    doc: AccountsDocument,
    dtext: &str,
    dl: usize,
    dc: usize,
    nl: usize,
    nc: usize,
    ps: Vec<Posting>,
) -> (r: Result<AccountsDocument, ParseError>)
    requires
        doc.wf(),
        tokens_wf(tokens_view(tokens@)),
        forall|k: int|
            0 <= k < ps@.len() ==> crate::accounts_doc::posting_wf(#[trigger] ps@[k]@),
    ensures
        match sp_postings(
            tokens_view(tokens@),
            i as int,
            doc@,
            dtext@,
            dl as nat,
            dc as nat,
            nl as nat,
            nc as nat,
            postings_view(ps@),
        ) {
            Ok(d) => r matches Ok(out) && out@ == d && out.wf(),
            Err(e) => r matches Err(p) && p@ == e,
        },
    decreases tokens@.len() - i,
{
    let ghost tsv = tokens_view(tokens@);
    if i >= tokens.len() {
        return submit(doc, dtext, dl, dc, ps);
    }
    proof {
        assert(tsv[i as int] == match tokens@[i as int] {
            Ok(tok) => Ok::<TokenV, TokenizeErrorV>(tok@),
            Err(e) => Err::<TokenV, TokenizeErrorV>(e@),
        });
    }
    match &tokens[i] {
        Err(e) => Err(from_lex(e)),
        Ok(t) => match &t.kind {
            TokenKind::Newline => match submit(doc, dtext, dl, dc, ps) {
                Err(e) => Err(e),
                Ok(d2) => parse_top(tokens, i + 1, d2),
            },
            TokenKind::Account(id) => parse_posting_body(
                tokens,
                i + 1,
                doc,
                dtext,
                dl,
                dc,
                nl,
                nc,
                id.clone(),
                ps,
            ),
            _ => Err(perr("expected account", t.line, t.column)),
        },
    }
}

/// One posting line after its account token; see [`sp_posting_body`].
fn parse_posting_body(
    tokens: &Vec<Result<Token, TokenizeError>>,
    i: usize,
    doc: AccountsDocument,
    dtext: &str,
    dl: usize,
    dc: usize,
    nl: usize,
    nc: usize,
    account_id: crate::types::AccountId,
    ps: Vec<Posting>,
) -> (r: Result<AccountsDocument, ParseError>)
    requires
        doc.wf(),
        tokens_wf(tokens_view(tokens@)),
        forall|k: int|
            0 <= k < ps@.len() ==> crate::accounts_doc::posting_wf(#[trigger] ps@[k]@),
    ensures
        match sp_posting_body(
            tokens_view(tokens@),
            i as int,
            doc@,
            dtext@,
            dl as nat,
            dc as nat,
            nl as nat,
            nc as nat,
            account_id@,
            postings_view(ps@),
        ) {
            Ok(d) => r matches Ok(out) && out@ == d && out.wf(),
            Err(e) => r matches Err(p) && p@ == e,
        },
    decreases tokens@.len() - i,
{
    let ghost tsv = tokens_view(tokens@);
    if i >= tokens.len() {
        return Err(perr("expected amount", nl, nc));
    }
    proof {
        assert(tsv[i as int] == match tokens@[i as int] {
            Ok(tok) => Ok::<TokenV, TokenizeErrorV>(tok@),
            Err(e) => Err::<TokenV, TokenizeErrorV>(e@),
        });
    }
    let (amount, al, ac) = match &tokens[i] {
        Err(e) => {
            return Err(from_lex(e));
        },
        Ok(t) => match &t.kind {
            TokenKind::Amount(a) => (a.clone(), t.line, t.column),
            _ => {
                return Err(perr("expected amount", t.line, t.column));
            },
        },
    };
    let ghost regular_v = PostingV::Regular(
        RegularPostingV {
            account_id: account_id@,
            amount: amount@.amount,
            currency: amount@.currency,
        },
    );
    if i + 1 >= tokens.len() {
        let mut ps = ps;
        let ghost old_ps = ps@;
        ps.push(
            Posting::Regular(
                RegularPosting {
                    account_id,
                    amount: amount.amount,
                    currency: amount.currency,
                },
            ),
        );
        proof {
            assert(postings_view(ps@) =~= postings_view(old_ps).push(regular_v));
        }
        return submit(doc, dtext, dl, dc, ps);
    }
    proof {
        assert(tsv[i + 1] == match tokens@[i + 1] {
            Ok(tok) => Ok::<TokenV, TokenizeErrorV>(tok@),
            Err(e) => Err::<TokenV, TokenizeErrorV>(e@),
        });
    }
    match &tokens[i + 1] {
        Err(e) => Err(from_lex(e)),
        Ok(t2) => match &t2.kind {
            TokenKind::Newline => {
                let mut ps = ps;
                let ghost old_ps = ps@;
                ps.push(
                    Posting::Regular(
                        RegularPosting {
                            account_id,
                            amount: amount.amount,
                            currency: amount.currency,
                        },
                    ),
                );
                proof {
                    assert(postings_view(ps@) =~= postings_view(old_ps).push(regular_v));
                }
                parse_postings(tokens, i + 2, doc, dtext, dl, dc, nl, nc, ps)
            },
            TokenKind::At => {
                if i + 2 >= tokens.len() {
                    return Err(perr("expected amount", t2.line, t2.column));
                }
                proof {
                    assert(tsv[i + 2] == match tokens@[i + 2] {
                        Ok(tok) => Ok::<TokenV, TokenizeErrorV>(tok@),
                        Err(e) => Err::<TokenV, TokenizeErrorV>(e@),
                    });
                }
                let conversion = match &tokens[i + 2] {
                    Err(e) => {
                        return Err(from_lex(e));
                    },
                    Ok(t3) => match &t3.kind {
                        TokenKind::Amount(a) => a.clone(),
                        _ => {
                            return Err(perr("expected amount", t3.line, t3.column));
                        },
                    },
                };
                let ghost cpost_v = PostingV::Conversion(
                    ConversionPostingV {
                        account_id: account_id@,
                        account_amount: amount@.amount,
                        account_currency: amount@.currency,
                        rate: conversion@.amount,
                        tx_currency: conversion@.currency,
                    },
                );
                let mut ps = ps;
                let ghost old_ps = ps@;
                ps.push(
                    Posting::Conversion(
                        ConversionPosting {
                            account_id,
                            account_amount: amount.amount,
                            account_currency: amount.currency,
                            rate: conversion.amount,
                            tx_currency: conversion.currency,
                        },
                    ),
                );
                proof {
                    assert(postings_view(ps@) =~= postings_view(old_ps).push(cpost_v));
                }
                if i + 3 >= tokens.len() {
                    return submit(doc, dtext, dl, dc, ps);
                }
                proof {
                    assert(tsv[i + 3] == match tokens@[i + 3] {
                        Ok(tok) => Ok::<TokenV, TokenizeErrorV>(tok@),
                        Err(e) => Err::<TokenV, TokenizeErrorV>(e@),
                    });
                }
                match &tokens[i + 3] {
                    Err(e) => Err(from_lex(e)),
                    Ok(t4) => match &t4.kind {
                        TokenKind::Newline => parse_postings(
                            tokens,
                            i + 4,
                            doc,
                            dtext,
                            dl,
                            dc,
                            nl,
                            nc,
                            ps,
                        ),
                        _ => Err(perr("expected newline", t4.line, t4.column)),
                    },
                }
            },
            _ => Err(perr("expected newline, end of file or @", al, ac)),
        },
    }
}

/// Parses a token sequence into a validated ledger, or fails with the first
/// violated expectation. The whole behaviour — the resulting ledger or the
/// error message and position — is pinned by [`spec_parse`].
pub fn parse(tokens: Vec<Result<Token, TokenizeError>>) -> (r: Result<
    AccountsDocument,
    ParseError,
>)
    requires
        tokens_wf(tokens_view(tokens@)),
    ensures
        match spec_parse(tokens_view(tokens@)) {
            Ok(d) => r matches Ok(doc) && doc@ == d && doc.wf(),
            Err(e) => r matches Err(p) && p@ == e,
        },
{
    let ghost tsv = tokens_view(tokens@);
    if tokens.len() == 0 {
        return Err(perr("expected option line", 0, 0));
    }
    proof {
        assert(tsv[0] == match tokens@[0] {
            Ok(tok) => Ok::<TokenV, TokenizeErrorV>(tok@),
            Err(e) => Err::<TokenV, TokenizeErrorV>(e@),
        });
    }
    match &tokens[0] {
        Err(e) => Err(from_lex(e)),
        Ok(t) => match &t.kind {
            TokenKind::OptionLine => {
                let doc = AccountsDocument::new();
                proof {
                    assert(doc@.accounts =~= empty_doc().accounts);
                    assert(doc@.transactions =~= empty_doc().transactions);
                }
                parse_top(&tokens, 1, doc)
            },
            _ => Err(perr("expected option line", t.line, t.column)),
        },
    }
}

} // verus!
