//! The lexer: turns a text buffer into typed tokens, each carrying its
//! 1-indexed line and column.
//!
//! At each position the recognizers are tried in a fixed priority order
//! against the remaining buffer: horizontal whitespace (skipped), an
//! `option` header line, a `;` comment (skipped), a date, an amount with
//! currency, the `open` keyword, the `*` keyword, an account reference, a
//! bare currency code, a quoted description, `@`, and a newline. Every
//! recognizer except the two skips requires the match to be followed by
//! whitespace, a newline, or the end of the buffer, so that `open` does not
//! match inside `openX`. If nothing matches, lexing fails with the position
//! of the offending character run.
//!
//! The whole behaviour of [`Tokenizer::next_token`] is pinned by
//! [`spec_next_token`], a function of the buffer and cursor alone: lexing
//! the same buffer twice yields the same token sequence.

use vstd::prelude::*;

use crate::dec::{dec_of_int_scale, Dec};
use crate::types::{AccountId, AccountIdV, AccountType, Amount, AmountV};

verus! {

/// The error returned when the lexer cannot produce a next token. Carries
/// the 1-indexed position of the failure.
#[derive(Debug)]
pub struct TokenizeError {
    pub msg: String,
    pub line: usize,
    pub column: usize,
}

/// Specification-level lexical error.
pub struct TokenizeErrorV {
    pub msg: Seq<char>,
    pub line: nat,
    pub column: nat,
}

impl View for TokenizeError {
    type V = TokenizeErrorV;

    open spec fn view(&self) -> TokenizeErrorV {
        TokenizeErrorV { msg: self.msg@, line: self.line as nat, column: self.column as nat }
    }
}

impl PartialEq for TokenizeError {
    fn eq(&self, other: &Self) -> (r: bool) {
        self.msg == other.msg && self.line == other.line && self.column == other.column
    }
}

impl vstd::std_specs::cmp::PartialEqSpecImpl for TokenizeError {
    open spec fn obeys_eq_spec() -> bool {
        true
    }

    open spec fn eq_spec(&self, other: &Self) -> bool {
        self@ == other@
    }
}

/// The kind of a [`Token`].
#[derive(Debug)]
pub enum TokenKind {
    /// A `YYYY-MM-DD` literal, carrying the raw text; calendar validation
    /// happens later, at the parser boundary.
    Date(String),
    /// A decimal amount followed by its currency code.
    Amount(Amount),
    /// The keyword `open`.
    DirectiveOpen,
    /// The keyword `*`, beginning a transaction block.
    DirectivePostTx,
    /// An account reference `<Type>:<Name>`.
    Account(AccountId),
    /// A bare uppercase currency code.
    Currency(String),
    /// `@`, introducing a conversion rate clause.
    At,
    /// A line ending (`\n` or `\r\n`).
    Newline,
    /// An `option "<key>" "<value>"` header line; the value is discarded.
    OptionLine,
    /// A quoted transaction description.
    TxDescription,
}

/// Specification-level token kind.
pub enum TokenKindV {
    Date(Seq<char>),
    Amount(AmountV),
    DirectiveOpen,
    DirectivePostTx,
    Account(AccountIdV),
    Currency(Seq<char>),
    At,
    Newline,
    OptionLine,
    TxDescription,
}

impl View for TokenKind {
    type V = TokenKindV;

    open spec fn view(&self) -> TokenKindV {
        match self {
            TokenKind::Date(s) => TokenKindV::Date(s@),
            TokenKind::Amount(a) => TokenKindV::Amount(a@),
            TokenKind::DirectiveOpen => TokenKindV::DirectiveOpen,
            TokenKind::DirectivePostTx => TokenKindV::DirectivePostTx,
            TokenKind::Account(id) => TokenKindV::Account(id@),
            TokenKind::Currency(s) => TokenKindV::Currency(s@),
            TokenKind::At => TokenKindV::At,
            TokenKind::Newline => TokenKindV::Newline,
            TokenKind::OptionLine => TokenKindV::OptionLine,
            TokenKind::TxDescription => TokenKindV::TxDescription,
        }
    }
}

impl PartialEq for TokenKind {
    fn eq(&self, other: &Self) -> (r: bool) {
        match (self, other) {
            (TokenKind::Date(a), TokenKind::Date(b)) => *a == *b,
            (TokenKind::Amount(a), TokenKind::Amount(b)) => a == b,
            (TokenKind::DirectiveOpen, TokenKind::DirectiveOpen) => true,
            (TokenKind::DirectivePostTx, TokenKind::DirectivePostTx) => true,
            (TokenKind::Account(a), TokenKind::Account(b)) => a == b,
            (TokenKind::Currency(a), TokenKind::Currency(b)) => *a == *b,
            (TokenKind::At, TokenKind::At) => true,
            (TokenKind::Newline, TokenKind::Newline) => true,
            (TokenKind::OptionLine, TokenKind::OptionLine) => true,
            (TokenKind::TxDescription, TokenKind::TxDescription) => true,
            _ => false,
        }
    }
}

impl vstd::std_specs::cmp::PartialEqSpecImpl for TokenKind {
    open spec fn obeys_eq_spec() -> bool {
        true
    }

    open spec fn eq_spec(&self, other: &Self) -> bool {
        self@ == other@
    }
}

/// A token together with the 1-indexed position where it begins.
#[derive(Debug)]
pub struct Token {
    pub kind: TokenKind,
    pub line: usize,
    pub column: usize,
}

/// Specification-level token.
pub struct TokenV {
    pub kind: TokenKindV,
    pub line: nat,
    pub column: nat,
}

impl View for Token {
    type V = TokenV;

    open spec fn view(&self) -> TokenV {
        TokenV { kind: self.kind@, line: self.line as nat, column: self.column as nat }
    }
}

impl PartialEq for Token {
    fn eq(&self, other: &Self) -> (r: bool) {
        self.kind == other.kind && self.line == other.line && self.column == other.column
    }
}

impl vstd::std_specs::cmp::PartialEqSpecImpl for Token {
    open spec fn obeys_eq_spec() -> bool {
        true
    }

    open spec fn eq_spec(&self, other: &Self) -> bool {
        self@ == other@
    }
}

// --- Character classes -------------------------------------------------

/// Horizontal whitespace: space or tab.
pub open spec fn is_hws(c: char) -> bool {
    c == ' ' || c == '\t'
}

/// Whitespace accepted inside an `option` line and as a token boundary.
pub open spec fn is_space_class(c: char) -> bool {
    c == ' ' || c == '\t' || c == '\n' || c == '\r'
}

/// An ASCII decimal digit.
pub open spec fn is_digit(c: char) -> bool {
    48 <= c as u32 <= 57
}

/// An ASCII uppercase letter.
pub open spec fn is_upper(c: char) -> bool {
    65 <= c as u32 <= 90
}

/// An ASCII lowercase letter.
pub open spec fn is_lower(c: char) -> bool {
    97 <= c as u32 <= 122
}

/// A character allowed after the first letter of an account name.
pub open spec fn is_name_char(c: char) -> bool {
    is_upper(c) || is_lower(c) || is_digit(c) || c == '-'
}

/// A digit or a thousands separator.
pub open spec fn is_digit_or_comma(c: char) -> bool {
    is_digit(c) || c == ','
}

/// Not a line ending (a comment runs over these).
pub open spec fn is_comment_char(c: char) -> bool {
    c != '\r' && c != '\n'
}

/// Not a double quote (the inside of a quoted string).
pub open spec fn is_non_quote(c: char) -> bool {
    c != '"'
}

/// Every recognizer except the skips requires its match to be followed by
/// whitespace, a newline, or the end of the buffer.
pub open spec fn boundary_ok(s: Seq<char>, i: int) -> bool {
    i >= s.len() || is_space_class(s[i])
}

// --- Maximal runs ------------------------------------------------------

/// The end of the maximal run of horizontal whitespace starting at `i`.
pub open spec fn hws_end(s: Seq<char>, i: int) -> int
    decreases s.len() - i,
{
    if 0 <= i < s.len() && is_hws(s[i]) {
        hws_end(s, i + 1)
    } else {
        i
    }
}

/// The end of the maximal run of `option`-line whitespace starting at `i`.
pub open spec fn sws_end(s: Seq<char>, i: int) -> int
    decreases s.len() - i,
{
    if 0 <= i < s.len() && is_space_class(s[i]) {
        sws_end(s, i + 1)
    } else {
        i
    }
}

/// The end of the maximal digit run starting at `i`.
pub open spec fn digits_end(s: Seq<char>, i: int) -> int
    decreases s.len() - i,
{
    if 0 <= i < s.len() && is_digit(s[i]) {
        digits_end(s, i + 1)
    } else {
        i
    }
}

/// The end of the maximal digit-or-comma run starting at `i`.
pub open spec fn dc_end(s: Seq<char>, i: int) -> int
    decreases s.len() - i,
{
    if 0 <= i < s.len() && is_digit_or_comma(s[i]) {
        dc_end(s, i + 1)
    } else {
        i
    }
}

/// The end of the maximal uppercase run starting at `i`.
pub open spec fn upper_end(s: Seq<char>, i: int) -> int
    decreases s.len() - i,
{
    if 0 <= i < s.len() && is_upper(s[i]) {
        upper_end(s, i + 1)
    } else {
        i
    }
}

/// The end of the maximal account-name-character run starting at `i`.
pub open spec fn name_end(s: Seq<char>, i: int) -> int
    decreases s.len() - i,
{
    if 0 <= i < s.len() && is_name_char(s[i]) {
        name_end(s, i + 1)
    } else {
        i
    }
}

/// The end of the maximal non-line-ending run starting at `i`.
pub open spec fn comment_end(s: Seq<char>, i: int) -> int
    decreases s.len() - i,
{
    if 0 <= i < s.len() && is_comment_char(s[i]) {
        comment_end(s, i + 1)
    } else {
        i
    }
}

/// The end of the maximal non-quote run starting at `i`.
pub open spec fn non_quote_end(s: Seq<char>, i: int) -> int
    decreases s.len() - i,
{
    if 0 <= i < s.len() && is_non_quote(s[i]) {
        non_quote_end(s, i + 1)
    } else {
        i
    }
}

// --- Positions ---------------------------------------------------------

/// The number of newline characters strictly before `i`.
pub open spec fn newline_count(s: Seq<char>, i: int) -> int
    decreases i,
{
    if i <= 0 || i > s.len() {
        0
    } else {
        newline_count(s, i - 1) + if s[i - 1] == '\n' {
            1int
        } else {
            0int
        }
    }
}

/// The index of the last newline strictly before `i`, or `-1`.
pub open spec fn last_newline_before(s: Seq<char>, i: int) -> int
    decreases i,
{
    if i <= 0 || i > s.len() {
        -1
    } else if s[i - 1] == '\n' {
        i - 1
    } else {
        last_newline_before(s, i - 1)
    }
}

/// The 1-indexed line of the cursor: one more than the newlines before it.
pub open spec fn spec_line(s: Seq<char>, i: int) -> int {
    1 + newline_count(s, i)
}

/// The 1-indexed column of the cursor: its distance back to the most recent
/// newline. A cursor at the start of the buffer is at column one; on the
/// first line the distance is measured to the start of the buffer.
pub open spec fn spec_column(s: Seq<char>, i: int) -> int {
    if i == 0 {
        1
    } else if last_newline_before(s, i) >= 0 {
        i - last_newline_before(s, i)
    } else {
        i
    }
}

// --- Trivia ------------------------------------------------------------

/// The end of a `;` comment: everything up to the next line ending.
pub open spec fn skip_comment(s: Seq<char>, i: int) -> int {
    comment_end(s, i)
}

/// Skips horizontal whitespace and comments. A comment ends at a line
/// ending, which no skip consumes, so one comment step suffices.
pub open spec fn skip_trivia(s: Seq<char>, i: int) -> int
    decreases s.len() - i,
{
    if 0 <= i < s.len() {
        if is_hws(s[i]) {
            skip_trivia(s, i + 1)
        } else if s[i] == ';' {
            skip_comment(s, i + 1)
        } else {
            i
        }
    } else {
        i
    }
}

// --- Recognizers ---------------------------------------------------------

/// Whether the literal occurs in `s` at position `i`.
pub open spec fn match_lit(s: Seq<char>, i: int, lit: Seq<char>) -> bool {
    0 <= i && i + lit.len() <= s.len() && s.subrange(i, i + lit.len()) == lit
}

/// An `option "<k>" "<v>"` line at `i`: the keyword, then two quoted
/// non-empty strings separated by whitespace, then a boundary. Returns the
/// cursor after the closing quote.
pub open spec fn option_match(s: Seq<char>, i: int) -> Option<int> {
    if match_lit(s, i, "option"@) {
        let a = sws_end(s, i + 6);
        if a > i + 6 && a < s.len() && s[a] == '"' {
            let q1 = non_quote_end(s, a + 1);
            if q1 > a + 1 && q1 < s.len() && s[q1] == '"' {
                let b = sws_end(s, q1 + 1);
                if b > q1 + 1 && b < s.len() && s[b] == '"' {
                    let q2 = non_quote_end(s, b + 1);
                    if q2 > b + 1 && q2 < s.len() && s[q2] == '"' && boundary_ok(s, q2 + 1) {
                        Some(q2 + 1)
                    } else {
                        None
                    }
                } else {
                    None
                }
            } else {
                None
            }
        } else {
            None
        }
    } else {
        None
    }
}

/// A `YYYY-MM-DD` literal at `i`, followed by a boundary.
pub open spec fn date_match(s: Seq<char>, i: int) -> bool {
    &&& 0 <= i
    &&& i + 10 <= s.len()
    &&& (forall|k: int| i <= k < i + 4 ==> is_digit(#[trigger] s[k]))
    &&& s[i + 4] == '-'
    &&& is_digit(s[i + 5]) && is_digit(s[i + 6])
    &&& s[i + 7] == '-'
    &&& is_digit(s[i + 8]) && is_digit(s[i + 9])
    &&& boundary_ok(s, i + 10)
}

/// Digits only, at least one.
pub open spec fn all_digits(t: Seq<char>) -> bool {
    forall|k: int| 0 <= k < t.len() ==> is_digit(#[trigger] t[k])
}

/// One to three digits followed by groups of a comma and exactly three
/// digits (thousands grouping).
pub open spec fn comma_grouped(t: Seq<char>) -> bool
    decreases t.len(),
{
    if t.len() <= 3 {
        t.len() >= 1 && all_digits(t)
    } else {
        &&& is_digit(t[t.len() - 1])
        &&& is_digit(t[t.len() - 2])
        &&& is_digit(t[t.len() - 3])
        &&& t[t.len() - 4] == ','
        &&& comma_grouped(t.take(t.len() - 4))
    }
}

/// The integer part of an amount: plain digits, or comma-grouped digits.
pub open spec fn valid_digit_group(t: Seq<char>) -> bool {
    (t.len() >= 1 && all_digits(t)) || comma_grouped(t)
}

/// The shape of an amount token: where its pieces start and end.
pub struct AmountShape {
    /// Whether a leading minus sign is present.
    pub neg: bool,
    /// Start of the integer digit run (after any sign).
    pub digits_start: int,
    /// End of the integer digit-and-comma run.
    pub digits_end: int,
    /// Start and end of the fraction digits; both equal `digits_end` when
    /// there is no fraction.
    pub frac_start: int,
    pub frac_end: int,
    /// Start and end of the currency code.
    pub cur_start: int,
    pub cur_end: int,
}

/// An amount at `i`: an optional sign, an integer part (optionally with
/// thousands separators), an optional fraction, horizontal whitespace, and
/// an uppercase currency code of three or more letters, then a boundary.
pub open spec fn amount_match(s: Seq<char>, i: int) -> Option<AmountShape> {
    if 0 <= i < s.len() {
        let neg = s[i] == '-';
        let d0 = if neg {
            i + 1
        } else {
            i
        };
        let r = dc_end(s, d0);
        if r > d0 && valid_digit_group(s.subrange(d0, r)) {
            let has_frac = r < s.len() && s[r] == '.';
            let fs = if has_frac {
                r + 1
            } else {
                r
            };
            let fe = if has_frac {
                digits_end(s, r + 1)
            } else {
                r
            };
            if has_frac && fe == fs {
                None
            } else {
                let cs = hws_end(s, fe);
                let ce = upper_end(s, cs);
                if ce - cs >= 3 && boundary_ok(s, ce) {
                    Some(
                        AmountShape {
                            neg,
                            digits_start: d0,
                            digits_end: r,
                            frac_start: fs,
                            frac_end: fe,
                            cur_start: cs,
                            cur_end: ce,
                        },
                    )
                } else {
                    None
                }
            }
        } else {
            None
        }
    } else {
        None
    }
}

/// The digits of an amount's mantissa between `i` and `end`: every digit in
/// order, with separators and the decimal point dropped.
pub open spec fn mantissa_digits(s: Seq<char>, i: int, end: int) -> Seq<char>
    decreases end - i,
{
    if i < 0 || i >= end || end > s.len() {
        Seq::empty()
    } else if s[i] == ',' || s[i] == '.' {
        mantissa_digits(s, i + 1, end)
    } else {
        seq![s[i]] + mantissa_digits(s, i + 1, end)
    }
}

/// The number a digit sequence denotes.
pub open spec fn digits_value(t: Seq<char>) -> int
    decreases t.len(),
{
    if t.len() == 0 {
        0
    } else {
        digits_value(t.drop_last()) * 10 + (t.last() as u32 - 48)
    }
}

/// The mantissa digit sequence of a matched amount.
pub open spec fn amount_mantissa(s: Seq<char>, shape: AmountShape) -> Seq<char> {
    mantissa_digits(s, shape.digits_start, shape.frac_end)
}

/// The decimal a matched amount denotes, when the exact value is
/// representable: `None` is the "too many digits" case.
pub open spec fn amount_dec(s: Seq<char>, shape: AmountShape) -> Option<Dec> {
    let v = digits_value(amount_mantissa(s, shape));
    if v > u128::MAX {
        None
    } else {
        dec_of_int_scale(
            if shape.neg {
                -v
            } else {
                v
            },
            (shape.frac_end - shape.frac_start) as nat,
        )
    }
}

/// An account reference at `i`: one of the five fixed labels, a colon, an
/// uppercase letter, one or more name characters, then a boundary. Returns
/// the account kind, the name start, and the name end.
pub open spec fn account_match(s: Seq<char>, i: int) -> Option<(AccountType, int, int)> {
    let label = if match_lit(s, i, "Assets"@) {
        Some((AccountType::Asset, i + 6))
    } else if match_lit(s, i, "Liabilities"@) {
        Some((AccountType::Liability, i + 11))
    } else if match_lit(s, i, "Expenses"@) {
        Some((AccountType::Expense, i + 8))
    } else if match_lit(s, i, "Income"@) {
        Some((AccountType::Income, i + 6))
    } else if match_lit(s, i, "Equity"@) {
        Some((AccountType::Equity, i + 6))
    } else {
        None
    };
    match label {
        None => None,
        Some((t, a)) => {
            if a + 1 < s.len() && s[a] == ':' && is_upper(s[a + 1]) {
                let ne = name_end(s, a + 2);
                if ne > a + 2 && boundary_ok(s, ne) {
                    Some((t, a + 1, ne))
                } else {
                    None
                }
            } else {
                None
            }
        },
    }
}

/// A bare currency code at `i`: one or more uppercase letters, then a
/// boundary. Returns the end of the run.
pub open spec fn currency_match(s: Seq<char>, i: int) -> Option<int> {
    let e = upper_end(s, i);
    if e > i && boundary_ok(s, e) {
        Some(e)
    } else {
        None
    }
}

/// A quoted description at `i`: a quote, one or more non-quote characters, a
/// closing quote, then a boundary. Returns the cursor after the close.
pub open spec fn description_match(s: Seq<char>, i: int) -> Option<int> {
    if 0 <= i < s.len() && s[i] == '"' {
        let q = non_quote_end(s, i + 1);
        if q > i + 1 && q < s.len() && s[q] == '"' && boundary_ok(s, q + 1) {
            Some(q + 1)
        } else {
            None
        }
    } else {
        None
    }
}

/// A newline at `i`: `\n`, or `\r\n`. Returns the cursor after it.
pub open spec fn newline_match(s: Seq<char>, i: int) -> Option<int> {
    if 0 <= i < s.len() && s[i] == '\n' {
        Some(i + 1)
    } else if 0 <= i && i + 2 <= s.len() && s[i] == '\r' && s[i + 1] == '\n' {
        Some(i + 2)
    } else {
        None
    }
}

// --- The lexer's functional specification --------------------------------

/// What one lexing step yields: clean end of input, a token with the cursor
/// after it, or a lexical error (the cursor does not move).
pub enum LexOutcome {
    End,
    Tok(TokenV, int),
    Fail(TokenizeErrorV),
}

/// The lexical error at position `i`.
pub open spec fn unexpected_at(s: Seq<char>, i: int) -> TokenizeErrorV {
    TokenizeErrorV {
        msg: "unexpected character sequence"@,
        line: spec_line(s, i) as nat,
        column: spec_column(s, i) as nat,
    }
}

/// Tries the recognizers at `i` (trivia already skipped) in priority order.
pub open spec fn spec_dispatch(s: Seq<char>, i: int) -> LexOutcome {
    let line = spec_line(s, i) as nat;
    let column = spec_column(s, i) as nat;
    if option_match(s, i) is Some {
        LexOutcome::Tok(TokenV { kind: TokenKindV::OptionLine, line, column }, option_match(s, i)->Some_0)
    } else if date_match(s, i) {
        LexOutcome::Tok(
            TokenV { kind: TokenKindV::Date(s.subrange(i, i + 10)), line, column },
            i + 10,
        )
    } else if amount_match(s, i) is Some {
        let shape = amount_match(s, i)->Some_0;
        match amount_dec(s, shape) {
            None => LexOutcome::Fail(
                TokenizeErrorV { msg: "decimal has too many digits"@, line, column },
            ),
            Some(d) => LexOutcome::Tok(
                TokenV {
                    kind: TokenKindV::Amount(
                        AmountV {
                            currency: s.subrange(shape.cur_start, shape.cur_end),
                            amount: d,
                        },
                    ),
                    line,
                    column,
                },
                shape.cur_end,
            ),
        }
    } else if match_lit(s, i, "open"@) && boundary_ok(s, i + 4) {
        LexOutcome::Tok(TokenV { kind: TokenKindV::DirectiveOpen, line, column }, i + 4)
    } else if 0 <= i < s.len() && s[i] == '*' && boundary_ok(s, i + 1) {
        LexOutcome::Tok(TokenV { kind: TokenKindV::DirectivePostTx, line, column }, i + 1)
    } else if account_match(s, i) is Some {
        let (t, ns, ne) = account_match(s, i)->Some_0;
        LexOutcome::Tok(
            TokenV {
                kind: TokenKindV::Account(AccountIdV { name: s.subrange(ns, ne), type_: t }),
                line,
                column,
            },
            ne,
        )
    } else if currency_match(s, i) is Some {
        let e = currency_match(s, i)->Some_0;
        LexOutcome::Tok(
            TokenV { kind: TokenKindV::Currency(s.subrange(i, e)), line, column },
            e,
        )
    } else if description_match(s, i) is Some {
        LexOutcome::Tok(
            TokenV { kind: TokenKindV::TxDescription, line, column },
            description_match(s, i)->Some_0,
        )
    } else if 0 <= i < s.len() && s[i] == '@' && boundary_ok(s, i + 1) {
        LexOutcome::Tok(TokenV { kind: TokenKindV::At, line, column }, i + 1)
    } else if newline_match(s, i) is Some {
        LexOutcome::Tok(
            TokenV { kind: TokenKindV::Newline, line, column },
            newline_match(s, i)->Some_0,
        )
    } else {
        LexOutcome::Fail(unexpected_at(s, i))
    }
}

/// The lexer's whole behaviour at a cursor: skip whitespace and comments,
/// report a clean end past the buffer, otherwise dispatch the recognizers.
/// This is a function of the buffer and cursor alone, so re-lexing a buffer
/// always yields the same token sequence. Opaque: reason about a lexing step
/// through [`Tokenizer::next_token`]'s contract, or reveal it.
#[verifier::opaque]
pub open spec fn spec_next_token(s: Seq<char>, i: int) -> LexOutcome {
    let j = skip_trivia(s, i);
    if j >= s.len() {
        LexOutcome::End
    } else {
        spec_dispatch(s, j)
    }
}

/// Lexing is deterministic: two lexers over equal buffers with equal cursors
/// take the same step — the same token, end, or error, and the same new
/// cursor. Combined with [`Tokenizer::next_token`]'s contract, which pins
/// every call's outcome to [`spec_next_token`], re-lexing a buffer yields an
/// identical token sequence.
pub proof fn lemma_relex_deterministic(a: TokenizerV, b: TokenizerV)
    requires
        a.buffer == b.buffer,
        a.cursor == b.cursor,
    ensures
        spec_next_token(a.buffer, a.cursor) == spec_next_token(b.buffer, b.cursor),
        skip_trivia(a.buffer, a.cursor) == skip_trivia(b.buffer, b.cursor),
{
}

// --- The executable lexer ------------------------------------------------

/// Creates [`Token`]s from a raw buffer. The cursor sits between characters:
/// everything before it has been consumed. Call [`Tokenizer::next_token`]
/// repeatedly; it yields a token, `Ok(None)` at the clean end of the buffer,
/// or a positioned error.
pub struct Tokenizer {
    buffer: String,
    chars: Vec<char>,
    cursor: usize,
}

/// Specification-level lexer state: the buffer's characters and the cursor.
pub struct TokenizerV {
    pub buffer: Seq<char>,
    pub cursor: int,
}

impl View for Tokenizer {
    type V = TokenizerV;

    closed spec fn view(&self) -> TokenizerV {
        TokenizerV { buffer: self.buffer@, cursor: self.cursor as int }
    }
}

impl Tokenizer {
    /// Internal consistency: the character table mirrors the buffer and the
    /// cursor stays inside it.
    pub closed spec fn wf(&self) -> bool {
        &&& self.chars@ == self.buffer@
        &&& self.cursor <= self.buffer@.len()
    }

    /// A lexer over the whole buffer, with the cursor at the start.
    pub fn new(buffer: String) -> (r: Tokenizer)
        ensures
            r@.buffer == buffer@,
            r@.cursor == 0,
            r.wf(),
    {
        let n = buffer.as_str().unicode_len();
        let mut chars: Vec<char> = Vec::new();
        let mut i: usize = 0;
        while i < n
            invariant
                i <= n,
                n == buffer@.len(),
                chars@.len() == i,
                forall|k: int| 0 <= k < i ==> chars@[k] == buffer@[k],
            decreases n - i,
        {
            chars.push(buffer.as_str().get_char(i));
            i = i + 1;
        }
        proof {
            assert(chars@ =~= buffer@);
        }
        Tokenizer { buffer, chars, cursor: 0 }
    }

    /// Moves the cursor to an absolute position.
    pub fn set_cursor(&mut self, pos: usize)
        requires
            old(self).wf(),
            pos <= old(self)@.buffer.len(),
        ensures
            final(self).wf(),
            final(self)@.buffer == old(self)@.buffer,
            final(self)@.cursor == pos,
    {
        self.cursor = pos;
    }

    /// The characters from `from` (inclusive) to `to` (exclusive).
    fn substring(&self, from: usize, to: usize) -> (r: String)
        requires
            self.wf(),
            from <= to <= self@.buffer.len(),
        ensures
            r@ == self@.buffer.subrange(from as int, to as int),
    {
        String::from_str(self.buffer.as_str().substring_char(from, to))
    }

    /// The end of the maximal horizontal-whitespace run at `from`.
    fn scan_hws(&self, from: usize) -> (r: usize)
        requires
            self.wf(),
            from <= self@.buffer.len(),
        ensures
            r == hws_end(self@.buffer, from as int),
            from <= r <= self@.buffer.len(),
    {
        let mut k = from;
        while k < self.chars.len() && (self.chars[k] == ' ' || self.chars[k] == '\t')
            invariant
                self.wf(),
                from <= k <= self@.buffer.len(),
                hws_end(self@.buffer, from as int) == hws_end(self@.buffer, k as int),
            decreases self@.buffer.len() - k,
        {
            k = k + 1;
        }
        k
    }

    /// The end of the maximal option-whitespace run at `from`.
    fn scan_sws(&self, from: usize) -> (r: usize)
        requires
            self.wf(),
            from <= self@.buffer.len(),
        ensures
            r == sws_end(self@.buffer, from as int),
            from <= r <= self@.buffer.len(),
    {
        let mut k = from;
        while k < self.chars.len() && (self.chars[k] == ' ' || self.chars[k] == '\t'
            || self.chars[k] == '\n' || self.chars[k] == '\r')
            invariant
                self.wf(),
                from <= k <= self@.buffer.len(),
                sws_end(self@.buffer, from as int) == sws_end(self@.buffer, k as int),
            decreases self@.buffer.len() - k,
        {
            k = k + 1;
        }
        k
    }

    /// The end of the maximal digit run at `from`.
    fn scan_digits(&self, from: usize) -> (r: usize)
        requires
            self.wf(),
            from <= self@.buffer.len(),
        ensures
            r == digits_end(self@.buffer, from as int),
            from <= r <= self@.buffer.len(),
    {
        let mut k = from;
        while k < self.chars.len() && (self.chars[k] as u32) >= 48 && (self.chars[k] as u32) <= 57
            invariant
                self.wf(),
                from <= k <= self@.buffer.len(),
                digits_end(self@.buffer, from as int) == digits_end(self@.buffer, k as int),
            decreases self@.buffer.len() - k,
        {
            k = k + 1;
        }
        k
    }

    /// The end of the maximal digit-or-comma run at `from`.
    fn scan_dc(&self, from: usize) -> (r: usize)
        requires
            self.wf(),
            from <= self@.buffer.len(),
        ensures
            r == dc_end(self@.buffer, from as int),
            from <= r <= self@.buffer.len(),
    {
        let mut k = from;
        while k < self.chars.len() && ((self.chars[k] as u32) >= 48 && (self.chars[k] as u32) <= 57
            || self.chars[k] == ',')
            invariant
                self.wf(),
                from <= k <= self@.buffer.len(),
                dc_end(self@.buffer, from as int) == dc_end(self@.buffer, k as int),
            decreases self@.buffer.len() - k,
        {
            k = k + 1;
        }
        k
    }

    /// The end of the maximal uppercase run at `from`.
    fn scan_upper(&self, from: usize) -> (r: usize)
        requires
            self.wf(),
            from <= self@.buffer.len(),
        ensures
            r == upper_end(self@.buffer, from as int),
            from <= r <= self@.buffer.len(),
    {
        let mut k = from;
        while k < self.chars.len() && (self.chars[k] as u32) >= 65 && (self.chars[k] as u32) <= 90
            invariant
                self.wf(),
                from <= k <= self@.buffer.len(),
                upper_end(self@.buffer, from as int) == upper_end(self@.buffer, k as int),
            decreases self@.buffer.len() - k,
        {
            k = k + 1;
        }
        k
    }

    /// The end of the maximal account-name-character run at `from`.
    fn scan_name(&self, from: usize) -> (r: usize)
        requires
            self.wf(),
            from <= self@.buffer.len(),
        ensures
            r == name_end(self@.buffer, from as int),
            from <= r <= self@.buffer.len(),
    {
        let mut k = from;
        while k < self.chars.len() && ((self.chars[k] as u32) >= 65 && (self.chars[k] as u32) <= 90
            || (self.chars[k] as u32) >= 97 && (self.chars[k] as u32) <= 122 || (self.chars[k]
            as u32) >= 48 && (self.chars[k] as u32) <= 57 || self.chars[k] == '-')
            invariant
                self.wf(),
                from <= k <= self@.buffer.len(),
                name_end(self@.buffer, from as int) == name_end(self@.buffer, k as int),
            decreases self@.buffer.len() - k,
        {
            k = k + 1;
        }
        k
    }

    /// The end of the maximal non-line-ending run at `from`.
    fn scan_comment(&self, from: usize) -> (r: usize)
        requires
            self.wf(),
            from <= self@.buffer.len(),
        ensures
            r == comment_end(self@.buffer, from as int),
            from <= r <= self@.buffer.len(),
    {
        let mut k = from;
        while k < self.chars.len() && self.chars[k] != '\r' && self.chars[k] != '\n'
            invariant
                self.wf(),
                from <= k <= self@.buffer.len(),
                comment_end(self@.buffer, from as int) == comment_end(self@.buffer, k as int),
            decreases self@.buffer.len() - k,
        {
            k = k + 1;
        }
        k
    }

    /// The end of the maximal non-quote run at `from`.
    fn scan_non_quote(&self, from: usize) -> (r: usize)
        requires
            self.wf(),
            from <= self@.buffer.len(),
        ensures
            r == non_quote_end(self@.buffer, from as int),
            from <= r <= self@.buffer.len(),
    {
        let mut k = from;
        while k < self.chars.len() && self.chars[k] != '"'
            invariant
                self.wf(),
                from <= k <= self@.buffer.len(),
                non_quote_end(self@.buffer, from as int) == non_quote_end(self@.buffer, k as int),
            decreases self@.buffer.len() - k,
        {
            k = k + 1;
        }
        k
    }

    /// Whether the literal occurs in the buffer at position `i`.
    fn match_lit_at(&self, i: usize, lit: &str) -> (r: bool)
        requires
            self.wf(),
        ensures
            r == match_lit(self@.buffer, i as int, lit@),
    {
        let ghost s = self@.buffer;
        let n = lit.unicode_len();
        if i > self.chars.len() || n > self.chars.len() - i {
            return false;
        }
        let mut k: usize = 0;
        while k < n
            invariant
                self.wf(),
                s == self@.buffer,
                n == lit@.len(),
                i + n <= s.len(),
                s.len() <= usize::MAX,
                k <= n,
                forall|m: int| 0 <= m < k ==> s[i + m] == lit@[m],
            decreases n - k,
        {
            if self.chars[i + k] != lit.get_char(k) {
                proof {
                    assert(s.subrange(i as int, i + n) != lit@) by {
                        assert(s.subrange(i as int, i + n)[k as int] == s[i + k]);
                    }
                }
                return false;
            }
            k = k + 1;
        }
        proof {
            assert(s.subrange(i as int, i + n) =~= lit@);
        }
        true
    }

    /// Whether the token ending at `i` is followed by a boundary.
    fn boundary_at(&self, i: usize) -> (r: bool)
        requires
            self.wf(),
        ensures
            r == boundary_ok(self@.buffer, i as int),
    {
        if i >= self.chars.len() {
            true
        } else {
            let c = self.chars[i];
            c == ' ' || c == '\t' || c == '\n' || c == '\r'
        }
    }

    /// The 1-indexed line of the cursor: one more than the number of
    /// newlines before it.
    fn current_line(&self) -> (r: usize)
        requires
            self.wf(),
            self@.cursor < usize::MAX,
        ensures
            r == spec_line(self@.buffer, self@.cursor),
    {
        let ghost s = self@.buffer;
        let mut count: usize = 0;
        let mut k: usize = 0;
        while k < self.cursor
            invariant
                self.wf(),
                s == self@.buffer,
                k <= self.cursor <= s.len(),
                count == newline_count(s, k as int),
                count <= k,
            decreases self.cursor - k,
        {
            if self.chars[k] == '\n' {
                count = count + 1;
            }
            k = k + 1;
        }
        1 + count
    }

    /// The 1-indexed column of the cursor: its distance back to the most
    /// recent newline, or to the start of the buffer on the first line.
    fn current_column(&self) -> (r: usize)
        requires
            self.wf(),
        ensures
            r == spec_column(self@.buffer, self@.cursor),
    {
        let ghost s = self@.buffer;
        if self.cursor == 0 {
            return 1;
        }
        let mut last: usize = 0;
        let mut seen = false;
        let mut k: usize = 0;
        while k < self.cursor
            invariant
                self.wf(),
                s == self@.buffer,
                k <= self.cursor <= s.len(),
                seen ==> last < k && s[last as int] == '\n' && last_newline_before(s, k as int)
                    == last,
                !seen ==> last_newline_before(s, k as int) == -1,
            decreases self.cursor - k,
        {
            if self.chars[k] == '\n' {
                last = k;
                seen = true;
            }
            k = k + 1;
        }
        if seen {
            self.cursor - last
        } else {
            self.cursor
        }
    }

    /// The current 1-indexed `(line, column)` of the cursor.
    pub fn current_line_column(&self) -> (r: (usize, usize))
        requires
            self.wf(),
            self@.cursor < usize::MAX,
        ensures
            r.0 == spec_line(self@.buffer, self@.cursor),
            r.1 == spec_column(self@.buffer, self@.cursor),
    {
        (self.current_line(), self.current_column())
    }
}

// --- Run lemmas ----------------------------------------------------------

/// A comment run stops at a line ending or the end of the buffer.
proof fn lemma_comment_end_stops(s: Seq<char>, i: int)
    ensures
        comment_end(s, i) >= s.len() || !is_comment_char(s[comment_end(s, i)]) || comment_end(
            s,
            i,
        ) < 0,
    decreases s.len() - i,
{
    if 0 <= i < s.len() && is_comment_char(s[i]) {
        lemma_comment_end_stops(s, i + 1);
    }
}

/// Every character of a digit-or-comma run is a digit or a comma.
proof fn lemma_dc_run_chars(s: Seq<char>, i: int)
    ensures
        forall|k: int| i <= k < dc_end(s, i) ==> is_digit_or_comma(#[trigger] s[k]),
    decreases s.len() - i,
{
    if 0 <= i < s.len() && is_digit_or_comma(s[i]) {
        lemma_dc_run_chars(s, i + 1);
    }
}

/// Every character of a digit run is a digit.
proof fn lemma_digit_run_chars(s: Seq<char>, i: int)
    ensures
        forall|k: int| i <= k < digits_end(s, i) ==> is_digit(#[trigger] s[k]),
    decreases s.len() - i,
{
    if 0 <= i < s.len() && is_digit(s[i]) {
        lemma_digit_run_chars(s, i + 1);
    }
}

/// A character a mantissa span may hold: a digit or a separator.
spec fn is_mantissa_char(c: char) -> bool {
    is_digit(c) || c == ',' || c == '.'
}

/// Extending a mantissa span by one character appends that character's
/// digit, or nothing for a separator.
proof fn lemma_mantissa_extend(s: Seq<char>, i: int, end: int)
    requires
        0 <= i <= end < s.len(),
    ensures
        mantissa_digits(s, i, end + 1) == mantissa_digits(s, i, end) + (if s[end] == ',' || s[end]
            == '.' {
            Seq::<char>::empty()
        } else {
            seq![s[end]]
        }),
    decreases end - i,
{
    let tail = if s[end] == ',' || s[end] == '.' {
        Seq::<char>::empty()
    } else {
        seq![s[end]]
    };
    if i == end {
        assert(mantissa_digits(s, i, end) == Seq::<char>::empty());
        assert(mantissa_digits(s, end + 1, end + 1) == Seq::<char>::empty());
        assert(mantissa_digits(s, i, end + 1) =~= Seq::<char>::empty() + tail);
    } else {
        lemma_mantissa_extend(s, i + 1, end);
        if s[i] == ',' || s[i] == '.' {
        } else {
            assert(seq![s[i]] + (mantissa_digits(s, i + 1, end) + tail) =~= (seq![s[i]]
                + mantissa_digits(s, i + 1, end)) + tail);
        }
    }
}

/// The digits of a mantissa span are digits when the span holds only
/// mantissa characters.
proof fn lemma_mantissa_all_digits(s: Seq<char>, i: int, end: int)
    requires
        forall|k: int| i <= k < end ==> is_mantissa_char(#[trigger] s[k]),
    ensures
        all_digits(mantissa_digits(s, i, end)),
    decreases end - i,
{
    if 0 <= i && i < end && end <= s.len() {
        lemma_mantissa_all_digits(s, i + 1, end);
        if s[i] == ',' || s[i] == '.' {
        } else {
            let rest = mantissa_digits(s, i + 1, end);
            assert(forall|k: int|
                0 <= k < (seq![s[i]] + rest).len() ==> is_digit(#[trigger] (seq![s[i]] + rest)[k]))
                by {
                assert(forall|k: int| 1 <= k < 1 + rest.len() ==> (seq![s[i]] + rest)[k] == rest[
                    k - 1]);
            }
        }
    }
}

/// A digit sequence denotes a nonnegative number.
proof fn lemma_digits_value_nonneg(t: Seq<char>)
    requires
        all_digits(t),
    ensures
        digits_value(t) >= 0,
    decreases t.len(),
{
    if t.len() > 0 {
        assert(all_digits(t.drop_last()));
        lemma_digits_value_nonneg(t.drop_last());
        assert(is_digit(t.last()));
    }
}

/// Appending a digit multiplies the value by ten and adds the digit.
proof fn lemma_digits_value_push(t: Seq<char>, c: char)
    ensures
        digits_value(t.push(c)) == digits_value(t) * 10 + (c as u32 - 48),
{
    assert(t.push(c).drop_last() =~= t);
    assert(t.push(c).last() == c);
    assert(digits_value(t) * 10 == 10 * digits_value(t)) by (nonlinear_arith);
}

/// A longer mantissa span never denotes a smaller number.
proof fn lemma_mantissa_value_monotone(s: Seq<char>, i: int, e1: int, e2: int)
    requires
        0 <= i <= e1 <= e2 <= s.len(),
        forall|k: int| i <= k < e2 ==> is_mantissa_char(#[trigger] s[k]),
    ensures
        digits_value(mantissa_digits(s, i, e2)) >= digits_value(mantissa_digits(s, i, e1)),
    decreases e2 - e1,
{
    if e1 < e2 {
        lemma_mantissa_value_monotone(s, i, e1, e2 - 1);
        lemma_mantissa_extend(s, i, e2 - 1);
        let t = mantissa_digits(s, i, e2 - 1);
        lemma_mantissa_all_digits(s, i, e2 - 1);
        lemma_digits_value_nonneg(t);
        if s[e2 - 1] == ',' || s[e2 - 1] == '.' {
            assert(mantissa_digits(s, i, e2) =~= t);
        } else {
            assert(mantissa_digits(s, i, e2) =~= t.push(s[e2 - 1]));
            lemma_digits_value_push(t, s[e2 - 1]);
            assert(is_digit(s[e2 - 1]));
            assert(digits_value(t) * 10 >= digits_value(t)) by (nonlinear_arith)
                requires
                    digits_value(t) >= 0,
            ;
        }
    }
}

/// The executable shape of a matched amount; see [`AmountShape`].
struct AmountSpan {
    neg: bool,
    digits_start: usize,
    frac_start: usize,
    frac_end: usize,
    cur_start: usize,
    cur_end: usize,
}

impl Tokenizer {
    /// Whether `[from, to)` holds only digits.
    fn all_digits_in(&self, from: usize, to: usize) -> (r: bool)
        requires
            self.wf(),
            from <= to <= self@.buffer.len(),
        ensures
            r == all_digits(self@.buffer.subrange(from as int, to as int)),
    {
        let ghost s = self@.buffer;
        let ghost t = s.subrange(from as int, to as int);
        let mut k = from;
        while k < to
            invariant
                self.wf(),
                s == self@.buffer,
                t == s.subrange(from as int, to as int),
                from <= k <= to <= s.len(),
                forall|m: int| 0 <= m < k - from ==> is_digit(#[trigger] t[m]),
            decreases to - k,
        {
            let c = self.chars[k] as u32;
            if !(48 <= c && c <= 57) {
                proof {
                    assert(t[k - from] == s[k as int]);
                }
                return false;
            }
            proof {
                assert(t[k - from] == s[k as int]);
            }
            k = k + 1;
        }
        true
    }

    /// Whether `[from, to)` is a comma-grouped digit sequence.
    fn comma_grouped_in(&self, from: usize, to: usize) -> (r: bool)
        requires
            self.wf(),
            from <= to <= self@.buffer.len(),
        ensures
            r == comma_grouped(self@.buffer.subrange(from as int, to as int)),
    {
        let ghost s = self@.buffer;
        let mut k = to;
        while k - from > 3
            invariant
                self.wf(),
                s == self@.buffer,
                from <= k <= to <= s.len(),
                comma_grouped(s.subrange(from as int, to as int)) == comma_grouped(
                    s.subrange(from as int, k as int),
                ),
            decreases k,
        {
            let ghost t = s.subrange(from as int, k as int);
            proof {
                assert(t.len() > 3);
                assert(t[t.len() - 1] == s[k - 1]);
                assert(t[t.len() - 2] == s[k - 2]);
                assert(t[t.len() - 3] == s[k - 3]);
                assert(t[t.len() - 4] == s[k - 4]);
                assert(t.take(t.len() - 4) =~= s.subrange(from as int, k - 4));
            }
            let c1 = self.chars[k - 1] as u32;
            let c2 = self.chars[k - 2] as u32;
            let c3 = self.chars[k - 3] as u32;
            if !(48 <= c1 && c1 <= 57 && 48 <= c2 && c2 <= 57 && 48 <= c3 && c3 <= 57
                && self.chars[k - 4] == ',') {
                return false;
            }
            k = k - 4;
        }
        let ghost t = s.subrange(from as int, k as int);
        proof {
            assert(t.len() <= 3);
        }
        if k == from {
            proof {
                assert(!comma_grouped(t));
            }
            false
        } else {
            self.all_digits_in(from, k)
        }
    }

    /// Recognizes an `option` line at `i`.
    fn try_option(&self, i: usize) -> (r: Option<usize>)
        requires
            self.wf(),
        ensures
            match r {
                Some(e) => option_match(self@.buffer, i as int) == Some(e as int),
                None => option_match(self@.buffer, i as int) is None,
            },
            r matches Some(e) ==> i < e <= self@.buffer.len(),
    {
        // The character count fits a machine word; later index sums need it.
        let _buf_len = self.chars.len();
        if !self.match_lit_at(i, "option") {
            return None;
        }
        proof {
            reveal_strlit("option");
        }
        let a = self.scan_sws(i + 6);
        if a == i + 6 || a >= self.chars.len() || self.chars[a] != '"' {
            return None;
        }
        let q1 = self.scan_non_quote(a + 1);
        if q1 == a + 1 || q1 >= self.chars.len() || self.chars[q1] != '"' {
            return None;
        }
        let b = self.scan_sws(q1 + 1);
        if b == q1 + 1 || b >= self.chars.len() || self.chars[b] != '"' {
            return None;
        }
        let q2 = self.scan_non_quote(b + 1);
        if q2 == b + 1 || q2 >= self.chars.len() || self.chars[q2] != '"' {
            return None;
        }
        if !self.boundary_at(q2 + 1) {
            return None;
        }
        Some(q2 + 1)
    }

    /// Recognizes a `YYYY-MM-DD` literal at `i`.
    fn try_date(&self, i: usize) -> (r: bool)
        requires
            self.wf(),
        ensures
            r == date_match(self@.buffer, i as int),
    {
        let ghost s = self@.buffer;
        if i > self.chars.len() || self.chars.len() - i < 10 {
            return false;
        }
        let c0 = self.chars[i] as u32;
        let c1 = self.chars[i + 1] as u32;
        let c2 = self.chars[i + 2] as u32;
        let c3 = self.chars[i + 3] as u32;
        let c5 = self.chars[i + 5] as u32;
        let c6 = self.chars[i + 6] as u32;
        let c8 = self.chars[i + 8] as u32;
        let c9 = self.chars[i + 9] as u32;
        let digits_ok = 48 <= c0 && c0 <= 57 && 48 <= c1 && c1 <= 57 && 48 <= c2 && c2 <= 57 && 48
            <= c3 && c3 <= 57 && 48 <= c5 && c5 <= 57 && 48 <= c6 && c6 <= 57 && 48 <= c8 && c8
            <= 57 && 48 <= c9 && c9 <= 57;
        let dashes_ok = self.chars[i + 4] == '-' && self.chars[i + 7] == '-';
        if digits_ok && dashes_ok && self.boundary_at(i + 10) {
            proof {
                assert(forall|k: int|
                    i <= k < i + 4 ==> is_digit(#[trigger] s[k])) by {
                    assert(is_digit(s[i as int]) && is_digit(s[i + 1]) && is_digit(s[i + 2])
                        && is_digit(s[i + 3]));
                }
            }
            true
        } else {
            false
        }
    }

    /// Recognizes the shape of an amount at `i`.
    fn try_amount_shape(&self, i: usize) -> (r: Option<AmountSpan>)
        requires
            self.wf(),
            i < self@.buffer.len(),
        ensures
            match r {
                Some(sp) => amount_match(self@.buffer, i as int) == Some(
                    AmountShape {
                        neg: sp.neg,
                        digits_start: sp.digits_start as int,
                        digits_end: if sp.frac_start == sp.frac_end {
                            sp.frac_end as int
                        } else {
                            sp.frac_start - 1
                        },
                        frac_start: sp.frac_start as int,
                        frac_end: sp.frac_end as int,
                        cur_start: sp.cur_start as int,
                        cur_end: sp.cur_end as int,
                    },
                ),
                None => amount_match(self@.buffer, i as int) is None,
            },
            r matches Some(sp) ==> i <= sp.digits_start <= sp.frac_start <= sp.frac_end
                <= sp.cur_start <= sp.cur_end <= self@.buffer.len() && i < sp.cur_end,
    {
        let ghost s = self@.buffer;
        // The character count fits a machine word; later index sums need it.
        let _buf_len = self.chars.len();
        let neg = self.chars[i] == '-';
        let d0 = if neg {
            i + 1
        } else {
            i
        };
        let r_end = self.scan_dc(d0);
        if r_end == d0 {
            return None;
        }
        let all = self.all_digits_in(d0, r_end);
        let valid = if all {
            true
        } else {
            self.comma_grouped_in(d0, r_end)
        };
        if !valid {
            return None;
        }
        let has_frac = r_end < self.chars.len() && self.chars[r_end] == '.';
        let fs = if has_frac {
            r_end + 1
        } else {
            r_end
        };
        let fe = if has_frac {
            self.scan_digits(r_end + 1)
        } else {
            r_end
        };
        if has_frac && fe == fs {
            return None;
        }
        let cs = self.scan_hws(fe);
        let ce = self.scan_upper(cs);
        if ce - cs < 3 || !self.boundary_at(ce) {
            return None;
        }
        proof {
            if has_frac {
                assert(fs - 1 == r_end);
            }
        }
        Some(AmountSpan { neg, digits_start: d0, frac_start: fs, frac_end: fe, cur_start: cs, cur_end: ce })
    }

    /// The number the mantissa span `[d0, end)` denotes, or `None` when it
    /// exceeds `u128::MAX` ("too many digits").
    fn amount_value(&self, d0: usize, end: usize) -> (r: Option<u128>)
        requires
            self.wf(),
            d0 <= end <= self@.buffer.len(),
            forall|k: int| d0 <= k < end ==> is_mantissa_char(#[trigger] self@.buffer[k]),
        ensures
            match r {
                Some(v) => v == digits_value(mantissa_digits(self@.buffer, d0 as int, end as int)),
                None => digits_value(mantissa_digits(self@.buffer, d0 as int, end as int))
                    > u128::MAX,
            },
    {
        let ghost s = self@.buffer;
        let mut acc: u128 = 0;
        let mut k = d0;
        proof {
            assert(mantissa_digits(s, d0 as int, d0 as int) =~= Seq::<char>::empty());
        }
        while k < end
            invariant
                self.wf(),
                s == self@.buffer,
                d0 <= k <= end <= s.len(),
                forall|m: int| d0 <= m < end ==> is_mantissa_char(#[trigger] s[m]),
                acc == digits_value(mantissa_digits(s, d0 as int, k as int)),
            decreases end - k,
        {
            let c = self.chars[k];
            proof {
                lemma_mantissa_extend(s, d0 as int, k as int);
            }
            if c == ',' || c == '.' {
                proof {
                    assert(mantissa_digits(s, d0 as int, k + 1) =~= mantissa_digits(
                        s,
                        d0 as int,
                        k as int,
                    ));
                }
            } else {
                let d = (c as u32) - 48;
                proof {
                    assert(is_digit(c));
                    assert(mantissa_digits(s, d0 as int, k + 1) =~= mantissa_digits(
                        s,
                        d0 as int,
                        k as int,
                    ).push(c));
                    lemma_digits_value_push(mantissa_digits(s, d0 as int, k as int), c);
                }
                let step = match acc.checked_mul(10) {
                    Some(m) => m.checked_add(d as u128),
                    None => None,
                };
                match step {
                    Some(v) => {
                        acc = v;
                    },
                    None => {
                        proof {
                            assert(digits_value(mantissa_digits(s, d0 as int, k + 1)) > u128::MAX);
                            lemma_mantissa_value_monotone(s, d0 as int, k + 1, end as int);
                        }
                        return None;
                    },
                }
            }
            k = k + 1;
        }
        Some(acc)
    }

    /// Recognizes an account reference at `i`.
    fn try_account(&self, i: usize) -> (r: Option<(AccountType, usize, usize)>)
        requires
            self.wf(),
        ensures
            match r {
                Some(p) => account_match(self@.buffer, i as int) == Some(
                    (p.0, p.1 as int, p.2 as int),
                ),
                None => account_match(self@.buffer, i as int) is None,
            },
            r matches Some(p) ==> i <= p.1 <= p.2 <= self@.buffer.len() && i < p.2,
    {
        // The character count fits a machine word; later index sums need it.
        let _buf_len = self.chars.len();
        proof {
            reveal_strlit("Assets");
            reveal_strlit("Liabilities");
            reveal_strlit("Expenses");
            reveal_strlit("Income");
            reveal_strlit("Equity");
        }
        let label: Option<(AccountType, usize)> = if self.match_lit_at(i, "Assets") {
            Some((AccountType::Asset, i + 6))
        } else if self.match_lit_at(i, "Liabilities") {
            Some((AccountType::Liability, i + 11))
        } else if self.match_lit_at(i, "Expenses") {
            Some((AccountType::Expense, i + 8))
        } else if self.match_lit_at(i, "Income") {
            Some((AccountType::Income, i + 6))
        } else if self.match_lit_at(i, "Equity") {
            Some((AccountType::Equity, i + 6))
        } else {
            None
        };
        match label {
            None => None,
            Some((t, a)) => {
                if a >= self.chars.len() || a + 1 >= self.chars.len() {
                    return None;
                }
                if self.chars[a] != ':' {
                    return None;
                }
                let c = self.chars[a + 1] as u32;
                if !(65 <= c && c <= 90) {
                    return None;
                }
                let ne = self.scan_name(a + 2);
                if ne == a + 2 || !self.boundary_at(ne) {
                    return None;
                }
                Some((t, a + 1, ne))
            },
        }
    }

    /// Recognizes a quoted description at `i`.
    fn try_description(&self, i: usize) -> (r: Option<usize>)
        requires
            self.wf(),
            i < self@.buffer.len(),
        ensures
            match r {
                Some(e) => description_match(self@.buffer, i as int) == Some(e as int),
                None => description_match(self@.buffer, i as int) is None,
            },
            r matches Some(e) ==> i < e <= self@.buffer.len(),
    {
        // The character count fits a machine word; later index sums need it.
        let _buf_len = self.chars.len();
        if self.chars[i] != '"' {
            return None;
        }
        let q = self.scan_non_quote(i + 1);
        if q == i + 1 || q >= self.chars.len() || self.chars[q] != '"' {
            return None;
        }
        if !self.boundary_at(q + 1) {
            return None;
        }
        Some(q + 1)
    }

    /// The next token of the buffer: skips whitespace and comments, then
    /// tries the recognizers in priority order. Returns `Ok(None)` at the
    /// clean end of the input, and a positioned error when no recognizer
    /// matches or an amount has too many digits. The outcome and the new
    /// cursor are exactly [`spec_next_token`] of the buffer and old cursor.
    pub fn next_token(&mut self) -> (r: Result<Option<Token>, TokenizeError>)
        requires
            old(self).wf(),
        ensures
            final(self).wf(),
            final(self)@.buffer == old(self)@.buffer,
            final(self)@.cursor >= old(self)@.cursor,
            final(self)@.cursor <= final(self)@.buffer.len(),
            match spec_next_token(old(self)@.buffer, old(self)@.cursor) {
                LexOutcome::End => r matches Ok(t) && t is None && final(self)@.cursor
                    == skip_trivia(old(self)@.buffer, old(self)@.cursor),
                LexOutcome::Tok(tv, nc) => r matches Ok(t) && t matches Some(tok) && tok@ == tv
                    && final(self)@.cursor == nc && nc > old(self)@.cursor,
                LexOutcome::Fail(ev) => r matches Err(e) && e@ == ev && final(self)@.cursor
                    == skip_trivia(old(self)@.buffer, old(self)@.cursor),
            },
    {
        proof {
            reveal(spec_next_token);
        }
        let ghost s = self@.buffer;
        let ghost c0 = self@.cursor;
        while self.cursor < self.chars.len() && (self.chars[self.cursor] == ' '
            || self.chars[self.cursor] == '\t' || self.chars[self.cursor] == ';')
            invariant
                self.wf(),
                self@.buffer == s,
                c0 <= self@.cursor,
                skip_trivia(s, c0) == skip_trivia(s, self@.cursor),
            decreases s.len() - self@.cursor,
        {
            if self.chars[self.cursor] == ';' {
                let e = self.scan_comment(self.cursor + 1);
                proof {
                    lemma_comment_end_stops(s, self.cursor + 1);
                }
                self.cursor = e;
            } else {
                self.cursor = self.cursor + 1;
            }
        }
        proof {
            assert(skip_trivia(s, self@.cursor) == self@.cursor);
            assert(skip_trivia(s, c0) == self@.cursor);
        }
        if self.cursor >= self.chars.len() {
            return Ok(None);
        }
        let i = self.cursor;
        let (line, column) = self.current_line_column();
        if let Some(end) = self.try_option(i) {
            self.cursor = end;
            return Ok(Some(Token { kind: TokenKind::OptionLine, line, column }));
        }
        if self.try_date(i) {
            let text = self.substring(i, i + 10);
            self.cursor = i + 10;
            return Ok(Some(Token { kind: TokenKind::Date(text), line, column }));
        }
        if let Some(span) = self.try_amount_shape(i) {
            let ghost shape = amount_match(s, i as int)->Some_0;
            proof {
                let d0 = span.digits_start as int;
                let fe = span.frac_end as int;
                let de = shape.digits_end;
                assert(de == dc_end(s, d0));
                lemma_dc_run_chars(s, d0);
                if shape.frac_start != shape.frac_end {
                    assert(s[de] == '.');
                    assert(shape.frac_start == de + 1);
                    assert(shape.frac_end == digits_end(s, de + 1));
                }
                lemma_digit_run_chars(s, shape.frac_start);
                assert forall|k: int| d0 <= k < fe implies is_mantissa_char(#[trigger] s[k]) by {
                    if k < de {
                    } else if k == de {
                        assert(shape.frac_start != shape.frac_end);
                    } else {
                        assert(shape.frac_start <= k < shape.frac_end);
                    }
                }
            }
            match self.amount_value(span.digits_start, span.frac_end) {
                None => {
                    return Err(
                        TokenizeError {
                            msg: String::from_str("decimal has too many digits"),
                            line,
                            column,
                        },
                    );
                },
                Some(mag) => {
                    let scale_len = span.frac_end - span.frac_start;
                    let dec_opt: Option<Dec> = if mag == 0 {
                        proof {
                            crate::dec::lemma_of_zero(scale_len as nat);
                        }
                        Some(Dec::zero())
                    } else if scale_len >= 67 {
                        proof {
                            crate::dec::lemma_large_scale_none(
                                crate::dec::signed_of(span.neg, mag),
                                scale_len as nat,
                            );
                        }
                        None
                    } else {
                        Dec::from_sign_magnitude(span.neg, mag, scale_len as u32)
                    };
                    match dec_opt {
                        None => {
                            return Err(
                                TokenizeError {
                                    msg: String::from_str("decimal has too many digits"),
                                    line,
                                    column,
                                },
                            );
                        },
                        Some(amount) => {
                            let currency = self.substring(span.cur_start, span.cur_end);
                            self.cursor = span.cur_end;
                            return Ok(
                                Some(
                                    Token {
                                        kind: TokenKind::Amount(Amount { currency, amount }),
                                        line,
                                        column,
                                    },
                                ),
                            );
                        },
                    }
                },
            }
        }
        proof {
            reveal_strlit("open");
        }
        if self.match_lit_at(i, "open") && self.boundary_at(i + 4) {
            self.cursor = i + 4;
            return Ok(Some(Token { kind: TokenKind::DirectiveOpen, line, column }));
        }
        if self.chars[i] == '*' && self.boundary_at(i + 1) {
            self.cursor = i + 1;
            return Ok(Some(Token { kind: TokenKind::DirectivePostTx, line, column }));
        }
        if let Some((type_, ns, ne)) = self.try_account(i) {
            let name = self.substring(ns, ne);
            self.cursor = ne;
            return Ok(
                Some(
                    Token { kind: TokenKind::Account(AccountId { name, type_ }), line, column },
                ),
            );
        }
        let ce = self.scan_upper(i);
        if ce > i && self.boundary_at(ce) {
            let code = self.substring(i, ce);
            self.cursor = ce;
            return Ok(Some(Token { kind: TokenKind::Currency(code), line, column }));
        }
        if let Some(end) = self.try_description(i) {
            self.cursor = end;
            return Ok(Some(Token { kind: TokenKind::TxDescription, line, column }));
        }
        if self.chars[i] == '@' && self.boundary_at(i + 1) {
            self.cursor = i + 1;
            return Ok(Some(Token { kind: TokenKind::At, line, column }));
        }
        if self.chars[i] == '\n' {
            self.cursor = i + 1;
            return Ok(Some(Token { kind: TokenKind::Newline, line, column }));
        }
        if self.chars[i] == '\r' && i + 1 < self.chars.len() && self.chars[i + 1] == '\n' {
            self.cursor = i + 2;
            return Ok(Some(Token { kind: TokenKind::Newline, line, column }));
        }
        Err(
            TokenizeError {
                msg: String::from_str("unexpected character sequence"),
                line,
                column,
            },
        )
    }
}

// --- Whole-buffer lexing ---------------------------------------------------

/// The view of a lexer result sequence.
pub open spec fn tokens_view(ts: Seq<Result<Token, TokenizeError>>) -> Seq<
    Result<TokenV, TokenizeErrorV>,
> {
    ts.map_values(
        |t: Result<Token, TokenizeError>|
            match t {
                Ok(tok) => Ok(tok@),
                Err(e) => Err(e@),
            },
    )
}

/// Every amount carried by a token is a well-formed decimal. Tokens made by
/// the lexer always satisfy this.
pub open spec fn tokens_wf(ts: Seq<Result<TokenV, TokenizeErrorV>>) -> bool {
    forall|i: int|
        0 <= i < ts.len() ==> match #[trigger] ts[i] {
            Ok(t) => match t.kind {
                TokenKindV::Amount(a) => crate::dec::dec_wf(a.amount),
                _ => true,
            },
            Err(_) => true,
        }
}

/// `ts` is the lexer's entire output for the buffer, with `cs` the cursor
/// before each step: every element is the outcome of [`spec_next_token`] at
/// its cursor, an error can only be the final element (the lexer never
/// resumes after one), and a stream without an error ends exactly at the
/// clean end of the input.
pub open spec fn is_lex_stream(
    s: Seq<char>,
    ts: Seq<Result<TokenV, TokenizeErrorV>>,
    cs: Seq<int>,
) -> bool {
    &&& cs.len() == ts.len() + 1
    &&& cs.len() > 0 ==> cs[0] == 0
    &&& forall|k: int|
        0 <= k < ts.len() ==> match #[trigger] ts[k] {
            Ok(tv) => spec_next_token(s, cs[k]) == LexOutcome::Tok(tv, cs[k + 1]),
            Err(e) => spec_next_token(s, cs[k]) == LexOutcome::Fail(e),
        }
    &&& forall|k: int| 0 <= k < ts.len() - 1 ==> (#[trigger] ts[k]) is Ok
    &&& (ts.len() == 0 || ts.last() is Ok) ==> spec_next_token(s, cs[ts.len() as int])
        == LexOutcome::End
}

/// A token produced by the lexer carries a well-formed decimal: an amount's
/// value comes from [`dec_of_int_scale`].
proof fn lemma_next_token_amount_wf(s: Seq<char>, i: int)
    ensures
        match spec_next_token(s, i) {
            LexOutcome::Tok(tv, _) => match tv.kind {
                TokenKindV::Amount(a) => crate::dec::dec_wf(a.amount),
                _ => true,
            },
            _ => true,
        },
{
    reveal(spec_next_token);
    let j = skip_trivia(s, i);
    if j < s.len() && option_match(s, j) is None && !date_match(s, j) && amount_match(s, j)
        is Some {
        let shape = amount_match(s, j)->Some_0;
        let v = digits_value(amount_mantissa(s, shape));
        if v <= u128::MAX {
            let num = if shape.neg {
                -v
            } else {
                v
            };
            let scale = (shape.frac_end - shape.frac_start) as nat;
            if dec_of_int_scale(num, scale) is Some {
                crate::dec::lemma_of_int_scale_wf(num, scale);
            }
        }
    }
}

/// Lexes a whole buffer: every token in order, with the error as the final
/// element when lexing fails. The resulting sequence is pinned to
/// [`spec_next_token`] step by step, and every amount in it is a well-formed
/// decimal, as [`crate::parser::parse`] requires.
#[verifier::spinoff_prover]
#[verifier::loop_isolation(false)]
pub fn lex_document(buffer: String) -> (r: Vec<Result<Token, TokenizeError>>)
    ensures
        tokens_wf(tokens_view(r@)),
        exists|cs: Seq<int>| is_lex_stream(buffer@, tokens_view(r@), cs),
{
    let ghost s = buffer@;
    let mut tokenizer = Tokenizer::new(buffer);
    let mut out: Vec<Result<Token, TokenizeError>> = Vec::new();
    let ghost mut cs: Seq<int> = seq![0int];
    loop
        invariant
            tokenizer.wf(),
            tokenizer@.buffer == s,
            cs.len() == out@.len() + 1,
            cs[0] == 0,
            cs.last() == tokenizer@.cursor,
            forall|k: int| 0 <= k < out@.len() ==> (#[trigger] out@[k]) is Ok,
            forall|k: int|
                0 <= k < out@.len() ==> match #[trigger] tokens_view(out@)[k] {
                    Ok(tv) => spec_next_token(s, cs[k]) == LexOutcome::Tok(tv, cs[k + 1]),
                    Err(_) => false,
                },
            tokens_wf(tokens_view(out@)),
        decreases s.len() - tokenizer@.cursor,
    {
        let ghost c_before = tokenizer@.cursor;
        let ghost prior = out@;
        proof {
            lemma_next_token_amount_wf(s, c_before);
        }
        match tokenizer.next_token() {
            Ok(Some(token)) => {
                out.push(Ok(token));
                proof {
                    cs = cs.push(tokenizer@.cursor);
                    assert(tokens_view(out@) =~= tokens_view(prior).push(
                        Ok::<TokenV, TokenizeErrorV>(token@),
                    ));
                    assert forall|k: int| 0 <= k < out@.len() implies match #[trigger] tokens_view(
                        out@,
                    )[k] {
                        Ok(tv) => spec_next_token(s, cs[k]) == LexOutcome::Tok(tv, cs[k + 1]),
                        Err(_) => false,
                    } by {
                        if k < prior.len() {
                            assert(tokens_view(out@)[k] == tokens_view(prior)[k]);
                        }
                    }
                }
            },
            Ok(None) => {
                proof {
                    assert(is_lex_stream(s, tokens_view(out@), cs)) by {
                        assert(spec_next_token(s, cs[out@.len() as int]) == LexOutcome::End);
                    }
                    assert(exists|w: Seq<int>| is_lex_stream(s, tokens_view(out@), w));
                }
                return out;
            },
            Err(e) => {
                let ghost ev = e@;
                out.push(Err(e));
                proof {
                    cs = cs.push(tokenizer@.cursor);
                    assert(tokens_view(out@) =~= tokens_view(prior).push(
                        Err::<TokenV, TokenizeErrorV>(ev),
                    ));
                    assert(is_lex_stream(s, tokens_view(out@), cs)) by {
                        assert forall|k: int| 0 <= k < out@.len() implies match
                            #[trigger] tokens_view(out@)[k] {
                            Ok(tv) => spec_next_token(s, cs[k]) == LexOutcome::Tok(tv, cs[k + 1]),
                            Err(err) => spec_next_token(s, cs[k]) == LexOutcome::Fail(err),
                        } by {
                            if k < prior.len() {
                                assert(tokens_view(out@)[k] == tokens_view(prior)[k]);
                            }
                        }
                        assert(!(tokens_view(out@).last() is Ok));
                    }
                    assert(exists|w: Seq<int>| is_lex_stream(s, tokens_view(out@), w));
                }
                return out;
            },
        }
    }
}

} // verus!
