//! The query grammar, as a recursive-descent parser over tokens.
//!
//! ```text
//! query        ::= clause+
//! clause       ::= or_expr | limit_clause | from_clause | order_clause
//! or_expr      ::= and_expr ("or" and_expr)*
//! and_expr     ::= term ("and" term)*
//! term         ::= "!" atom | atom
//! atom         ::= comparison | filter_call | "(" or_expr ")"
//! comparison   ::= symbol operator literal | "timestamp" "between" time "and" time
//! filter_call  ::= ident "(" (literal ("," literal)*)? ")"
//! from_clause  ::= "from" ("begin" | "beginning" | "end" | "end" "-" number | time | number)
//! limit_clause ::= "limit" number
//! order_clause ::= "order" "by" symbol ("asc" | "desc")
//! ```
//!
//! A time is a number of milliseconds, or a quoted string holding either such a
//! number or an RFC 3339 date-time. When a clause occurs twice, the last one wins.
use vstd::prelude::*;
use crate::ast::{
    Direction, FromOffset, Order, OrderBy, QueryV, SearchQuery,
    Atom, AtomV, CompareExpression, CompareV, Expression, ExprV, Filter, FilterV, NumberOperator,
    Parameter, ParameterV, StringOperator, Term, TermV,
};
use crate::lexer::{
    digit, is_digit, is_space, lemma_scan_text_from, lex, lex_chars, lex_from, next_token, number_value,
    value_of, Punct, Token, TokenKind,
};
use crate::text::{chars_equal, chars_of, string_of};

verus! {

/// What `chrono` reads from an RFC 3339 date-time, in milliseconds since the epoch.
pub uninterp spec fn rfc3339_millis(s: Seq<char>) -> Option<i64>;

/// Relies on `chrono::DateTime::parse_from_rfc3339` and `timestamp_millis`: the
/// result depends on the text alone, since the text carries its own offset.
#[verifier::external_body]
fn parse_rfc3339_millis(s: &str) -> (r: Option<i64>)
    ensures
        r == rfc3339_millis(s@),
{
    chrono::DateTime::parse_from_rfc3339(s).ok().map(|d| d.timestamp_millis())
}

/// Errors of the query language.
#[derive(Debug, Clone, PartialEq, Eq)]
pub enum SearchError {
    /// The text is not a query of the grammar.
    Syntax,
    /// A filter of the query cannot be used.
    Filter(crate::filters::FilterError),
}

pub open spec fn tok_text(s: Seq<char>, k: Token) -> Seq<char> {
    s.subrange(k.start as int, k.end as int)
}

/// The characters between the quotes of a string token.
pub open spec fn tok_content(s: Seq<char>, k: Token) -> Seq<char> {
    s.subrange(k.start + 1, k.end - 1)
}

/// The token lies inside the text, and a string token holds its two quotes.
pub open spec fn token_in(s: Seq<char>, k: Token) -> bool {
    k.start < k.end <= s.len() && (k.kind == TokenKind::Text ==> k.start + 2 <= k.end)
}

pub open spec fn tokens_wf(s: Seq<char>, t: Seq<Token>) -> bool {
    forall|i: int| 0 <= i < t.len() ==> token_in(s, #[trigger] t[i])
}

pub open spec fn word_at(s: Seq<char>, t: Seq<Token>, pos: int, w: Seq<char>) -> bool {
    0 <= pos < t.len() && t[pos].kind == TokenKind::Word && tok_text(s, t[pos]) == w
}

pub open spec fn punct_at_pos(t: Seq<Token>, pos: int, p: Punct) -> bool {
    0 <= pos < t.len() && t[pos].kind == TokenKind::Punct(p)
}

pub open spec fn kind_at(t: Seq<Token>, pos: int, k: TokenKind) -> bool {
    0 <= pos < t.len() && t[pos].kind == k
}

pub open spec fn all_digits(c: Seq<char>) -> bool {
    forall|i: int| 0 <= i < c.len() ==> #[trigger] is_digit(c[i])
}

/// A quoted time: digits are milliseconds, anything else an RFC 3339 date-time.
pub open spec fn time_literal(c: Seq<char>) -> Option<i64> {
    if c.len() > 0 && all_digits(c) {
        if number_value(c) <= i64::MAX {
            Some(number_value(c) as i64)
        } else {
            None
        }
    } else {
        rfc3339_millis(c)
    }
}

pub open spec fn spec_time(s: Seq<char>, t: Seq<Token>, pos: int) -> Option<i64> {
    if kind_at(t, pos, TokenKind::Number) {
        if t[pos].value <= i64::MAX {
            Some(t[pos].value as i64)
        } else {
            None
        }
    } else if kind_at(t, pos, TokenKind::Text) {
        time_literal(tok_content(s, t[pos]))
    } else {
        None
    }
}

pub open spec fn spec_num_op(t: Seq<Token>, pos: int) -> Option<NumberOperator> {
    if !(0 <= pos < t.len()) {
        None
    } else {
        match t[pos].kind {
            TokenKind::Punct(Punct::Eq) => Some(NumberOperator::Equal),
            TokenKind::Punct(Punct::Ne) => Some(NumberOperator::NotEqual),
            TokenKind::Punct(Punct::Gt) => Some(NumberOperator::GreaterThan),
            TokenKind::Punct(Punct::Ge) => Some(NumberOperator::GreaterOrEqual),
            TokenKind::Punct(Punct::Lt) => Some(NumberOperator::LowerThan),
            TokenKind::Punct(Punct::Le) => Some(NumberOperator::LowerOrEqual),
            _ => None,
        }
    }
}

pub open spec fn spec_str_op(s: Seq<char>, t: Seq<Token>, pos: int) -> Option<(StringOperator, int)> {
    if punct_at_pos(t, pos, Punct::Eq) {
        Some((StringOperator::Equal, pos + 1))
    } else if punct_at_pos(t, pos, Punct::Ne) {
        Some((StringOperator::NotEqual, pos + 1))
    } else if word_at(s, t, pos, "contains"@) {
        Some((StringOperator::Contain, pos + 1))
    } else if word_at(s, t, pos, "starts"@) && word_at(s, t, pos + 1, "with"@) {
        Some((StringOperator::StartWith, pos + 2))
    } else {
        None
    }
}

/// A textual comparison whose symbol stands at `pos`: the operator and the string literal.
pub open spec fn spec_str_rhs(s: Seq<char>, t: Seq<Token>, pos: int) -> Option<(StringOperator, Seq<char>, int)> {
    match spec_str_op(s, t, pos + 1) {
        Some((op, p)) => if kind_at(t, p, TokenKind::Text) {
            Some((op, tok_content(s, t[p]), p + 1))
        } else {
            None
        },
        None => None,
    }
}

/// The numeric operator at `pos + 1` and the number at `pos + 2`, if it is at most `max`.
pub open spec fn spec_num_rhs(t: Seq<Token>, pos: int, max: int) -> Option<(NumberOperator, u64)> {
    match spec_num_op(t, pos + 1) {
        Some(op) => if kind_at(t, pos + 2, TokenKind::Number) && t[pos + 2].value <= max {
            Some((op, t[pos + 2].value))
        } else {
            None
        },
        None => None,
    }
}

pub open spec fn has_prefix(w: Seq<char>, p: Seq<char>) -> bool {
    w.len() > p.len() && w.subrange(0, p.len() as int) == p
}

/// A word that starts a comparison.
pub open spec fn is_symbol_word(w: Seq<char>) -> bool {
    w == "partition"@ || w == "offset"@ || w == "size"@ || w == "topic"@ || w == "key"@ || w
        == "value"@ || w == "timestamp"@ || has_prefix(w, "value."@) || has_prefix(w, "header."@)
}

/// A word of the language, which no filter can be named.
pub open spec fn is_reserved_word(w: Seq<char>) -> bool {
    is_symbol_word(w) || w == "and"@ || w == "or"@ || w == "from"@ || w == "limit"@ || w
        == "order"@ || w == "by"@ || w == "asc"@ || w == "desc"@ || w == "between"@ || w
        == "contains"@ || w == "starts"@ || w == "with"@ || w == "begin"@ || w == "beginning"@
        || w == "end"@
}

pub open spec fn spec_comparison(s: Seq<char>, t: Seq<Token>, pos: int) -> Option<(CompareV, int)> {
    let w = tok_text(s, t[pos]);
    if w == "partition"@ {
        match spec_num_rhs(t, pos, i32::MAX as int) {
            Some((op, n)) => Some((CompareV::Partition(op, n as i32), pos + 3)),
            None => None,
        }
    } else if w == "offset"@ {
        match spec_num_rhs(t, pos, i64::MAX as int) {
            Some((op, n)) => Some((CompareV::Offset(op, n as i64), pos + 3)),
            None => None,
        }
    } else if w == "size"@ {
        match spec_num_rhs(t, pos, u64::MAX as int) {
            Some((op, n)) => Some((CompareV::Size(op, n), pos + 3)),
            None => None,
        }
    } else if w == "timestamp"@ {
        if word_at(s, t, pos + 1, "between"@) {
            match (spec_time(s, t, pos + 2), spec_time(s, t, pos + 4)) {
                (Some(a), Some(b)) => if word_at(s, t, pos + 3, "and"@) {
                    Some((CompareV::TimestampBetween(a, b), pos + 5))
                } else {
                    None
                },
                _ => None,
            }
        } else {
            match (spec_num_op(t, pos + 1), spec_time(s, t, pos + 2)) {
                (Some(op), Some(x)) => Some((CompareV::Timestamp(op, x), pos + 3)),
                _ => None,
            }
        }
    } else {
        match spec_str_rhs(s, t, pos) {
            Some((op, lit, p)) => if w == "topic"@ {
                Some((CompareV::Topic(op, lit), p))
            } else if w == "key"@ {
                Some((CompareV::Key(op, lit), p))
            } else if w == "value"@ {
                Some((CompareV::Value(None, op, lit), p))
            } else if has_prefix(w, "value."@) {
                Some((CompareV::Value(Some(w.subrange(6, w.len() as int)), op, lit), p))
            } else if has_prefix(w, "header."@) {
                Some((CompareV::Header(w.subrange(7, w.len() as int), op, lit), p))
            } else {
                None
            },
            None => None,
        }
    }
}

pub open spec fn spec_parameter(s: Seq<char>, t: Seq<Token>, pos: int) -> Option<ParameterV> {
    if kind_at(t, pos, TokenKind::Number) {
        Some(ParameterV::Number(t[pos].value))
    } else if kind_at(t, pos, TokenKind::Text) {
        Some(ParameterV::Text(tok_content(s, t[pos])))
    } else {
        None
    }
}

/// The parameters from `pos` on, after those already read, up to the closing parenthesis.
pub open spec fn spec_parameters(s: Seq<char>, t: Seq<Token>, pos: int, acc: Seq<ParameterV>) -> Option<(Seq<ParameterV>, int)>
    decreases t.len() - pos,
{
    match spec_parameter(s, t, pos) {
        Some(p) => if punct_at_pos(t, pos + 1, Punct::RParen) {
            Some((acc.push(p), pos + 2))
        } else if punct_at_pos(t, pos + 1, Punct::Comma) && pos + 2 <= t.len() {
            spec_parameters(s, t, pos + 2, acc.push(p))
        } else {
            None
        },
        None => None,
    }
}

pub open spec fn spec_filter(s: Seq<char>, t: Seq<Token>, pos: int) -> Option<(FilterV, int)> {
    let name = tok_text(s, t[pos]);
    if !punct_at_pos(t, pos + 1, Punct::LParen) {
        None
    } else if punct_at_pos(t, pos + 2, Punct::RParen) {
        Some((FilterV { name, parameters: Seq::empty() }, pos + 3))
    } else {
        match spec_parameters(s, t, pos + 2, Seq::empty()) {
            Some((ps, p)) => Some((FilterV { name, parameters: ps }, p)),
            None => None,
        }
    }
}

pub open spec fn spec_atom(s: Seq<char>, t: Seq<Token>, pos: int) -> Option<(AtomV, int)>
    decreases t.len() - pos, 0int,
{
    if punct_at_pos(t, pos, Punct::LParen) {
        match spec_or(s, t, pos + 1) {
            Some((e, p)) => if punct_at_pos(t, p, Punct::RParen) {
                Some((AtomV::Parenthesis(Box::new(e)), p + 1))
            } else {
                None
            },
            None => None,
        }
    } else if kind_at(t, pos, TokenKind::Word) {
        let w = tok_text(s, t[pos]);
        if is_symbol_word(w) {
            match spec_comparison(s, t, pos) {
                Some((c, p)) => Some((AtomV::Compare(c), p)),
                None => None,
            }
        } else if is_reserved_word(w) {
            None
        } else {
            match spec_filter(s, t, pos) {
                Some((f, p)) => Some((AtomV::Filter(f), p)),
                None => None,
            }
        }
    } else {
        None
    }
}

pub open spec fn spec_term(s: Seq<char>, t: Seq<Token>, pos: int) -> Option<(TermV, int)>
    decreases t.len() - pos, 1int,
{
    if punct_at_pos(t, pos, Punct::Bang) {
        match spec_atom(s, t, pos + 1) {
            Some((a, p)) => Some((TermV::Not(a), p)),
            None => None,
        }
    } else {
        match spec_atom(s, t, pos) {
            Some((a, p)) => Some((TermV::Atom(a), p)),
            None => None,
        }
    }
}

pub open spec fn spec_and_rest(s: Seq<char>, t: Seq<Token>, pos: int, acc: ExprV) -> Option<(ExprV, int)>
    decreases t.len() - pos, 2int,
{
    if word_at(s, t, pos, "and"@) {
        match spec_term(s, t, pos + 1) {
            Some((x, p)) => if pos < p <= t.len() {
                spec_and_rest(s, t, p, ExprV::And(Box::new(acc), Box::new(ExprV::Term(x))))
            } else {
                None
            },
            None => None,
        }
    } else {
        Some((acc, pos))
    }
}

pub open spec fn spec_and(s: Seq<char>, t: Seq<Token>, pos: int) -> Option<(ExprV, int)>
    decreases t.len() - pos, 3int,
{
    match spec_term(s, t, pos) {
        Some((x, p)) => if pos <= p <= t.len() {
            spec_and_rest(s, t, p, ExprV::Term(x))
        } else {
            None
        },
        None => None,
    }
}

pub open spec fn spec_or_rest(s: Seq<char>, t: Seq<Token>, pos: int, acc: ExprV) -> Option<(ExprV, int)>
    decreases t.len() - pos, 4int,
{
    if word_at(s, t, pos, "or"@) {
        match spec_and(s, t, pos + 1) {
            Some((x, p)) => if pos < p <= t.len() {
                spec_or_rest(s, t, p, ExprV::Or(Box::new(acc), Box::new(x)))
            } else {
                None
            },
            None => None,
        }
    } else {
        Some((acc, pos))
    }
}

pub open spec fn spec_or(s: Seq<char>, t: Seq<Token>, pos: int) -> Option<(ExprV, int)>
    decreases t.len() - pos, 5int,
{
    match spec_and(s, t, pos) {
        Some((x, p)) => if pos <= p <= t.len() {
            spec_or_rest(s, t, p, x)
        } else {
            None
        },
        None => None,
    }
}

pub open spec fn spec_from(s: Seq<char>, t: Seq<Token>, pos: int) -> Option<(FromOffset, int)> {
    if word_at(s, t, pos, "begin"@) || word_at(s, t, pos, "beginning"@) {
        Some((FromOffset::Beginning, pos + 1))
    } else if word_at(s, t, pos, "end"@) {
        if punct_at_pos(t, pos + 1, Punct::Minus) && kind_at(t, pos + 2, TokenKind::Number) {
            Some((FromOffset::EndMinus(t[pos + 2].value), pos + 3))
        } else {
            Some((FromOffset::End, pos + 1))
        }
    } else if kind_at(t, pos, TokenKind::Number) {
        if t[pos].value <= i64::MAX {
            Some((FromOffset::AbsoluteOffset(t[pos].value as i64), pos + 1))
        } else {
            None
        }
    } else if kind_at(t, pos, TokenKind::Text) {
        match time_literal(tok_content(s, t[pos])) {
            Some(x) => Some((FromOffset::Timestamp(x), pos + 1)),
            None => None,
        }
    } else {
        None
    }
}

pub open spec fn spec_order_field(s: Seq<char>, t: Seq<Token>, pos: int) -> Option<Order> {
    if word_at(s, t, pos, "timestamp"@) {
        Some(Order::Timestamp)
    } else if word_at(s, t, pos, "key"@) {
        Some(Order::Key)
    } else if word_at(s, t, pos, "value"@) {
        Some(Order::Value)
    } else if word_at(s, t, pos, "partition"@) {
        Some(Order::Partition)
    } else if word_at(s, t, pos, "offset"@) {
        Some(Order::Offset)
    } else if word_at(s, t, pos, "size"@) {
        Some(Order::Size)
    } else if word_at(s, t, pos, "topic"@) {
        Some(Order::Topic)
    } else {
        None
    }
}

/// What follows `order`: `by`, a field and a direction.
pub open spec fn spec_order(s: Seq<char>, t: Seq<Token>, pos: int) -> Option<(OrderBy, int)> {
    if !word_at(s, t, pos, "by"@) {
        None
    } else {
        match spec_order_field(s, t, pos + 1) {
            Some(order) => if word_at(s, t, pos + 2, "asc"@) {
                Some((OrderBy { order, direction: Direction::Asc }, pos + 3))
            } else if word_at(s, t, pos + 2, "desc"@) {
                Some((OrderBy { order, direction: Direction::Desc }, pos + 3))
            } else {
                None
            },
            None => None,
        }
    }
}

/// One clause at `pos`, recorded into `q`.
#[verifier::opaque]
pub open spec fn spec_clause(s: Seq<char>, t: Seq<Token>, pos: int, q: QueryV) -> Option<(QueryV, int)> {
    if word_at(s, t, pos, "from"@) {
        match spec_from(s, t, pos + 1) {
            Some((f, p)) => Some((QueryV { from: Some(f), ..q }, p)),
            None => None,
        }
    } else if word_at(s, t, pos, "limit"@) {
        if kind_at(t, pos + 1, TokenKind::Number) && 0 < t[pos + 1].value <= usize::MAX {
            Some((QueryV { limit: Some(t[pos + 1].value as usize), ..q }, pos + 2))
        } else {
            None
        }
    } else if word_at(s, t, pos, "order"@) {
        match spec_order(s, t, pos + 1) {
            Some((o, p)) => Some((QueryV { order_by: Some(o), ..q }, p)),
            None => None,
        }
    } else {
        match spec_or(s, t, pos) {
            Some((e, p)) => Some((QueryV { expressions: q.expressions.push(e), ..q }, p)),
            None => None,
        }
    }
}

pub open spec fn spec_clauses(s: Seq<char>, t: Seq<Token>, pos: int, q: QueryV) -> Option<QueryV>
    decreases t.len() - pos,
{
    if pos >= t.len() {
        Some(q)
    } else {
        match spec_clause(s, t, pos, q) {
            Some((q2, p)) => if pos < p <= t.len() {
                spec_clauses(s, t, p, q2)
            } else {
                None
            },
            None => None,
        }
    }
}

pub open spec fn empty_query() -> QueryV {
    QueryV { expressions: Seq::empty(), from: None, limit: None, order_by: None }
}

/// The query that the text spells, or `None` where it is not one (or is too
/// long for the positions of its characters to fit in a `usize`).
pub open spec fn spec_parse(s: Seq<char>) -> Option<QueryV> {
    if s.len() >= usize::MAX - 8 {
        None
    } else {
    match lex(s) {
        Some(t) => if t.len() == 0 {
            None
        } else {
            spec_clauses(s, t, 0, empty_query())
        },
        None => None,
    }
    }
}

pub proof fn lemma_lex_wf(s: Seq<char>, i: int)
    requires
        0 <= i <= s.len() <= usize::MAX,
    ensures
        lex_from(s, i) matches Some(t) ==> tokens_wf(s, t) && t.len() <= s.len() - i,
    decreases s.len() - i,
{
    if i < s.len() {
        if is_space(s[i]) {
            lemma_lex_wf(s, i + 1);
        } else {
            match next_token(s, i) {
                Some(k) => {
                    if i < k.end <= s.len() {
                        lemma_lex_wf(s, k.end as int);
                        if k.kind == TokenKind::Text {
                            lemma_scan_text_from(s, i + 1, s[i]);
                        }
                        match lex_from(s, k.end as int) {
                            Some(rest) => {
                                let all = seq![k] + rest;
                                assert(token_in(s, k));
                                assert forall|j: int| 0 <= j < all.len() implies token_in(s, #[trigger] all[j]) by {
                                    if j > 0 {
                                        assert(all[j] == rest[j - 1]);
                                    }
                                }
                            },
                            None => {},
                        }
                    }
                },
                None => {},
            }
        }
    }
}

// ---------------------------------------------------------------- exec

fn is_word(v: &Vec<char>, t: &Vec<Token>, pos: usize, w: &str) -> (r: bool)
    requires
        tokens_wf(v@, t@),
    ensures
        r == word_at(v@, t@, pos as int, w@),
{
    if pos < t.len() && t[pos].kind == TokenKind::Word {
        chars_equal(v, t[pos].start, t[pos].end, w)
    } else {
        false
    }
}

fn is_punct(t: &Vec<Token>, pos: usize, p: Punct) -> (r: bool)
    ensures
        r == punct_at_pos(t@, pos as int, p),
{
    pos < t.len() && t[pos].kind == TokenKind::Punct(p)
}

fn is_kind(t: &Vec<Token>, pos: usize, k: TokenKind) -> (r: bool)
    ensures
        r == kind_at(t@, pos as int, k),
{
    pos < t.len() && t[pos].kind == k
}

fn content(v: &Vec<char>, t: &Vec<Token>, pos: usize) -> (r: String)
    requires
        tokens_wf(v@, t@),
        kind_at(t@, pos as int, TokenKind::Text),
    ensures
        r@ == tok_content(v@, t@[pos as int]),
{
    let k = t[pos];
    assert(t@[pos as int].start < t@[pos as int].end <= v@.len());
    string_of(v, k.start + 1, k.end - 1)
}

fn digits_only(c: &Vec<char>) -> (r: bool)
    ensures
        r == all_digits(c@),
{
    let mut i: usize = 0;
    while i < c.len()
        invariant
            0 <= i <= c@.len(),
            forall|k: int| 0 <= k < i ==> #[trigger] is_digit(c@[k]),
        decreases c.len() - i,
    {
        if !digit(c[i]) {
            return false;
        }
        i = i + 1;
    }
    true
}

fn exec_time_literal(c: &String) -> (r: Option<i64>)
    ensures
        r == time_literal(c@),
{
    let v = chars_of(c.as_str());
    if v.len() > 0 && digits_only(&v) {
        assert(v@.subrange(0, v@.len() as int) == v@);
        match value_of(&v, 0, v.len()) {
            Some(n) => if n <= i64::MAX as u64 {
                Some(n as i64)
            } else {
                None
            },
            None => None,
        }
    } else {
        parse_rfc3339_millis(c.as_str())
    }
}

fn exec_time(v: &Vec<char>, t: &Vec<Token>, pos: usize) -> (r: Option<i64>)
    requires
        tokens_wf(v@, t@),
    ensures
        r == spec_time(v@, t@, pos as int),
{
    if is_kind(t, pos, TokenKind::Number) {
        if t[pos].value <= i64::MAX as u64 {
            Some(t[pos].value as i64)
        } else {
            None
        }
    } else if is_kind(t, pos, TokenKind::Text) {
        let c = content(v, t, pos);
        exec_time_literal(&c)
    } else {
        None
    }
}

fn exec_num_op(t: &Vec<Token>, pos: usize) -> (r: Option<NumberOperator>)
    ensures
        r == spec_num_op(t@, pos as int),
{
    if pos >= t.len() {
        return None;
    }
    match t[pos].kind {
        TokenKind::Punct(Punct::Eq) => Some(NumberOperator::Equal),
        TokenKind::Punct(Punct::Ne) => Some(NumberOperator::NotEqual),
        TokenKind::Punct(Punct::Gt) => Some(NumberOperator::GreaterThan),
        TokenKind::Punct(Punct::Ge) => Some(NumberOperator::GreaterOrEqual),
        TokenKind::Punct(Punct::Lt) => Some(NumberOperator::LowerThan),
        TokenKind::Punct(Punct::Le) => Some(NumberOperator::LowerOrEqual),
        _ => None,
    }
}

fn exec_str_op(v: &Vec<char>, t: &Vec<Token>, pos: usize) -> (r: Option<(StringOperator, usize)>)
    requires
        tokens_wf(v@, t@),
        pos < usize::MAX - 2,
    ensures
        match r {
            Some((op, p)) => spec_str_op(v@, t@, pos as int) == Some((op, p as int)),
            None => spec_str_op(v@, t@, pos as int) is None,
        },
{
    if is_punct(t, pos, Punct::Eq) {
        Some((StringOperator::Equal, pos + 1))
    } else if is_punct(t, pos, Punct::Ne) {
        Some((StringOperator::NotEqual, pos + 1))
    } else if is_word(v, t, pos, "contains") {
        Some((StringOperator::Contain, pos + 1))
    } else if is_word(v, t, pos, "starts") && is_word(v, t, pos + 1, "with") {
        Some((StringOperator::StartWith, pos + 2))
    } else {
        None
    }
}

fn exec_str_rhs(v: &Vec<char>, t: &Vec<Token>, pos: usize) -> (r: Option<(StringOperator, String, usize)>)
    requires
        tokens_wf(v@, t@),
        pos < t@.len() < usize::MAX - 8,
    ensures
        match r {
            Some((op, lit, p)) => spec_str_rhs(v@, t@, pos as int) == Some((op, lit@, p as int)),
            None => spec_str_rhs(v@, t@, pos as int) is None,
        },
{
    match exec_str_op(v, t, pos + 1) {
        Some((op, p)) => if is_kind(t, p, TokenKind::Text) {
            let lit = content(v, t, p);
            Some((op, lit, p + 1))
        } else {
            None
        },
        None => None,
    }
}

fn exec_num_rhs(t: &Vec<Token>, pos: usize, max: u64) -> (r: Option<(NumberOperator, u64)>)
    requires
        pos < t@.len() < usize::MAX - 8,
    ensures
        r == spec_num_rhs(t@, pos as int, max as int),
{
    match exec_num_op(t, pos + 1) {
        Some(op) => if is_kind(t, pos + 2, TokenKind::Number) && t[pos + 2].value <= max {
            Some((op, t[pos + 2].value))
        } else {
            None
        },
        None => None,
    }
}

fn prefixed(v: &Vec<char>, start: usize, end: usize, p: &str) -> (r: bool)
    requires
        start <= end <= v@.len(),
    ensures
        r == has_prefix(v@.subrange(start as int, end as int), p@),
{
    let pc = chars_of(p);
    if end - start <= pc.len() {
        return false;
    }
    let r = chars_equal(v, start, start + pc.len(), p);
    assert(v@.subrange(start as int, end as int).subrange(0, p@.len() as int) == v@.subrange(
        start as int,
        start + p@.len(),
    ));
    r
}

fn symbol_word(v: &Vec<char>, start: usize, end: usize) -> (r: bool)
    requires
        start <= end <= v@.len(),
    ensures
        r == is_symbol_word(v@.subrange(start as int, end as int)),
{
    chars_equal(v, start, end, "partition") || chars_equal(v, start, end, "offset") || chars_equal(
        v,
        start,
        end,
        "size",
    ) || chars_equal(v, start, end, "topic") || chars_equal(v, start, end, "key") || chars_equal(
        v,
        start,
        end,
        "value",
    ) || chars_equal(v, start, end, "timestamp") || prefixed(v, start, end, "value.") || prefixed(
        v,
        start,
        end,
        "header.",
    )
}

fn reserved_word(v: &Vec<char>, start: usize, end: usize) -> (r: bool)
    requires
        start <= end <= v@.len(),
    ensures
        r == is_reserved_word(v@.subrange(start as int, end as int)),
{
    symbol_word(v, start, end) || chars_equal(v, start, end, "and") || chars_equal(v, start, end, "or")
        || chars_equal(v, start, end, "from") || chars_equal(v, start, end, "limit") || chars_equal(
        v,
        start,
        end,
        "order",
    ) || chars_equal(v, start, end, "by") || chars_equal(v, start, end, "asc") || chars_equal(
        v,
        start,
        end,
        "desc",
    ) || chars_equal(v, start, end, "between") || chars_equal(v, start, end, "contains")
        || chars_equal(v, start, end, "starts") || chars_equal(v, start, end, "with") || chars_equal(
        v,
        start,
        end,
        "begin",
    ) || chars_equal(v, start, end, "beginning") || chars_equal(v, start, end, "end")
}

fn exec_comparison(v: &Vec<char>, t: &Vec<Token>, pos: usize) -> (r: Option<(CompareExpression, usize)>)
    requires
        tokens_wf(v@, t@),
        t@.len() < usize::MAX - 8,
        kind_at(t@, pos as int, TokenKind::Word),
    ensures
        match r {
            Some((c, p)) => spec_comparison(v@, t@, pos as int) == Some((c@, p as int)) && p <= t@.len(),
            None => spec_comparison(v@, t@, pos as int) is None,
        },
{
    let k = t[pos];
    assert(k.start < k.end <= v@.len());
    let ghost w = tok_text(v@, k);
    if chars_equal(v, k.start, k.end, "partition") {
        match exec_num_rhs(t, pos, i32::MAX as u64) {
            Some((op, n)) => Some((CompareExpression::Partition(op, n as i32), pos + 3)),
            None => None,
        }
    } else if chars_equal(v, k.start, k.end, "offset") {
        match exec_num_rhs(t, pos, i64::MAX as u64) {
            Some((op, n)) => Some((CompareExpression::Offset(op, n as i64), pos + 3)),
            None => None,
        }
    } else if chars_equal(v, k.start, k.end, "size") {
        match exec_num_rhs(t, pos, u64::MAX) {
            Some((op, n)) => Some((CompareExpression::Size(op, n), pos + 3)),
            None => None,
        }
    } else if chars_equal(v, k.start, k.end, "timestamp") {
        if is_word(v, t, pos + 1, "between") {
            match (exec_time(v, t, pos + 2), exec_time(v, t, pos + 4)) {
                (Some(a), Some(b)) => if is_word(v, t, pos + 3, "and") {
                    Some((CompareExpression::TimestampBetween(a, b), pos + 5))
                } else {
                    None
                },
                _ => None,
            }
        } else {
            match (exec_num_op(t, pos + 1), exec_time(v, t, pos + 2)) {
                (Some(op), Some(x)) => Some((CompareExpression::Timestamp(op, x), pos + 3)),
                _ => None,
            }
        }
    } else {
        match exec_str_rhs(v, t, pos) {
            Some((op, lit, p)) => if chars_equal(v, k.start, k.end, "topic") {
                Some((CompareExpression::Topic(op, lit), p))
            } else if chars_equal(v, k.start, k.end, "key") {
                Some((CompareExpression::Key(op, lit), p))
            } else if chars_equal(v, k.start, k.end, "value") {
                Some((CompareExpression::Value(None, op, lit), p))
            } else if prefixed(v, k.start, k.end, "value.") {
                proof {
                    reveal_strlit("value.");
                }
                let path = string_of(v, k.start + 6, k.end);
                assert(path@ == w.subrange(6, w.len() as int));
                Some((CompareExpression::Value(Some(path), op, lit), p))
            } else if prefixed(v, k.start, k.end, "header.") {
                proof {
                    reveal_strlit("header.");
                }
                let name = string_of(v, k.start + 7, k.end);
                assert(name@ == w.subrange(7, w.len() as int));
                Some((CompareExpression::Header(name, op, lit), p))
            } else {
                None
            },
            None => None,
        }
    }
}

fn exec_parameter(v: &Vec<char>, t: &Vec<Token>, pos: usize) -> (r: Option<Parameter>)
    requires
        tokens_wf(v@, t@),
    ensures
        match r {
            Some(p) => spec_parameter(v@, t@, pos as int) == Some(p@),
            None => spec_parameter(v@, t@, pos as int) is None,
        },
{
    if is_kind(t, pos, TokenKind::Number) {
        Some(Parameter::Number(t[pos].value))
    } else if is_kind(t, pos, TokenKind::Text) {
        Some(Parameter::String(content(v, t, pos)))
    } else {
        None
    }
}

fn exec_filter(v: &Vec<char>, t: &Vec<Token>, pos: usize) -> (r: Option<(Filter, usize)>)
    requires
        tokens_wf(v@, t@),
        t@.len() < usize::MAX - 8,
        kind_at(t@, pos as int, TokenKind::Word),
    ensures
        match r {
            Some((f, p)) => spec_filter(v@, t@, pos as int) == Some((f@, p as int)) && p <= t@.len(),
            None => spec_filter(v@, t@, pos as int) is None,
        },
{
    let k = t[pos];
    assert(k.start < k.end <= v@.len());
    if !is_punct(t, pos + 1, Punct::LParen) {
        return None;
    }
    let name = string_of(v, k.start, k.end);
    if is_punct(t, pos + 2, Punct::RParen) {
        let f = Filter { name, parameters: Vec::new() };
        assert(f@.parameters == Seq::<ParameterV>::empty());
        return Some((f, pos + 3));
    }
    let mut ps: Vec<Parameter> = Vec::new();
    assert(ps@.map_values(|p: Parameter| p@) == Seq::<ParameterV>::empty());
    let mut at = pos + 2;
    loop
        invariant
            tokens_wf(v@, t@),
            t@.len() < usize::MAX - 8,
            pos + 2 <= at <= t@.len(),
            name@ == tok_text(v@, t@[pos as int]),
            punct_at_pos(t@, pos + 1, Punct::LParen),
            !punct_at_pos(t@, pos + 2, Punct::RParen),
            spec_parameters(v@, t@, pos + 2, Seq::empty()) == spec_parameters(
                v@,
                t@,
                at as int,
                ps@.map_values(|p: Parameter| p@),
            ),
        decreases t.len() - at,
    {
        let ghost acc = ps@.map_values(|p: Parameter| p@);
        match exec_parameter(v, t, at) {
            Some(p) => {
                let ghost pv = p@;
                ps.push(p);
                assert(ps@.map_values(|p: Parameter| p@) == acc.push(pv));
                if is_punct(t, at + 1, Punct::RParen) {
                    assert(spec_parameters(v@, t@, at as int, acc) == Some((acc.push(pv), at + 2)));
                    let f = Filter { name, parameters: ps };
                    assert(f@.parameters == acc.push(pv));
                    assert(f@.name == tok_text(v@, t@[pos as int]));
                    return Some((f, at + 2));
                } else if is_punct(t, at + 1, Punct::Comma) && at + 2 <= t.len() {
                    assert(spec_parameters(v@, t@, at as int, acc) == spec_parameters(
                        v@,
                        t@,
                        at + 2,
                        acc.push(pv),
                    ));
                    at = at + 2;
                } else {
                    assert(spec_parameters(v@, t@, at as int, acc) is None);
                    return None;
                }
            },
            None => {
                assert(spec_parameters(v@, t@, at as int, acc) is None);
                return None;
            },
        }
    }
}

fn exec_atom(v: &Vec<char>, t: &Vec<Token>, pos: usize) -> (r: Option<(Atom, usize)>)
    requires
        tokens_wf(v@, t@),
        pos <= t@.len() < usize::MAX - 8,
    ensures
        match r {
            Some((a, p)) => spec_atom(v@, t@, pos as int) == Some((a@, p as int)) && p <= t@.len(),
            None => spec_atom(v@, t@, pos as int) is None,
        },
    decreases t@.len() - pos, 0int,
{
    if is_punct(t, pos, Punct::LParen) {
        match exec_or(v, t, pos + 1) {
            Some((e, p)) => if is_punct(t, p, Punct::RParen) {
                let a = Atom::Parenthesis(Box::new(e));
                assert(a@ == AtomV::Parenthesis(Box::new(e@)));
                Some((a, p + 1))
            } else {
                None
            },
            None => None,
        }
    } else if is_kind(t, pos, TokenKind::Word) {
        let k = t[pos];
        assert(k.start < k.end <= v@.len());
        if symbol_word(v, k.start, k.end) {
            match exec_comparison(v, t, pos) {
                Some((c, p)) => {
                    assert(p <= t@.len());
                    Some((Atom::Compare(c), p))
                },
                None => None,
            }
        } else if reserved_word(v, k.start, k.end) {
            None
        } else {
            match exec_filter(v, t, pos) {
                Some((f, p)) => Some((Atom::Filter(f), p)),
                None => None,
            }
        }
    } else {
        None
    }
}

fn exec_term(v: &Vec<char>, t: &Vec<Token>, pos: usize) -> (r: Option<(Term, usize)>)
    requires
        tokens_wf(v@, t@),
        pos <= t@.len() < usize::MAX - 8,
    ensures
        match r {
            Some((x, p)) => spec_term(v@, t@, pos as int) == Some((x@, p as int)) && p <= t@.len(),
            None => spec_term(v@, t@, pos as int) is None,
        },
    decreases t@.len() - pos, 1int,
{
    if is_punct(t, pos, Punct::Bang) {
        match exec_atom(v, t, pos + 1) {
            Some((a, p)) => Some((Term::Not(a), p)),
            None => None,
        }
    } else {
        match exec_atom(v, t, pos) {
            Some((a, p)) => Some((Term::Atom(a), p)),
            None => None,
        }
    }
}

fn exec_and_rest(v: &Vec<char>, t: &Vec<Token>, pos: usize, acc: Expression) -> (r: Option<(Expression, usize)>)
    requires
        tokens_wf(v@, t@),
        pos <= t@.len() < usize::MAX - 8,
    ensures
        match r {
            Some((x, p)) => spec_and_rest(v@, t@, pos as int, acc@) == Some((x@, p as int)) && p <= t@.len(),
            None => spec_and_rest(v@, t@, pos as int, acc@) is None,
        },
    decreases t@.len() - pos, 2int,
{
    if is_word(v, t, pos, "and") {
        match exec_term(v, t, pos + 1) {
            Some((x, p)) => if pos < p && p <= t.len() {
                let ghost acc_v = acc@;
                let tx = Expression::Term(x);
                assert(tx@ == ExprV::Term(x@));
                let ghost tx_v = tx@;
                let e = Expression::And(Box::new(acc), Box::new(tx));
                assert(e@ == ExprV::And(Box::new(acc_v), Box::new(tx_v)));
                exec_and_rest(v, t, p, e)
            } else {
                None
            },
            None => None,
        }
    } else {
        Some((acc, pos))
    }
}

fn exec_and(v: &Vec<char>, t: &Vec<Token>, pos: usize) -> (r: Option<(Expression, usize)>)
    requires
        tokens_wf(v@, t@),
        pos <= t@.len() < usize::MAX - 8,
    ensures
        match r {
            Some((x, p)) => spec_and(v@, t@, pos as int) == Some((x@, p as int)) && p <= t@.len(),
            None => spec_and(v@, t@, pos as int) is None,
        },
    decreases t@.len() - pos, 3int,
{
    match exec_term(v, t, pos) {
        Some((x, p)) => if pos <= p && p <= t.len() {
            exec_and_rest(v, t, p, Expression::Term(x))
        } else {
            None
        },
        None => None,
    }
}

fn exec_or_rest(v: &Vec<char>, t: &Vec<Token>, pos: usize, acc: Expression) -> (r: Option<(Expression, usize)>)
    requires
        tokens_wf(v@, t@),
        pos <= t@.len() < usize::MAX - 8,
    ensures
        match r {
            Some((x, p)) => spec_or_rest(v@, t@, pos as int, acc@) == Some((x@, p as int)) && p <= t@.len(),
            None => spec_or_rest(v@, t@, pos as int, acc@) is None,
        },
    decreases t@.len() - pos, 4int,
{
    if is_word(v, t, pos, "or") {
        match exec_and(v, t, pos + 1) {
            Some((x, p)) => if pos < p && p <= t.len() {
                let ghost acc_v = acc@;
                let e = Expression::Or(Box::new(acc), Box::new(x));
                assert(e@ == ExprV::Or(Box::new(acc_v), Box::new(x@)));
                exec_or_rest(v, t, p, e)
            } else {
                None
            },
            None => None,
        }
    } else {
        Some((acc, pos))
    }
}

fn exec_or(v: &Vec<char>, t: &Vec<Token>, pos: usize) -> (r: Option<(Expression, usize)>)
    requires
        tokens_wf(v@, t@),
        pos <= t@.len() < usize::MAX - 8,
    ensures
        match r {
            Some((x, p)) => spec_or(v@, t@, pos as int) == Some((x@, p as int)) && p <= t@.len(),
            None => spec_or(v@, t@, pos as int) is None,
        },
    decreases t@.len() - pos, 5int,
{
    match exec_and(v, t, pos) {
        Some((x, p)) => if pos <= p && p <= t.len() {
            exec_or_rest(v, t, p, x)
        } else {
            None
        },
        None => None,
    }
}

fn exec_from(v: &Vec<char>, t: &Vec<Token>, pos: usize) -> (r: Option<(FromOffset, usize)>)
    requires
        tokens_wf(v@, t@),
        pos <= t@.len() < usize::MAX - 8,
    ensures
        match r {
            Some((f, p)) => spec_from(v@, t@, pos as int) == Some((f, p as int)) && p <= t@.len(),
            None => spec_from(v@, t@, pos as int) is None,
        },
{
    if is_word(v, t, pos, "begin") || is_word(v, t, pos, "beginning") {
        Some((FromOffset::Beginning, pos + 1))
    } else if is_word(v, t, pos, "end") {
        if is_punct(t, pos + 1, Punct::Minus) && is_kind(t, pos + 2, TokenKind::Number) {
            Some((FromOffset::EndMinus(t[pos + 2].value), pos + 3))
        } else {
            Some((FromOffset::End, pos + 1))
        }
    } else if is_kind(t, pos, TokenKind::Number) {
        if t[pos].value <= i64::MAX as u64 {
            Some((FromOffset::AbsoluteOffset(t[pos].value as i64), pos + 1))
        } else {
            None
        }
    } else if is_kind(t, pos, TokenKind::Text) {
        let c = content(v, t, pos);
        match exec_time_literal(&c) {
            Some(x) => Some((FromOffset::Timestamp(x), pos + 1)),
            None => None,
        }
    } else {
        None
    }
}

fn exec_order_field(v: &Vec<char>, t: &Vec<Token>, pos: usize) -> (r: Option<Order>)
    requires
        tokens_wf(v@, t@),
    ensures
        r == spec_order_field(v@, t@, pos as int),
{
    if is_word(v, t, pos, "timestamp") {
        Some(Order::Timestamp)
    } else if is_word(v, t, pos, "key") {
        Some(Order::Key)
    } else if is_word(v, t, pos, "value") {
        Some(Order::Value)
    } else if is_word(v, t, pos, "partition") {
        Some(Order::Partition)
    } else if is_word(v, t, pos, "offset") {
        Some(Order::Offset)
    } else if is_word(v, t, pos, "size") {
        Some(Order::Size)
    } else if is_word(v, t, pos, "topic") {
        Some(Order::Topic)
    } else {
        None
    }
}

fn exec_order(v: &Vec<char>, t: &Vec<Token>, pos: usize) -> (r: Option<(OrderBy, usize)>)
    requires
        tokens_wf(v@, t@),
        pos <= t@.len() < usize::MAX - 8,
    ensures
        match r {
            Some((o, p)) => spec_order(v@, t@, pos as int) == Some((o, p as int)) && p <= t@.len(),
            None => spec_order(v@, t@, pos as int) is None,
        },
{
    if !is_word(v, t, pos, "by") {
        return None;
    }
    match exec_order_field(v, t, pos + 1) {
        Some(order) => if is_word(v, t, pos + 2, "asc") {
            Some((OrderBy { order, direction: Direction::Asc }, pos + 3))
        } else if is_word(v, t, pos + 2, "desc") {
            Some((OrderBy { order, direction: Direction::Desc }, pos + 3))
        } else {
            None
        },
        None => None,
    }
}

/// Reads the clause at `pos` into `q`; returns the position after it, or `None`.
fn exec_clause(v: &Vec<char>, t: &Vec<Token>, pos: usize, q: &mut SearchQuery) -> (r: Option<usize>)
    requires
        tokens_wf(v@, t@),
        pos < t@.len() < usize::MAX - 8,
    ensures
        match r {
            Some(p) => spec_clause(v@, t@, pos as int, old(q)@) == Some((final(q)@, p as int)) && p <= t@.len(),
            None => spec_clause(v@, t@, pos as int, old(q)@) is None,
        },
{
    reveal(spec_clause);
    if is_word(v, t, pos, "from") {
        match exec_from(v, t, pos + 1) {
            Some((f, p)) => {
                q.from = Some(f);
                Some(p)
            },
            None => None,
        }
    } else if is_word(v, t, pos, "limit") {
        if is_kind(t, pos + 1, TokenKind::Number) && 0 < t[pos + 1].value && t[pos + 1].value
            <= usize::MAX as u64 {
            q.limit = Some(t[pos + 1].value as usize);
            Some(pos + 2)
        } else {
            None
        }
    } else if is_word(v, t, pos, "order") {
        match exec_order(v, t, pos + 1) {
            Some((o, p)) => {
                q.order_by = Some(o);
                Some(p)
            },
            None => None,
        }
    } else {
        match exec_or(v, t, pos) {
            Some((e, p)) => {
                let ghost es = old(q)@.expressions;
                let ghost ev = e@;
                q.expressions.push(e);
                assert(q@.expressions == es.push(ev));
                Some(p)
            },
            None => None,
        }
    }
}

/// Parses a search query.
///
/// Succeeds exactly when the text is a query of the grammar: it holds at least
/// one clause, every number fits its field, every `limit` is positive and every
/// quoted time can be read.
pub fn parse_search_query(input: &str) -> (r: Result<SearchQuery, SearchError>)
    ensures
        match r {
            Ok(q) => spec_parse(input@) == Some(q@),
            Err(e) => spec_parse(input@) is None && e == SearchError::Syntax,
        },
{
    let v = chars_of(input);
    if v.len() >= usize::MAX - 8 {
        return Err(SearchError::Syntax);
    }
    let t = match lex_chars(&v) {
        Some(t) => t,
        None => return Err(SearchError::Syntax),
    };
    proof {
        lemma_lex_wf(v@, 0);
    }
    if t.len() == 0 {
        return Err(SearchError::Syntax);
    }
    let mut q = SearchQuery { expressions: Vec::new(), from: None, limit: None, order_by: None };
    assert(q@.expressions =~= Seq::<ExprV>::empty());
    assert(q@ == empty_query());
    let ghost target = spec_clauses(v@, t@, 0, empty_query());
    assert(spec_parse(input@) == target);
    let mut pos: usize = 0;
    while pos < t.len()
        invariant
            tokens_wf(v@, t@),
            t@.len() < usize::MAX - 8,
            pos <= t@.len(),
            target == spec_clauses(v@, t@, pos as int, q@),
            spec_parse(input@) == target,
        decreases t.len() - pos,
    {
        let ghost before = q@;
        match exec_clause(&v, &t, pos, &mut q) {
            Some(p) => {
                if pos < p {
                    pos = p;
                } else {
                    assert(spec_clauses(v@, t@, pos as int, before) is None);
                    return Err(SearchError::Syntax);
                }
            },
            None => {
                assert(spec_clauses(v@, t@, pos as int, before) is None);
                return Err(SearchError::Syntax);
            },
        }
    }
    Ok(q)
}

/// Parsing is deterministic: the same text always gives the same query.
pub proof fn lemma_parse_deterministic(a: Seq<char>, b: Seq<char>)
    requires
        a == b,
    ensures
        spec_parse(a) == spec_parse(b),
{
}

} // verus!
