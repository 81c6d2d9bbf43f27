//! Reading printed queries back. The proof follows the printer: it computes
//! the tokens that the lexer finds in each printed piece, then shows that the
//! parser turns those tokens back into the piece. It covers every query that
//! the grammar can write: comparisons and filter calls under any nesting of
//! `!`, `and`, `or` and parentheses, and every `from`, `limit` and `order by`
//! clause. Left out are what no text parses to (a bare symbol, a negative
//! number) and what the printer cannot write back (a string holding both kinds
//! of quotes, a name that is not one word).
use vstd::prelude::*;
use crate::ast::{
    from_text, order_name, order_text, Direction, FromOffset, Order, OrderBy,
    atom_text, compare_text, filter_text, parameter_text, parameters_text, FilterV, ParameterV, expr_text, exprs_text, int_text, join_clause, num_op_text, query_text,
    term_text, AtomV, CompareV, ExprV, NumberOperator, QueryV, TermV,
};
use crate::lexer::{
    is_space, prepend, is_digit, is_number_char, is_word_char, lex, lex_from, next_token, number_value, punct_at, scan_number,
    scan_word, Punct, Token, TokenKind,
};
use crate::parser::{
    spec_and, spec_and_rest, spec_atom, spec_clause, spec_clauses, spec_or, spec_or_rest, spec_parse, spec_term,
    tok_text, word_at,
};
use crate::text::{decimal, digit_char};

verus! {

/// The digits of a number are digits.
pub proof fn lemma_decimal_digits(n: nat)
    ensures
        decimal(n).len() >= 1,
        forall|i: int| 0 <= i < decimal(n).len() ==> #[trigger] is_digit(decimal(n)[i]),
    decreases n,
{
    if n >= 10 {
        lemma_decimal_digits(n / 10);
        let d = decimal(n / 10);
        assert forall|i: int| 0 <= i < decimal(n).len() implies #[trigger] is_digit(decimal(n)[i]) by {
            if i < d.len() {
                assert(decimal(n)[i] == d[i]);
            }
        }
    }
}

/// Reading the digits of a number gives the number back.
pub proof fn lemma_decimal_value(n: nat)
    ensures
        number_value(decimal(n)) == n,
    decreases n,
{
    let c = digit_char(n % 10);
    assert((c as u32) == n % 10 + 48);
    assert(is_digit(c) && c != '_');
    assert(crate::lexer::digit_value(c) == n % 10);
    if n < 10 {
        assert(decimal(n) == seq![c]);
        assert(decimal(n).drop_last() == Seq::<char>::empty());
        assert(decimal(n).last() == c);
        assert(number_value(decimal(n)) == number_value(decimal(n).drop_last()) * 10
            + crate::lexer::digit_value(c));
    } else {
        lemma_decimal_value(n / 10);
        assert(decimal(n).drop_last() == decimal(n / 10));
        assert(decimal(n).last() == c);
        assert((n / 10) * 10 + n % 10 == n);
        assert(decimal(n).len() > 0);
        assert(number_value(decimal(n)) == number_value(decimal(n).drop_last()) * 10
            + crate::lexer::digit_value(c));
    }
}

proof fn lemma_scan_word_run(s: Seq<char>, i: int, e: int)
    requires
        0 <= i <= e <= s.len(),
        forall|j: int| i <= j < e ==> #[trigger] is_word_char(s[j]),
        e == s.len() || !is_word_char(s[e]),
    ensures
        scan_word(s, i) == e,
    decreases e - i,
{
    if i < e {
        lemma_scan_word_run(s, i + 1, e);
    }
}

/// The punctuation token of a numeric operator, followed by a space.
pub open spec fn op_punct(op: NumberOperator) -> Punct {
    match op {
        NumberOperator::GreaterThan => Punct::Gt,
        NumberOperator::GreaterOrEqual => Punct::Ge,
        NumberOperator::LowerThan => Punct::Lt,
        NumberOperator::LowerOrEqual => Punct::Le,
        NumberOperator::Equal => Punct::Eq,
        NumberOperator::NotEqual => Punct::Ne,
    }
}

proof fn lemma_op_text(op: NumberOperator)
    ensures
        1 <= num_op_text(op).len() <= 2,
        forall|s: Seq<char>, i: int|
            0 <= i && i + num_op_text(op).len() < s.len() && s.subrange(i, i + num_op_text(op).len())
                == num_op_text(op) && s[i + num_op_text(op).len()] == ' ' ==> #[trigger] punct_at(s, i)
                == Some((op_punct(op), i + num_op_text(op).len())),
{
    reveal_strlit(">");
    reveal_strlit(">=");
    reveal_strlit("<");
    reveal_strlit("<=");
    reveal_strlit("==");
    reveal_strlit("!=");
    assert forall|s: Seq<char>, i: int|
        0 <= i && i + num_op_text(op).len() < s.len() && s.subrange(i, i + num_op_text(op).len())
            == num_op_text(op) && s[i + num_op_text(op).len()] == ' ' implies #[trigger] punct_at(s, i)
            == Some((op_punct(op), i + num_op_text(op).len())) by {
        let t = num_op_text(op);
        assert(s[i] == s.subrange(i, i + t.len())[0]);
        if t.len() == 2 {
            assert(s[i + 1] == s.subrange(i, i + t.len())[1]);
        }
    }
}

// ------------------------------------------------ conditions

/// Comparisons of a numeric field with a number, of the topic, the key, the
/// value, a path into it or a header with a string, or of the timestamp with
/// times, and filter calls, composed with `!`, `and`, `or` and parentheses in
/// the shapes that the parser builds.
pub open spec fn printable_atom(a: AtomV) -> bool
    decreases a, 0int,
{
    match a {
        AtomV::Compare(c) => numeric_cmp(c) || textual_cmp(c) || time_cmp(c),
        AtomV::Filter(f) => filter_ok(f),
        AtomV::Parenthesis(e) => or_form(*e),
        _ => false,
    }
}

pub open spec fn param_ok(x: ParameterV) -> bool {
    match x {
        ParameterV::Number(_) => true,
        ParameterV::Text(l) => quotable(l),
    }
}

/// A call of a filter whose name is a word of no meaning in the language.
pub open spec fn filter_ok(f: FilterV) -> bool {
    &&& is_word_text(f.name)
    &&& !crate::parser::is_reserved_word(f.name)
    &&& forall|i: int| 0 <= i < f.parameters.len() ==> param_ok(#[trigger] f.parameters[i])
}

/// A comparison of the timestamp with times that are not negative.
pub open spec fn time_cmp(c: CompareV) -> bool {
    match c {
        CompareV::Timestamp(_, t) => t >= 0,
        CompareV::TimestampBetween(a, b) => a >= 0 && b >= 0,
        _ => false,
    }
}

/// A comparison of a numeric field with a number that is not negative.
pub open spec fn numeric_cmp(c: CompareV) -> bool {
    match c {
        CompareV::Offset(_, n) => n >= 0,
        CompareV::Partition(_, n) => n >= 0,
        CompareV::Size(_, _) => true,
        _ => false,
    }
}

/// A literal that one kind of quotes can enclose.
pub open spec fn quotable(l: Seq<char>) -> bool {
    !(l.contains('\'') && l.contains('"'))
}

/// A comparison of the topic, the key, the value, a path into the value or a
/// header with a string.
pub open spec fn textual_cmp(c: CompareV) -> bool {
    match c {
        CompareV::Topic(_, l) => quotable(l),
        CompareV::Key(_, l) => quotable(l),
        CompareV::Value(None, _, l) => quotable(l),
        CompareV::Value(Some(p), _, l) => path_ok(p) && quotable(l),
        CompareV::Header(h, _, l) => path_ok(h) && quotable(l),
        _ => false,
    }
}

/// A path or header name that the lexer reads as part of one word.
pub open spec fn path_ok(p: Seq<char>) -> bool {
    p.len() >= 1 && forall|j: int| 0 <= j < p.len() ==> #[trigger] is_word_char(p[j])
}

pub open spec fn printable_term(t: TermV) -> bool
    decreases t, 0int,
{
    match t {
        TermV::Not(a) => printable_atom(a),
        TermV::Atom(a) => printable_atom(a),
    }
}

/// `term ("and" term)*`, grouped to the left.
pub open spec fn and_form(e: ExprV) -> bool
    decreases e, 0int,
{
    match e {
        ExprV::Term(t) => printable_term(t),
        ExprV::And(l, r) => and_form(*l) && match *r {
            ExprV::Term(t) => printable_term(t),
            _ => false,
        },
        ExprV::Or(_, _) => false,
    }
}

/// `and_expr ("or" and_expr)*`, grouped to the left.
pub open spec fn or_form(e: ExprV) -> bool
    decreases e, 1int,
{
    match e {
        ExprV::Or(l, r) => or_form(*l) && and_form(*r),
        _ => and_form(e),
    }
}

pub open spec fn field_word(c: CompareV) -> Seq<char> {
    match c {
        CompareV::Offset(_, _) => "offset"@,
        CompareV::Partition(_, _) => "partition"@,
        _ => "size"@,
    }
}

pub open spec fn cmp_op(c: CompareV) -> NumberOperator {
    match c {
        CompareV::Offset(op, _) => op,
        CompareV::Partition(op, _) => op,
        CompareV::Size(op, _) => op,
        _ => NumberOperator::Equal,
    }
}

pub open spec fn cmp_number(c: CompareV) -> nat {
    match c {
        CompareV::Offset(_, n) => n as nat,
        CompareV::Partition(_, n) => n as nat,
        CompareV::Size(_, n) => n as nat,
        _ => 0,
    }
}

pub open spec fn word_tok(a: int, b: int) -> Token {
    Token { kind: TokenKind::Word, start: a as usize, end: b as usize, value: 0 }
}

pub open spec fn punct_tok(p: Punct, a: int, b: int) -> Token {
    Token { kind: TokenKind::Punct(p), start: a as usize, end: b as usize, value: 0 }
}

/// The tokens of a printed comparison that starts at `o`.
pub open spec fn cmp_toks(c: CompareV, o: int) -> Seq<Token> {
    if numeric_cmp(c) {
        let w = field_word(c).len() as int;
        let k = num_op_text(cmp_op(c)).len() as int;
        seq![
            word_tok(o, o + w),
            punct_tok(op_punct(cmp_op(c)), o + w + 1, o + w + 1 + k),
            Token {
                kind: TokenKind::Number,
                start: (o + w + k + 2) as usize,
                end: (o + compare_text(c).len()) as usize,
                value: cmp_number(c) as u64,
            },
        ]
    } else if textual_cmp(c) {
        scmp_toks(c, o)
    } else {
        tcmp_toks(c, o)
    }
}

pub open spec fn text_field(c: CompareV) -> Seq<char> {
    match c {
        CompareV::Topic(_, _) => "topic"@,
        CompareV::Key(_, _) => "key"@,
        CompareV::Value(Some(p), _, _) => "value."@ + p,
        CompareV::Header(h, _, _) => "header."@ + h,
        _ => "value"@,
    }
}

pub open spec fn text_op(c: CompareV) -> crate::ast::StringOperator {
    match c {
        CompareV::Topic(op, _) => op,
        CompareV::Key(op, _) => op,
        CompareV::Value(_, op, _) => op,
        CompareV::Header(_, op, _) => op,
        _ => crate::ast::StringOperator::Equal,
    }
}

pub open spec fn text_lit(c: CompareV) -> Seq<char> {
    match c {
        CompareV::Topic(_, l) => l,
        CompareV::Key(_, l) => l,
        CompareV::Value(_, _, l) => l,
        CompareV::Header(_, _, l) => l,
        _ => Seq::empty(),
    }
}

pub open spec fn text_tok(a: int, b: int) -> Token {
    Token { kind: TokenKind::Text, start: a as usize, end: b as usize, value: 0 }
}

/// The tokens of a printed string operator that starts at `i`.
pub open spec fn sop_toks(op: crate::ast::StringOperator, i: int) -> Seq<Token> {
    match op {
        crate::ast::StringOperator::Equal => seq![punct_tok(Punct::Eq, i, i + 2)],
        crate::ast::StringOperator::NotEqual => seq![punct_tok(Punct::Ne, i, i + 2)],
        crate::ast::StringOperator::Contain => seq![word_tok(i, i + 8)],
        crate::ast::StringOperator::StartWith => seq![word_tok(i, i + 6), word_tok(i + 7, i + 11)],
    }
}

pub open spec fn scmp_toks(c: CompareV, o: int) -> Seq<Token> {
    let w = text_field(c).len() as int;
    let k = crate::ast::str_op_text(text_op(c)).len() as int;
    let x = o + w + k + 2;
    seq![word_tok(o, o + w)] + sop_toks(text_op(c), o + w + 1) + seq![
        text_tok(x, x + crate::ast::quoted(text_lit(c)).len()),
    ]
}

/// A time as the printer writes it: its digits between single quotes.
pub open spec fn qtime(t: i64) -> Seq<char> {
    crate::ast::quoted(int_text(t as int))
}

pub open spec fn tcmp_toks(c: CompareV, o: int) -> Seq<Token> {
    match c {
        CompareV::Timestamp(op, t) => {
            let k = num_op_text(op).len() as int;
            let x = o + 11 + k;
            seq![
                word_tok(o, o + 9),
                punct_tok(op_punct(op), o + 10, o + 10 + k),
                text_tok(x, x + qtime(t).len()),
            ]
        },
        CompareV::TimestampBetween(a, b) => {
            let m = o + 18 + qtime(a).len();
            seq![
                word_tok(o, o + 9),
                word_tok(o + 10, o + 17),
                text_tok(o + 18, m),
                word_tok(m + 1, m + 4),
                text_tok(m + 5, m + 5 + qtime(b).len()),
            ]
        },
        _ => Seq::empty(),
    }
}

pub open spec fn param_toks(x: ParameterV, o: int) -> Seq<Token> {
    match x {
        ParameterV::Number(n) => seq![num_tok(o, o + decimal(n as nat).len(), n as nat)],
        ParameterV::Text(l) => seq![text_tok(o, o + crate::ast::quoted(l).len())],
    }
}

/// The tokens of printed parameters that start at `o`.
pub open spec fn params_toks(ps: Seq<ParameterV>, o: int) -> Seq<Token>
    decreases ps.len(),
{
    if ps.len() == 0 {
        Seq::empty()
    } else if ps.len() == 1 {
        param_toks(ps[0], o)
    } else {
        let a = parameters_text(ps.drop_last()).len() as int;
        params_toks(ps.drop_last(), o) + seq![punct_tok(Punct::Comma, o + a, o + a + 1)] + param_toks(
            ps.last(),
            o + a + 2,
        )
    }
}

pub open spec fn filter_toks(f: FilterV, o: int) -> Seq<Token> {
    let n = f.name.len() as int;
    let e = o + n + 1 + parameters_text(f.parameters).len();
    seq![word_tok(o, o + n), punct_tok(Punct::LParen, o + n, o + n + 1)] + params_toks(f.parameters, o + n + 1)
        + seq![punct_tok(Punct::RParen, e, e + 1)]
}

pub open spec fn atom_toks(a: AtomV, o: int) -> Seq<Token>
    decreases a,
{
    match a {
        AtomV::Parenthesis(e) => seq![punct_tok(Punct::LParen, o, o + 1)] + expr_toks(*e, o + 1) + seq![
            punct_tok(Punct::RParen, o + 1 + expr_text(*e).len(), o + 2 + expr_text(*e).len()),
        ],
        AtomV::Compare(c) => cmp_toks(c, o),
        AtomV::Filter(f) => filter_toks(f, o),
        _ => Seq::empty(),
    }
}

pub open spec fn term_toks(t: TermV, o: int) -> Seq<Token>
    decreases t,
{
    match t {
        TermV::Not(a) => seq![punct_tok(Punct::Bang, o, o + 1)] + atom_toks(a, o + 1),
        TermV::Atom(a) => atom_toks(a, o),
    }
}

/// The tokens of a printed expression that starts at `o`.
pub open spec fn expr_toks(e: ExprV, o: int) -> Seq<Token>
    decreases e,
{
    match e {
        ExprV::Term(t) => term_toks(t, o),
        ExprV::And(l, r) => {
            let m = o + expr_text(*l).len();
            expr_toks(*l, o) + seq![word_tok(m + 1, m + 4)] + expr_toks(*r, m + 5)
        },
        ExprV::Or(l, r) => {
            let m = o + expr_text(*l).len();
            expr_toks(*l, o) + seq![word_tok(m + 1, m + 3)] + expr_toks(*r, m + 4)
        },
    }
}

/// `f` is written in `s` from index `o` on.
pub open spec fn written(s: Seq<char>, o: int, f: Seq<char>) -> bool {
    0 <= o && o + f.len() <= s.len() && s.subrange(o, o + f.len()) == f
}

/// What may follow a printed expression without joining its last token.
pub open spec fn boundary(s: Seq<char>, i: int) -> bool {
    i == s.len() || (0 <= i < s.len() && (s[i] == ' ' || s[i] == ')'))
}

proof fn lemma_written_part(s: Seq<char>, o: int, f: Seq<char>, i: int, j: int)
    requires
        written(s, o, f),
        0 <= i <= j <= f.len(),
    ensures
        written(s, o + i, f.subrange(i, j)),
        forall|x: int| i <= x < j ==> s[o + x] == #[trigger] f[x],
{
    assert forall|x: int| i <= x < j implies s[o + x] == #[trigger] f[x] by {
        assert(s.subrange(o, o + f.len())[x] == s[o + x]);
    }
    assert(s.subrange(o + i, o + j) =~= f.subrange(i, j));
}

proof fn lemma_scan_number_to(s: Seq<char>, i: int, e: int)
    requires
        0 <= i <= e <= s.len(),
        forall|j: int| i <= j < e ==> #[trigger] is_number_char(s[j]),
        e == s.len() || !is_number_char(s[e]),
    ensures
        scan_number(s, i) == e,
    decreases e - i,
{
    if i < e {
        lemma_scan_number_to(s, i + 1, e);
    }
}

proof fn lemma_prepend_assoc(a: Seq<Token>, b: Seq<Token>, x: Option<Seq<Token>>)
    ensures
        prepend(a, prepend(b, x)) == prepend(a + b, x),
{
    match x {
        Some(r) => {
            assert(a + (b + r) == (a + b) + r);
        },
        None => {},
    }
}

proof fn lemma_cmp_text(c: CompareV)
    requires
        numeric_cmp(c),
    ensures
        compare_text(c) == field_word(c) + " "@ + num_op_text(cmp_op(c)) + " "@ + decimal(cmp_number(c)),
        field_word(c).len() >= 4,
        forall|j: int| 0 <= j < field_word(c).len() ==> #[trigger] crate::lexer::is_word_start(field_word(c)[j]),
{
    reveal_strlit("offset ");
    reveal_strlit("partition ");
    reveal_strlit("size ");
    reveal_strlit("offset");
    reveal_strlit("partition");
    reveal_strlit("size");
    reveal_strlit(" ");
    match c {
        CompareV::Offset(op, n) => {
            assert(int_text(n as int) == decimal(n as nat));
            assert("offset "@ == "offset"@ + " "@);
        },
        CompareV::Partition(op, n) => {
            assert(int_text(n as int) == decimal(n as nat));
            assert("partition "@ == "partition"@ + " "@);
        },
        _ => {
            assert("size "@ == "size"@ + " "@);
        },
    }
}

proof fn lemma_lex_cmp_field(s: Seq<char>, o: int, c: CompareV)
    requires
        numeric_cmp(c),
        written(s, o, compare_text(c)),
        s.len() <= usize::MAX,
    ensures
        lex_from(s, o) == prepend(seq![cmp_toks(c, o)[0]], lex_from(s, o + field_word(c).len() + 1)),
{
    let f = compare_text(c);
    let fw = field_word(c);
    lemma_cmp_text(c);
    reveal_strlit(" ");
    let w = fw.len() as int;
    lemma_written_part(s, o, f, 0, w + 1);
    assert forall|j: int| o + 1 <= j < o + w implies #[trigger] is_word_char(s[j]) by {
        assert(s[o + (j - o)] == f[j - o]);
        assert(f[j - o] == fw[j - o]);
    }
    assert(s[o + w] == f[w]);
    assert(f[w] == ' ');
    lemma_scan_word_run(s, o + 1, o + w);
    assert(s[o] == f[0] && f[0] == fw[0]);
    assert(next_token(s, o) == Some(cmp_toks(c, o)[0]));
    assert(lex_from(s, o + w) == lex_from(s, o + w + 1));
}

#[verifier::spinoff_prover]
#[verifier::rlimit(80)]
proof fn lemma_lex_cmp_op(s: Seq<char>, o: int, c: CompareV)
    requires
        numeric_cmp(c),
        written(s, o, compare_text(c)),
        s.len() <= usize::MAX,
    ensures
        lex_from(s, o + field_word(c).len() + 1) == prepend(
            seq![cmp_toks(c, o)[1]],
            lex_from(s, o + field_word(c).len() + num_op_text(cmp_op(c)).len() + 2),
        ),
{
    let f = compare_text(c);
    let fw = field_word(c);
    let ot = num_op_text(cmp_op(c));
    lemma_cmp_text(c);
    reveal_strlit(" ");
    lemma_op_text(cmp_op(c));
    let w = fw.len() as int;
    let k = ot.len() as int;
    lemma_written_part(s, o, f, w + 1, w + 2 + k);
    assert(f.subrange(w + 1, w + 1 + k) == ot);
    lemma_written_part(s, o, f, w + 1, w + 1 + k);
    assert(s[o + w + 1 + k] == f[w + 1 + k]);
    assert(f[w + 1 + k] == ' ');
    assert(punct_at(s, o + w + 1) == Some((op_punct(cmp_op(c)), o + w + 1 + k)));
    let c1 = s[o + w + 1];
    assert(c1 == f[w + 1] && f[w + 1] == ot[0]);
    assert(c1 != ' ' && !crate::lexer::is_word_start(c1) && !is_digit(c1) && c1 != '\'' && c1 != '"') by {
        reveal_strlit(">");
        reveal_strlit(">=");
        reveal_strlit("<");
        reveal_strlit("<=");
        reveal_strlit("==");
        reveal_strlit("!=");
    }
    assert(next_token(s, o + w + 1) == Some(cmp_toks(c, o)[1]));
    assert(lex_from(s, o + w + 1 + k) == lex_from(s, o + w + k + 2));
}

proof fn lemma_lex_cmp_number(s: Seq<char>, o: int, c: CompareV)
    requires
        numeric_cmp(c),
        written(s, o, compare_text(c)),
        boundary(s, o + compare_text(c).len()),
        s.len() <= usize::MAX,
    ensures
        lex_from(s, o + field_word(c).len() + num_op_text(cmp_op(c)).len() + 2) == prepend(
            seq![cmp_toks(c, o)[2]],
            lex_from(s, o + compare_text(c).len()),
        ),
{
    let f = compare_text(c);
    let d = decimal(cmp_number(c));
    lemma_cmp_text(c);
    reveal_strlit(" ");
    lemma_decimal_digits(cmp_number(c));
    lemma_decimal_value(cmp_number(c));
    let w = field_word(c).len() as int;
    let k = num_op_text(cmp_op(c)).len() as int;
    let a = o + w + k + 2;
    let end = o + f.len();
    assert(f.len() == w + k + 2 + d.len());
    lemma_written_part(s, o, f, w + k + 2, f.len() as int);
    assert(f.subrange(w + k + 2, f.len() as int) == d);
    assert forall|j: int| a <= j < end implies #[trigger] is_number_char(s[j]) by {
        assert(s[o + (j - o)] == f[j - o]);
        assert(f[j - o] == d[j - a]);
    }
    assert(end == s.len() || !is_number_char(s[end]));
    lemma_scan_number_to(s, a + 1, end);
    assert(is_digit(s[a])) by {
        assert(s[a] == d[0]);
    }
    assert(cmp_number(c) <= u64::MAX);
    assert(next_token(s, a) == Some(cmp_toks(c, o)[2]));
}

proof fn lemma_lex_cmp(s: Seq<char>, o: int, c: CompareV)
    requires
        numeric_cmp(c),
        written(s, o, compare_text(c)),
        boundary(s, o + compare_text(c).len()),
        s.len() <= usize::MAX,
    ensures
        lex_from(s, o) == prepend(cmp_toks(c, o), lex_from(s, o + compare_text(c).len())),
{
    let t = cmp_toks(c, o);
    let end = o + compare_text(c).len();
    lemma_lex_cmp_field(s, o, c);
    lemma_lex_cmp_op(s, o, c);
    lemma_lex_cmp_number(s, o, c);
    lemma_prepend_assoc(seq![t[1]], seq![t[2]], lex_from(s, end));
    lemma_prepend_assoc(seq![t[0]], seq![t[1]] + seq![t[2]], lex_from(s, end));
    assert(seq![t[0]] + (seq![t[1]] + seq![t[2]]) == t);
}

proof fn lemma_scmp_text(c: CompareV)
    requires
        textual_cmp(c),
    ensures
        compare_text(c) == text_field(c) + " "@ + crate::ast::str_op_text(text_op(c)) + " "@ + crate::ast::quoted(
            text_lit(c),
        ),
        is_word_text(text_field(c)),
        field_name(text_field(c)),
{
    reveal_strlit("value.");
    reveal_strlit("header.");
    reveal_strlit("topic ");
    reveal_strlit("key ");
    reveal_strlit("value ");
    reveal_strlit("topic");
    reveal_strlit("key");
    reveal_strlit("value");
    reveal_strlit(" ");
    match c {
        CompareV::Topic(_, _) => {
            assert("topic "@ == "topic"@ + " "@);
        },
        CompareV::Key(_, _) => {
            assert("key "@ == "key"@ + " "@);
        },
        CompareV::Value(Some(p), _, _) => {
            let w = "value."@ + p;
            assert(w.subrange(0, 6) == "value."@);
            assert forall|j: int| 1 <= j < w.len() implies #[trigger] is_word_char(w[j]) by {
                if j >= 6 {
                    assert(w[j] == p[j - 6]);
                }
            }
        },
        CompareV::Header(h, _, _) => {
            let w = "header."@ + h;
            assert(w.subrange(0, 7) == "header."@);
            assert forall|j: int| 1 <= j < w.len() implies #[trigger] is_word_char(w[j]) by {
                if j >= 7 {
                    assert(w[j] == h[j - 7]);
                }
            }
        },
        _ => {
            assert("value "@ == "value"@ + " "@);
        },
    }
}

proof fn lemma_scan_text_to(s: Seq<char>, i: int, e: int, q: char)
    requires
        0 <= i <= e < s.len(),
        forall|j: int| i <= j < e ==> #[trigger] s[j] != q,
        s[e] == q,
    ensures
        crate::lexer::scan_text(s, i, q) == e,
    decreases e - i,
{
    if i < e {
        lemma_scan_text_to(s, i + 1, e, q);
    }
}

proof fn lemma_lex_quoted(s: Seq<char>, x: int, l: Seq<char>)
    requires
        quotable(l),
        written(s, x, crate::ast::quoted(l)),
        s.len() <= usize::MAX,
    ensures
        lex_from(s, x) == prepend(
            seq![text_tok(x, x + crate::ast::quoted(l).len())],
            lex_from(s, x + crate::ast::quoted(l).len()),
        ),
{
    let f = crate::ast::quoted(l);
    let q = if l.contains('\'') { '"' } else { '\'' };
    assert(f == seq![q] + l + seq![q]);
    assert(!l.contains(q));
    lemma_written_part(s, x, f, 0, f.len() as int);
    assert(f[0] == q);
    assert(s[x] == q);
    assert forall|j: int| x + 1 <= j < x + 1 + l.len() implies #[trigger] s[j] != q by {
        assert(s[x + (j - x)] == f[j - x]);
        assert(f[j - x] == l[j - x - 1]);
    }
    assert(f[l.len() as int + 1] == q);
    assert(s[x + 1 + l.len()] == q);
    lemma_scan_text_to(s, x + 1, x + 1 + l.len(), q);
    assert(next_token(s, x) == Some(text_tok(x, x + f.len())));
}

proof fn lemma_lex_sop(s: Seq<char>, i: int, op: crate::ast::StringOperator)
    requires
        written(s, i, crate::ast::str_op_text(op) + " "@),
        s.len() <= usize::MAX,
    ensures
        lex_from(s, i) == prepend(sop_toks(op, i), lex_from(s, i + crate::ast::str_op_text(op).len())),
{
    reveal_strlit("==");
    reveal_strlit("!=");
    reveal_strlit("contains");
    reveal_strlit("starts with");
    reveal_strlit("starts");
    reveal_strlit("with");
    reveal_strlit(" ");
    let f = crate::ast::str_op_text(op) + " "@;
    lemma_written_part(s, i, f, 0, f.len() as int);
    match op {
        crate::ast::StringOperator::Equal => {
            assert(f[0] == '=' && f[1] == '=');
            assert(s[i] == '=' && s[i + 1] == '=');
            assert(punct_at(s, i) == Some((Punct::Eq, i + 2)));
            assert(next_token(s, i) == Some(punct_tok(Punct::Eq, i, i + 2)));
        },
        crate::ast::StringOperator::NotEqual => {
            assert(f[0] == '!' && f[1] == '=');
            assert(s[i] == '!' && s[i + 1] == '=');
            assert(punct_at(s, i) == Some((Punct::Ne, i + 2)));
            assert(next_token(s, i) == Some(punct_tok(Punct::Ne, i, i + 2)));
        },
        crate::ast::StringOperator::Contain => {
            lemma_written_concat(s, i, "contains"@, " "@);
            assert(f[8] == ' ');
            lemma_lex_word(s, i, "contains"@);
        },
        crate::ast::StringOperator::StartWith => {
            assert(f == "starts"@ + " "@ + "with"@ + " "@);
            lemma_written_concat(s, i, "starts"@ + " "@ + "with"@, " "@);
            assert(f[11] == ' ');
            lemma_lex_two_words(s, i, "starts"@, "with"@);
        },
    }
}

proof fn lemma_lex_scmp(s: Seq<char>, o: int, c: CompareV)
    requires
        textual_cmp(c),
        written(s, o, compare_text(c)),
        s.len() <= usize::MAX,
    ensures
        lex_from(s, o) == prepend(cmp_toks(c, o), lex_from(s, o + compare_text(c).len())),
{
    reveal_strlit(" ");
    lemma_scmp_text(c);
    let fw = text_field(c);
    let ot = crate::ast::str_op_text(text_op(c));
    let qt = crate::ast::quoted(text_lit(c));
    let w = fw.len() as int;
    let k = ot.len() as int;
    let x = o + w + k + 2;
    assert(compare_text(c) == fw + (" "@ + ((ot + " "@) + qt)));
    lemma_written_concat(s, o, fw, " "@ + ((ot + " "@) + qt));
    lemma_written_concat(s, o + w, " "@, (ot + " "@) + qt);
    lemma_written_concat(s, o + w + 1, ot + " "@, qt);
    lemma_written_concat(s, o + w + 1, ot, " "@);
    lemma_written_part(s, o + w, " "@, 0, 1);
    lemma_written_part(s, o + w + 1 + k, " "@, 0, 1);
    assert(" "@[0] == ' ');
    lemma_lex_word(s, o, fw);
    lemma_skip(s, o + w);
    lemma_lex_sop(s, o + w + 1, text_op(c));
    lemma_skip(s, o + w + 1 + k);
    lemma_lex_quoted(s, x, text_lit(c));
    let a = seq![word_tok(o, o + w)];
    let b = sop_toks(text_op(c), o + w + 1);
    let d = seq![text_tok(x, x + qt.len())];
    let rest = lex_from(s, x + qt.len());
    lemma_prepend_assoc(b, d, rest);
    lemma_prepend_assoc(a, b + d, rest);
    assert(a + (b + d) == scmp_toks(c, o));
}

proof fn lemma_parse_scmp(s: Seq<char>, t: Seq<Token>, p: int, o: int, c: CompareV)
    requires
        textual_cmp(c),
        written(s, o, compare_text(c)),
        at(t, p, cmp_toks(c, o)),
        s.len() <= usize::MAX,
    ensures
        spec_atom(s, t, p) == Some((AtomV::Compare(c), p + cmp_toks(c, o).len())),
{
    reveal_strlit(" ");
    reveal_strlit("==");
    reveal_strlit("!=");
    reveal_strlit("contains");
    reveal_strlit("starts with");
    reveal_strlit("starts");
    reveal_strlit("with");
    reveal_strlit("partition");
    reveal_strlit("offset");
    reveal_strlit("size");
    reveal_strlit("timestamp");
    reveal_strlit("topic");
    reveal_strlit("key");
    reveal_strlit("value");
    lemma_scmp_text(c);
    let fw = text_field(c);
    let ot = crate::ast::str_op_text(text_op(c));
    let l = text_lit(c);
    let qt = crate::ast::quoted(l);
    let w = fw.len() as int;
    let k = ot.len() as int;
    let x = o + w + k + 2;
    let a = seq![word_tok(o, o + w)];
    let b = sop_toks(text_op(c), o + w + 1);
    let d = seq![text_tok(x, x + qt.len())];
    assert(cmp_toks(c, o) == a + b + d);
    lemma_at_split(t, p, a + b, d);
    lemma_at_split(t, p, a, b);
    assert(t[p] == a[0]);
    assert(t[p + 1 + b.len()] == d[0]);
    assert(compare_text(c) == fw + (" "@ + ((ot + " "@) + qt)));
    lemma_written_concat(s, o, fw, " "@ + ((ot + " "@) + qt));
    lemma_written_concat(s, o + w, " "@, (ot + " "@) + qt);
    lemma_written_concat(s, o + w + 1, ot + " "@, qt);
    lemma_written_concat(s, o + w + 1, ot, " "@);
    assert(tok_text(s, t[p]) == fw);
    let q = if l.contains('\'') { '"' } else { '\'' };
    assert(qt == seq![q] + l + seq![q]);
    assert(qt.subrange(1, qt.len() - 1) == l);
    lemma_written_part(s, x, qt, 1, qt.len() - 1);
    assert(crate::parser::tok_content(s, t[p + 1 + b.len()]) == l);
    match text_op(c) {
        crate::ast::StringOperator::Equal => {
            assert(t[p + 1] == b[0]);
        },
        crate::ast::StringOperator::NotEqual => {
            assert(t[p + 1] == b[0]);
        },
        crate::ast::StringOperator::Contain => {
            assert(t[p + 1] == b[0]);
            assert(tok_text(s, t[p + 1]) == "contains"@);
        },
        crate::ast::StringOperator::StartWith => {
            assert(t[p + 1] == b[0] && t[p + 2] == b[1]);
            assert(ot == "starts"@ + " "@ + "with"@);
            lemma_written_concat(s, o + w + 1, "starts"@ + " "@, "with"@);
            lemma_written_concat(s, o + w + 1, "starts"@, " "@);
            assert(tok_text(s, t[p + 1]) == "starts"@);
            assert(tok_text(s, t[p + 2]) == "with"@);
        },
    }
    reveal_strlit("value.");
    reveal_strlit("header.");
    assert(fw[0] != "partition"@[0] || fw.len() != 9);
    assert(fw[0] != "timestamp"@[0] || fw.len() != 9);
    match c {
        CompareV::Value(Some(pa), _, _) => {
            assert(fw.subrange(0, 6) == "value."@);
            assert(fw.subrange(6, fw.len() as int) == pa);
        },
        CompareV::Header(h, _, _) => {
            assert(fw.subrange(0, 7) == "header."@);
            assert(fw.subrange(7, fw.len() as int) == h);
            assert(fw[0] != "value."@[0]);
        },
        _ => {},
    }
}

proof fn lemma_qtime(t: i64)
    requires
        t >= 0,
    ensures
        qtime(t) == seq!['\''] + decimal(t as nat) + seq!['\''],
        qtime(t) == crate::ast::quoted(decimal(t as nat)),
        quotable(decimal(t as nat)),
        crate::parser::time_literal(decimal(t as nat)) == Some(t),
{
    lemma_decimal_digits(t as nat);
    lemma_decimal_value(t as nat);
    let d = decimal(t as nat);
    assert(int_text(t as int) == d);
    assert(!d.contains('\'')) by {
        if d.contains('\'') {
            let j = choose|j: int| 0 <= j < d.len() && d[j] == '\'';
            assert(is_digit(d[j]));
        }
    }
    assert(!d.contains('"')) by {
        if d.contains('"') {
            let j = choose|j: int| 0 <= j < d.len() && d[j] == '"';
            assert(is_digit(d[j]));
        }
    }
    assert(crate::parser::all_digits(d));
}

#[verifier::spinoff_prover]
#[verifier::rlimit(100)]
proof fn lemma_lex_tcmp_single(s: Seq<char>, o: int, c: CompareV)
    requires
        time_cmp(c),
        c is Timestamp,
        written(s, o, compare_text(c)),
        s.len() <= usize::MAX,
    ensures
        lex_from(s, o) == prepend(cmp_toks(c, o), lex_from(s, o + compare_text(c).len())),
{
    lemma_words();
    reveal_strlit(" ");
    reveal_strlit("timestamp ");
    reveal_strlit("timestamp");
    reveal_strlit("timestamp between ");
    reveal_strlit("between");
    reveal_strlit(" and ");
    reveal_strlit("and");
    assert(is_word_text("timestamp"@));
    assert(is_word_text("between"@));
    let (op, tm) = (c->Timestamp_0, c->Timestamp_1);
        lemma_qtime(tm);
        lemma_op_text(op);
        let ot = num_op_text(op);
        let k = ot.len() as int;
        let qt = qtime(tm);
        let x = o + 11 + k;
        assert(compare_text(c) == "timestamp"@ + (" "@ + ((ot + " "@) + qt)));
        lemma_written_concat(s, o, "timestamp"@, " "@ + ((ot + " "@) + qt));
        lemma_written_concat(s, o + 9, " "@, (ot + " "@) + qt);
        lemma_written_concat(s, o + 10, ot + " "@, qt);
        lemma_written_concat(s, o + 10, ot, " "@);
        lemma_written_part(s, o + 9, " "@, 0, 1);
        lemma_written_part(s, o + 10 + k, " "@, 0, 1);
        lemma_written_part(s, o + 10, ot, 0, k);
        assert(" "@[0] == ' ');
        lemma_lex_word(s, o, "timestamp"@);
        lemma_skip(s, o + 9);
        assert(s.subrange(o + 10, o + 10 + k) == ot);
        assert(punct_at(s, o + 10) == Some((op_punct(op), o + 10 + k)));
        let c1 = s[o + 10];
        assert(c1 == ot[0]);
        assert(c1 != ' ' && !crate::lexer::is_word_start(c1) && !is_digit(c1) && c1 != '\'' && c1 != '"') by {
            reveal_strlit(">");
            reveal_strlit(">=");
            reveal_strlit("<");
            reveal_strlit("<=");
            reveal_strlit("==");
            reveal_strlit("!=");
        }
        assert(next_token(s, o + 10) == Some(punct_tok(op_punct(op), o + 10, o + 10 + k)));
        lemma_skip(s, o + 10 + k);
        lemma_lex_quoted(s, x, decimal(tm as nat));
        let a = seq![word_tok(o, o + 9)];
        let b = seq![punct_tok(op_punct(op), o + 10, o + 10 + k)];
        let d = seq![text_tok(x, x + qt.len())];
        let rest = lex_from(s, x + qt.len());
        lemma_prepend_assoc(b, d, rest);
        lemma_prepend_assoc(a, b + d, rest);
        assert(a + (b + d) == tcmp_toks(c, o));
}

#[verifier::spinoff_prover]
#[verifier::rlimit(100)]
proof fn lemma_lex_tcmp_between(s: Seq<char>, o: int, c: CompareV)
    requires
        time_cmp(c),
        c is TimestampBetween,
        written(s, o, compare_text(c)),
        s.len() <= usize::MAX,
    ensures
        lex_from(s, o) == prepend(cmp_toks(c, o), lex_from(s, o + compare_text(c).len())),
{
    lemma_words();
    reveal_strlit(" ");
    reveal_strlit("timestamp ");
    reveal_strlit("timestamp");
    reveal_strlit("timestamp between ");
    reveal_strlit("between");
    reveal_strlit(" and ");
    reveal_strlit("and");
    assert(is_word_text("timestamp"@));
    assert(is_word_text("between"@));
    let (lo, hi) = (c->TimestampBetween_0, c->TimestampBetween_1);
        lemma_qtime(lo);
        lemma_qtime(hi);
        let qa = qtime(lo);
        let qb = qtime(hi);
        let m = o + 18 + qa.len();
        assert(compare_text(c) == ("timestamp"@ + " "@ + "between"@) + (" "@ + (qa + (" "@ + (("and"@
            + " "@) + qb)))));
        lemma_written_concat(s, o, "timestamp"@ + " "@ + "between"@, " "@ + (qa + (" "@ + (("and"@ + " "@)
            + qb))));
        lemma_written_concat(s, o + 17, " "@, qa + (" "@ + (("and"@ + " "@) + qb)));
        lemma_written_concat(s, o + 18, qa, " "@ + (("and"@ + " "@) + qb));
        lemma_written_concat(s, m, " "@, ("and"@ + " "@) + qb);
        lemma_written_concat(s, m + 1, "and"@ + " "@, qb);
        lemma_written_part(s, o + 17, " "@, 0, 1);
        lemma_written_part(s, m, " "@, 0, 1);
        assert(" "@[0] == ' ');
        lemma_lex_two_words(s, o, "timestamp"@, "between"@);
        lemma_skip(s, o + 17);
        lemma_lex_quoted(s, o + 18, decimal(lo as nat));
        lemma_skip(s, m);
        lemma_lex_keyword(s, m + 1, "and"@);
        lemma_lex_quoted(s, m + 5, decimal(hi as nat));
        let a = seq![word_tok(o, o + 9), word_tok(o + 10, o + 17)];
        let b = seq![text_tok(o + 18, m)];
        let w = seq![word_tok(m + 1, m + 4)];
        let d = seq![text_tok(m + 5, m + 5 + qb.len())];
        let rest = lex_from(s, m + 5 + qb.len());
        lemma_prepend_assoc(w, d, rest);
        lemma_prepend_assoc(b, w + d, rest);
        lemma_prepend_assoc(a, b + (w + d), rest);
        assert(a + (b + (w + d)) == tcmp_toks(c, o));
}

proof fn lemma_lex_tcmp(s: Seq<char>, o: int, c: CompareV)
    requires
        time_cmp(c),
        written(s, o, compare_text(c)),
        s.len() <= usize::MAX,
    ensures
        lex_from(s, o) == prepend(cmp_toks(c, o), lex_from(s, o + compare_text(c).len())),
{
    if c is Timestamp {
        lemma_lex_tcmp_single(s, o, c);
    } else {
        lemma_lex_tcmp_between(s, o, c);
    }
}

#[verifier::spinoff_prover]
#[verifier::rlimit(100)]
proof fn lemma_parse_tcmp_single(s: Seq<char>, t: Seq<Token>, p: int, o: int, c: CompareV)
    requires
        time_cmp(c),
        c is Timestamp,
        written(s, o, compare_text(c)),
        at(t, p, cmp_toks(c, o)),
        s.len() <= usize::MAX,
    ensures
        spec_atom(s, t, p) == Some((AtomV::Compare(c), p + cmp_toks(c, o).len())),
{
    reveal_strlit(" ");
    reveal_strlit("timestamp ");
    reveal_strlit("timestamp");
    reveal_strlit("timestamp between ");
    reveal_strlit("between");
    reveal_strlit(" and ");
    reveal_strlit("and");
    reveal_strlit("partition");
    reveal_strlit("offset");
    reveal_strlit("size");
    let x = tcmp_toks(c, o);
    assert(x == x.subrange(0, 1) + x.subrange(1, x.len() as int));
    lemma_at_split(t, p, x.subrange(0, 1), x.subrange(1, x.len() as int));
    assert(forall|i: int| 0 <= i < x.len() ==> t[p + i] == #[trigger] x[i]) by {
        assert forall|i: int| 0 <= i < x.len() implies t[p + i] == #[trigger] x[i] by {
            assert(t.subrange(p, p + x.len())[i] == x[i]);
        }
    }
    assert("timestamp"@[0] != "partition"@[0]);
    let (op, tm) = (c->Timestamp_0, c->Timestamp_1);
        lemma_qtime(tm);
        let ot = num_op_text(op);
        let k = ot.len() as int;
        let qt = qtime(tm);
        let xx = o + 11 + k;
        assert(compare_text(c) == "timestamp"@ + (" "@ + ((ot + " "@) + qt)));
        lemma_written_concat(s, o, "timestamp"@, " "@ + ((ot + " "@) + qt));
        lemma_written_concat(s, o + 9, " "@, (ot + " "@) + qt);
        lemma_written_concat(s, o + 10, ot + " "@, qt);
        assert(t[p] == x[0] && t[p + 1] == x[1] && t[p + 2] == x[2]);
        assert(tok_text(s, t[p]) == "timestamp"@);
        assert(qt.subrange(1, qt.len() - 1) == decimal(tm as nat));
        lemma_written_part(s, xx, qt, 1, qt.len() - 1);
        assert(crate::parser::tok_content(s, t[p + 2]) == decimal(tm as nat));
        match op {
            NumberOperator::GreaterThan => {},
            NumberOperator::GreaterOrEqual => {},
            NumberOperator::LowerThan => {},
            NumberOperator::LowerOrEqual => {},
            NumberOperator::Equal => {},
            NumberOperator::NotEqual => {},
        }
}

#[verifier::spinoff_prover]
#[verifier::rlimit(100)]
proof fn lemma_tbetween_tokens(s: Seq<char>, t: Seq<Token>, p: int, o: int, c: CompareV)
    requires
        time_cmp(c),
        c is TimestampBetween,
        written(s, o, compare_text(c)),
        at(t, p, cmp_toks(c, o)),
        s.len() <= usize::MAX,
    ensures
        cmp_toks(c, o).len() == 5,
        t[p].kind == TokenKind::Word && tok_text(s, t[p]) == "timestamp"@,
        t[p + 1].kind == TokenKind::Word && tok_text(s, t[p + 1]) == "between"@,
        t[p + 2].kind == TokenKind::Text && crate::parser::tok_content(s, t[p + 2]) == decimal(c->TimestampBetween_0 as nat),
        t[p + 3].kind == TokenKind::Word && tok_text(s, t[p + 3]) == "and"@,
        t[p + 4].kind == TokenKind::Text && crate::parser::tok_content(s, t[p + 4]) == decimal(c->TimestampBetween_1 as nat),
{
    reveal_strlit(" ");
    reveal_strlit("timestamp ");
    reveal_strlit("timestamp");
    reveal_strlit("timestamp between ");
    reveal_strlit("between");
    reveal_strlit(" and ");
    reveal_strlit("and");
    reveal_strlit("partition");
    reveal_strlit("offset");
    reveal_strlit("size");
    let x = tcmp_toks(c, o);
    assert(x == x.subrange(0, 1) + x.subrange(1, x.len() as int));
    lemma_at_split(t, p, x.subrange(0, 1), x.subrange(1, x.len() as int));
    assert(forall|i: int| 0 <= i < x.len() ==> t[p + i] == #[trigger] x[i]) by {
        assert forall|i: int| 0 <= i < x.len() implies t[p + i] == #[trigger] x[i] by {
            assert(t.subrange(p, p + x.len())[i] == x[i]);
        }
    }
    assert("timestamp"@[0] != "partition"@[0]);
    let (lo, hi) = (c->TimestampBetween_0, c->TimestampBetween_1);
        lemma_qtime(lo);
        lemma_qtime(hi);
        let qa = qtime(lo);
        let qb = qtime(hi);
        let m = o + 18 + qa.len();
        assert(compare_text(c) == ("timestamp"@ + " "@ + "between"@) + (" "@ + (qa + (" "@ + (("and"@
            + " "@) + qb)))));
        lemma_written_concat(s, o, "timestamp"@ + " "@ + "between"@, " "@ + (qa + (" "@ + (("and"@ + " "@)
            + qb))));
        lemma_written_concat(s, o, "timestamp"@ + " "@, "between"@);
        lemma_written_concat(s, o, "timestamp"@, " "@);
        lemma_written_concat(s, o + 17, " "@, qa + (" "@ + (("and"@ + " "@) + qb)));
        lemma_written_concat(s, o + 18, qa, " "@ + (("and"@ + " "@) + qb));
        lemma_written_concat(s, m, " "@, ("and"@ + " "@) + qb);
        lemma_written_concat(s, m + 1, "and"@ + " "@, qb);
        lemma_written_concat(s, m + 1, "and"@, " "@);
        assert(t[p] == x[0] && t[p + 1] == x[1] && t[p + 2] == x[2] && t[p + 3] == x[3] && t[p + 4] == x[4]);
        assert(tok_text(s, t[p]) == "timestamp"@);
        assert(tok_text(s, t[p + 1]) == "between"@);
        assert(tok_text(s, t[p + 3]) == "and"@);
        assert(qa.subrange(1, qa.len() - 1) == decimal(lo as nat));
        assert(qb.subrange(1, qb.len() - 1) == decimal(hi as nat));
        lemma_written_part(s, o + 18, qa, 1, qa.len() - 1);
        lemma_written_part(s, m + 5, qb, 1, qb.len() - 1);
        assert(crate::parser::tok_content(s, t[p + 2]) == decimal(lo as nat));
        assert(crate::parser::tok_content(s, t[p + 4]) == decimal(hi as nat));
}
proof fn lemma_parse_tcmp_between(s: Seq<char>, t: Seq<Token>, p: int, o: int, c: CompareV)
    requires
        time_cmp(c),
        c is TimestampBetween,
        written(s, o, compare_text(c)),
        at(t, p, cmp_toks(c, o)),
        s.len() <= usize::MAX,
    ensures
        spec_atom(s, t, p) == Some((AtomV::Compare(c), p + cmp_toks(c, o).len())),
{
    reveal_strlit("timestamp");
    reveal_strlit("between");
    reveal_strlit("and");
    reveal_strlit("partition");
    reveal_strlit("offset");
    reveal_strlit("size");
    lemma_tbetween_tokens(s, t, p, o, c);
    lemma_qtime(c->TimestampBetween_0);
    lemma_qtime(c->TimestampBetween_1);
    assert("timestamp"@[0] != "partition"@[0]);
}


proof fn lemma_parse_tcmp(s: Seq<char>, t: Seq<Token>, p: int, o: int, c: CompareV)
    requires
        time_cmp(c),
        written(s, o, compare_text(c)),
        at(t, p, cmp_toks(c, o)),
        s.len() <= usize::MAX,
    ensures
        spec_atom(s, t, p) == Some((AtomV::Compare(c), p + cmp_toks(c, o).len())),
{
    if c is Timestamp {
        lemma_parse_tcmp_single(s, t, p, o, c);
    } else {
        lemma_parse_tcmp_between(s, t, p, o, c);
    }
}

proof fn lemma_written_concat(s: Seq<char>, o: int, x: Seq<char>, y: Seq<char>)
    requires
        written(s, o, x + y),
    ensures
        written(s, o, x),
        written(s, o + x.len(), y),
{
    lemma_written_part(s, o, x + y, 0, x.len() as int);
    lemma_written_part(s, o, x + y, x.len() as int, (x + y).len() as int);
    assert((x + y).subrange(0, x.len() as int) == x);
    assert((x + y).subrange(x.len() as int, (x + y).len() as int) == y);
}

proof fn lemma_atom_start(a: AtomV)
    requires
        printable_atom(a),
    ensures
        atom_text(a).len() >= 1,
        atom_text(a)[0] != '=',
        atom_text(a)[0] != ' ',
{
    reveal_strlit("(");
    match a {
        AtomV::Compare(c) => {
            assert(atom_text(a) == compare_text(c));
            if numeric_cmp(c) {
                lemma_cmp_text(c);
                assert(compare_text(c)[0] == field_word(c)[0]);
                assert(crate::lexer::is_word_start(field_word(c)[0]));
            } else if textual_cmp(c) {
                lemma_scmp_text(c);
                assert(compare_text(c)[0] == text_field(c)[0]);
            } else {
                reveal_strlit("timestamp ");
                reveal_strlit("timestamp between ");
            }
        },
        _ => {},
    }
}

/// A lone punctuation character at `o`, followed by something else than `=`.
proof fn lemma_lex_punct(s: Seq<char>, o: int, p: Punct)
    requires
        0 <= o < s.len() <= usize::MAX,
        o + 1 == s.len() || s[o + 1] != '=',
        (p == Punct::LParen && s[o] == '(') || (p == Punct::RParen && s[o] == ')') || (p == Punct::Bang
            && s[o] == '!'),
    ensures
        lex_from(s, o) == prepend(seq![punct_tok(p, o, o + 1)], lex_from(s, o + 1)),
{
    assert(punct_at(s, o) == Some((p, o + 1)));
    assert(next_token(s, o) == Some(punct_tok(p, o, o + 1)));
}

/// The keyword `kw` at `o`, followed by a space.
proof fn lemma_lex_keyword(s: Seq<char>, o: int, kw: Seq<char>)
    requires
        kw == "and"@ || kw == "or"@,
        written(s, o, kw + " "@),
        s.len() <= usize::MAX,
    ensures
        lex_from(s, o) == prepend(seq![word_tok(o, o + kw.len())], lex_from(s, o + kw.len() + 1)),
{
    reveal_strlit("and");
    reveal_strlit("or");
    reveal_strlit(" ");
    lemma_written_part(s, o, kw + " "@, 0, kw.len() as int + 1);
    assert forall|j: int| o + 1 <= j < o + kw.len() implies #[trigger] is_word_char(s[j]) by {
        assert(s[o + (j - o)] == (kw + " "@)[j - o]);
    }
    assert(s[o + kw.len()] == (kw + " "@)[kw.len() as int]);
    lemma_scan_word_run(s, o + 1, o + kw.len());
    assert(s[o] == (kw + " "@)[0]);
    assert(next_token(s, o) == Some(word_tok(o, o + kw.len())));
    assert(lex_from(s, o + kw.len()) == lex_from(s, o + kw.len() + 1));
}

proof fn lemma_param_text(x: ParameterV)
    requires
        param_ok(x),
    ensures
        parameter_text(x).len() >= 1,
        is_digit(parameter_text(x)[0]) || parameter_text(x)[0] == '\'' || parameter_text(x)[0] == '"',
{
    match x {
        ParameterV::Number(n) => {
            lemma_decimal_digits(n as nat);
        },
        ParameterV::Text(l) => {},
    }
}

proof fn lemma_params_start(ps: Seq<ParameterV>)
    requires
        ps.len() >= 1,
        forall|i: int| 0 <= i < ps.len() ==> param_ok(#[trigger] ps[i]),
    ensures
        parameters_text(ps).len() >= 1,
        is_digit(parameters_text(ps)[0]) || parameters_text(ps)[0] == '\'' || parameters_text(ps)[0] == '"',
    decreases ps.len(),
{
    if ps.len() == 1 {
        lemma_param_text(ps[0]);
    } else {
        let dl = ps.drop_last();
        assert forall|i: int| 0 <= i < dl.len() implies param_ok(#[trigger] dl[i]) by {
            assert(dl[i] == ps[i]);
        }
        lemma_params_start(dl);
        assert(parameters_text(ps)[0] == parameters_text(dl)[0]);
    }
}

proof fn lemma_lex_param(s: Seq<char>, o: int, x: ParameterV)
    requires
        param_ok(x),
        written(s, o, parameter_text(x)),
        o + parameter_text(x).len() < s.len(),
        !is_number_char(s[o + parameter_text(x).len()]),
        s.len() <= usize::MAX,
    ensures
        lex_from(s, o) == prepend(param_toks(x, o), lex_from(s, o + parameter_text(x).len())),
{
    match x {
        ParameterV::Number(n) => {
            lemma_lex_decimal(s, o, n as nat);
        },
        ParameterV::Text(l) => {
            lemma_lex_quoted(s, o, l);
        },
    }
}

proof fn lemma_lex_params(s: Seq<char>, o: int, ps: Seq<ParameterV>)
    requires
        forall|i: int| 0 <= i < ps.len() ==> param_ok(#[trigger] ps[i]),
        written(s, o, parameters_text(ps)),
        o + parameters_text(ps).len() < s.len(),
        s[o + parameters_text(ps).len()] == ')' || s[o + parameters_text(ps).len()] == ',',
        s.len() <= usize::MAX,
    ensures
        lex_from(s, o) == prepend(params_toks(ps, o), lex_from(s, o + parameters_text(ps).len())),
    decreases ps.len(),
{
    reveal_strlit(", ");
    if ps.len() == 0 {
        assert(params_toks(ps, o) + Seq::<Token>::empty() == params_toks(ps, o));
        match lex_from(s, o) {
            Some(r) => {
                assert(Seq::<Token>::empty() + r == r);
            },
            None => {},
        }
    } else if ps.len() == 1 {
        lemma_lex_param(s, o, ps[0]);
    } else {
        let dl = ps.drop_last();
        let a = parameters_text(dl);
        let x = parameter_text(ps.last());
        assert forall|i: int| 0 <= i < dl.len() implies param_ok(#[trigger] dl[i]) by {
            assert(dl[i] == ps[i]);
        }
        assert(parameters_text(ps) == a + (", "@ + x));
        lemma_written_concat(s, o, a, ", "@ + x);
        lemma_written_concat(s, o + a.len(), ", "@, x);
        lemma_written_part(s, o + a.len(), ", "@, 0, 2);
        assert(", "@[0] == ',' && ", "@[1] == ' ');
        assert(s[o + a.len()] == ',' && s[o + a.len() + 1] == ' ');
        lemma_lex_params(s, o, dl);
        assert(punct_at(s, o + a.len()) == Some((Punct::Comma, o + a.len() + 1)));
        assert(next_token(s, o + a.len()) == Some(punct_tok(Punct::Comma, o + a.len(), o + a.len() + 1)));
        lemma_skip(s, o + a.len() + 1);
        lemma_param_text(ps.last());
        lemma_lex_param(s, o + a.len() + 2, ps.last());
        let c = seq![punct_tok(Punct::Comma, o + a.len(), o + a.len() + 1)];
        let lt = param_toks(ps.last(), o + a.len() + 2);
        let rest = lex_from(s, o + parameters_text(ps).len());
        lemma_prepend_assoc(c, lt, rest);
        lemma_prepend_assoc(params_toks(dl, o), c + lt, rest);
        assert(params_toks(dl, o) + (c + lt) == params_toks(ps, o));
    }
}

#[verifier::spinoff_prover]
proof fn lemma_lex_filter(s: Seq<char>, o: int, f: FilterV)
    requires
        filter_ok(f),
        written(s, o, filter_text(f)),
        boundary(s, o + filter_text(f).len()),
        s.len() <= usize::MAX,
    ensures
        lex_from(s, o) == prepend(filter_toks(f, o), lex_from(s, o + filter_text(f).len())),
{
    reveal_strlit("(");
    reveal_strlit(")");
    let n = f.name.len() as int;
    let pt = parameters_text(f.parameters);
    let e = o + n + 1 + pt.len();
    assert(filter_text(f) == f.name + ("("@ + (pt + ")"@)));
    lemma_written_concat(s, o, f.name, "("@ + (pt + ")"@));
    lemma_written_concat(s, o + n, "("@, pt + ")"@);
    lemma_written_concat(s, o + n + 1, pt, ")"@);
    lemma_written_part(s, o + n, "("@, 0, 1);
    lemma_written_part(s, e, ")"@, 0, 1);
    assert("("@[0] == '(' && ")"@[0] == ')');
    assert(s[o + n] == '(' && s[e] == ')');
    lemma_lex_word(s, o, f.name);
    if f.parameters.len() > 0 {
        lemma_params_start(f.parameters);
        lemma_written_part(s, o + n + 1, pt, 0, 1);
        assert(s[o + n + 1] == pt[0]);
    }
    lemma_lex_punct(s, o + n, Punct::LParen);
    lemma_lex_params(s, o + n + 1, f.parameters);
    lemma_lex_punct(s, e, Punct::RParen);
    let a = seq![word_tok(o, o + n)];
    let b = seq![punct_tok(Punct::LParen, o + n, o + n + 1)];
    let c = params_toks(f.parameters, o + n + 1);
    let d = seq![punct_tok(Punct::RParen, e, e + 1)];
    let rest = lex_from(s, e + 1);
    lemma_prepend_assoc(c, d, rest);
    lemma_prepend_assoc(b, c + d, rest);
    lemma_prepend_assoc(a, b + (c + d), rest);
    assert(a + (b + (c + d)) == filter_toks(f, o));
}

proof fn lemma_lex_atom(s: Seq<char>, o: int, a: AtomV)
    requires
        printable_atom(a),
        written(s, o, atom_text(a)),
        boundary(s, o + atom_text(a).len()),
        s.len() <= usize::MAX,
    ensures
        lex_from(s, o) == prepend(atom_toks(a, o), lex_from(s, o + atom_text(a).len())),
    decreases a,
{
    reveal_strlit("(");
    reveal_strlit(")");
    match a {
        AtomV::Compare(c) => {
            if numeric_cmp(c) {
                lemma_lex_cmp(s, o, c);
            } else if textual_cmp(c) {
                lemma_lex_scmp(s, o, c);
            } else {
                lemma_lex_tcmp(s, o, c);
            }
        },
        AtomV::Filter(f) => {
            lemma_lex_filter(s, o, f);
        },
        AtomV::Parenthesis(e) => {
            let x = expr_text(*e);
            assert(atom_text(a) == "("@ + x + ")"@);
            lemma_written_concat(s, o, "("@ + x, ")"@);
            lemma_written_concat(s, o, "("@, x);
            let f = atom_text(a);
            lemma_written_part(s, o, f, 0, f.len() as int);
            lemma_expr_start(*e);
            assert(f[0] == '(');
            assert(f[1 + x.len() as int] == ')');
            assert(f[1] == x[0]);
            assert(s[o] == '(');
            assert(s[o + 1 + x.len()] == ')');
            assert(s[o + 1] == x[0]);
            lemma_lex_punct(s, o, Punct::LParen);
            lemma_lex_expr(s, o + 1, *e);
            lemma_lex_punct(s, o + 1 + x.len(), Punct::RParen);
            let lp = seq![punct_tok(Punct::LParen, o, o + 1)];
            let rp = seq![punct_tok(Punct::RParen, o + 1 + x.len(), o + 2 + x.len())];
            let et = expr_toks(*e, o + 1);
            let rest = lex_from(s, o + 2 + x.len());
            lemma_prepend_assoc(et, rp, rest);
            lemma_prepend_assoc(lp, et + rp, rest);
            assert(lp + (et + rp) == lp + et + rp);
        },
        _ => {},
    }
}

proof fn lemma_lex_term(s: Seq<char>, o: int, t: TermV)
    requires
        printable_term(t),
        written(s, o, term_text(t)),
        boundary(s, o + term_text(t).len()),
        s.len() <= usize::MAX,
    ensures
        lex_from(s, o) == prepend(term_toks(t, o), lex_from(s, o + term_text(t).len())),
    decreases t,
{
    reveal_strlit("!");
    match t {
        TermV::Not(a) => {
            let x = atom_text(a);
            assert(term_text(t) == "!"@ + x);
            lemma_written_concat(s, o, "!"@, x);
            let f = term_text(t);
            lemma_written_part(s, o, f, 0, f.len() as int);
            lemma_atom_start(a);
            assert(f[0] == '!');
            assert(f[1] == x[0]);
            assert(s[o] == '!');
            assert(s[o + 1] == x[0]);
            lemma_lex_punct(s, o, Punct::Bang);
            lemma_lex_atom(s, o + 1, a);
            lemma_prepend_assoc(seq![punct_tok(Punct::Bang, o, o + 1)], atom_toks(a, o + 1), lex_from(s, o + 1 + x.len()));
        },
        TermV::Atom(a) => {
            lemma_lex_atom(s, o, a);
        },
    }
}

proof fn lemma_and_is_or(e: ExprV)
    ensures
        and_form(e) ==> or_form(e),
        or_form(e) && !(e is Or) ==> and_form(e),
        or_form(e) && e is Or ==> or_form(*e->Or_0) && and_form(*e->Or_1),
        and_form(e) && e is And ==> and_form(*e->And_0) && (*e->And_1 is Term) && printable_term(e->And_1->Term_0),
        and_form(e) && e is Term ==> printable_term(e->Term_0),
{
}

proof fn lemma_expr_start(e: ExprV)
    requires
        or_form(e),
    ensures
        expr_text(e).len() >= 1,
        expr_text(e)[0] != '=',
        expr_text(e)[0] != ' ',
    decreases e,
{
    reveal_strlit("!");
    lemma_and_is_or(e);
    match e {
        ExprV::Term(t) => {
            assert(expr_text(e) == term_text(t));
            match t {
                TermV::Not(a) => {
                    assert(term_text(t) == "!"@ + atom_text(a));
                    assert(("!"@ + atom_text(a))[0] == '!');
                },
                TermV::Atom(a) => {
                    assert(term_text(t) == atom_text(a));
                    lemma_atom_start(a);
                },
            }
        },
        ExprV::And(l, r) => {
            lemma_and_is_or(*l);
            lemma_expr_start(*l);
            assert(expr_text(e)[0] == expr_text(*l)[0]);
        },
        ExprV::Or(l, r) => {
            lemma_expr_start(*l);
            assert(expr_text(e)[0] == expr_text(*l)[0]);
        },
    }
}

/// The tokens around a keyword between two printed operands.
proof fn lemma_lex_binary(s: Seq<char>, o: int, x: Seq<char>, kw: Seq<char>, y: Seq<char>, lt: Seq<Token>, rt: Seq<Token>)
    requires
        kw == "and"@ || kw == "or"@,
        written(s, o, x + " "@ + kw + " "@ + y),
        s.len() <= usize::MAX,
        lex_from(s, o) == prepend(lt, lex_from(s, o + x.len())),
        lex_from(s, o + x.len() + kw.len() + 2) == prepend(rt, lex_from(s, o + x.len() + kw.len() + 2 + y.len())),
    ensures
        lex_from(s, o) == prepend(
            lt + seq![word_tok(o + x.len() + 1, o + x.len() + 1 + kw.len())] + rt,
            lex_from(s, o + x.len() + kw.len() + 2 + y.len()),
        ),
{
    reveal_strlit(" ");
    let m = o + x.len();
    assert(x + " "@ + kw + " "@ + y == x + (" "@ + ((kw + " "@) + y)));
    lemma_written_concat(s, o, x, " "@ + ((kw + " "@) + y));
    lemma_written_concat(s, m, " "@, (kw + " "@) + y);
    lemma_written_concat(s, m + 1, kw + " "@, y);
    lemma_written_part(s, m, " "@, 0, 1);
    assert(" "@[0] == ' ');
    assert(s[m] == ' ');
    assert(lex_from(s, m) == lex_from(s, m + 1));
    lemma_lex_keyword(s, m + 1, kw);
    let w = seq![word_tok(m + 1, m + 1 + kw.len())];
    let rest = lex_from(s, m + kw.len() + 2 + y.len());
    lemma_prepend_assoc(w, rt, rest);
    lemma_prepend_assoc(lt, w + rt, rest);
    assert(lt + (w + rt) == lt + w + rt);
}

#[verifier::spinoff_prover]
#[verifier::rlimit(80)]
proof fn lemma_lex_expr(s: Seq<char>, o: int, e: ExprV)
    requires
        or_form(e),
        written(s, o, expr_text(e)),
        boundary(s, o + expr_text(e).len()),
        s.len() <= usize::MAX,
    ensures
        lex_from(s, o) == prepend(expr_toks(e, o), lex_from(s, o + expr_text(e).len())),
    decreases e,
{
    reveal_strlit(" and ");
    reveal_strlit(" or ");
    reveal_strlit("and");
    reveal_strlit("or");
    reveal_strlit(" ");
    lemma_and_is_or(e);
    match e {
        ExprV::Term(t) => {
            assert(and_form(e));
            lemma_lex_term(s, o, t);
        },
        ExprV::And(l, r) => {
            let x = expr_text(*l);
            let y = expr_text(*r);
            let m = o + x.len();
            lemma_and_is_or(*l);
            lemma_and_is_or(*r);
            assert(expr_text(e) == x + " "@ + "and"@ + " "@ + y);
            assert(x + " "@ + "and"@ + " "@ + y == x + (" "@ + "and"@ + " "@ + y));
            lemma_written_concat(s, o, x, " "@ + "and"@ + " "@ + y);
            lemma_written_concat(s, m, " "@ + "and"@ + " "@, y);
            lemma_written_part(s, o + x.len(), " "@ + "and"@ + " "@ + y, 0, 1);
            assert((" "@ + "and"@ + " "@ + y)[0] == ' ');
            lemma_lex_expr(s, o, *l);
            lemma_lex_expr(s, m + 5, *r);
            lemma_lex_binary(s, o, x, "and"@, y, expr_toks(*l, o), expr_toks(*r, m + 5));
        },
        ExprV::Or(l, r) => {
            let x = expr_text(*l);
            let y = expr_text(*r);
            let m = o + x.len();
            lemma_and_is_or(*l);
            lemma_and_is_or(*r);
            assert(expr_text(e) == x + " "@ + "or"@ + " "@ + y);
            assert(x + " "@ + "or"@ + " "@ + y == x + (" "@ + "or"@ + " "@ + y));
            lemma_written_concat(s, o, x, " "@ + "or"@ + " "@ + y);
            lemma_written_concat(s, m, " "@ + "or"@ + " "@, y);
            lemma_written_part(s, o + x.len(), " "@ + "or"@ + " "@ + y, 0, 1);
            assert((" "@ + "or"@ + " "@ + y)[0] == ' ');
            lemma_lex_expr(s, o, *l);
            lemma_lex_expr(s, m + 4, *r);
            lemma_lex_binary(s, o, x, "or"@, y, expr_toks(*l, o), expr_toks(*r, m + 4));
        },
    }
}

// ------------------------------------------------ parsing the printed tokens

/// `x` stands in `t` from index `p` on.
pub open spec fn at(t: Seq<Token>, p: int, x: Seq<Token>) -> bool {
    0 <= p && p + x.len() <= t.len() && t.subrange(p, p + x.len()) == x
}

proof fn lemma_at_split(t: Seq<Token>, p: int, x: Seq<Token>, y: Seq<Token>)
    requires
        at(t, p, x + y),
    ensures
        at(t, p, x),
        at(t, p + x.len(), y),
        forall|i: int| 0 <= i < x.len() ==> t[p + i] == #[trigger] x[i],
        forall|i: int| 0 <= i < y.len() ==> t[p + x.len() + i] == #[trigger] y[i],
{
    assert forall|i: int| 0 <= i < x.len() implies t[p + i] == #[trigger] x[i] by {
        assert(t.subrange(p, p + (x + y).len())[i] == (x + y)[i]);
    }
    assert forall|i: int| 0 <= i < y.len() implies t[p + x.len() + i] == #[trigger] y[i] by {
        assert(t.subrange(p, p + (x + y).len())[x.len() + i] == (x + y)[x.len() + i]);
    }
    assert(t.subrange(p, p + x.len()) =~= x);
    assert(t.subrange(p + x.len(), p + x.len() + y.len()) =~= y);
}

/// Nothing that would extend an expression follows at `q`.
pub open spec fn ends_expr(s: Seq<char>, t: Seq<Token>, q: int) -> bool {
    !word_at(s, t, q, "and"@) && !word_at(s, t, q, "or"@)
}

pub open spec fn first_term(e: ExprV) -> TermV
    decreases e,
{
    match e {
        ExprV::Term(t) => t,
        ExprV::And(l, _) => first_term(*l),
        ExprV::Or(l, _) => first_term(*l),
    }
}

pub open spec fn first_and(e: ExprV) -> ExprV
    decreases e,
{
    match e {
        ExprV::Or(l, _) => first_and(*l),
        _ => e,
    }
}

proof fn lemma_cmp_word(s: Seq<char>, o: int, c: CompareV)
    requires
        numeric_cmp(c),
        written(s, o, compare_text(c)),
    ensures
        s.subrange(o, o + field_word(c).len()) == field_word(c),
{
    lemma_cmp_text(c);
    reveal_strlit(" ");
    let f = compare_text(c);
    lemma_written_part(s, o, f, 0, field_word(c).len() as int);
    assert(f.subrange(0, field_word(c).len() as int) == field_word(c));
}

proof fn lemma_parse_cmp(s: Seq<char>, t: Seq<Token>, p: int, o: int, c: CompareV)
    requires
        numeric_cmp(c),
        written(s, o, compare_text(c)),
        at(t, p, cmp_toks(c, o)),
        s.len() <= usize::MAX,
    ensures
        spec_atom(s, t, p) == Some((AtomV::Compare(c), p + 3)),
{
    let x = cmp_toks(c, o);
    assert(x == seq![x[0]] + seq![x[1], x[2]]);
    lemma_at_split(t, p, seq![x[0]], seq![x[1], x[2]]);
    assert(t[p] == x[0] && t[p + 1] == x[1] && t[p + 2] == x[2]);
    lemma_cmp_word(s, o, c);
    lemma_cmp_text(c);
    assert(o + field_word(c).len() <= s.len());
    assert(tok_text(s, t[p]) == field_word(c));
    reveal_strlit("offset");
    reveal_strlit("partition");
    reveal_strlit("size");
    reveal_strlit("timestamp");
    reveal_strlit("topic");
    reveal_strlit("key");
    reveal_strlit("value");
}

proof fn lemma_toks_shape(e: ExprV, o: int)
    requires
        or_form(e),
    ensures
        expr_toks(e, o).len() >= 1,
        exists|rest: Seq<Token>| expr_toks(e, o) == #[trigger] term_toks(first_term(e), o) + rest,
        exists|rest: Seq<Token>| expr_toks(e, o) == #[trigger] expr_toks(first_and(e), o) + rest,
        term_toks(first_term(e), o).len() >= 1,
    decreases e,
{
    lemma_and_is_or(e);
    match e {
        ExprV::Term(t) => {
            assert(expr_toks(e, o) == term_toks(t, o) + Seq::<Token>::empty());
            lemma_term_toks_len(t, o);
        },
        ExprV::And(l, r) => {
            lemma_and_is_or(*l);
            lemma_toks_shape(*l, o);
            let m = o + expr_text(*l).len();
            let tail = seq![word_tok(m + 1, m + 4)] + expr_toks(*r, m + 5);
            let rest = choose|rest: Seq<Token>| expr_toks(*l, o) == #[trigger] term_toks(first_term(*l), o) + rest;
            assert(expr_toks(e, o) == term_toks(first_term(e), o) + (rest + tail));
            assert(expr_toks(e, o) == expr_toks(first_and(e), o) + Seq::<Token>::empty());
        },
        ExprV::Or(l, r) => {
            lemma_toks_shape(*l, o);
            let m = o + expr_text(*l).len();
            let tail = seq![word_tok(m + 1, m + 3)] + expr_toks(*r, m + 4);
            let rest = choose|rest: Seq<Token>| expr_toks(*l, o) == #[trigger] term_toks(first_term(*l), o) + rest;
            assert(expr_toks(e, o) == term_toks(first_term(e), o) + (rest + tail));
            let rest2 = choose|rest: Seq<Token>| expr_toks(*l, o) == #[trigger] expr_toks(first_and(*l), o) + rest;
            assert(expr_toks(e, o) == expr_toks(first_and(e), o) + (rest2 + tail));
        },
    }
}

proof fn lemma_term_toks_len(t: TermV, o: int)
    requires
        printable_term(t),
    ensures
        term_toks(t, o).len() >= 1,
        !(term_toks(t, o)[0].kind == TokenKind::Punct(Punct::Bang)) <==> (t is Atom),
{
    match t {
        TermV::Not(a) => {},
        TermV::Atom(a) => {
            match a {
                AtomV::Compare(c) => {},
                AtomV::Parenthesis(e) => {},
                _ => {},
            }
        },
    }
}

/// The tokens of printed parameters: each parameter, then a comma or the end.
proof fn lemma_params_index(s: Seq<char>, o: int, ps: Seq<ParameterV>)
    requires
        ps.len() >= 1,
        forall|i: int| 0 <= i < ps.len() ==> param_ok(#[trigger] ps[i]),
        written(s, o, parameters_text(ps)),
        s.len() <= usize::MAX,
    ensures
        params_toks(ps, o).len() == 2 * ps.len() - 1,
        forall|k: int| 0 <= k < ps.len() ==> crate::parser::spec_parameter(s, params_toks(ps, o), 2 * k) == Some(
            #[trigger] ps[k],
        ),
        forall|k: int| 0 <= k < ps.len() - 1 ==> #[trigger] params_toks(ps, o)[2 * k + 1].kind == TokenKind::Punct(
            Punct::Comma,
        ),
    decreases ps.len(),
{
    reveal_strlit(", ");
    if ps.len() == 1 {
        lemma_param_tok(s, o, ps[0]);
        assert(params_toks(ps, o) == param_toks(ps[0], o));
    } else {
        let dl = ps.drop_last();
        let a = parameters_text(dl);
        let x = parameter_text(ps.last());
        assert forall|i: int| 0 <= i < dl.len() implies param_ok(#[trigger] dl[i]) by {
            assert(dl[i] == ps[i]);
        }
        assert(parameters_text(ps) == a + (", "@ + x));
        lemma_written_concat(s, o, a, ", "@ + x);
        lemma_written_concat(s, o + a.len(), ", "@, x);
        lemma_params_index(s, o, dl);
        lemma_param_tok(s, o + a.len() + 2, ps.last());
        let d = params_toks(dl, o);
        let c = seq![punct_tok(Punct::Comma, o + a.len(), o + a.len() + 1)];
        let l = param_toks(ps.last(), o + a.len() + 2);
        let all = params_toks(ps, o);
        assert(all == d + c + l);
        assert forall|k: int| 0 <= k < ps.len() implies crate::parser::spec_parameter(s, all, 2 * k) == Some(
            #[trigger] ps[k],
        ) by {
            if k < dl.len() {
                assert(all[2 * k] == d[2 * k]);
                assert(ps[k] == dl[k]);
                assert(crate::parser::spec_parameter(s, d, 2 * k) == Some(dl[k]));
            } else {
                assert(all[2 * k] == l[0]);
                assert(crate::parser::spec_parameter(s, l, 0) == Some(ps.last()));
            }
        }
        assert forall|k: int| 0 <= k < ps.len() - 1 implies #[trigger] all[2 * k + 1].kind == TokenKind::Punct(
            Punct::Comma,
        ) by {
            if k < dl.len() - 1 {
                assert(all[2 * k + 1] == d[2 * k + 1]);
            } else {
                assert(all[2 * k + 1] == c[0]);
            }
        }
    }
}

proof fn lemma_param_tok(s: Seq<char>, o: int, x: ParameterV)
    requires
        param_ok(x),
        written(s, o, parameter_text(x)),
        s.len() <= usize::MAX,
    ensures
        param_toks(x, o).len() == 1,
        crate::parser::spec_parameter(s, param_toks(x, o), 0) == Some(x),
{
    match x {
        ParameterV::Number(n) => {},
        ParameterV::Text(l) => {
            let qt = crate::ast::quoted(l);
            let q = if l.contains('\'') { '"' } else { '\'' };
            assert(qt == seq![q] + l + seq![q]);
            assert(qt.subrange(1, qt.len() - 1) == l);
            lemma_written_part(s, o, qt, 1, qt.len() - 1);
            assert(crate::parser::tok_content(s, param_toks(x, o)[0]) == l);
        },
    }
}

/// Reading the parameters from the one of index `k` on.
proof fn lemma_parse_params(s: Seq<char>, t: Seq<Token>, q: int, o: int, ps: Seq<ParameterV>, k: int)
    requires
        1 <= ps.len(),
        0 <= k < ps.len(),
        forall|i: int| 0 <= i < ps.len() ==> param_ok(#[trigger] ps[i]),
        written(s, o, parameters_text(ps)),
        at(t, q, params_toks(ps, o)),
        crate::parser::punct_at_pos(t, q + 2 * ps.len() - 1, Punct::RParen),
        s.len() <= usize::MAX,
    ensures
        crate::parser::spec_parameters(s, t, q + 2 * k, ps.subrange(0, k)) == Some((ps, q + 2 * ps.len())),
    decreases ps.len() - k,
{
    lemma_params_index(s, o, ps);
    let pt = params_toks(ps, o);
    assert(t[q + 2 * k] == pt[2 * k]) by {
        assert(t.subrange(q, q + pt.len())[2 * k] == pt[2 * k]);
    }
    assert(crate::parser::spec_parameter(s, t, q + 2 * k) == crate::parser::spec_parameter(s, pt, 2 * k));
    assert(crate::parser::spec_parameter(s, pt, 2 * k) == Some(ps[k]));
    assert(ps.subrange(0, k).push(ps[k]) == ps.subrange(0, k + 1));
    if k == ps.len() - 1 {
        assert(ps.subrange(0, k + 1) == ps);
    } else {
        assert(t[q + 2 * k + 1] == pt[2 * k + 1]) by {
            assert(t.subrange(q, q + pt.len())[2 * k + 1] == pt[2 * k + 1]);
        }
        lemma_parse_params(s, t, q, o, ps, k + 1);
    }
}

#[verifier::spinoff_prover]
proof fn lemma_parse_filter(s: Seq<char>, t: Seq<Token>, p: int, o: int, f: FilterV)
    requires
        filter_ok(f),
        written(s, o, filter_text(f)),
        at(t, p, filter_toks(f, o)),
        s.len() <= usize::MAX,
    ensures
        spec_atom(s, t, p) == Some((AtomV::Filter(f), p + filter_toks(f, o).len())),
{
    reveal_strlit("(");
    reveal_strlit(")");
    let n = f.name.len() as int;
    let ps = f.parameters;
    let pt = parameters_text(ps);
    let a = seq![word_tok(o, o + n), punct_tok(Punct::LParen, o + n, o + n + 1)];
    let c = params_toks(ps, o + n + 1);
    let e = o + n + 1 + pt.len();
    let d = seq![punct_tok(Punct::RParen, e, e + 1)];
    assert(filter_toks(f, o) == a + c + d);
    lemma_at_split(t, p, a + c, d);
    lemma_at_split(t, p, a, c);
    assert(t[p] == a[0] && t[p + 1] == a[1]);
    assert(t[p + 2 + c.len()] == d[0]);
    assert(filter_text(f) == f.name + ("("@ + (pt + ")"@)));
    lemma_written_concat(s, o, f.name, "("@ + (pt + ")"@));
    lemma_written_concat(s, o + n, "("@, pt + ")"@);
    lemma_written_concat(s, o + n + 1, pt, ")"@);
    assert(tok_text(s, t[p]) == f.name);
    assert(!crate::parser::is_symbol_word(f.name));
    if ps.len() == 0 {
        assert(c.len() == 0);
        assert(ps == Seq::<ParameterV>::empty());
    } else {
        lemma_params_index(s, o + n + 1, ps);
        lemma_parse_params(s, t, p + 2, o + n + 1, ps, 0);
        assert(ps.subrange(0, 0) == Seq::<ParameterV>::empty());
        assert(!crate::parser::punct_at_pos(t, p + 2, Punct::RParen)) by {
            assert(t[p + 2] == c[0]);
        }
    }
}

proof fn lemma_parse_atom(s: Seq<char>, t: Seq<Token>, p: int, o: int, a: AtomV)
    requires
        printable_atom(a),
        written(s, o, atom_text(a)),
        at(t, p, atom_toks(a, o)),
        s.len() <= usize::MAX,
    ensures
        spec_atom(s, t, p) == Some((a, p + atom_toks(a, o).len())),
    decreases a, 0int,
{
    reveal_strlit("(");
    reveal_strlit(")");
    match a {
        AtomV::Compare(c) => {
            if numeric_cmp(c) {
                lemma_parse_cmp(s, t, p, o, c);
            } else if textual_cmp(c) {
                lemma_parse_scmp(s, t, p, o, c);
            } else {
                lemma_parse_tcmp(s, t, p, o, c);
            }
        },
        AtomV::Filter(f) => {
            lemma_parse_filter(s, t, p, o, f);
        },
        AtomV::Parenthesis(e) => {
            let x = expr_text(*e);
            let lp = seq![punct_tok(Punct::LParen, o, o + 1)];
            let et = expr_toks(*e, o + 1);
            let rp = seq![punct_tok(Punct::RParen, o + 1 + x.len(), o + 2 + x.len())];
            assert(atom_toks(a, o) == lp + et + rp);
            lemma_at_split(t, p, lp + et, rp);
            lemma_at_split(t, p, lp, et);
            assert(atom_text(a) == "("@ + x + ")"@);
            lemma_written_concat(s, o, "("@ + x, ")"@);
            lemma_written_concat(s, o, "("@, x);
            assert(t[p] == lp[0]);
            assert(t[p + 1 + et.len()] == rp[0]);
            lemma_parse_or(s, t, p + 1, o + 1, *e);
        },
        _ => {},
    }
}

proof fn lemma_parse_term(s: Seq<char>, t: Seq<Token>, p: int, o: int, tm: TermV)
    requires
        printable_term(tm),
        written(s, o, term_text(tm)),
        at(t, p, term_toks(tm, o)),
        s.len() <= usize::MAX,
    ensures
        spec_term(s, t, p) == Some((tm, p + term_toks(tm, o).len())),
    decreases tm, 0int,
{
    reveal_strlit("!");
    lemma_term_toks_len(tm, o);
    match tm {
        TermV::Not(a) => {
            let b = seq![punct_tok(Punct::Bang, o, o + 1)];
            lemma_at_split(t, p, b, atom_toks(a, o + 1));
            assert(term_text(tm) == "!"@ + atom_text(a));
            lemma_written_concat(s, o, "!"@, atom_text(a));
            assert(t[p] == b[0]);
            lemma_parse_atom(s, t, p + 1, o + 1, a);
        },
        TermV::Atom(a) => {
            assert(t[p] == t.subrange(p, p + term_toks(tm, o).len())[0]);
            lemma_parse_atom(s, t, p, o, a);
        },
    }
}

#[verifier::spinoff_prover]
#[verifier::rlimit(90)]
proof fn lemma_parse_and_chain(s: Seq<char>, t: Seq<Token>, p: int, o: int, e: ExprV)
    requires
        and_form(e),
        written(s, o, expr_text(e)),
        at(t, p, expr_toks(e, o)),
        s.len() <= usize::MAX,
    ensures
        spec_term(s, t, p) == Some((first_term(e), p + term_toks(first_term(e), o).len())),
        spec_and_rest(s, t, p + term_toks(first_term(e), o).len(), ExprV::Term(first_term(e)))
            == spec_and_rest(s, t, p + expr_toks(e, o).len(), e),
        term_toks(first_term(e), o).len() <= expr_toks(e, o).len(),
    decreases e, 1int,
{
    lemma_and_is_or(e);
    lemma_toks_shape(e, o);
    reveal_strlit(" and ");
    reveal_strlit("and");
    reveal_strlit(" ");
    match e {
        ExprV::Term(f) => {
            lemma_parse_term(s, t, p, o, f);
        },
        ExprV::And(l, r) => {
            let x = r->Term_0;
            let lx = expr_text(*l);
            let m = o + lx.len();
            let lt = expr_toks(*l, o);
            let w = seq![word_tok(m + 1, m + 4)];
            let rt = expr_toks(*r, m + 5);
            assert(rt == term_toks(x, m + 5));
            assert(expr_toks(e, o) == lt + w + rt);
            lemma_at_split(t, p, lt + w, rt);
            lemma_at_split(t, p, lt, w);
            assert(expr_text(e) == lx + " and "@ + expr_text(*r));
            assert(expr_text(*r) == term_text(x));
            assert(lx + " and "@ + term_text(x) == lx + (" "@ + ("and"@ + (" "@ + term_text(x)))));
            lemma_written_concat(s, o, lx, " "@ + ("and"@ + (" "@ + term_text(x))));
            lemma_written_concat(s, m, " "@, "and"@ + (" "@ + term_text(x)));
            lemma_written_concat(s, m + 1, "and"@, " "@ + term_text(x));
            lemma_written_concat(s, m + 4, " "@, term_text(x));
            lemma_parse_and_chain(s, t, p, o, *l);
            assert(t[p + lt.len()] == w[0]);
            assert(tok_text(s, t[p + lt.len()]) == "and"@);
            lemma_parse_term(s, t, p + lt.len() + 1, m + 5, x);
            lemma_term_toks_len(x, m + 5);
            assert(spec_and_rest(s, t, p + lt.len(), *l) == spec_and_rest(
                s,
                t,
                p + lt.len() + 1 + rt.len(),
                ExprV::And(l, Box::new(ExprV::Term(x))),
            ));
            assert(ExprV::And(l, Box::new(ExprV::Term(x))) == e);
        },
        _ => {},
    }
}

proof fn lemma_parse_and(s: Seq<char>, t: Seq<Token>, p: int, o: int, e: ExprV)
    requires
        and_form(e),
        written(s, o, expr_text(e)),
        at(t, p, expr_toks(e, o)),
        s.len() <= usize::MAX,
        !word_at(s, t, p + expr_toks(e, o).len(), "and"@),
    ensures
        spec_and(s, t, p) == Some((e, p + expr_toks(e, o).len())),
    decreases e, 2int,
{
    lemma_parse_and_chain(s, t, p, o, e);
}

proof fn lemma_parse_or_chain(s: Seq<char>, t: Seq<Token>, p: int, o: int, e: ExprV)
    requires
        or_form(e),
        written(s, o, expr_text(e)),
        at(t, p, expr_toks(e, o)),
        s.len() <= usize::MAX,
        !word_at(s, t, p + expr_toks(e, o).len(), "and"@),
    ensures
        spec_and(s, t, p) == Some((first_and(e), p + expr_toks(first_and(e), o).len())),
        spec_or_rest(s, t, p + expr_toks(first_and(e), o).len(), first_and(e)) == spec_or_rest(
            s,
            t,
            p + expr_toks(e, o).len(),
            e,
        ),
        expr_toks(first_and(e), o).len() <= expr_toks(e, o).len(),
    decreases e, 3int,
{
    lemma_and_is_or(e);
    lemma_toks_shape(e, o);
    reveal_strlit(" or ");
    reveal_strlit("or");
    reveal_strlit("and");
    reveal_strlit(" ");
    match e {
        ExprV::Or(l, r) => {
            let lx = expr_text(*l);
            let rx = expr_text(*r);
            let m = o + lx.len();
            let lt = expr_toks(*l, o);
            let w = seq![word_tok(m + 1, m + 3)];
            let rt = expr_toks(*r, m + 4);
            assert(expr_toks(e, o) == lt + w + rt);
            lemma_at_split(t, p, lt + w, rt);
            lemma_at_split(t, p, lt, w);
            assert(expr_text(e) == lx + " or "@ + rx);
            assert(lx + " or "@ + rx == lx + (" "@ + ("or"@ + (" "@ + rx))));
            lemma_written_concat(s, o, lx, " "@ + ("or"@ + (" "@ + rx)));
            lemma_written_concat(s, m, " "@, "or"@ + (" "@ + rx));
            lemma_written_concat(s, m + 1, "or"@, " "@ + rx);
            lemma_written_concat(s, m + 3, " "@, rx);
            assert(t[p + lt.len()] == w[0]);
            assert(tok_text(s, t[p + lt.len()]) == "or"@);
            lemma_parse_or_chain(s, t, p, o, *l);
            lemma_parse_and(s, t, p + lt.len() + 1, m + 4, *r);
            lemma_toks_shape(*r, m + 4);
            assert(spec_or_rest(s, t, p + lt.len(), *l) == spec_or_rest(
                s,
                t,
                p + lt.len() + 1 + rt.len(),
                ExprV::Or(l, r),
            ));
        },
        _ => {
            lemma_parse_and(s, t, p, o, e);
        },
    }
}

proof fn lemma_parse_or(s: Seq<char>, t: Seq<Token>, p: int, o: int, e: ExprV)
    requires
        or_form(e),
        written(s, o, expr_text(e)),
        at(t, p, expr_toks(e, o)),
        s.len() <= usize::MAX,
        ends_expr(s, t, p + expr_toks(e, o).len()),
    ensures
        spec_or(s, t, p) == Some((e, p + expr_toks(e, o).len())),
    decreases e, 4int,
{
    lemma_parse_or_chain(s, t, p, o, e);
}

/// The names of the fields that a printed condition can start with.
pub open spec fn field_name(w: Seq<char>) -> bool {
    w == "offset"@ || w == "partition"@ || w == "size"@ || w == "topic"@ || w == "key"@ || w == "value"@
        || w == "timestamp"@ || crate::parser::has_prefix(w, "value."@) || crate::parser::has_prefix(w, "header."@)
}

proof fn lemma_cmp_first(s: Seq<char>, o: int, c: CompareV)
    requires
        printable_atom(AtomV::Compare(c)),
        written(s, o, compare_text(c)),
        s.len() <= usize::MAX,
    ensures
        cmp_toks(c, o).len() >= 1,
        cmp_toks(c, o)[0].kind == TokenKind::Word,
        field_name(tok_text(s, cmp_toks(c, o)[0])),
{
    reveal_strlit("offset");
    reveal_strlit("partition");
    reveal_strlit("size");
    if numeric_cmp(c) {
        lemma_cmp_word(s, o, c);
        lemma_cmp_text(c);
        let k = cmp_toks(c, o)[0];
        assert(k == word_tok(o, o + field_word(c).len()));
        assert(o + field_word(c).len() <= s.len());
        assert(tok_text(s, k) == field_word(c));
    } else if time_cmp(c) {
        reveal_strlit("timestamp ");
        reveal_strlit("timestamp between ");
        reveal_strlit("timestamp");
        reveal_strlit(" ");
        let ct = compare_text(c);
        assert(ct.subrange(0, 9) == "timestamp"@);
        lemma_written_part(s, o, ct, 0, 9);
        let k = cmp_toks(c, o)[0];
        assert(k == word_tok(o, o + 9));
        assert(tok_text(s, k) == "timestamp"@);
    } else {
        lemma_scmp_text(c);
        reveal_strlit(" ");
        let fw = text_field(c);
        assert(compare_text(c) == fw + compare_text(c).subrange(fw.len() as int, compare_text(c).len() as int));
        lemma_written_concat(s, o, fw, compare_text(c).subrange(fw.len() as int, compare_text(c).len() as int));
        let k = cmp_toks(c, o)[0];
        assert(k == word_tok(o, o + fw.len()));
        assert(tok_text(s, k) == fw);
    }
}

/// The first token of a printed expression is `!`, `(` or the name of a field.
proof fn lemma_first_token(s: Seq<char>, o: int, e: ExprV)
    requires
        or_form(e),
        written(s, o, expr_text(e)),
        s.len() <= usize::MAX,
    ensures
        expr_toks(e, o)[0].kind == TokenKind::Punct(Punct::Bang) || expr_toks(e, o)[0].kind == TokenKind::Punct(
            Punct::LParen,
        ) || (expr_toks(e, o)[0].kind == TokenKind::Word && (field_name(tok_text(s, expr_toks(e, o)[0]))
            || !crate::parser::is_reserved_word(tok_text(s, expr_toks(e, o)[0])))),
    decreases e,
{
    lemma_and_is_or(e);
    reveal_strlit("offset");
    reveal_strlit("partition");
    reveal_strlit("size");
    reveal_strlit(" and ");
    reveal_strlit(" or ");
    match e {
        ExprV::Term(tm) => {
            assert(expr_text(e) == term_text(tm));
            assert(expr_toks(e, o) == term_toks(tm, o));
            match tm {
                TermV::Not(a) => {
                    assert(term_toks(tm, o)[0] == punct_tok(Punct::Bang, o, o + 1));
                },
                TermV::Atom(a) => {
                    assert(term_text(tm) == atom_text(a));
                    assert(term_toks(tm, o) == atom_toks(a, o));
                    match a {
                        AtomV::Compare(c) => {
                            assert(atom_text(a) == compare_text(c));
                            assert(atom_toks(a, o) == cmp_toks(c, o));
                            lemma_cmp_first(s, o, c);
                        },
                        AtomV::Filter(f) => {
                            assert(atom_text(a) == filter_text(f));
                            assert(filter_text(f) == f.name + ("("@ + (parameters_text(f.parameters) + ")"@)));
                            lemma_written_concat(s, o, f.name, "("@ + (parameters_text(f.parameters) + ")"@));
                            assert(atom_toks(a, o)[0] == word_tok(o, o + f.name.len()));
                            assert(tok_text(s, atom_toks(a, o)[0]) == f.name);
                        },
                        AtomV::Parenthesis(_) => {
                            assert(atom_toks(a, o)[0] == punct_tok(Punct::LParen, o, o + 1));
                        },
                        _ => {},
                    }
                },
            }
        },
        ExprV::And(l, r) => {
            lemma_and_is_or(*l);
            lemma_toks_shape(*l, o);
            assert(expr_text(e) == expr_text(*l) + (" and "@ + expr_text(*r)));
            lemma_written_concat(s, o, expr_text(*l), " and "@ + expr_text(*r));
            lemma_first_token(s, o, *l);
            assert(expr_toks(e, o)[0] == expr_toks(*l, o)[0]);
        },
        ExprV::Or(l, r) => {
            lemma_toks_shape(*l, o);
            assert(expr_text(e) == expr_text(*l) + (" or "@ + expr_text(*r)));
            lemma_written_concat(s, o, expr_text(*l), " or "@ + expr_text(*r));
            lemma_first_token(s, o, *l);
            assert(expr_toks(e, o)[0] == expr_toks(*l, o)[0]);
        },
    }
}

// ------------------------------------------------ the other clauses

pub open spec fn num_tok(a: int, b: int, n: nat) -> Token {
    Token { kind: TokenKind::Number, start: a as usize, end: b as usize, value: n as u64 }
}

pub open spec fn is_word_text(w: Seq<char>) -> bool {
    w.len() >= 1 && crate::lexer::is_word_start(w[0]) && forall|j: int| 1 <= j < w.len() ==> #[trigger] is_word_char(w[j])
}

proof fn lemma_lex_word(s: Seq<char>, o: int, w: Seq<char>)
    requires
        is_word_text(w),
        written(s, o, w),
        o + w.len() == s.len() || !is_word_char(s[o + w.len()]),
        s.len() <= usize::MAX,
    ensures
        lex_from(s, o) == prepend(seq![word_tok(o, o + w.len())], lex_from(s, o + w.len())),
{
    lemma_written_part(s, o, w, 0, w.len() as int);
    assert forall|j: int| o + 1 <= j < o + w.len() implies #[trigger] is_word_char(s[j]) by {
        assert(s[o + (j - o)] == w[j - o]);
    }
    lemma_scan_word_run(s, o + 1, o + w.len());
    assert(s[o] == w[0]);
    assert(next_token(s, o) == Some(word_tok(o, o + w.len())));
}

#[verifier::spinoff_prover]
proof fn lemma_lex_decimal(s: Seq<char>, o: int, n: nat)
    requires
        n <= u64::MAX,
        written(s, o, decimal(n)),
        o + decimal(n).len() == s.len() || !is_number_char(s[o + decimal(n).len()]),
        s.len() <= usize::MAX,
    ensures
        lex_from(s, o) == prepend(seq![num_tok(o, o + decimal(n).len(), n)], lex_from(s, o + decimal(n).len())),
{
    let d = decimal(n);
    lemma_decimal_digits(n);
    lemma_decimal_value(n);
    lemma_written_part(s, o, d, 0, d.len() as int);
    assert forall|j: int| o <= j < o + d.len() implies #[trigger] is_number_char(s[j]) by {
        assert(s[o + (j - o)] == d[j - o]);
    }
    lemma_scan_number_to(s, o + 1, o + d.len());
    assert(s.subrange(o, o + d.len()) == d);
    assert(is_digit(d[0]));
    assert(s[o] == d[0]);
    assert(is_digit(s[o]) && !crate::lexer::is_word_start(s[o]));
    assert(number_value(s.subrange(o, o + d.len())) == n);
    assert(next_token(s, o) == Some(num_tok(o, o + d.len(), n)));
}

/// A `from` clause that the printer writes and the parser reads back.
pub open spec fn printable_from(f: FromOffset) -> bool {
    match f {
        FromOffset::AbsoluteOffset(n) => n >= 0,
        FromOffset::Timestamp(t) => t >= 0,
        _ => true,
    }
}

pub open spec fn from_toks(f: FromOffset, o: int) -> Seq<Token> {
    match f {
        FromOffset::Beginning => seq![word_tok(o, o + 4), word_tok(o + 5, o + 10)],
        FromOffset::End => seq![word_tok(o, o + 4), word_tok(o + 5, o + 8)],
        FromOffset::EndMinus(n) => seq![
            word_tok(o, o + 4),
            word_tok(o + 5, o + 8),
            punct_tok(Punct::Minus, o + 9, o + 10),
            num_tok(o + 11, o + 11 + decimal(n as nat).len(), n as nat),
        ],
        FromOffset::AbsoluteOffset(n) => seq![word_tok(o, o + 4), num_tok(o + 5, o + 5 + decimal(n as nat).len(), n as nat)],
        FromOffset::Timestamp(t) => seq![word_tok(o, o + 4), text_tok(o + 5, o + 5 + qtime(t).len())],
    }
}

pub open spec fn limit_toks(n: usize, o: int) -> Seq<Token> {
    seq![word_tok(o, o + 5), num_tok(o + 6, o + 6 + decimal(n as nat).len(), n as nat)]
}

pub open spec fn dir_word(d: Direction) -> Seq<char> {
    match d {
        Direction::Asc => "asc"@,
        Direction::Desc => "desc"@,
    }
}

pub open spec fn order_toks(ob: OrderBy, o: int) -> Seq<Token> {
    let m = o + 9 + order_name(ob.order).len();
    seq![
        word_tok(o, o + 5),
        word_tok(o + 6, o + 8),
        word_tok(o + 9, m),
        word_tok(m + 1, m + 1 + dir_word(ob.direction).len()),
    ]
}

proof fn lemma_words()
    ensures
        is_word_text("from"@),
        is_word_text("begin"@),
        is_word_text("end"@),
        is_word_text("limit"@),
        is_word_text("order"@),
        is_word_text("by"@),
        is_word_text("asc"@),
        is_word_text("desc"@),
        forall|o: Order| #[trigger] is_word_text(order_name(o)),
{
    reveal_strlit("from");
    reveal_strlit("begin");
    reveal_strlit("end");
    reveal_strlit("limit");
    reveal_strlit("order");
    reveal_strlit("by");
    reveal_strlit("asc");
    reveal_strlit("desc");
    reveal_strlit("timestamp");
    reveal_strlit("key");
    reveal_strlit("value");
    reveal_strlit("partition");
    reveal_strlit("offset");
    reveal_strlit("size");
    reveal_strlit("topic");
    assert forall|o: Order| #[trigger] is_word_text(order_name(o)) by {
        match o {
            Order::Timestamp => {},
            Order::Key => {},
            Order::Value => {},
            Order::Partition => {},
            Order::Offset => {},
            Order::Size => {},
            Order::Topic => {},
        }
    }
}

/// A space at `i` is skipped.
proof fn lemma_skip(s: Seq<char>, i: int)
    requires
        0 <= i < s.len(),
        s[i] == ' ',
    ensures
        lex_from(s, i) == lex_from(s, i + 1),
{
}

pub open spec fn ends_clause(s: Seq<char>, i: int) -> bool {
    i == s.len() || (0 <= i < s.len() && s[i] == ' ')
}

/// Two words separated by a space.
proof fn lemma_lex_two_words(s: Seq<char>, o: int, a: Seq<char>, b: Seq<char>)
    requires
        is_word_text(a),
        is_word_text(b),
        written(s, o, a + " "@ + b),
        ends_clause(s, o + a.len() + 1 + b.len()),
        s.len() <= usize::MAX,
    ensures
        lex_from(s, o) == prepend(
            seq![word_tok(o, o + a.len()), word_tok(o + a.len() + 1, o + a.len() + 1 + b.len())],
            lex_from(s, o + a.len() + 1 + b.len()),
        ),
{
    reveal_strlit(" ");
    assert(a + " "@ + b == a + (" "@ + b));
    lemma_written_concat(s, o, a, " "@ + b);
    lemma_written_concat(s, o + a.len(), " "@, b);
    lemma_written_part(s, o + a.len(), " "@, 0, 1);
    assert(" "@[0] == ' ');
    lemma_lex_word(s, o, a);
    lemma_skip(s, o + a.len());
    lemma_lex_word(s, o + a.len() + 1, b);
    lemma_prepend_assoc(
        seq![word_tok(o, o + a.len())],
        seq![word_tok(o + a.len() + 1, o + a.len() + 1 + b.len())],
        lex_from(s, o + a.len() + 1 + b.len()),
    );
}

/// A word, a space and a number.
proof fn lemma_lex_word_number(s: Seq<char>, o: int, a: Seq<char>, n: nat)
    requires
        is_word_text(a),
        n <= u64::MAX,
        written(s, o, a + " "@ + decimal(n)),
        ends_clause(s, o + a.len() + 1 + decimal(n).len()),
        s.len() <= usize::MAX,
    ensures
        lex_from(s, o) == prepend(
            seq![word_tok(o, o + a.len()), num_tok(o + a.len() + 1, o + a.len() + 1 + decimal(n).len(), n)],
            lex_from(s, o + a.len() + 1 + decimal(n).len()),
        ),
{
    reveal_strlit(" ");
    let d = decimal(n);
    assert(a + " "@ + d == a + (" "@ + d));
    lemma_written_concat(s, o, a, " "@ + d);
    lemma_written_concat(s, o + a.len(), " "@, d);
    lemma_written_part(s, o + a.len(), " "@, 0, 1);
    assert(" "@[0] == ' ');
    lemma_lex_word(s, o, a);
    lemma_skip(s, o + a.len());
    lemma_lex_decimal(s, o + a.len() + 1, n);
    lemma_prepend_assoc(
        seq![word_tok(o, o + a.len())],
        seq![num_tok(o + a.len() + 1, o + a.len() + 1 + d.len(), n)],
        lex_from(s, o + a.len() + 1 + d.len()),
    );
}

#[verifier::spinoff_prover]
#[verifier::rlimit(100)]
proof fn lemma_lex_from(s: Seq<char>, o: int, f: FromOffset)
    requires
        printable_from(f),
        written(s, o, from_text(f)),
        ends_clause(s, o + from_text(f).len()),
        s.len() <= usize::MAX,
    ensures
        lex_from(s, o) == prepend(from_toks(f, o), lex_from(s, o + from_text(f).len())),
{
    lemma_words();
    reveal_strlit("from begin");
    reveal_strlit("from end");
    reveal_strlit("from end - ");
    reveal_strlit("from ");
    reveal_strlit("from");
    reveal_strlit("begin");
    reveal_strlit("end");
    reveal_strlit(" ");
    match f {
        FromOffset::Beginning => {
            assert(from_text(f) == "from"@ + " "@ + "begin"@);
            lemma_lex_two_words(s, o, "from"@, "begin"@);
        },
        FromOffset::End => {
            assert(from_text(f) == "from"@ + " "@ + "end"@);
            lemma_lex_two_words(s, o, "from"@, "end"@);
        },
        FromOffset::EndMinus(n) => {
            let d = decimal(n as nat);
            let rest = " "@ + ("-"@ + (" "@ + d));
            reveal_strlit("-");
            assert(from_text(f) == ("from"@ + " "@ + "end"@) + rest);
            lemma_written_concat(s, o, "from"@ + " "@ + "end"@, rest);
            lemma_written_concat(s, o + 8, " "@, "-"@ + (" "@ + d));
            lemma_written_concat(s, o + 9, "-"@, " "@ + d);
            lemma_written_concat(s, o + 10, " "@, d);
            lemma_written_part(s, o + 8, " "@, 0, 1);
            lemma_written_part(s, o + 9, "-"@, 0, 1);
            lemma_written_part(s, o + 10, " "@, 0, 1);
            assert(" "@[0] == ' ' && "-"@[0] == '-');
            assert(s[o + 8] == ' ' && s[o + 9] == '-' && s[o + 10] == ' ');
            lemma_lex_two_words(s, o, "from"@, "end"@);
            lemma_skip(s, o + 8);
            assert(punct_at(s, o + 9) == Some((Punct::Minus, o + 10)));
            assert(next_token(s, o + 9) == Some(punct_tok(Punct::Minus, o + 9, o + 10)));
            lemma_skip(s, o + 10);
            lemma_lex_decimal(s, o + 11, n as nat);
            let w2 = seq![word_tok(o, o + 4), word_tok(o + 5, o + 8)];
            let mi = seq![punct_tok(Punct::Minus, o + 9, o + 10)];
            let nu = seq![num_tok(o + 11, o + 11 + d.len(), n as nat)];
            let tail = lex_from(s, o + 11 + d.len());
            lemma_prepend_assoc(mi, nu, tail);
            lemma_prepend_assoc(w2, mi + nu, tail);
            assert(w2 + (mi + nu) == from_toks(f, o));
        },
        FromOffset::AbsoluteOffset(n) => {
            assert(int_text(n as int) == decimal(n as nat));
            assert(from_text(f) == "from"@ + " "@ + decimal(n as nat));
            lemma_lex_word_number(s, o, "from"@, n as nat);
        },
        FromOffset::Timestamp(tm) => {
            lemma_qtime(tm);
            let qt = qtime(tm);
            assert(from_text(f) == "from"@ + (" "@ + qt));
            lemma_written_concat(s, o, "from"@, " "@ + qt);
            lemma_written_concat(s, o + 4, " "@, qt);
            lemma_written_part(s, o + 4, " "@, 0, 1);
            assert(" "@[0] == ' ');
            lemma_lex_word(s, o, "from"@);
            lemma_skip(s, o + 4);
            lemma_lex_quoted(s, o + 5, decimal(tm as nat));
            lemma_prepend_assoc(seq![word_tok(o, o + 4)], seq![text_tok(o + 5, o + 5 + qt.len())], lex_from(s, o + 5 + qt.len()));
        },
    }
}

proof fn lemma_lex_limit(s: Seq<char>, o: int, n: usize)
    requires
        written(s, o, "limit "@ + decimal(n as nat)),
        ends_clause(s, o + 6 + decimal(n as nat).len()),
        s.len() <= usize::MAX,
    ensures
        lex_from(s, o) == prepend(limit_toks(n, o), lex_from(s, o + 6 + decimal(n as nat).len())),
{
    lemma_words();
    reveal_strlit("limit ");
    reveal_strlit("limit");
    reveal_strlit(" ");
    assert("limit "@ + decimal(n as nat) == "limit"@ + " "@ + decimal(n as nat));
    lemma_lex_word_number(s, o, "limit"@, n as nat);
}

proof fn lemma_lex_order(s: Seq<char>, o: int, ob: OrderBy)
    requires
        written(s, o, order_text(ob)),
        ends_clause(s, o + order_text(ob).len()),
        s.len() <= usize::MAX,
    ensures
        lex_from(s, o) == prepend(order_toks(ob, o), lex_from(s, o + order_text(ob).len())),
{
    lemma_words();
    reveal_strlit("order by ");
    reveal_strlit("order");
    reveal_strlit("by");
    reveal_strlit(" asc");
    reveal_strlit(" desc");
    reveal_strlit("asc");
    reveal_strlit("desc");
    reveal_strlit(" ");
    let name = order_name(ob.order);
    let dw = dir_word(ob.direction);
    let m = o + 9 + name.len();
    assert(order_text(ob) == ("order"@ + " "@ + "by"@) + (" "@ + ((name + " "@) + dw)));
    lemma_written_concat(s, o, "order"@ + " "@ + "by"@, " "@ + ((name + " "@) + dw));
    lemma_written_concat(s, o + 8, " "@, (name + " "@) + dw);
    lemma_written_concat(s, o + 9, name + " "@, dw);
    lemma_written_concat(s, o + 9, name, " "@);
    lemma_written_part(s, o + 8, " "@, 0, 1);
    lemma_written_part(s, m, " "@, 0, 1);
    assert(" "@[0] == ' ');
    lemma_lex_two_words(s, o, "order"@, "by"@);
    lemma_skip(s, o + 8);
    assert(written(s, o + 9, name + " "@ + dw));
    lemma_lex_two_words(s, o + 9, name, dw);
    let a = seq![word_tok(o, o + 5), word_tok(o + 6, o + 8)];
    let b = seq![word_tok(o + 9, m), word_tok(m + 1, m + 1 + dw.len())];
    lemma_prepend_assoc(a, b, lex_from(s, m + 1 + dw.len()));
    assert(a + b == order_toks(ob, o));
}

proof fn lemma_word_at(s: Seq<char>, t: Seq<Token>, p: int, o: int, w: Seq<char>, i: int)
    requires
        written(s, o + i, w),
        0 <= p < t.len(),
        t[p] == word_tok(o + i, o + i + w.len()),
        s.len() <= usize::MAX,
    ensures
        tok_text(s, t[p]) == w,
        t[p].kind == TokenKind::Word,
{
}

#[verifier::spinoff_prover]
#[verifier::rlimit(100)]
proof fn lemma_parse_from_clause(s: Seq<char>, t: Seq<Token>, p: int, o: int, f: FromOffset, q: QueryV)
    requires
        printable_from(f),
        written(s, o, from_text(f)),
        at(t, p, from_toks(f, o)),
        !crate::parser::punct_at_pos(t, p + from_toks(f, o).len(), Punct::Minus),
        s.len() <= usize::MAX,
    ensures
        spec_clause(s, t, p, q) == Some((QueryV { from: Some(f), ..q }, p + from_toks(f, o).len())),
{
    reveal(spec_clause);
    reveal_strlit("from begin");
    reveal_strlit("from end");
    reveal_strlit("from end - ");
    reveal_strlit("from ");
    reveal_strlit("from");
    reveal_strlit("begin");
    reveal_strlit("beginning");
    reveal_strlit("end");
    let x = from_toks(f, o);
    assert(x == x.subrange(0, 1) + x.subrange(1, x.len() as int));
    lemma_at_split(t, p, x.subrange(0, 1), x.subrange(1, x.len() as int));
    assert(t[p] == x[0]);
    {
        assert(from_text(f) == "from"@ + from_text(f).subrange(4, from_text(f).len() as int));
    }
    lemma_written_concat(s, o, "from"@, from_text(f).subrange(4, from_text(f).len() as int));
    lemma_word_at(s, t, p, o, "from"@, 0);
    match f {
        FromOffset::Beginning => {
            assert(t[p + 1] == x[1]);
            {
                reveal_strlit(" ");
                assert(from_text(f) == "from"@ + " "@ + "begin"@);
            }
            lemma_written_concat(s, o, "from"@ + " "@, "begin"@);
            lemma_word_at(s, t, p + 1, o, "begin"@, 5);
        },
        FromOffset::End => {
            assert(t[p + 1] == x[1]);
            {
                reveal_strlit(" ");
                assert(from_text(f) == "from"@ + " "@ + "end"@);
            }
            lemma_written_concat(s, o, "from"@ + " "@, "end"@);
            lemma_word_at(s, t, p + 1, o, "end"@, 5);
        },
        FromOffset::EndMinus(n) => {
            assert(t[p + 1] == x[1] && t[p + 2] == x[2] && t[p + 3] == x[3]);
            {
                reveal_strlit(" ");
                reveal_strlit(" - ");
                assert(from_text(f) == "from"@ + " "@ + "end"@ + (" - "@ + decimal(n as nat)));
            }
            lemma_written_concat(s, o, "from"@ + " "@ + "end"@, " - "@ + decimal(n as nat));
            {
                reveal_strlit(" ");
            }
            lemma_written_concat(s, o, "from"@ + " "@, "end"@);
            lemma_word_at(s, t, p + 1, o, "end"@, 5);
        },
        FromOffset::AbsoluteOffset(n) => {
            assert(t[p + 1] == x[1]);
        },
        FromOffset::Timestamp(tm) => {
            lemma_qtime(tm);
            let qt = qtime(tm);
            reveal_strlit(" ");
            assert(t[p + 1] == x[1]);
            assert(from_text(f) == "from"@ + (" "@ + qt));
            lemma_written_concat(s, o, "from"@, " "@ + qt);
            lemma_written_concat(s, o + 4, " "@, qt);
            assert(qt.subrange(1, qt.len() - 1) == decimal(tm as nat));
            lemma_written_part(s, o + 5, qt, 1, qt.len() - 1);
            assert(crate::parser::tok_content(s, t[p + 1]) == decimal(tm as nat));
        },
    }
}

proof fn lemma_parse_limit_clause(s: Seq<char>, t: Seq<Token>, p: int, o: int, n: usize, q: QueryV)
    requires
        n > 0,
        written(s, o, "limit "@ + decimal(n as nat)),
        at(t, p, limit_toks(n, o)),
        s.len() <= usize::MAX,
    ensures
        spec_clause(s, t, p, q) == Some((QueryV { limit: Some(n), ..q }, p + 2)),
{
    reveal(spec_clause);
    reveal_strlit("limit ");
    reveal_strlit("limit");
    reveal_strlit("from");
    let x = limit_toks(n, o);
    assert(x == seq![x[0]] + seq![x[1]]);
    lemma_at_split(t, p, seq![x[0]], seq![x[1]]);
    assert(t[p] == x[0] && t[p + 1] == x[1]);
    {
        reveal_strlit(" ");
        assert("limit "@ + decimal(n as nat) == "limit"@ + (" "@ + decimal(n as nat)));
    }
    lemma_written_concat(s, o, "limit"@, " "@ + decimal(n as nat));
    lemma_word_at(s, t, p, o, "limit"@, 0);
}

proof fn lemma_parse_order_clause(s: Seq<char>, t: Seq<Token>, p: int, o: int, ob: OrderBy, q: QueryV)
    requires
        written(s, o, order_text(ob)),
        at(t, p, order_toks(ob, o)),
        s.len() <= usize::MAX,
    ensures
        spec_clause(s, t, p, q) == Some((QueryV { order_by: Some(ob), ..q }, p + 4)),
{
    reveal(spec_clause);
    reveal_strlit("order by ");
    reveal_strlit("order");
    reveal_strlit("by");
    reveal_strlit(" asc");
    reveal_strlit(" desc");
    reveal_strlit("asc");
    reveal_strlit("desc");
    reveal_strlit(" ");
    reveal_strlit("from");
    reveal_strlit("limit");
    reveal_strlit("timestamp");
    reveal_strlit("key");
    reveal_strlit("value");
    reveal_strlit("partition");
    reveal_strlit("offset");
    reveal_strlit("size");
    reveal_strlit("topic");
    let name = order_name(ob.order);
    let dw = dir_word(ob.direction);
    let x = order_toks(ob, o);
    assert(x == seq![x[0], x[1]] + seq![x[2], x[3]]);
    lemma_at_split(t, p, seq![x[0], x[1]], seq![x[2], x[3]]);
    assert(t[p] == x[0] && t[p + 1] == x[1] && t[p + 2] == x[2] && t[p + 3] == x[3]);
    assert(order_text(ob) == "order"@ + (" "@ + ("by"@ + (" "@ + (name + (" "@ + dw)))))) by {
        match ob.direction {
            Direction::Asc => {},
            Direction::Desc => {},
        }
    }
    lemma_written_concat(s, o, "order"@, " "@ + ("by"@ + (" "@ + (name + (" "@ + dw)))));
    lemma_written_concat(s, o + 5, " "@, "by"@ + (" "@ + (name + (" "@ + dw))));
    lemma_written_concat(s, o + 6, "by"@, " "@ + (name + (" "@ + dw)));
    lemma_written_concat(s, o + 8, " "@, name + (" "@ + dw));
    lemma_written_concat(s, o + 9, name, " "@ + dw);
    lemma_written_concat(s, o + 9 + name.len(), " "@, dw);
    lemma_word_at(s, t, p, o, "order"@, 0);
    lemma_word_at(s, t, p + 1, o, "by"@, 6);
    lemma_word_at(s, t, p + 2, o, name, 9);
    lemma_word_at(s, t, p + 3, o, dw, 10 + name.len() as int);
    assert(crate::parser::spec_order_field(s, t, p + 2) == Some(ob.order)) by {
        assert(tok_text(s, t[p + 2]) == name);
        match ob.order {
            Order::Timestamp => {},
            Order::Key => {},
            Order::Value => {},
            Order::Partition => {
                assert("partition"@[0] != "timestamp"@[0]);
            },
            Order::Offset => {},
            Order::Size => {},
            Order::Topic => {
                assert("topic"@[0] != "value"@[0]);
            },
        }
    }
    assert(word_at(s, t, p + 1, "by"@));
    assert(crate::parser::spec_order(s, t, p + 1) == Some((ob, p + 4))) by {
        match ob.direction {
            Direction::Asc => {},
            Direction::Desc => {},
        }
    }
    assert(word_at(s, t, p, "order"@));
    assert(!word_at(s, t, p, "from"@));
    assert("order"@[0] != "limit"@[0]);
    assert(!word_at(s, t, p, "limit"@));
}

// ------------------------------------------------ whole queries

/// One clause of a query, as the printer writes them in turn.
pub enum ClauseV {
    Cond(ExprV),
    From(FromOffset),
    Limit(usize),
    Order(OrderBy),
}

pub open spec fn item_text(c: ClauseV) -> Seq<char> {
    match c {
        ClauseV::Cond(e) => expr_text(e),
        ClauseV::From(f) => from_text(f),
        ClauseV::Limit(n) => "limit "@ + decimal(n as nat),
        ClauseV::Order(ob) => order_text(ob),
    }
}

pub open spec fn item_toks(c: ClauseV, o: int) -> Seq<Token> {
    match c {
        ClauseV::Cond(e) => expr_toks(e, o),
        ClauseV::From(f) => from_toks(f, o),
        ClauseV::Limit(n) => limit_toks(n, o),
        ClauseV::Order(ob) => order_toks(ob, o),
    }
}

pub open spec fn item_ok(c: ClauseV) -> bool {
    match c {
        ClauseV::Cond(e) => or_form(e),
        ClauseV::From(f) => printable_from(f),
        ClauseV::Limit(n) => n > 0,
        ClauseV::Order(_) => true,
    }
}

pub open spec fn apply(q: QueryV, c: ClauseV) -> QueryV {
    match c {
        ClauseV::Cond(e) => QueryV { expressions: q.expressions.push(e), ..q },
        ClauseV::From(f) => QueryV { from: Some(f), ..q },
        ClauseV::Limit(n) => QueryV { limit: Some(n), ..q },
        ClauseV::Order(ob) => QueryV { order_by: Some(ob), ..q },
    }
}

pub open spec fn items_text(cs: Seq<ClauseV>) -> Seq<char>
    decreases cs.len(),
{
    if cs.len() == 0 {
        Seq::empty()
    } else {
        join_clause(items_text(cs.drop_last()), item_text(cs.last()))
    }
}

/// Where the next clause starts after the text `a`.
pub open spec fn start_after(a: Seq<char>) -> int {
    if a.len() == 0 {
        0
    } else {
        a.len() as int + 1
    }
}

pub open spec fn items_toks(cs: Seq<ClauseV>) -> Seq<Token>
    decreases cs.len(),
{
    if cs.len() == 0 {
        Seq::empty()
    } else {
        items_toks(cs.drop_last()) + item_toks(cs.last(), start_after(items_text(cs.drop_last())))
    }
}

pub open spec fn apply_all(q: QueryV, cs: Seq<ClauseV>) -> QueryV
    decreases cs.len(),
{
    if cs.len() == 0 {
        q
    } else {
        apply(apply_all(q, cs.drop_last()), cs.last())
    }
}

pub open spec fn cond_items(es: Seq<ExprV>) -> Seq<ClauseV> {
    es.map_values(|e: ExprV| ClauseV::Cond(e))
}

pub open spec fn query_items(q: QueryV) -> Seq<ClauseV> {
    let a = cond_items(q.expressions);
    let b = match q.from {
        Some(f) => a.push(ClauseV::From(f)),
        None => a,
    };
    let c = match q.limit {
        Some(n) => b.push(ClauseV::Limit(n)),
        None => b,
    };
    match q.order_by {
        Some(o) => c.push(ClauseV::Order(o)),
        None => c,
    }
}

/// The queries that the printer and the parser agree on: conditions as
/// `printable_atom` allows, a `from` clause at no negative offset or time, a
/// positive limit, any order, and at least one clause.
pub open spec fn printable_query(q: QueryV) -> bool {
    &&& forall|i: int| 0 <= i < q.expressions.len() ==> or_form(#[trigger] q.expressions[i])
    &&& (q.from matches Some(f) ==> printable_from(f))
    &&& (q.limit matches Some(n) ==> n > 0)
    &&& (q.expressions.len() > 0 || q.from is Some || q.limit is Some || q.order_by is Some)
}

proof fn lemma_cond_items(es: Seq<ExprV>)
    ensures
        items_text(cond_items(es)) == exprs_text(es),
        apply_all(crate::parser::empty_query(), cond_items(es)) == (QueryV {
            expressions: es,
            from: None,
            limit: None,
            order_by: None,
        }),
    decreases es.len(),
{
    if es.len() > 0 {
        lemma_cond_items(es.drop_last());
        assert(cond_items(es).drop_last() == cond_items(es.drop_last()));
        assert(cond_items(es).last() == ClauseV::Cond(es.last()));
        assert(es.drop_last().push(es.last()) == es);
    } else {
        assert(es == Seq::<ExprV>::empty());
        assert(cond_items(es) == Seq::<ClauseV>::empty());
    }
}

proof fn lemma_query_items(q: QueryV)
    ensures
        items_text(query_items(q)) == query_text(q),
        apply_all(crate::parser::empty_query(), query_items(q)) == q,
        printable_query(q) ==> query_items(q).len() > 0 && forall|i: int|
            0 <= i < query_items(q).len() ==> item_ok(#[trigger] query_items(q)[i]),
{
    let a = cond_items(q.expressions);
    lemma_cond_items(q.expressions);
    let b = match q.from {
        Some(f) => a.push(ClauseV::From(f)),
        None => a,
    };
    let c = match q.limit {
        Some(n) => b.push(ClauseV::Limit(n)),
        None => b,
    };
    let d = query_items(q);
    if let Some(f) = q.from {
        assert(b.drop_last() == a);
        assert(items_text(b) == join_clause(items_text(a), from_text(f)));
        assert(apply_all(crate::parser::empty_query(), b) == apply(apply_all(crate::parser::empty_query(), a), ClauseV::From(f)));
    }
    if let Some(n) = q.limit {
        assert(c.drop_last() == b);
        assert(items_text(c) == join_clause(items_text(b), "limit "@ + decimal(n as nat)));
        assert(apply_all(crate::parser::empty_query(), c) == apply(apply_all(crate::parser::empty_query(), b), ClauseV::Limit(n)));
    }
    if let Some(o) = q.order_by {
        assert(d.drop_last() == c);
        assert(items_text(d) == join_clause(items_text(c), order_text(o)));
        assert(apply_all(crate::parser::empty_query(), d) == apply(apply_all(crate::parser::empty_query(), c), ClauseV::Order(o)));
    }
    if printable_query(q) {
        assert forall|i: int| 0 <= i < d.len() implies item_ok(#[trigger] d[i]) by {
            if i < a.len() {
                assert(d[i] == a[i]);
                assert(a[i] == ClauseV::Cond(q.expressions[i]));
            }
        }
    }
}

proof fn lemma_item_text(c: ClauseV)
    requires
        item_ok(c),
    ensures
        item_text(c).len() >= 1,
{
    match c {
        ClauseV::Cond(e) => {
            lemma_expr_start(e);
        },
        ClauseV::From(f) => {
            reveal_strlit("from begin");
            reveal_strlit("from end");
            reveal_strlit("from end - ");
            reveal_strlit("from ");
        },
        ClauseV::Limit(n) => {
            reveal_strlit("limit ");
        },
        ClauseV::Order(ob) => {
            reveal_strlit("order by ");
        },
    }
}

proof fn lemma_items_text_nonempty(cs: Seq<ClauseV>)
    requires
        forall|i: int| 0 <= i < cs.len() ==> item_ok(#[trigger] cs[i]),
    ensures
        cs.len() > 0 ==> items_text(cs).len() > 0,
{
    if cs.len() > 0 {
        lemma_item_text(cs.last());
    }
}

proof fn lemma_lex_item(s: Seq<char>, o: int, c: ClauseV)
    requires
        item_ok(c),
        written(s, o, item_text(c)),
        ends_clause(s, o + item_text(c).len()),
        s.len() <= usize::MAX,
    ensures
        lex_from(s, o) == prepend(item_toks(c, o), lex_from(s, o + item_text(c).len())),
{
    match c {
        ClauseV::Cond(e) => {
            lemma_lex_expr(s, o, e);
        },
        ClauseV::From(f) => {
            lemma_lex_from(s, o, f);
        },
        ClauseV::Limit(n) => {
            reveal_strlit("limit ");
            lemma_lex_limit(s, o, n);
        },
        ClauseV::Order(ob) => {
            lemma_lex_order(s, o, ob);
        },
    }
}

proof fn lemma_lex_items(s: Seq<char>, cs: Seq<ClauseV>)
    requires
        forall|i: int| 0 <= i < cs.len() ==> item_ok(#[trigger] cs[i]),
        written(s, 0, items_text(cs)),
        ends_clause(s, items_text(cs).len() as int),
        s.len() <= usize::MAX,
    ensures
        lex_from(s, 0) == prepend(items_toks(cs), lex_from(s, items_text(cs).len() as int)),
    decreases cs.len(),
{
    reveal_strlit(" ");
    if cs.len() > 0 {
        let pre = cs.drop_last();
        let c = cs.last();
        let a = items_text(pre);
        let x = item_text(c);
        assert forall|i: int| 0 <= i < pre.len() implies item_ok(#[trigger] pre[i]) by {
            assert(pre[i] == cs[i]);
        }
        lemma_items_text_nonempty(pre);
        if pre.len() == 0 {
            assert(items_text(pre) == Seq::<char>::empty());
            assert(items_toks(pre) == Seq::<Token>::empty());
            assert(items_text(cs) == x);
            lemma_lex_item(s, 0, c);
            assert(items_toks(cs) == Seq::<Token>::empty() + item_toks(c, 0));
            assert(Seq::<Token>::empty() + item_toks(c, 0) == item_toks(c, 0));
        } else {
            assert(items_text(cs) == a + (" "@ + x));
            lemma_written_concat(s, 0, a, " "@ + x);
            lemma_written_concat(s, a.len() as int, " "@, x);
            lemma_written_part(s, a.len() as int, " "@, 0, 1);
            assert(" "@[0] == ' ');
            lemma_lex_items(s, pre);
            lemma_skip(s, a.len() as int);
            lemma_lex_item(s, a.len() as int + 1, c);
            lemma_prepend_assoc(items_toks(pre), item_toks(c, a.len() as int + 1), lex_from(s, items_text(cs).len() as int));
        }
    }
}

/// The first token of a printed clause neither extends an expression nor
/// continues `from end`.
proof fn lemma_item_first(s: Seq<char>, o: int, c: ClauseV)
    requires
        item_ok(c),
        written(s, o, item_text(c)),
        s.len() <= usize::MAX,
    ensures
        item_toks(c, o).len() >= 1,
        item_toks(c, o)[0].kind != TokenKind::Punct(Punct::Minus),
        item_toks(c, o)[0].kind == TokenKind::Word ==> tok_text(s, item_toks(c, o)[0]) != "and"@ && tok_text(
            s,
            item_toks(c, o)[0],
        ) != "or"@,
{
    reveal_strlit("and");
    reveal_strlit("or");
    reveal_strlit("from");
    reveal_strlit("limit");
    reveal_strlit("order");
    reveal_strlit("offset");
    reveal_strlit("partition");
    reveal_strlit("size");
    match c {
        ClauseV::Cond(e) => {
            lemma_toks_shape(e, o);
            lemma_first_token(s, o, e);
            assert(item_toks(c, o) == expr_toks(e, o));
            let w = tok_text(s, item_toks(c, o)[0]);
            assert("and"@.len() == 3 && "or"@.len() == 2);
            reveal_strlit("timestamp");
            reveal_strlit("topic");
            reveal_strlit("key");
            reveal_strlit("value");
            reveal_strlit("value.");
            reveal_strlit("header.");
            if item_toks(c, o)[0].kind == TokenKind::Word && field_name(w) {
                if w == "key"@ {
                    assert(w[0] != "and"@[0]);
                }
            }
        },
        ClauseV::From(f) => {
            reveal_strlit("from begin");
            reveal_strlit("from end");
            reveal_strlit("from end - ");
            reveal_strlit("from ");
            assert(from_text(f).subrange(0, 4) == "from"@);
            lemma_written_part(s, o, from_text(f), 0, 4);
        },
        ClauseV::Limit(n) => {
            reveal_strlit("limit ");
            assert(item_text(c).subrange(0, 5) == "limit"@);
            lemma_written_part(s, o, item_text(c), 0, 5);
        },
        ClauseV::Order(ob) => {
            reveal_strlit("order by ");
            assert(order_text(ob).subrange(0, 5) == "order"@);
            lemma_written_part(s, o, order_text(ob), 0, 5);
        },
    }
}

proof fn lemma_parse_item(s: Seq<char>, t: Seq<Token>, p: int, o: int, c: ClauseV, q: QueryV)
    requires
        item_ok(c),
        written(s, o, item_text(c)),
        at(t, p, item_toks(c, o)),
        ends_expr(s, t, p + item_toks(c, o).len()),
        !crate::parser::punct_at_pos(t, p + item_toks(c, o).len(), Punct::Minus),
        s.len() <= usize::MAX,
    ensures
        spec_clause(s, t, p, q) == Some((apply(q, c), p + item_toks(c, o).len())),
{
    match c {
        ClauseV::Cond(e) => {
            reveal(spec_clause);
            reveal_strlit("from");
            reveal_strlit("limit");
            reveal_strlit("order");
            reveal_strlit("offset");
            reveal_strlit("partition");
            reveal_strlit("size");
            lemma_toks_shape(e, o);
            lemma_first_token(s, o, e);
            assert(item_toks(c, o) + Seq::<Token>::empty() == item_toks(c, o));
            lemma_at_split(t, p, item_toks(c, o), Seq::<Token>::empty());
            assert(t[p] == expr_toks(e, o)[0]);
            let w = tok_text(s, t[p]);
            reveal_strlit("timestamp");
            reveal_strlit("topic");
            reveal_strlit("key");
            reveal_strlit("value");
            reveal_strlit("value.");
            reveal_strlit("header.");
            if t[p].kind == TokenKind::Word && field_name(w) {
                if w == "size"@ {
                    assert(w[0] != "from"@[0]);
                }
                if w == "topic"@ || w == "value"@ {
                    assert(w[0] != "limit"@[0] && w[0] != "order"@[0]);
                }
            }
            assert(!word_at(s, t, p, "from"@) && !word_at(s, t, p, "limit"@) && !word_at(s, t, p, "order"@));
            lemma_parse_or(s, t, p, o, e);
        },
        ClauseV::From(f) => {
            lemma_parse_from_clause(s, t, p, o, f, q);
        },
        ClauseV::Limit(n) => {
            lemma_parse_limit_clause(s, t, p, o, n, q);
        },
        ClauseV::Order(ob) => {
            lemma_parse_order_clause(s, t, p, o, ob, q);
        },
    }
}

proof fn lemma_items_prefix(cs: Seq<ClauseV>, k: int)
    requires
        0 <= k <= cs.len(),
    ensures
        exists|rest: Seq<Token>| items_toks(cs) == #[trigger] items_toks(cs.subrange(0, k)) + rest,
        exists|rest: Seq<char>| items_text(cs) == #[trigger] items_text(cs.subrange(0, k)) + rest,
    decreases cs.len(),
{
    if k == cs.len() {
        assert(cs.subrange(0, k) == cs);
        assert(items_toks(cs) == items_toks(cs.subrange(0, k)) + Seq::<Token>::empty());
        assert(items_text(cs) == items_text(cs.subrange(0, k)) + Seq::<char>::empty());
    } else {
        let dl = cs.drop_last();
        lemma_items_prefix(dl, k);
        assert(dl.subrange(0, k) == cs.subrange(0, k));
        let r1 = choose|rest: Seq<Token>| items_toks(dl) == #[trigger] items_toks(dl.subrange(0, k)) + rest;
        let x = item_toks(cs.last(), start_after(items_text(dl)));
        assert(items_toks(cs) == items_toks(cs.subrange(0, k)) + (r1 + x));
        let r2 = choose|rest: Seq<char>| items_text(dl) == #[trigger] items_text(dl.subrange(0, k)) + rest;
        let a = items_text(dl);
        let y = item_text(cs.last());
        if a.len() == 0 {
            assert(items_text(dl.subrange(0, k)).len() == 0);
            assert(items_text(cs) == items_text(cs.subrange(0, k)) + items_text(cs));
        } else {
            assert(items_text(cs) == items_text(cs.subrange(0, k)) + (r2 + (" "@ + y)));
        }
    }
}

/// Where the clause of index `k` starts, and that its text is there.
proof fn lemma_item_at(s: Seq<char>, cs: Seq<ClauseV>, k: int)
    requires
        0 <= k < cs.len(),
        written(s, 0, items_text(cs)),
        s.len() <= usize::MAX,
    ensures
        written(s, start_after(items_text(cs.subrange(0, k))), item_text(cs[k])),
        at(items_toks(cs), items_toks(cs.subrange(0, k)).len() as int, item_toks(cs[k], start_after(items_text(cs.subrange(0, k))))),
{
    reveal_strlit(" ");
    let pre = cs.subrange(0, k);
    let upto = cs.subrange(0, k + 1);
    assert(upto.drop_last() == pre);
    assert(upto.last() == cs[k]);
    let a = items_text(pre);
    let x = item_text(cs[k]);
    lemma_items_prefix(cs, k + 1);
    let rt = choose|rest: Seq<Token>| items_toks(cs) == #[trigger] items_toks(upto) + rest;
    let rx = choose|rest: Seq<char>| items_text(cs) == #[trigger] items_text(upto) + rest;
    lemma_written_concat(s, 0, items_text(upto), rx);
    if a.len() == 0 {
        assert(items_text(upto) == x);
    } else {
        assert(items_text(upto) == a + (" "@ + x));
        lemma_written_concat(s, 0, a, " "@ + x);
        lemma_written_concat(s, a.len() as int, " "@, x);
    }
    let it = item_toks(cs[k], start_after(a));
    assert(items_toks(upto) == items_toks(pre) + it);
    assert(items_toks(cs) == items_toks(pre) + (it + rt));
    assert(items_toks(cs).subrange(0, items_toks(cs).len() as int) == items_toks(cs));
    assert(at(items_toks(cs), 0, items_toks(pre) + (it + rt)));
    lemma_at_split(items_toks(cs), 0, items_toks(pre), it + rt);
    lemma_at_split(items_toks(cs), items_toks(pre).len() as int, it, rt);
}

proof fn lemma_parse_items(s: Seq<char>, cs: Seq<ClauseV>, k: int)
    requires
        0 <= k <= cs.len(),
        forall|i: int| 0 <= i < cs.len() ==> item_ok(#[trigger] cs[i]),
        written(s, 0, items_text(cs)),
        s.len() <= usize::MAX,
    ensures
        spec_clauses(s, items_toks(cs), items_toks(cs.subrange(0, k)).len() as int, apply_all(
            crate::parser::empty_query(),
            cs.subrange(0, k),
        )) == Some(apply_all(crate::parser::empty_query(), cs)),
    decreases cs.len() - k,
{
    let t = items_toks(cs);
    let pre = cs.subrange(0, k);
    let pk = items_toks(pre).len() as int;
    lemma_items_prefix(cs, k);
    if k == cs.len() {
        assert(pre == cs);
    } else {
        let upto = cs.subrange(0, k + 1);
        assert(upto.drop_last() == pre);
        assert(upto.last() == cs[k]);
        let ok = start_after(items_text(pre));
        let it = item_toks(cs[k], ok);
        lemma_item_at(s, cs, k);
        lemma_item_first(s, ok, cs[k]);
        assert(items_toks(upto) == items_toks(pre) + it);
        let pn = pk + it.len();
        assert(items_toks(upto).len() == pn);
        lemma_items_prefix(cs, k + 1);
        if k + 1 < cs.len() {
            lemma_item_at(s, cs, k + 1);
            let ok2 = start_after(items_text(upto));
            lemma_item_first(s, ok2, cs[k + 1]);
            assert(t[pn] == item_toks(cs[k + 1], ok2)[0]) by {
                assert(t.subrange(pn, pn + item_toks(cs[k + 1], ok2).len())[0] == t[pn]);
            }
        } else {
            assert(upto == cs);
        }
        lemma_parse_item(s, t, pk, ok, cs[k], apply_all(crate::parser::empty_query(), pre));
        lemma_parse_items(s, cs, k + 1);
        assert(apply_all(crate::parser::empty_query(), upto) == apply(
            apply_all(crate::parser::empty_query(), pre),
            cs[k],
        ));
    }
}

/// Printing a query and parsing the text gives the query back, for every
/// query of `printable_query`: conditions that compare a field with a literal
/// or call a filter, under any nesting of `!`, `and`, `or` and parentheses,
/// with any `from`, `limit` and `order by` clauses. Numbers and times are not
/// negative, strings hold at most one kind of quotes, and paths, header names
/// and filter names are words; the text must fit in memory.
pub proof fn lemma_print_parse_round_trip(q: QueryV)
    requires
        printable_query(q),
        query_text(q).len() < usize::MAX - 8,
    ensures
        spec_parse(query_text(q)) == Some(q),
{
    let cs = query_items(q);
    lemma_query_items(q);
    let s = query_text(q);
    assert(s.subrange(0, s.len() as int) == s);
    assert(written(s, 0, items_text(cs)));
    lemma_lex_items(s, cs);
    let t = items_toks(cs);
    assert(lex_from(s, s.len() as int) == Some(Seq::<Token>::empty()));
    assert(t + Seq::<Token>::empty() == t);
    assert(lex(s) == Some(t));
    lemma_item_at(s, cs, 0);
    lemma_item_first(s, start_after(items_text(cs.subrange(0, 0))), cs[0]);
    assert(t.len() > 0);
    lemma_parse_items(s, cs, 0);
    assert(cs.subrange(0, 0) == Seq::<ClauseV>::empty());
}

} // verus!
