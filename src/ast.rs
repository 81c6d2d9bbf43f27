//! The syntax tree of a search query, its mathematical model, and the printer
//! that renders a tree back into query text.
use vstd::prelude::*;
use crate::text::{decimal, push_char, push_decimal, push_str};

verus! {

/// Operators that compare a numeric field or a timestamp.
#[derive(Debug, Clone, Copy, PartialEq, Eq, Structural)]
pub enum NumberOperator {
    GreaterThan,
    GreaterOrEqual,
    LowerThan,
    LowerOrEqual,
    Equal,
    NotEqual,
}

/// Operators that compare a textual field.
#[derive(Debug, Clone, Copy, PartialEq, Eq, Structural)]
pub enum StringOperator {
    Equal,
    NotEqual,
    Contain,
    StartWith,
}

/// The fields of a record that a query can name.
#[derive(Debug, Clone, Copy, PartialEq, Eq, Structural)]
pub enum Symbol {
    Timestamp,
    Offset,
    Partition,
    Topic,
    Size,
    Key,
    Value,
    Header,
}

/// The fields by which the buffered records can be ordered.
#[derive(Debug, Clone, Copy, PartialEq, Eq, Structural)]
pub enum Order {
    Timestamp,
    Key,
    Value,
    Partition,
    Offset,
    Size,
    Topic,
}

#[derive(Debug, Clone, Copy, PartialEq, Eq, Structural)]
pub enum Direction {
    Asc,
    Desc,
}

/// An `order by` clause.
#[derive(Debug, Clone, Copy, PartialEq, Eq, Structural)]
pub struct OrderBy {
    pub order: Order,
    pub direction: Direction,
}

impl OrderBy {
    pub fn is_descending(&self) -> (r: bool)
        ensures
            r == (self.direction == Direction::Desc),
    {
        match self.direction {
            Direction::Desc => true,
            Direction::Asc => false,
        }
    }
}

/// Where the consumption of a topic starts.
#[derive(Debug, Clone, Copy, PartialEq, Eq, Structural)]
pub enum FromOffset {
    Beginning,
    End,
    /// `n` records before the end of each partition.
    EndMinus(u64),
    /// An absolute offset.
    AbsoluteOffset(i64),
    /// The first record at or after this time, in milliseconds since the epoch.
    Timestamp(i64),
}

/// A comparison between a field of the record and a literal.
#[derive(Debug, Clone, PartialEq, Eq)]
pub enum CompareExpression {
    Partition(NumberOperator, i32),
    Offset(NumberOperator, i64),
    Size(NumberOperator, u64),
    Topic(StringOperator, String),
    Key(StringOperator, String),
    /// The value, or with a path the part of a JSON value that the path reaches.
    Value(Option<String>, StringOperator, String),
    /// The value of the header of the given name.
    Header(String, StringOperator, String),
    /// A comparison with a time, in milliseconds since the epoch.
    Timestamp(NumberOperator, i64),
    /// Inclusive on both ends.
    TimestampBetween(i64, i64),
}

/// A literal handed to a filter.
#[derive(Debug, Clone, PartialEq, Eq)]
pub enum Parameter {
    Number(u64),
    String(String),
}

/// A call of a named filter plugin.
#[derive(Debug, Clone, PartialEq, Eq)]
pub struct Filter {
    pub name: String,
    pub parameters: Vec<Parameter>,
}

#[derive(Debug, PartialEq, Eq)]
pub enum Atom {
    Symbol(Symbol),
    Compare(CompareExpression),
    Filter(Filter),
    Parenthesis(Box<Expression>),
}

/// An atom, or a negated atom.
#[derive(Debug, PartialEq, Eq)]
pub enum Term {
    Not(Atom),
    Atom(Atom),
}

/// A boolean composition of terms; `and` binds tighter than `or`.
#[derive(Debug, PartialEq, Eq)]
pub enum Expression {
    Term(Term),
    And(Box<Expression>, Box<Expression>),
    Or(Box<Expression>, Box<Expression>),
}

/// A parsed query: its conditions, all of which must hold, and its clauses.
#[derive(Debug, PartialEq, Eq, Default)]
pub struct SearchQuery {
    pub expressions: Vec<Expression>,
    pub from: Option<FromOffset>,
    pub limit: Option<usize>,
    pub order_by: Option<OrderBy>,
}

// ---------------------------------------------------------------- models

pub enum CompareV {
    Partition(NumberOperator, i32),
    Offset(NumberOperator, i64),
    Size(NumberOperator, u64),
    Topic(StringOperator, Seq<char>),
    Key(StringOperator, Seq<char>),
    Value(Option<Seq<char>>, StringOperator, Seq<char>),
    Header(Seq<char>, StringOperator, Seq<char>),
    Timestamp(NumberOperator, i64),
    TimestampBetween(i64, i64),
}

pub enum ParameterV {
    Number(u64),
    Text(Seq<char>),
}

pub struct FilterV {
    pub name: Seq<char>,
    pub parameters: Seq<ParameterV>,
}

pub enum AtomV {
    Symbol(Symbol),
    Compare(CompareV),
    Filter(FilterV),
    Parenthesis(Box<ExprV>),
}

pub enum TermV {
    Not(AtomV),
    Atom(AtomV),
}

pub enum ExprV {
    Term(TermV),
    And(Box<ExprV>, Box<ExprV>),
    Or(Box<ExprV>, Box<ExprV>),
}

pub struct QueryV {
    pub expressions: Seq<ExprV>,
    pub from: Option<FromOffset>,
    pub limit: Option<usize>,
    pub order_by: Option<OrderBy>,
}

pub open spec fn opt_view(o: Option<String>) -> Option<Seq<char>> {
    match o {
        Some(s) => Some(s@),
        None => None,
    }
}

impl View for CompareExpression {
    type V = CompareV;

    open spec fn view(&self) -> CompareV {
        match self {
            CompareExpression::Partition(op, n) => CompareV::Partition(*op, *n),
            CompareExpression::Offset(op, n) => CompareV::Offset(*op, *n),
            CompareExpression::Size(op, n) => CompareV::Size(*op, *n),
            CompareExpression::Topic(op, s) => CompareV::Topic(*op, s@),
            CompareExpression::Key(op, s) => CompareV::Key(*op, s@),
            CompareExpression::Value(p, op, s) => CompareV::Value(opt_view(*p), *op, s@),
            CompareExpression::Header(h, op, s) => CompareV::Header(h@, *op, s@),
            CompareExpression::Timestamp(op, t) => CompareV::Timestamp(*op, *t),
            CompareExpression::TimestampBetween(a, b) => CompareV::TimestampBetween(*a, *b),
        }
    }
}

impl View for Parameter {
    type V = ParameterV;

    open spec fn view(&self) -> ParameterV {
        match self {
            Parameter::Number(n) => ParameterV::Number(*n),
            Parameter::String(s) => ParameterV::Text(s@),
        }
    }
}

impl View for Filter {
    type V = FilterV;

    open spec fn view(&self) -> FilterV {
        FilterV { name: self.name@, parameters: self.parameters@.map_values(|p: Parameter| p@) }
    }
}

pub open spec fn atom_view(a: Atom) -> AtomV
    decreases a,
{
    match a {
        Atom::Symbol(s) => AtomV::Symbol(s),
        Atom::Compare(c) => AtomV::Compare(c@),
        Atom::Filter(f) => AtomV::Filter(f@),
        Atom::Parenthesis(e) => AtomV::Parenthesis(Box::new(expr_view(*e))),
    }
}

pub open spec fn term_view(t: Term) -> TermV
    decreases t,
{
    match t {
        Term::Not(a) => TermV::Not(atom_view(a)),
        Term::Atom(a) => TermV::Atom(atom_view(a)),
    }
}

pub open spec fn expr_view(e: Expression) -> ExprV
    decreases e,
{
    match e {
        Expression::Term(t) => ExprV::Term(term_view(t)),
        Expression::And(l, r) => ExprV::And(Box::new(expr_view(*l)), Box::new(expr_view(*r))),
        Expression::Or(l, r) => ExprV::Or(Box::new(expr_view(*l)), Box::new(expr_view(*r))),
    }
}

impl View for Atom {
    type V = AtomV;

    open spec fn view(&self) -> AtomV {
        atom_view(*self)
    }
}

impl View for Term {
    type V = TermV;

    open spec fn view(&self) -> TermV {
        term_view(*self)
    }
}

impl View for Expression {
    type V = ExprV;

    open spec fn view(&self) -> ExprV {
        expr_view(*self)
    }
}

impl View for SearchQuery {
    type V = QueryV;

    open spec fn view(&self) -> QueryV {
        QueryV {
            expressions: self.expressions@.map_values(|e: Expression| e@),
            from: self.from,
            limit: self.limit,
            order_by: self.order_by,
        }
    }
}

// ---------------------------------------------------------------- printer

pub open spec fn num_op_text(op: NumberOperator) -> Seq<char> {
    match op {
        NumberOperator::GreaterThan => ">"@,
        NumberOperator::GreaterOrEqual => ">="@,
        NumberOperator::LowerThan => "<"@,
        NumberOperator::LowerOrEqual => "<="@,
        NumberOperator::Equal => "=="@,
        NumberOperator::NotEqual => "!="@,
    }
}

pub open spec fn str_op_text(op: StringOperator) -> Seq<char> {
    match op {
        StringOperator::Equal => "=="@,
        StringOperator::NotEqual => "!="@,
        StringOperator::Contain => "contains"@,
        StringOperator::StartWith => "starts with"@,
    }
}

/// A string literal: single quotes, or double quotes where the text holds a single quote.
pub open spec fn quoted(s: Seq<char>) -> Seq<char> {
    if s.contains('\'') {
        seq!['"'] + s + seq!['"']
    } else {
        seq!['\''] + s + seq!['\'']
    }
}

pub open spec fn int_text(n: int) -> Seq<char> {
    if n < 0 {
        seq!['-'] + decimal((-n) as nat)
    } else {
        decimal(n as nat)
    }
}

pub open spec fn symbol_name(s: Symbol) -> Seq<char> {
    match s {
        Symbol::Timestamp => "Timestamp"@,
        Symbol::Offset => "Offset"@,
        Symbol::Partition => "Partition"@,
        Symbol::Topic => "Topic"@,
        Symbol::Size => "Size"@,
        Symbol::Key => "Key"@,
        Symbol::Value => "Value"@,
        Symbol::Header => "Header"@,
    }
}

pub open spec fn compare_text(c: CompareV) -> Seq<char> {
    match c {
        CompareV::Partition(op, n) => "partition "@ + num_op_text(op) + " "@ + int_text(n as int),
        CompareV::Offset(op, n) => "offset "@ + num_op_text(op) + " "@ + int_text(n as int),
        CompareV::Size(op, n) => "size "@ + num_op_text(op) + " "@ + decimal(n as nat),
        CompareV::Topic(op, s) => "topic "@ + str_op_text(op) + " "@ + quoted(s),
        CompareV::Key(op, s) => "key "@ + str_op_text(op) + " "@ + quoted(s),
        CompareV::Value(None, op, s) => "value "@ + str_op_text(op) + " "@ + quoted(s),
        CompareV::Value(Some(p), op, s) => "value."@ + p + " "@ + str_op_text(op) + " "@ + quoted(s),
        CompareV::Header(h, op, s) => "header."@ + h + " "@ + str_op_text(op) + " "@ + quoted(s),
        CompareV::Timestamp(op, t) => "timestamp "@ + num_op_text(op) + " "@ + quoted(int_text(t as int)),
        CompareV::TimestampBetween(a, b) => "timestamp between "@ + quoted(int_text(a as int)) + " and "@
            + quoted(int_text(b as int)),
    }
}

pub open spec fn parameter_text(p: ParameterV) -> Seq<char> {
    match p {
        ParameterV::Number(n) => decimal(n as nat),
        ParameterV::Text(s) => quoted(s),
    }
}

/// The parameters, separated by a comma and a space.
pub open spec fn parameters_text(ps: Seq<ParameterV>) -> Seq<char>
    decreases ps.len(),
{
    if ps.len() == 0 {
        Seq::empty()
    } else if ps.len() == 1 {
        parameter_text(ps[0])
    } else {
        parameters_text(ps.drop_last()) + ", "@ + parameter_text(ps.last())
    }
}

pub open spec fn filter_text(f: FilterV) -> Seq<char> {
    f.name + "("@ + parameters_text(f.parameters) + ")"@
}

pub open spec fn atom_text(a: AtomV) -> Seq<char>
    decreases a,
{
    match a {
        AtomV::Symbol(s) => symbol_name(s),
        AtomV::Compare(c) => compare_text(c),
        AtomV::Filter(f) => filter_text(f),
        AtomV::Parenthesis(e) => "("@ + expr_text(*e) + ")"@,
    }
}

pub open spec fn term_text(t: TermV) -> Seq<char>
    decreases t,
{
    match t {
        TermV::Not(a) => "!"@ + atom_text(a),
        TermV::Atom(a) => atom_text(a),
    }
}

pub open spec fn expr_text(e: ExprV) -> Seq<char>
    decreases e,
{
    match e {
        ExprV::Term(t) => term_text(t),
        ExprV::And(l, r) => expr_text(*l) + " and "@ + expr_text(*r),
        ExprV::Or(l, r) => expr_text(*l) + " or "@ + expr_text(*r),
    }
}

/// Appends a clause, separated from what precedes it by a space.
pub open spec fn join_clause(acc: Seq<char>, c: Seq<char>) -> Seq<char> {
    if acc.len() == 0 {
        c
    } else {
        acc + " "@ + c
    }
}

pub open spec fn exprs_text(es: Seq<ExprV>) -> Seq<char>
    decreases es.len(),
{
    if es.len() == 0 {
        Seq::empty()
    } else {
        join_clause(exprs_text(es.drop_last()), expr_text(es.last()))
    }
}

pub open spec fn from_text(f: FromOffset) -> Seq<char> {
    match f {
        FromOffset::Beginning => "from begin"@,
        FromOffset::End => "from end"@,
        FromOffset::EndMinus(n) => "from end - "@ + decimal(n as nat),
        FromOffset::AbsoluteOffset(n) => "from "@ + int_text(n as int),
        FromOffset::Timestamp(t) => "from "@ + quoted(int_text(t as int)),
    }
}

pub open spec fn order_name(o: Order) -> Seq<char> {
    match o {
        Order::Timestamp => "timestamp"@,
        Order::Key => "key"@,
        Order::Value => "value"@,
        Order::Partition => "partition"@,
        Order::Offset => "offset"@,
        Order::Size => "size"@,
        Order::Topic => "topic"@,
    }
}

pub open spec fn order_text(o: OrderBy) -> Seq<char> {
    "order by "@ + order_name(o.order) + match o.direction {
        Direction::Asc => " asc"@,
        Direction::Desc => " desc"@,
    }
}

/// The text of a query: its conditions, then `from`, `limit` and `order by`.
pub open spec fn query_text(q: QueryV) -> Seq<char> {
    let a = exprs_text(q.expressions);
    let b = match q.from {
        Some(f) => join_clause(a, from_text(f)),
        None => a,
    };
    let c = match q.limit {
        Some(n) => join_clause(b, "limit "@ + decimal(n as nat)),
        None => b,
    };
    match q.order_by {
        Some(o) => join_clause(c, order_text(o)),
        None => c,
    }
}

fn push_num_op(out: &mut String, op: NumberOperator)
    ensures
        final(out)@ == old(out)@ + num_op_text(op),
{
    match op {
        NumberOperator::GreaterThan => push_str(out, ">"),
        NumberOperator::GreaterOrEqual => push_str(out, ">="),
        NumberOperator::LowerThan => push_str(out, "<"),
        NumberOperator::LowerOrEqual => push_str(out, "<="),
        NumberOperator::Equal => push_str(out, "=="),
        NumberOperator::NotEqual => push_str(out, "!="),
    }
}

fn push_str_op(out: &mut String, op: StringOperator)
    ensures
        final(out)@ == old(out)@ + str_op_text(op),
{
    match op {
        StringOperator::Equal => push_str(out, "=="),
        StringOperator::NotEqual => push_str(out, "!="),
        StringOperator::Contain => push_str(out, "contains"),
        StringOperator::StartWith => push_str(out, "starts with"),
    }
}

fn has_char(v: &Vec<char>, c: char) -> (r: bool)
    ensures
        r == v@.contains(c),
{
    let mut i: usize = 0;
    while i < v.len()
        invariant
            0 <= i <= v@.len(),
            forall|k: int| 0 <= k < i ==> v@[k] != c,
        decreases v.len() - i,
    {
        if v[i] == c {
            return true;
        }
        i = i + 1;
    }
    false
}

fn push_quoted(out: &mut String, s: &str)
    ensures
        final(out)@ == old(out)@ + quoted(s@),
{
    let v = crate::text::chars_of(s);
    let q = if has_char(&v, '\'') { '"' } else { '\'' };
    push_char(out, q);
    push_str(out, s);
    push_char(out, q);
    assert(final(out)@ == old(out)@ + quoted(s@));
}

fn push_int(out: &mut String, n: i64)
    ensures
        final(out)@ == old(out)@ + int_text(n as int),
{
    if n < 0 {
        push_char(out, '-');
        let m: u64 = (0i128 - n as i128) as u64;
        push_decimal(out, m);
    } else {
        push_decimal(out, n as u64);
    }
}

fn push_quoted_int(out: &mut String, n: i64)
    ensures
        final(out)@ == old(out)@ + quoted(int_text(n as int)),
{
    let mut t = String::new();
    push_int(&mut t, n);
    assert(t@ == int_text(n as int));
    push_quoted(out, t.as_str());
}

fn push_compare(out: &mut String, c: &CompareExpression)
    ensures
        final(out)@ == old(out)@ + compare_text(c@),
{
    let ghost o = old(out)@;
    match c {
        CompareExpression::Partition(op, n) => {
            push_str(out, "partition ");
            push_num_op(out, *op);
            push_str(out, " ");
            push_int(out, *n as i64);
        },
        CompareExpression::Offset(op, n) => {
            push_str(out, "offset ");
            push_num_op(out, *op);
            push_str(out, " ");
            push_int(out, *n);
        },
        CompareExpression::Size(op, n) => {
            push_str(out, "size ");
            push_num_op(out, *op);
            push_str(out, " ");
            push_decimal(out, *n);
        },
        CompareExpression::Topic(op, s) => {
            push_str(out, "topic ");
            push_str_op(out, *op);
            push_str(out, " ");
            push_quoted(out, s.as_str());
        },
        CompareExpression::Key(op, s) => {
            push_str(out, "key ");
            push_str_op(out, *op);
            push_str(out, " ");
            push_quoted(out, s.as_str());
        },
        CompareExpression::Value(p, op, s) => {
            match p {
                None => push_str(out, "value "),
                Some(p) => {
                    push_str(out, "value.");
                    push_str(out, p.as_str());
                    push_str(out, " ");
                },
            }
            push_str_op(out, *op);
            push_str(out, " ");
            push_quoted(out, s.as_str());
        },
        CompareExpression::Header(h, op, s) => {
            push_str(out, "header.");
            push_str(out, h.as_str());
            push_str(out, " ");
            push_str_op(out, *op);
            push_str(out, " ");
            push_quoted(out, s.as_str());
        },
        CompareExpression::Timestamp(op, t) => {
            push_str(out, "timestamp ");
            push_num_op(out, *op);
            push_str(out, " ");
            push_quoted_int(out, *t);
        },
        CompareExpression::TimestampBetween(a, b) => {
            push_str(out, "timestamp between ");
            push_quoted_int(out, *a);
            push_str(out, " and ");
            push_quoted_int(out, *b);
        },
    }
    assert(final(out)@ == o + compare_text(c@));
}

fn push_parameter(out: &mut String, p: &Parameter)
    ensures
        final(out)@ == old(out)@ + parameter_text(p@),
{
    match p {
        Parameter::Number(n) => push_decimal(out, *n),
        Parameter::String(s) => push_quoted(out, s.as_str()),
    }
}

fn push_filter(out: &mut String, f: &Filter)
    ensures
        final(out)@ == old(out)@ + filter_text(f@),
{
    let ghost o = old(out)@;
    let ghost ps = f@.parameters;
    push_str(out, f.name.as_str());
    push_str(out, "(");
    let ghost base = out@;
    let mut i: usize = 0;
    while i < f.parameters.len()
        invariant
            0 <= i <= f.parameters@.len(),
            ps == f.parameters@.map_values(|p: Parameter| p@),
            out@ == base + parameters_text(ps.subrange(0, i as int)),
        decreases f.parameters.len() - i,
    {
        let ghost before = ps.subrange(0, i as int);
        if i > 0 {
            push_str(out, ", ");
        }
        push_parameter(out, &f.parameters[i]);
        i = i + 1;
        proof {
            let now = ps.subrange(0, i as int);
            assert(now.drop_last() == before);
            assert(now.last() == f.parameters@[i - 1]@);
            if i == 1 {
                assert(before.len() == 0);
            }
        }
    }
    assert(ps.subrange(0, ps.len() as int) == ps);
    push_str(out, ")");
    assert(final(out)@ == o + filter_text(f@));
}

fn push_atom(out: &mut String, a: &Atom)
    ensures
        final(out)@ == old(out)@ + atom_text(a@),
    decreases a,
{
    let ghost o = old(out)@;
    match a {
        Atom::Symbol(s) => push_symbol(out, *s),
        Atom::Compare(c) => push_compare(out, c),
        Atom::Filter(f) => push_filter(out, f),
        Atom::Parenthesis(e) => {
            push_str(out, "(");
            push_expr(out, e);
            push_str(out, ")");
        },
    }
    assert(final(out)@ == o + atom_text(a@));
}

fn push_term(out: &mut String, t: &Term)
    ensures
        final(out)@ == old(out)@ + term_text(t@),
    decreases t,
{
    let ghost o = old(out)@;
    match t {
        Term::Not(a) => {
            push_str(out, "!");
            push_atom(out, a);
        },
        Term::Atom(a) => push_atom(out, a),
    }
    assert(final(out)@ == o + term_text(t@));
}

fn push_expr(out: &mut String, e: &Expression)
    ensures
        final(out)@ == old(out)@ + expr_text(e@),
    decreases e,
{
    let ghost o = old(out)@;
    match e {
        Expression::Term(t) => push_term(out, t),
        Expression::And(l, r) => {
            push_expr(out, l);
            push_str(out, " and ");
            push_expr(out, r);
        },
        Expression::Or(l, r) => {
            push_expr(out, l);
            push_str(out, " or ");
            push_expr(out, r);
        },
    }
    assert(final(out)@ == o + expr_text(e@));
}

fn push_symbol(out: &mut String, s: Symbol)
    ensures
        final(out)@ == old(out)@ + symbol_name(s),
{
    match s {
        Symbol::Timestamp => push_str(out, "Timestamp"),
        Symbol::Offset => push_str(out, "Offset"),
        Symbol::Partition => push_str(out, "Partition"),
        Symbol::Topic => push_str(out, "Topic"),
        Symbol::Size => push_str(out, "Size"),
        Symbol::Key => push_str(out, "Key"),
        Symbol::Value => push_str(out, "Value"),
        Symbol::Header => push_str(out, "Header"),
    }
}

impl Term {
    /// The text of the term.
    pub fn to_string(&self) -> (r: String)
        ensures
            r@ == term_text(self@),
    {
        let mut r = String::new();
        push_term(&mut r, self);
        r
    }
}

impl Filter {
    /// The call as it is written in a query: `name(10, 'text')`.
    pub fn to_string(&self) -> (r: String)
        ensures
            r@ == filter_text(self@),
    {
        let mut r = String::new();
        push_filter(&mut r, self);
        r
    }
}

impl Expression {
    pub fn to_string(&self) -> (r: String)
        ensures
            r@ == expr_text(self@),
    {
        let mut r = String::new();
        push_expr(&mut r, self);
        r
    }
}

fn push_clause_gap(out: &mut String)
    ensures
        old(out)@.len() == 0 ==> final(out)@ == old(out)@,
        old(out)@.len() != 0 ==> final(out)@ == old(out)@ + " "@,
{
    if !out.as_str().is_empty() {
        push_str(out, " ");
    }
}

impl SearchQuery {
    /// The text of the query; for a query that `parse_search_query` produced,
    /// parsing that text gives the same query back.
    pub fn to_string(&self) -> (r: String)
        ensures
            r@ == query_text(self@),
    {
        let ghost es = self@.expressions;
        let mut r = String::new();
        let mut i: usize = 0;
        while i < self.expressions.len()
            invariant
                0 <= i <= self.expressions@.len(),
                es == self.expressions@.map_values(|e: Expression| e@),
                r@ == exprs_text(es.subrange(0, i as int)),
            decreases self.expressions.len() - i,
        {
            let ghost before = r@;
            let mut piece = String::new();
            push_expr(&mut piece, &self.expressions[i]);
            push_clause_gap(&mut r);
            push_str(&mut r, piece.as_str());
            i = i + 1;
            proof {
                let now = es.subrange(0, i as int);
                assert(now.drop_last() == es.subrange(0, i - 1));
                assert(now.last() == self.expressions@[i - 1]@);
                if before.len() == 0 {
                    assert(r@ == join_clause(before, piece@));
                }
            }
        }
        assert(es.subrange(0, es.len() as int) == es);
        let ghost a = r@;
        match self.from {
            Some(f) => {
                let mut piece = String::new();
                match f {
                    FromOffset::Beginning => push_str(&mut piece, "from begin"),
                    FromOffset::End => push_str(&mut piece, "from end"),
                    FromOffset::EndMinus(n) => {
                        push_str(&mut piece, "from end - ");
                        push_decimal(&mut piece, n);
                    },
                    FromOffset::AbsoluteOffset(n) => {
                        push_str(&mut piece, "from ");
                        push_int(&mut piece, n);
                    },
                    FromOffset::Timestamp(t) => {
                        push_str(&mut piece, "from ");
                        push_quoted_int(&mut piece, t);
                    },
                }
                assert(piece@ == from_text(f));
                push_clause_gap(&mut r);
                push_str(&mut r, piece.as_str());
                assert(r@ == join_clause(a, from_text(f)));
            },
            None => {},
        }
        let ghost b = r@;
        match self.limit {
            Some(n) => {
                let mut piece = String::new();
                push_str(&mut piece, "limit ");
                push_decimal(&mut piece, n as u64);
                push_clause_gap(&mut r);
                push_str(&mut r, piece.as_str());
                assert(r@ == join_clause(b, "limit "@ + decimal(n as nat)));
            },
            None => {},
        }
        let ghost c = r@;
        match self.order_by {
            Some(o) => {
                let mut piece = String::new();
                push_str(&mut piece, "order by ");
                match o.order {
                    Order::Timestamp => push_str(&mut piece, "timestamp"),
                    Order::Key => push_str(&mut piece, "key"),
                    Order::Value => push_str(&mut piece, "value"),
                    Order::Partition => push_str(&mut piece, "partition"),
                    Order::Offset => push_str(&mut piece, "offset"),
                    Order::Size => push_str(&mut piece, "size"),
                    Order::Topic => push_str(&mut piece, "topic"),
                }
                match o.direction {
                    Direction::Asc => push_str(&mut piece, " asc"),
                    Direction::Desc => push_str(&mut piece, " desc"),
                }
                assert(piece@ == order_text(o));
                push_clause_gap(&mut r);
                push_str(&mut r, piece.as_str());
                assert(r@ == join_clause(c, order_text(o)));
            },
            None => {},
        }
        r
    }
}

} // verus!
