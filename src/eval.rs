//! Evaluation of a query against one decoded record. Evaluation is pure: the
//! results of filter plugins for the record are handed in, keyed by the call.
use vstd::prelude::*;
use crate::ast::{
    Atom, AtomV, CompareExpression, CompareV, Expression, ExprV, Filter, FilterV, NumberOperator,
    Parameter, SearchQuery, QueryV, StringOperator, Term, TermV,
};
use crate::record::{json_at, json_lookup, json_text, DataType, JsonKind, JsonValue, KafkaRecord};
use crate::text::{chars_of, contains, is_infix, is_prefix, same_chars, starts_with};

verus! {

pub open spec fn num_holds(op: NumberOperator, a: int, b: int) -> bool {
    match op {
        NumberOperator::GreaterThan => a > b,
        NumberOperator::GreaterOrEqual => a >= b,
        NumberOperator::LowerThan => a < b,
        NumberOperator::LowerOrEqual => a <= b,
        NumberOperator::Equal => a == b,
        NumberOperator::NotEqual => a != b,
    }
}

/// `a op b`, where `a` is read from the record and `b` is the literal.
pub open spec fn text_holds(op: StringOperator, a: Seq<char>, b: Seq<char>) -> bool {
    match op {
        StringOperator::Equal => a == b,
        StringOperator::NotEqual => a != b,
        StringOperator::Contain => is_infix(b, a),
        StringOperator::StartWith => is_prefix(b, a),
    }
}

/// A key or a value compared with a literal: without a path, its text; with a
/// path, the JSON node that the path reaches. A string has no path to follow.
pub open spec fn data_holds(d: DataType, path: Option<Seq<char>>, op: StringOperator, lit: Seq<char>) -> bool {
    match (d, path) {
        (DataType::String(s), None) => text_holds(op, s@, lit),
        (DataType::Json(j), None) => text_holds(op, json_text(j), lit),
        (DataType::String(_), Some(_)) => false,
        (DataType::Json(j), Some(p)) => match json_at(j, p, 0) {
            Some(n) => text_holds(op, json_text(n), lit),
            None => false,
        },
    }
}

/// The index of the first header from `k` on with the given name.
pub open spec fn find_header(hs: Seq<(String, String)>, name: Seq<char>, k: int) -> Option<int>
    decreases hs.len() - k,
{
    if k < 0 || k >= hs.len() {
        None
    } else if hs[k].0@ == name {
        Some(k)
    } else {
        find_header(hs, name, k + 1)
    }
}

/// Whether a comparison holds of a record. A missing header and a missing
/// timestamp make every comparison on them false.
pub open spec fn compare_holds(c: CompareV, r: KafkaRecord) -> bool {
    match c {
        CompareV::Partition(op, n) => num_holds(op, r.partition as int, n as int),
        CompareV::Offset(op, n) => num_holds(op, r.offset as int, n as int),
        CompareV::Size(op, n) => num_holds(op, r.size as int, n as int),
        CompareV::Topic(op, s) => text_holds(op, r.topic@, s),
        CompareV::Key(op, s) => data_holds(r.key, None, op, s),
        CompareV::Value(p, op, s) => data_holds(r.value, p, op, s),
        CompareV::Header(h, op, s) => match find_header(r.headers@, h, 0) {
            Some(k) => text_holds(op, r.headers@[k].1@, s),
            None => false,
        },
        CompareV::Timestamp(op, t) => match r.timestamp {
            Some(ts) => num_holds(op, ts as int, t as int),
            None => false,
        },
        CompareV::TimestampBetween(a, b) => match r.timestamp {
            Some(ts) => a <= ts && ts <= b,
            None => false,
        },
    }
}

/// What the plugin answered for a call, from the first entry for that call; a
/// call without an entry does not match.
pub open spec fn filter_outcome(os: Seq<(Filter, bool)>, f: FilterV, k: int) -> bool
    decreases os.len() - k,
{
    if k < 0 || k >= os.len() {
        false
    } else if os[k].0@ == f {
        os[k].1
    } else {
        filter_outcome(os, f, k + 1)
    }
}

/// Whether an atom holds of a record; a bare symbol states no condition and holds.
pub open spec fn atom_holds(a: AtomV, r: KafkaRecord, os: Seq<(Filter, bool)>) -> bool
    decreases a,
{
    match a {
        AtomV::Symbol(_) => true,
        AtomV::Compare(c) => compare_holds(c, r),
        AtomV::Filter(f) => filter_outcome(os, f, 0),
        AtomV::Parenthesis(e) => expr_holds(*e, r, os),
    }
}

pub open spec fn term_holds(t: TermV, r: KafkaRecord, os: Seq<(Filter, bool)>) -> bool
    decreases t,
{
    match t {
        TermV::Not(a) => !atom_holds(a, r, os),
        TermV::Atom(a) => atom_holds(a, r, os),
    }
}

pub open spec fn expr_holds(e: ExprV, r: KafkaRecord, os: Seq<(Filter, bool)>) -> bool
    decreases e,
{
    match e {
        ExprV::Term(t) => term_holds(t, r, os),
        ExprV::And(a, b) => expr_holds(*a, r, os) && expr_holds(*b, r, os),
        ExprV::Or(a, b) => expr_holds(*a, r, os) || expr_holds(*b, r, os),
    }
}

/// A query matches a record when all of its conditions hold.
pub open spec fn query_holds(q: QueryV, r: KafkaRecord, os: Seq<(Filter, bool)>) -> bool {
    forall|i: int| 0 <= i < q.expressions.len() ==> #[trigger] expr_holds(q.expressions[i], r, os)
}

fn num_check(op: NumberOperator, a: i128, b: i128) -> (r: bool)
    ensures
        r == num_holds(op, a as int, b as int),
{
    match op {
        NumberOperator::GreaterThan => a > b,
        NumberOperator::GreaterOrEqual => a >= b,
        NumberOperator::LowerThan => a < b,
        NumberOperator::LowerOrEqual => a <= b,
        NumberOperator::Equal => a == b,
        NumberOperator::NotEqual => a != b,
    }
}

fn text_check(op: StringOperator, a: &str, b: &str) -> (r: bool)
    ensures
        r == text_holds(op, a@, b@),
{
    let av = chars_of(a);
    let bv = chars_of(b);
    match op {
        StringOperator::Equal => same_chars(&av, &bv),
        StringOperator::NotEqual => !same_chars(&av, &bv),
        StringOperator::Contain => contains(&av, &bv),
        StringOperator::StartWith => starts_with(&av, &bv),
    }
}

fn json_check(j: &JsonValue, op: StringOperator, lit: &str) -> (r: bool)
    ensures
        r == text_holds(op, json_text(*j), lit@),
{
    match &j.kind {
        JsonKind::String(s) => text_check(op, s.as_str(), lit),
        _ => text_check(op, j.text.as_str(), lit),
    }
}

fn data_check(d: &DataType, path: &Option<String>, op: StringOperator, lit: &str) -> (r: bool)
    ensures
        r == data_holds(*d, crate::ast::opt_view(*path), op, lit@),
{
    match (d, path) {
        (DataType::String(s), None) => text_check(op, s.as_str(), lit),
        (DataType::Json(j), None) => json_check(j, op, lit),
        (DataType::String(_), Some(_)) => false,
        (DataType::Json(j), Some(p)) => {
            let pv = chars_of(p.as_str());
            match json_lookup(j, &pv) {
                Some(n) => json_check(n, op, lit),
                None => false,
            }
        },
    }
}

fn header_index(hs: &Vec<(String, String)>, name: &str) -> (r: Option<usize>)
    ensures
        match r {
            Some(k) => find_header(hs@, name@, 0) == Some(k as int) && k < hs@.len(),
            None => find_header(hs@, name@, 0) is None,
        },
{
    let nv = chars_of(name);
    let mut k: usize = 0;
    while k < hs.len()
        invariant
            0 <= k <= hs@.len(),
            nv@ == name@,
            find_header(hs@, name@, 0) == find_header(hs@, name@, k as int),
        decreases hs.len() - k,
    {
        let key = chars_of(hs[k].0.as_str());
        if same_chars(&key, &nv) {
            return Some(k);
        }
        k = k + 1;
    }
    None
}

impl CompareExpression {
    /// Whether the comparison holds of the record.
    pub fn matches(&self, r: &KafkaRecord) -> (b: bool)
        ensures
            b == compare_holds(self@, *r),
    {
        match self {
            CompareExpression::Partition(op, n) => num_check(*op, r.partition as i128, *n as i128),
            CompareExpression::Offset(op, n) => num_check(*op, r.offset as i128, *n as i128),
            CompareExpression::Size(op, n) => num_check(*op, r.size as i128, *n as i128),
            CompareExpression::Topic(op, s) => text_check(*op, r.topic.as_str(), s.as_str()),
            CompareExpression::Key(op, s) => data_check(&r.key, &None, *op, s.as_str()),
            CompareExpression::Value(p, op, s) => data_check(&r.value, p, *op, s.as_str()),
            CompareExpression::Header(h, op, s) => match header_index(&r.headers, h.as_str()) {
                Some(k) => text_check(*op, r.headers[k].1.as_str(), s.as_str()),
                None => false,
            },
            CompareExpression::Timestamp(op, t) => match r.timestamp {
                Some(ts) => num_check(*op, ts as i128, *t as i128),
                None => false,
            },
            CompareExpression::TimestampBetween(a, b) => match r.timestamp {
                Some(ts) => *a <= ts && ts <= *b,
                None => false,
            },
        }
    }
}

fn same_parameters(a: &Vec<Parameter>, b: &Vec<Parameter>) -> (r: bool)
    ensures
        r == (a@.map_values(|p: Parameter| p@) == b@.map_values(|p: Parameter| p@)),
{
    let ghost av = a@.map_values(|p: Parameter| p@);
    let ghost bv = b@.map_values(|p: Parameter| p@);
    if a.len() != b.len() {
        assert(av.len() != bv.len());
        return false;
    }
    let mut i: usize = 0;
    while i < a.len()
        invariant
            a@.len() == b@.len(),
            av == a@.map_values(|p: Parameter| p@),
            bv == b@.map_values(|p: Parameter| p@),
            0 <= i <= a@.len(),
            forall|k: int| 0 <= k < i ==> av[k] == bv[k],
        decreases a.len() - i,
    {
        let same = match (&a[i], &b[i]) {
            (Parameter::Number(x), Parameter::Number(y)) => *x == *y,
            (Parameter::String(x), Parameter::String(y)) => {
                let xv = chars_of(x.as_str());
                let yv = chars_of(y.as_str());
                same_chars(&xv, &yv)
            },
            _ => false,
        };
        if !same {
            assert(av[i as int] != bv[i as int]);
            return false;
        }
        i = i + 1;
    }
    assert(av == bv);
    true
}

fn same_filter(a: &Filter, b: &Filter) -> (r: bool)
    ensures
        r == (a@ == b@),
{
    let an = chars_of(a.name.as_str());
    let bn = chars_of(b.name.as_str());
    same_chars(&an, &bn) && same_parameters(&a.parameters, &b.parameters)
}

fn outcome_of(os: &Vec<(Filter, bool)>, f: &Filter) -> (r: bool)
    ensures
        r == filter_outcome(os@, f@, 0),
{
    let mut k: usize = 0;
    while k < os.len()
        invariant
            0 <= k <= os@.len(),
            filter_outcome(os@, f@, 0) == filter_outcome(os@, f@, k as int),
        decreases os.len() - k,
    {
        if same_filter(&os[k].0, f) {
            return os[k].1;
        }
        k = k + 1;
    }
    false
}

impl Atom {
    pub fn matches(&self, r: &KafkaRecord, os: &Vec<(Filter, bool)>) -> (b: bool)
        ensures
            b == atom_holds(self@, *r, os@),
        decreases self,
    {
        match self {
            Atom::Symbol(_) => true,
            Atom::Compare(c) => c.matches(r),
            Atom::Filter(f) => outcome_of(os, f),
            Atom::Parenthesis(e) => e.matches(r, os),
        }
    }
}

impl Term {
    pub fn matches(&self, r: &KafkaRecord, os: &Vec<(Filter, bool)>) -> (b: bool)
        ensures
            b == term_holds(self@, *r, os@),
        decreases self,
    {
        match self {
            Term::Not(a) => !a.matches(r, os),
            Term::Atom(a) => a.matches(r, os),
        }
    }
}

impl Expression {
    /// Whether the expression holds of the record; `and` and `or` short-circuit.
    pub fn matches(&self, r: &KafkaRecord, os: &Vec<(Filter, bool)>) -> (b: bool)
        ensures
            b == expr_holds(self@, *r, os@),
        decreases self,
    {
        match self {
            Expression::Term(t) => t.matches(r, os),
            Expression::And(x, y) => x.matches(r, os) && y.matches(r, os),
            Expression::Or(x, y) => x.matches(r, os) || y.matches(r, os),
        }
    }
}

impl SearchQuery {
    /// Whether the record matches every condition of the query, given what
    /// each filter plugin answered for this record.
    pub fn matches(&self, r: &KafkaRecord, os: &Vec<(Filter, bool)>) -> (b: bool)
        ensures
            b == query_holds(self@, *r, os@),
    {
        let ghost es = self@.expressions;
        let mut i: usize = 0;
        while i < self.expressions.len()
            invariant
                0 <= i <= self.expressions@.len(),
                es == self.expressions@.map_values(|e: Expression| e@),
                forall|k: int| 0 <= k < i ==> #[trigger] expr_holds(es[k], *r, os@),
            decreases self.expressions.len() - i,
        {
            if !self.expressions[i].matches(r, os) {
                assert(self@.expressions == es);
                assert(!expr_holds(self@.expressions[i as int], *r, os@));
                return false;
            }
            i = i + 1;
        }
        true
    }
}

/// A comparison on a numeric field or on the topic holds of a record exactly
/// when the field compares so with the literal.
pub proof fn lemma_compare_reads_fields(r: KafkaRecord, nop: NumberOperator, sop: StringOperator, n: i64, lit: Seq<char>)
    ensures
        compare_holds(CompareV::Offset(nop, n), r) == num_holds(nop, r.offset as int, n as int),
        compare_holds(CompareV::Partition(nop, n as i32), r) == num_holds(nop, r.partition as int, (n as i32) as int),
        compare_holds(CompareV::Size(nop, n as u64), r) == num_holds(nop, r.size as int, (n as u64) as int),
        compare_holds(CompareV::Topic(sop, lit), r) == text_holds(sop, r.topic@, lit),
        compare_holds(CompareV::Offset(NumberOperator::Equal, n), r) == (r.offset == n),
{
}

} // verus!
