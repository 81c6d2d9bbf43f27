//! Where consumption starts: a pure function of the query.
//!
//! An explicit `from` clause always wins. Without one, the first condition of
//! the query that bounds the records from below gives the start: `offset == n`
//! and `offset >= n` start at `n`, `offset > n` at `n + 1`; `timestamp > t`
//! starts at `t`, and `timestamp >= t` or `timestamp == t` one second earlier,
//! so that records at the boundary are read. Upper bounds and negated terms
//! give no start, nor does an `or`, whose other side could match earlier
//! records. Inside an `and`, the left side is asked first.
use vstd::prelude::*;
use crate::ast::{
    Atom, AtomV, CompareExpression, CompareV, Expression, ExprV, FromOffset, NumberOperator,
    QueryV, SearchQuery, Term, TermV,
};

verus! {

/// One second before `t`, or the earliest time where there is none.
pub open spec fn preroll(t: i64) -> i64 {
    if t >= i64::MIN + 1000 {
        (t - 1000) as i64
    } else {
        i64::MIN
    }
}

pub open spec fn compare_start(c: CompareV) -> Option<FromOffset> {
    match c {
        CompareV::Offset(NumberOperator::Equal, n) => Some(FromOffset::AbsoluteOffset(n)),
        CompareV::Offset(NumberOperator::GreaterOrEqual, n) => Some(FromOffset::AbsoluteOffset(n)),
        CompareV::Offset(NumberOperator::GreaterThan, n) => if n < i64::MAX {
            Some(FromOffset::AbsoluteOffset((n + 1) as i64))
        } else {
            None
        },
        CompareV::Timestamp(NumberOperator::GreaterThan, t) => Some(FromOffset::Timestamp(t)),
        CompareV::Timestamp(NumberOperator::GreaterOrEqual, t) => Some(FromOffset::Timestamp(preroll(t))),
        CompareV::Timestamp(NumberOperator::Equal, t) => Some(FromOffset::Timestamp(preroll(t))),
        _ => None,
    }
}

pub open spec fn atom_start(a: AtomV) -> Option<FromOffset>
    decreases a,
{
    match a {
        AtomV::Compare(c) => compare_start(c),
        AtomV::Parenthesis(e) => expr_start(*e),
        _ => None,
    }
}

pub open spec fn term_start(t: TermV) -> Option<FromOffset>
    decreases t,
{
    match t {
        TermV::Not(_) => None,
        TermV::Atom(a) => atom_start(a),
    }
}

pub open spec fn expr_start(e: ExprV) -> Option<FromOffset>
    decreases e,
{
    match e {
        ExprV::Term(t) => term_start(t),
        ExprV::And(l, r) => match expr_start(*l) {
            Some(f) => Some(f),
            None => expr_start(*r),
        },
        ExprV::Or(_, _) => None,
    }
}

/// The start given by the first of the conditions from `k` on that gives one.
pub open spec fn exprs_start(es: Seq<ExprV>, k: int) -> Option<FromOffset>
    decreases es.len() - k,
{
    if k < 0 || k >= es.len() {
        None
    } else {
        match expr_start(es[k]) {
            Some(f) => Some(f),
            None => exprs_start(es, k + 1),
        }
    }
}

pub open spec fn query_start(q: QueryV) -> Option<FromOffset> {
    match q.from {
        Some(f) => Some(f),
        None => exprs_start(q.expressions, 0),
    }
}

impl CompareExpression {
    pub fn offset(&self) -> (r: Option<FromOffset>)
        ensures
            r == compare_start(self@),
    {
        match self {
            CompareExpression::Offset(NumberOperator::Equal, n) => Some(FromOffset::AbsoluteOffset(*n)),
            CompareExpression::Offset(NumberOperator::GreaterOrEqual, n) => Some(
                FromOffset::AbsoluteOffset(*n),
            ),
            CompareExpression::Offset(NumberOperator::GreaterThan, n) => if *n < i64::MAX {
                Some(FromOffset::AbsoluteOffset(*n + 1))
            } else {
                None
            },
            CompareExpression::Timestamp(NumberOperator::GreaterThan, t) => Some(FromOffset::Timestamp(*t)),
            CompareExpression::Timestamp(NumberOperator::GreaterOrEqual, t) => Some(
                FromOffset::Timestamp(preroll_exec(*t)),
            ),
            CompareExpression::Timestamp(NumberOperator::Equal, t) => Some(
                FromOffset::Timestamp(preroll_exec(*t)),
            ),
            _ => None,
        }
    }
}

fn preroll_exec(t: i64) -> (r: i64)
    ensures
        r == preroll(t),
{
    if t >= i64::MIN + 1000 {
        t - 1000
    } else {
        i64::MIN
    }
}

impl Atom {
    pub fn offset(&self) -> (r: Option<FromOffset>)
        ensures
            r == atom_start(self@),
        decreases self,
    {
        match self {
            Atom::Compare(c) => c.offset(),
            Atom::Parenthesis(e) => e.offset(),
            _ => None,
        }
    }
}

impl Term {
    pub fn offset(&self) -> (r: Option<FromOffset>)
        ensures
            r == term_start(self@),
        decreases self,
    {
        match self {
            Term::Not(_) => None,
            Term::Atom(a) => a.offset(),
        }
    }
}

impl Expression {
    pub fn offset(&self) -> (r: Option<FromOffset>)
        ensures
            r == expr_start(self@),
        decreases self,
    {
        match self {
            Expression::Term(t) => t.offset(),
            Expression::And(l, r) => match l.offset() {
                Some(f) => Some(f),
                None => r.offset(),
            },
            Expression::Or(_, _) => None,
        }
    }
}

impl SearchQuery {
    /// The position from which the search starts, or `None` where the query
    /// implies none and the record source applies its own default.
    pub fn offset(&self) -> (r: Option<FromOffset>)
        ensures
            r == query_start(self@),
    {
        if let Some(f) = self.from {
            return Some(f);
        }
        let ghost es = self@.expressions;
        let mut k: usize = 0;
        while k < self.expressions.len()
            invariant
                0 <= k <= self.expressions@.len(),
                es == self.expressions@.map_values(|e: Expression| e@),
                self.from is None,
                query_start(self@) == exprs_start(es, k as int),
            decreases self.expressions.len() - k,
        {
            match self.expressions[k].offset() {
                Some(f) => return Some(f),
                None => {},
            }
            k = k + 1;
        }
        None
    }
}

} // verus!
