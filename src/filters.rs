//! The filter plugin gateway: which plugins a query calls, the registry of the
//! plugins loaded so far, and the validation that turns a parsed query into a
//! query whose every filter call resolves.
//!
//! Loading a module and running it are done by the caller, which owns the
//! plugin runtime; the registry records which names have been loaded, each
//! exactly once.
use vstd::prelude::*;
use crate::ast::{
    Atom, AtomV, Expression, ExprV, Filter, FilterV, FromOffset, Parameter, ParameterV, QueryV,
    SearchQuery, Term, TermV,
};
use crate::parser::{parse_search_query, spec_parse, SearchError};
use crate::record::KafkaRecord;
use crate::text::{chars_of, decimal, join_path, joined, push_decimal, push_str, same_chars};
use crate::eval::query_holds;
use crate::offset::query_start;

verus! {

/// A lowercase hexadecimal digit.
pub open spec fn hex_digit(d: nat) -> char {
    if d < 10 {
        crate::text::digit_char(d)
    } else {
        ((d - 10 + 'a' as nat) as u32) as char
    }
}

/// How `serde_json` writes one character inside a string: `"` and `\` and
/// the control characters below U+0020 are escaped, short forms first.
pub open spec fn json_escape_char(c: char) -> Seq<char> {
    let n = c as u32;
    if c == '"' {
        seq!['\\', '"']
    } else if c == '\\' {
        seq!['\\', '\\']
    } else if n == 8 {
        seq!['\\', 'b']
    } else if n == 9 {
        seq!['\\', 't']
    } else if n == 10 {
        seq!['\\', 'n']
    } else if n == 12 {
        seq!['\\', 'f']
    } else if n == 13 {
        seq!['\\', 'r']
    } else if n < 32 {
        seq!['\\', 'u', '0', '0', hex_digit((n / 16) as nat), hex_digit((n % 16) as nat)]
    } else {
        seq![c]
    }
}

pub open spec fn json_escaped(s: Seq<char>) -> Seq<char>
    decreases s.len(),
{
    if s.len() == 0 {
        Seq::empty()
    } else {
        json_escaped(s.drop_last()) + json_escape_char(s.last())
    }
}

/// The JSON string literal for a text, as `serde_json` writes it.
pub open spec fn json_string_of(s: Seq<char>) -> Seq<char> {
    seq!['"'] + json_escaped(s) + seq!['"']
}

/// Relies on `serde_json::to_string` on a `&str` (`format_escaped_str` and its
/// `ESCAPE` table): the text between double quotes, escaped as
/// `json_escape_char` says. Serializing a string does not fail.
#[verifier::external_body]
fn json_string(s: &str) -> (r: String)
    ensures
        r@ == json_string_of(s@),
{
    serde_json::to_string(s).unwrap_or_default()
}

pub open spec fn atom_filters(a: AtomV) -> Seq<FilterV>
    decreases a,
{
    match a {
        AtomV::Filter(f) => seq![f],
        AtomV::Parenthesis(e) => expr_filters(*e),
        _ => Seq::empty(),
    }
}

pub open spec fn term_filters(t: TermV) -> Seq<FilterV>
    decreases t,
{
    match t {
        TermV::Not(a) => atom_filters(a),
        TermV::Atom(a) => atom_filters(a),
    }
}

/// The filter calls of an expression, in the order of the text.
pub open spec fn expr_filters(e: ExprV) -> Seq<FilterV>
    decreases e,
{
    match e {
        ExprV::Term(t) => term_filters(t),
        ExprV::And(l, r) => expr_filters(*l) + expr_filters(*r),
        ExprV::Or(l, r) => expr_filters(*l) + expr_filters(*r),
    }
}

pub open spec fn exprs_filters(es: Seq<ExprV>) -> Seq<FilterV>
    decreases es.len(),
{
    if es.len() == 0 {
        Seq::empty()
    } else {
        exprs_filters(es.drop_last()) + expr_filters(es.last())
    }
}

pub open spec fn query_filters(q: QueryV) -> Seq<FilterV> {
    exprs_filters(q.expressions)
}

pub open spec fn filters_view(v: Seq<Filter>) -> Seq<FilterV> {
    v.map_values(|f: Filter| f@)
}

fn copy_filter(f: &Filter) -> (r: Filter)
    ensures
        r@ == f@,
{
    let mut ps: Vec<Parameter> = Vec::new();
    let mut i: usize = 0;
    while i < f.parameters.len()
        invariant
            0 <= i <= f.parameters@.len(),
            ps@.len() == i,
            forall|k: int| 0 <= k < i ==> #[trigger] ps@[k]@ == f.parameters@[k]@,
        decreases f.parameters.len() - i,
    {
        let p = match &f.parameters[i] {
            Parameter::Number(n) => Parameter::Number(*n),
            Parameter::String(s) => Parameter::String(s.clone()),
        };
        assert(p@ == f.parameters@[i as int]@);
        ps.push(p);
        i = i + 1;
    }
    assert(ps@.map_values(|p: Parameter| p@) =~= f.parameters@.map_values(|p: Parameter| p@));
    Filter { name: f.name.clone(), parameters: ps }
}

fn push_filters_of_atom(a: &Atom, out: &mut Vec<Filter>)
    ensures
        filters_view(final(out)@) == filters_view(old(out)@) + atom_filters(a@),
    decreases a,
{
    match a {
        Atom::Filter(f) => {
            let c = copy_filter(f);
            out.push(c);
            assert(filters_view(out@) =~= filters_view(old(out)@) + atom_filters(a@));
        },
        Atom::Parenthesis(e) => push_filters_of_expr(e, out),
        _ => {
            assert(filters_view(out@) =~= filters_view(old(out)@) + atom_filters(a@));
        },
    }
}

fn push_filters_of_expr(e: &Expression, out: &mut Vec<Filter>)
    ensures
        filters_view(final(out)@) == filters_view(old(out)@) + expr_filters(e@),
    decreases e,
{
    match e {
        Expression::Term(t) => {
            assert(e@ == ExprV::Term(t@));
            assert(expr_filters(e@) == term_filters(t@));
            match t {
                Term::Not(a) => {
                    assert(t@ == TermV::Not(a@));
                    assert(term_filters(t@) == atom_filters(a@));
                    push_filters_of_atom(a, out);
                },
                Term::Atom(a) => {
                    assert(t@ == TermV::Atom(a@));
                    assert(term_filters(t@) == atom_filters(a@));
                    push_filters_of_atom(a, out);
                },
            }
        },
        Expression::And(l, r) => {
            push_filters_of_expr(l, out);
            push_filters_of_expr(r, out);
            assert(filters_view(out@) =~= filters_view(old(out)@) + expr_filters(e@));
        },
        Expression::Or(l, r) => {
            push_filters_of_expr(l, out);
            push_filters_of_expr(r, out);
            assert(filters_view(out@) =~= filters_view(old(out)@) + expr_filters(e@));
        },
    }
}

impl SearchQuery {
    /// The filter calls of the query, in the order of the text.
    pub fn filters(&self) -> (r: Vec<Filter>)
        ensures
            filters_view(r@) == query_filters(self@),
    {
        let ghost es = self@.expressions;
        let mut out: Vec<Filter> = Vec::new();
        let mut i: usize = 0;
        assert(filters_view(out@) =~= exprs_filters(es.subrange(0, 0)));
        while i < self.expressions.len()
            invariant
                0 <= i <= self.expressions@.len(),
                es == self.expressions@.map_values(|e: Expression| e@),
                filters_view(out@) == exprs_filters(es.subrange(0, i as int)),
            decreases self.expressions.len() - i,
        {
            push_filters_of_expr(&self.expressions[i], &mut out);
            i = i + 1;
            assert(es.subrange(0, i as int).drop_last() == es.subrange(0, i - 1));
        }
        assert(es.subrange(0, es.len() as int) == es);
        out
    }
}

pub open spec fn json_parameter(p: ParameterV) -> Seq<char> {
    match p {
        ParameterV::Number(n) => decimal(n as nat),
        ParameterV::Text(s) => json_string_of(s),
    }
}

/// The JSON elements for the parameters, separated by commas.
pub open spec fn json_parameters(ps: Seq<ParameterV>) -> Seq<char>
    decreases ps.len(),
{
    if ps.len() == 0 {
        Seq::empty()
    } else if ps.len() == 1 {
        json_parameter(ps[0])
    } else {
        json_parameters(ps.drop_last()) + ","@ + json_parameter(ps.last())
    }
}

impl Filter {
    /// The parameters as a JSON array, as the plugin's parameter check reads them.
    pub fn parameters_json(&self) -> (r: String)
        ensures
            r@ == "["@ + json_parameters(self@.parameters) + "]"@,
    {
        let ghost ps = self@.parameters;
        let mut r = String::new();
        push_str(&mut r, "[");
        let ghost base = r@;
        let mut i: usize = 0;
        while i < self.parameters.len()
            invariant
                0 <= i <= self.parameters@.len(),
                ps == self.parameters@.map_values(|p: Parameter| p@),
                r@ == base + json_parameters(ps.subrange(0, i as int)),
                base == "["@,
            decreases self.parameters.len() - i,
        {
            let ghost before = ps.subrange(0, i as int);
            if i > 0 {
                push_str(&mut r, ",");
            }
            match &self.parameters[i] {
                Parameter::Number(n) => push_decimal(&mut r, *n),
                Parameter::String(s) => {
                    let j = json_string(s.as_str());
                    push_str(&mut r, j.as_str());
                },
            }
            i = i + 1;
            proof {
                let now = ps.subrange(0, i as int);
                assert(now.drop_last() == before);
                assert(now.last() == self.parameters@[i - 1]@);
            }
        }
        assert(ps.subrange(0, ps.len() as int) == ps);
        push_str(&mut r, "]");
        r
    }
}

/// Why a query's filters could not be used.
#[derive(Debug, Clone, PartialEq, Eq)]
pub enum FilterError {
    /// No module of that name could be loaded from `path`.
    NotFound { name: String, path: String },
    /// The module refused the parameters of the call.
    Rejected { name: String, reason: String },
}

/// The file that holds the module of the filter `name`.
pub open spec fn wasm_file_path(dir: Seq<char>, name: Seq<char>) -> Seq<char> {
    joined(dir, name + ".wasm"@)
}

impl FilterError {
    /// The error for a filter whose module is not in `filters_dir`.
    pub fn not_found(name: &str, filters_dir: &str) -> (r: FilterError)
        ensures
            r matches FilterError::NotFound { name: n, path: p } && n@ == name@ && p@ == wasm_file_path(
                filters_dir@,
                name@,
            ),
    {
        let mut file = String::new();
        push_str(&mut file, name);
        push_str(&mut file, ".wasm");
        let mut n = String::new();
        push_str(&mut n, name);
        FilterError::NotFound { name: n, path: join_path(filters_dir, file.as_str()) }
    }

    /// The name of the filter that the error is about.
    pub fn name(&self) -> (r: &String)
        ensures
            r == match self {
                FilterError::NotFound { name, .. } => name,
                FilterError::Rejected { name, .. } => name,
            },
    {
        match self {
            FilterError::NotFound { name, .. } => name,
            FilterError::Rejected { name, .. } => name,
        }
    }
}

/// The filter modules loaded so far, by name; a name is loaded at most once.
pub struct FilterRegistry {
    names: Vec<String>,
}

impl FilterRegistry {
    pub closed spec fn has(&self, n: Seq<char>) -> bool {
        exists|i: int| 0 <= i < self.names@.len() && #[trigger] self.names@[i]@ == n
    }

    /// No name is recorded twice.
    pub closed spec fn wf(&self) -> bool {
        forall|i: int, j: int|
            0 <= i < j < self.names@.len() ==> #[trigger] self.names@[i]@ != #[trigger] self.names@[j]@
    }

    pub fn new() -> (r: FilterRegistry)
        ensures
            r.wf(),
            forall|n: Seq<char>| !r.has(n),
    {
        FilterRegistry { names: Vec::new() }
    }

    /// Whether the module of that name has been loaded.
    pub fn contains(&self, name: &str) -> (r: bool)
        ensures
            r == self.has(name@),
    {
        let nv = chars_of(name);
        let mut i: usize = 0;
        while i < self.names.len()
            invariant
                0 <= i <= self.names@.len(),
                nv@ == name@,
                forall|k: int| 0 <= k < i ==> #[trigger] self.names@[k]@ != name@,
            decreases self.names.len() - i,
        {
            let c = chars_of(self.names[i].as_str());
            if same_chars(&c, &nv) {
                return true;
            }
            i = i + 1;
        }
        false
    }

    /// Records that the module of that name has been loaded; a name already
    /// recorded stays recorded once.
    pub fn insert(&mut self, name: &str)
        requires
            old(self).wf(),
        ensures
            final(self).wf(),
            forall|n: Seq<char>| #[trigger] final(self).has(n) == (old(self).has(n) || n == name@),
    {
        if self.contains(name) {
            return;
        }
        let mut n = String::new();
        push_str(&mut n, name);
        let ghost before = self.names@;
        self.names.push(n);
        assert forall|m: Seq<char>| #[trigger] self.has(m) == (old(self).has(m) || m == name@) by {
            if old(self).has(m) {
                let i = choose|i: int| 0 <= i < before.len() && #[trigger] before[i]@ == m;
                assert(self.names@[i] == before[i]);
            }
            if m == name@ {
                assert(self.names@[before.len() as int]@ == m);
            }
            if self.has(m) {
                let i = choose|i: int| 0 <= i < self.names@.len() && #[trigger] self.names@[i]@ == m;
                if i < before.len() {
                    assert(self.names@[i] == before[i]);
                }
            }
        }
    }

    /// The names, without repetition, of the filters that the query calls and
    /// that have not been loaded.
    pub fn missing(&self, q: &SearchQuery) -> (r: Vec<String>)
        ensures
            forall|n: Seq<char>|
                #[trigger] lists(r@, n) <==> calls_unloaded(query_filters(q@), query_filters(q@).len() as int, *self, n),
            forall|i: int, j: int| 0 <= i < j < r@.len() ==> #[trigger] r@[i]@ != #[trigger] r@[j]@,
    {
        let fs = q.filters();
        let ghost fv = filters_view(fs@);
        let mut r: Vec<String> = Vec::new();
        let mut k: usize = 0;
        while k < fs.len()
            invariant
                0 <= k <= fs@.len(),
                fv == filters_view(fs@),
                fv == query_filters(q@),
                forall|n: Seq<char>| #[trigger] lists(r@, n) <==> calls_unloaded(fv, k as int, *self, n),
                forall|i: int, j: int| 0 <= i < j < r@.len() ==> #[trigger] r@[i]@ != #[trigger] r@[j]@,
            decreases fs.len() - k,
        {
            let name = &fs[k].name;
            assert(fv[k as int].name == name@);
            let loaded = self.contains(name.as_str());
            let mut seen = false;
            let mut i: usize = 0;
            let nv = chars_of(name.as_str());
            while i < r.len() && !seen
                invariant
                    0 <= i <= r@.len(),
                    nv@ == name@,
                    seen ==> i < r@.len() && r@[i as int]@ == name@,
                    !seen ==> forall|x: int| 0 <= x < i ==> #[trigger] r@[x]@ != name@,
                decreases r.len() - i + (if seen { 0int } else { 1int }),
            {
                let c = chars_of(r[i].as_str());
                if same_chars(&c, &nv) {
                    seen = true;
                } else {
                    i = i + 1;
                }
            }
            let ghost before = r@;
            if !loaded && !seen {
                r.push(name.clone());
            }
            proof {
                assert forall|n: Seq<char>| #[trigger] lists(r@, n) <==> calls_unloaded(fv, k + 1, *self, n) by {
                    if lists(r@, n) {
                        let x = choose|x: int| 0 <= x < r@.len() && #[trigger] r@[x]@ == n;
                        if x < before.len() {
                            assert(before[x]@ == n);
                            assert(lists(before, n));
                        } else {
                            assert(fv[k as int].name == n);
                        }
                    }
                    if calls_unloaded(fv, k + 1, *self, n) {
                        let m = choose|m: int| 0 <= m < k + 1 && #[trigger] fv[m].name == n && !self.has(n);
                        if m < k {
                            assert(calls_unloaded(fv, k as int, *self, n));
                            assert(lists(before, n));
                            let x = choose|x: int| 0 <= x < before.len() && #[trigger] before[x]@ == n;
                            assert(r@[x] == before[x]);
                        } else if seen {
                            assert(r@[i as int]@ == n);
                        } else {
                            assert(r@[before.len() as int]@ == n);
                        }
                    }
                }
            }
            k = k + 1;
        }
        assert(fv.len() == fs@.len());
        r
    }
}

/// Some string of `v` is `n`.
pub open spec fn lists(v: Seq<String>, n: Seq<char>) -> bool {
    exists|i: int| 0 <= i < v.len() && #[trigger] v[i]@ == n
}

/// One of the first `upto` calls is to the filter `n`, whose module is not loaded.
pub open spec fn calls_unloaded(fs: Seq<FilterV>, upto: int, reg: FilterRegistry, n: Seq<char>) -> bool {
    exists|m: int| 0 <= m < upto && #[trigger] fs[m].name == n && !reg.has(n)
}

/// Every filter that the query calls has been loaded.
pub open spec fn resolved(q: QueryV, reg: FilterRegistry) -> bool {
    forall|k: int| 0 <= k < query_filters(q).len() ==> reg.has(#[trigger] query_filters(q)[k].name)
}

/// The index of the first filter call from `k` on whose module is not loaded.
pub open spec fn first_unresolved(fs: Seq<FilterV>, reg: FilterRegistry, k: int) -> Option<int>
    decreases fs.len() - k,
{
    if k < 0 || k >= fs.len() {
        None
    } else if !reg.has(fs[k].name) {
        Some(k)
    } else {
        first_unresolved(fs, reg, k + 1)
    }
}

pub proof fn lemma_first_unresolved(fs: Seq<FilterV>, reg: FilterRegistry, k: int)
    requires
        0 <= k <= fs.len(),
    ensures
        first_unresolved(fs, reg, k) is None <==> (forall|m: int| k <= m < fs.len() ==> reg.has(#[trigger] fs[m].name)),
        first_unresolved(fs, reg, k) matches Some(m) ==> k <= m < fs.len() && !reg.has(fs[m].name),
    decreases fs.len() - k,
{
    if k < fs.len() {
        lemma_first_unresolved(fs, reg, k + 1);
    }
}

/// The error names the first filter call, in the order of the text, whose
/// module is not loaded, with the file where that module was expected.
pub open spec fn names_first_unresolved(e: SearchError, q: QueryV, reg: FilterRegistry, dir: Seq<char>) -> bool {
    match first_unresolved(query_filters(q), reg, 0) {
        Some(k) => e is Filter && e->Filter_0 is NotFound && e->Filter_0->NotFound_name@ == query_filters(q)[k].name
            && e->Filter_0->NotFound_path@ == wasm_file_path(dir, query_filters(q)[k].name),
        None => false,
    }
}

/// What checking a parsed query against the loaded filters gives: a query
/// with a zero limit is refused, then one that calls a filter not loaded.
pub open spec fn validated(q: QueryV, reg: FilterRegistry, dir: Seq<char>, r: Result<ValidSearchQuery, SearchError>) -> bool {
    match r {
        Ok(v) => q.limit != Some(0usize) && resolved(q, reg) && v.inner() == q,
        Err(e) => if q.limit == Some(0usize) {
            e == SearchError::Syntax
        } else {
            !resolved(q, reg) && names_first_unresolved(e, q, reg, dir)
        },
    }
}

/// The index of the first filter call from `k` on whose parameter check did
/// not pass: its verdict is a refusal, or it has none.
pub open spec fn first_rejected(n: int, verdicts: Seq<Option<String>>, k: int) -> Option<int>
    decreases n - k,
{
    if k < 0 || k >= n {
        None
    } else if k >= verdicts.len() || verdicts[k] is Some {
        Some(k)
    } else {
        first_rejected(n, verdicts, k + 1)
    }
}

/// A query whose every filter call resolves to a loaded module, and whose
/// limit, if any, is positive.
#[derive(Debug, PartialEq, Eq)]
pub struct ValidSearchQuery(SearchQuery);

impl ValidSearchQuery {
    pub closed spec fn inner(&self) -> QueryV {
        self.0@
    }

    #[verifier::type_invariant]
    pub closed spec fn positive_limit(self) -> bool {
        self.0.limit != Some(0usize)
    }

    /// Checks the limit and that every filter of the query has been loaded.
    /// A zero limit is a syntax error; otherwise the error names the first
    /// filter, in the order of the text, that has not been loaded.
    pub fn new(q: SearchQuery, filters_dir: &str, reg: &FilterRegistry) -> (r: Result<ValidSearchQuery, SearchError>)
        ensures
            validated(q@, *reg, filters_dir@, r),
    {
        if let Some(n) = q.limit {
            if n == 0 {
                return Err(SearchError::Syntax);
            }
        }
        assert(q@.limit != Some(0usize));
        let fs = q.filters();
        let ghost fv = filters_view(fs@);
        proof {
            lemma_first_unresolved(fv, *reg, 0);
        }
        let mut k: usize = 0;
        while k < fs.len()
            invariant
                q@.limit != Some(0usize),
                0 <= k <= fs@.len(),
                fv == filters_view(fs@),
                fv == query_filters(q@),
                first_unresolved(fv, *reg, 0) == first_unresolved(fv, *reg, k as int),
            decreases fs.len() - k,
        {
            if !reg.contains(fs[k].name.as_str()) {
                assert(fv[k as int].name == fs@[k as int].name@);
                proof {
                    lemma_first_unresolved(fv, *reg, 0);
                }
                assert(first_unresolved(fv, *reg, k as int) == Some(k as int));
                let e = FilterError::not_found(fs[k].name.as_str(), filters_dir);
                let err = SearchError::Filter(e);
                assert(!reg.has(query_filters(q@)[k as int].name));
                assert(!resolved(q@, *reg));
                assert(q@.limit != Some(0usize));
                assert(names_first_unresolved(err, q@, *reg, filters_dir@));
                return Err(err);
            }
            k = k + 1;
        }
        proof {
            lemma_first_unresolved(fv, *reg, k as int);
            lemma_first_unresolved(fv, *reg, 0);
        }
        Ok(ValidSearchQuery(q))
    }

    /// Parses the text and checks the query as `new` does.
    pub fn from(input: &str, filters_dir: &str, reg: &FilterRegistry) -> (r: Result<ValidSearchQuery, SearchError>)
        ensures
            spec_parse(input@) is None ==> r == Err::<ValidSearchQuery, SearchError>(SearchError::Syntax),
            spec_parse(input@) matches Some(q) ==> validated(q, *reg, filters_dir@, r),
    {
        match parse_search_query(input) {
            Ok(q) => ValidSearchQuery::new(q, filters_dir, reg),
            Err(e) => Err(e),
        }
    }

    /// Takes what each filter module answered when handed the parameters of
    /// its call (`verdicts[i]` for the call of index `i`, in the order of
    /// `filters`): `None` accepts them, `Some(reason)` refuses them. The query
    /// stays valid when every call was accepted; otherwise the error names the
    /// first call refused or left without a verdict, with the module's reason.
    pub fn accept_parameters(self, verdicts: &Vec<Option<String>>) -> (r: Result<ValidSearchQuery, SearchError>)
        ensures
            match first_rejected(query_filters(self.inner()).len() as int, verdicts@, 0) {
                None => r matches Ok(v) && v.inner() == self.inner(),
                Some(k) => r matches Err(e) && e is Filter && e->Filter_0 is Rejected
                    && e->Filter_0->Rejected_name@ == query_filters(self.inner())[k].name
                    && e->Filter_0->Rejected_reason@ == (if k < verdicts@.len() {
                    verdicts@[k]->Some_0@
                } else {
                    Seq::<char>::empty()
                }),
            },
    {
        let fs = self.0.filters();
        let ghost fv = filters_view(fs@);
        let ghost n = fv.len() as int;
        let mut k: usize = 0;
        while k < fs.len()
            invariant
                0 <= k <= fs@.len(),
                fv == filters_view(fs@),
                fv == query_filters(self.inner()),
                n == fv.len(),
                first_rejected(n, verdicts@, 0) == first_rejected(n, verdicts@, k as int),
            decreases fs.len() - k,
        {
            assert(fv[k as int].name == fs@[k as int].name@);
            if k >= verdicts.len() {
                let name = fs[k].name.clone();
                return Err(SearchError::Filter(FilterError::Rejected { name, reason: String::new() }));
            }
            match &verdicts[k] {
                Some(reason) => {
                    let name = fs[k].name.clone();
                    return Err(SearchError::Filter(FilterError::Rejected { name, reason: reason.clone() }));
                },
                None => {},
            }
            k = k + 1;
        }
        Ok(self)
    }

    /// A query without any clause.
    pub fn is_empty(&self) -> (r: bool)
        ensures
            r == (self.inner().expressions.len() == 0 && self.inner().from is None && self.inner().limit is None
                && self.inner().order_by is None),
    {
        self.0.expressions.len() == 0 && self.0.from.is_none() && self.0.limit.is_none()
            && self.0.order_by.is_none()
    }

    /// The limit, which is positive where there is one.
    pub fn limit(&self) -> (r: Option<usize>)
        ensures
            r == self.inner().limit,
            r matches Some(n) ==> n > 0,
    {
        proof {
            use_type_invariant(self);
        }
        self.0.limit
    }

    pub fn query(&self) -> (r: &SearchQuery)
        ensures
            r@ == self.inner(),
    {
        &self.0
    }

    /// The position from which the search starts.
    pub fn offset(&self) -> (r: Option<FromOffset>)
        ensures
            r == query_start(self.inner()),
    {
        self.0.offset()
    }

    pub fn matches(&self, r: &KafkaRecord, os: &Vec<(Filter, bool)>) -> (b: bool)
        ensures
            b == query_holds(self.inner(), *r, os@),
    {
        self.0.matches(r, os)
    }

    pub fn filters(&self) -> (r: Vec<Filter>)
        ensures
            filters_view(r@) == query_filters(self.inner()),
    {
        self.0.filters()
    }
}

} // verus!
