use yozefu::ast::{
    SearchQuery,
    Atom, CompareExpression, Direction, Expression, Filter, FromOffset, NumberOperator, Order, OrderBy,
    Parameter, StringOperator, Symbol, Term,
};
use yozefu::filters::{FilterError, FilterRegistry, ValidSearchQuery};
use yozefu::lexer::parse_number;
use yozefu::parser::{parse_search_query, SearchError};
use yozefu::record::{DataType, JsonKind, JsonValue, KafkaRecord};

fn record(offset: i64, value: DataType) -> KafkaRecord {
    KafkaRecord {
        topic: "test-topic".to_string(),
        timestamp: None,
        partition: 0,
        offset,
        headers: vec![],
        key_schema: None,
        value_schema: None,
        size: 12,
        key_as_string: "key".to_string(),
        key: DataType::String("key".to_string()),
        value_as_string: "value".to_string(),
        value,
    }
}

fn json_object(key: &str, text: &str) -> JsonValue {
    JsonValue {
        text: format!("{{\"{}\":{}}}", key, text),
        kind: JsonKind::Object(vec![(
            key.to_string(),
            JsonValue { text: text.to_string(), kind: JsonKind::Scalar },
        )]),
    }
}

#[test]
fn test_filter_to_string() {
    assert_eq!(
        Filter {
            name: "my_filter".into(),
            parameters: vec![Parameter::Number(10), Parameter::String("value".into())],
        }
        .to_string(),
        "my_filter(10, 'value')"
    )
}

#[test]
fn test_fmt() {
    assert_eq!(Term::Atom(Atom::Symbol(Symbol::Timestamp)).to_string(), "Timestamp".to_string());
    assert_eq!(Term::Not(Atom::Symbol(Symbol::Partition)).to_string(), "!Partition".to_string())
}

#[test]
fn test_parse() {
    let q = parse_search_query(r#"!partition == 1"#).unwrap();
    assert_eq!(
        q.expressions,
        vec![Expression::Term(Term::Not(Atom::Compare(CompareExpression::Partition(
            NumberOperator::Equal,
            1
        ))))]
    );
    let q = parse_search_query(r#"topic == 'hello'"#).unwrap();
    assert_eq!(
        q.expressions,
        vec![Expression::Term(Term::Atom(Atom::Compare(CompareExpression::Topic(
            StringOperator::Equal,
            "hello".to_string()
        ))))]
    );
}

#[test]
fn test_parse_number() {
    assert!(parse_number("2343").is_some());
    assert!(parse_number("2_343").is_some());
    assert_eq!(parse_number("10"), Some(10));
    assert_eq!(parse_number("10_0"), Some(100));
}

#[test]
fn unknown_search_filter() {
    let registry = FilterRegistry::new();
    let input = "from begin my_filter()";
    assert!(ValidSearchQuery::from(input, "tests/filters", &registry).is_err())
}

#[test]
fn unknown_filter_error_names_the_filter_and_its_file() {
    let registry = FilterRegistry::new();
    match ValidSearchQuery::from("from begin my_filter()", "tests/filters", &registry) {
        Err(SearchError::Filter(FilterError::NotFound { name, path })) => {
            assert_eq!(name, "my_filter");
            assert_eq!(path, "tests/filters/my_filter.wasm");
        }
        other => panic!("unexpected {:?}", other.map(|_| ())),
    }
}

#[test]
fn loaded_filter_resolves() {
    let mut registry = FilterRegistry::new();
    registry.insert("my_filter");
    registry.insert("my_filter");
    assert!(registry.contains("my_filter"));
    let q = ValidSearchQuery::from("from begin my_filter(10, 'a')", "tests/filters", &registry).unwrap();
    assert_eq!(q.filters().len(), 1);
    let unloaded = parse_search_query("a() and b() or a()").unwrap();
    assert_eq!(registry.missing(&unloaded), vec!["a".to_string(), "b".to_string()]);
}

#[test]
fn test_search_query_must_match() {
    let registry = FilterRegistry::new();
    let query = ValidSearchQuery::from("from begin", "tests/filters", &registry).unwrap();
    let r = record(0, DataType::String("".into()));
    assert!(query.matches(&r, &vec![]));
    assert_eq!(query.offset(), Some(FromOffset::Beginning));
}

#[test]
fn test_matches() {
    let compare = CompareExpression::Offset(NumberOperator::Equal, 42);
    let r = record(42, DataType::String("value".to_string()));
    assert!(compare.matches(&r))
}

#[test]
fn offset_equality_scenario() {
    let q = parse_search_query("offset == 42").unwrap();
    assert!(q.matches(&record(42, DataType::String("v".into())), &vec![]));
    assert!(!q.matches(&record(41, DataType::String("v".into())), &vec![]));
}

#[test]
fn test_matches_with_fine_grained_filter_on_json_field() {
    let registry = FilterRegistry::new();
    let query = ValidSearchQuery::from(r#"from end - 10 value.myInteger == "42""#, ".", &registry).unwrap();
    let r = record(42, DataType::Json(json_object("myInteger", "42")));
    assert!(query.matches(&r, &vec![]));
    assert_eq!(query.offset(), Some(FromOffset::EndMinus(10)));
}

#[test]
fn json_field_with_another_value_does_not_match() {
    let q = parse_search_query(r#"value.myInteger == "42""#).unwrap();
    assert!(!q.matches(&record(1, DataType::Json(json_object("myInteger", "43"))), &vec![]));
    assert!(!q.matches(&record(1, DataType::String("{\"myInteger\":42}".into())), &vec![]));
    assert!(!q.matches(&record(1, DataType::Json(json_object("other", "42"))), &vec![]));
}

#[test]
fn headers_and_timestamps() {
    let mut r = record(5, DataType::String("hello world".into()));
    r.headers = vec![("trace".to_string(), "abc-123".to_string())];
    assert!(parse_search_query("header.trace starts with 'abc'").unwrap().matches(&r, &vec![]));
    assert!(!parse_search_query("header.missing == 'x'").unwrap().matches(&r, &vec![]));
    assert!(!parse_search_query("header.missing != 'x'").unwrap().matches(&r, &vec![]));
    assert!(parse_search_query("value contains 'lo wo' and key == 'key'").unwrap().matches(&r, &vec![]));
    assert!(!parse_search_query("timestamp != 5").unwrap().matches(&r, &vec![]));
    r.timestamp = Some(1_000);
    assert!(parse_search_query("timestamp between 1_000 and '2000'").unwrap().matches(&r, &vec![]));
    assert!(parse_search_query("timestamp >= '1970-01-01T00:00:01Z'").unwrap().matches(&r, &vec![]));
    assert!(!parse_search_query("timestamp > '1970-01-01T00:00:01+00:00'").unwrap().matches(&r, &vec![]));
}

#[test]
fn precedence_of_not_and_or() {
    let r = record(5, DataType::String("v".into()));
    assert!(parse_search_query("offset == 1 or offset == 5 and partition == 0").unwrap().matches(&r, &vec![]));
    assert!(!parse_search_query("(offset == 1 or offset == 5) and partition == 1").unwrap().matches(&r, &vec![]));
    assert!(parse_search_query("!offset == 1 and !(partition > 0)").unwrap().matches(&r, &vec![]));
}

#[test]
fn filter_calls_use_the_outcomes() {
    let q = parse_search_query("my_filter(1) and offset == 5").unwrap();
    let f = Filter { name: "my_filter".into(), parameters: vec![Parameter::Number(1)] };
    let r = record(5, DataType::String("v".into()));
    assert!(q.matches(&r, &vec![(f.clone(), true)]));
    assert!(!q.matches(&r, &vec![(f, false)]));
    assert!(!q.matches(&r, &vec![]));
}

#[test]
fn syntax_errors() {
    for input in ["", "   ", "offset contains 'x'", "topic > 'a'", "limit 0", "from", "(offset == 1", "offset == 'x'", "my_filter(", "partition == 99999999999", "'open"] {
        assert_eq!(parse_search_query(input), Err(SearchError::Syntax), "{}", input);
    }
}

#[test]
fn clauses_last_one_wins() {
    let q = parse_search_query("limit 5 from end limit 10 order by offset desc from begin").unwrap();
    assert_eq!(q.limit, Some(10));
    assert_eq!(q.from, Some(FromOffset::Beginning));
    assert_eq!(q.order_by, Some(OrderBy { order: Order::Offset, direction: Direction::Desc }));
}

#[test]
fn start_positions() {
    let start = |s: &str| parse_search_query(s).unwrap().offset();
    assert_eq!(start("offset >= 7"), Some(FromOffset::AbsoluteOffset(7)));
    assert_eq!(start("offset > 7"), Some(FromOffset::AbsoluteOffset(8)));
    assert_eq!(start("timestamp >= 5000"), Some(FromOffset::Timestamp(4000)));
    assert_eq!(start("timestamp > 5000"), Some(FromOffset::Timestamp(5000)));
    assert_eq!(start("timestamp < 5000"), None);
    assert_eq!(start("offset == 3 from end - 4"), Some(FromOffset::EndMinus(4)));
    assert_eq!(start("offset == 3 or offset == 9"), None);
    assert_eq!(start("topic == 'a'"), None);
    assert_eq!(start("from '1970-01-01T00:00:02Z'"), Some(FromOffset::Timestamp(2000)));
}

#[test]
fn parsing_is_deterministic() {
    let a = parse_search_query("offset > 3 and (key == 'k' or f(1, 'x')) limit 4").unwrap();
    let b = parse_search_query("offset > 3 and (key == 'k' or f(1, 'x')) limit 4").unwrap();
    assert_eq!(a, b);
}

#[test]
fn printed_queries_parse_back() {
    for input in [
        "offset > 3 and (key == 'k' or f(1, \"it's\")) limit 4",
        "!partition <= 2 or value.a.b starts with 'x' from end - 3 order by topic asc",
        "timestamp between '10' and '20' header.h != 'v' from 12",
        "size < 100 and topic contains 'a' from beginning",
    ] {
        let q = parse_search_query(input).unwrap();
        let text = q.to_string();
        assert_eq!(parse_search_query(&text).unwrap(), q, "{}", text);
    }
}

#[test]
fn parameters_as_json() {
    let f = Filter {
        name: "f".into(),
        parameters: vec![Parameter::Number(3), Parameter::String("a\"b".into())],
    };
    assert_eq!(f.parameters_json(), "[3,\"a\\\"b\"]");
    assert_eq!(Filter { name: "g".into(), parameters: vec![] }.parameters_json(), "[]");
}

#[test]
fn zero_limit_is_not_a_valid_query() {
    let registry = FilterRegistry::new();
    let q = SearchQuery { expressions: vec![], from: None, limit: Some(0), order_by: None };
    assert_eq!(ValidSearchQuery::new(q, "filters", &registry), Err(SearchError::Syntax));
    let q = SearchQuery { expressions: vec![], from: None, limit: Some(3), order_by: None };
    assert_eq!(ValidSearchQuery::new(q, "filters", &registry).unwrap().limit(), Some(3));
    assert_eq!(ValidSearchQuery::from("limit 0", "filters", &registry), Err(SearchError::Syntax));
}

#[test]
fn refused_parameters_name_the_filter() {
    let mut registry = FilterRegistry::new();
    registry.insert("a");
    registry.insert("b");
    let q = ValidSearchQuery::from("a(1) and b('x')", "filters", &registry).unwrap();
    match q.accept_parameters(&vec![None, Some("bad value".to_string())]) {
        Err(SearchError::Filter(FilterError::Rejected { name, reason })) => {
            assert_eq!(name, "b");
            assert_eq!(reason, "bad value");
        }
        other => panic!("unexpected {:?}", other.map(|_| ())),
    }
    let q = ValidSearchQuery::from("a(1) and b('x')", "filters", &registry).unwrap();
    assert!(q.accept_parameters(&vec![None, None]).is_ok());
    let q = ValidSearchQuery::from("a(1)", "filters", &registry).unwrap();
    assert!(q.accept_parameters(&vec![]).is_err());
}

#[test]
fn string_parameters_are_escaped_for_json() {
    let f = Filter {
        name: "f".into(),
        parameters: vec![Parameter::String("a\nb\u{1}\\".into()), Parameter::Number(0)],
    };
    assert_eq!(f.parameters_json(), "[\"a\\nb\\u0001\\\\\",0]");
}
