use yozefu::ast::{Direction, Order, OrderBy};
use yozefu::buffer::{RecordsBuffer, BUFFER_SIZE};
use yozefu::config::{ConsumerConfig, GlobalArgs, Workspace};
use yozefu::filters::{FilterRegistry, ValidSearchQuery};
use yozefu::pipeline::{Pipeline, PipelineState, RecordAction, StartAction};
use yozefu::record::{DataType, KafkaRecord, Schema, SchemaId};
use yozefu::topics::{ConsumerGroupDetail, ConsumerGroupMember, ConsumerGroupState, TopicList};
use yozefu::ui::{ComponentName, FilterResult, ProgressBarComponent};

fn record(offset: i64, key: &str) -> KafkaRecord {
    KafkaRecord {
        topic: "topic".into(),
        timestamp: None,
        partition: 1,
        offset,
        headers: vec![],
        key_schema: None,
        value_schema: None,
        size: 32,
        key_as_string: key.into(),
        key: DataType::String(key.into()),
        value_as_string: "".into(),
        value: DataType::String("".into()),
    }
}

#[test]
fn test_has_schemas() {
    let mut r = record(32, "");
    r.key_schema = Some(Schema::new(SchemaId(12), None));
    r.value_schema = Some(Schema::new(SchemaId(13), None));
    assert!(r.has_schemas());
    let r = record(32, "");
    assert!(!r.has_schemas());
}

#[test]
fn test_lag() {
    let consumer_detail = ConsumerGroupDetail {
        name: "my-topic".to_string(),
        members: vec![
            ConsumerGroupMember { member: "member-1".to_string(), start_offset: 0, end_offset: 100, assignments: vec![] },
            ConsumerGroupMember { member: "member-2".to_string(), start_offset: 45, end_offset: 50, assignments: vec![] },
        ],
        state: ConsumerGroupState::Empty,
    };
    assert_eq!(consumer_detail.lag(), 105);
    assert!(consumer_detail.state());
}

#[test]
fn buffer_keeps_the_newest_records() {
    let mut buffer = RecordsBuffer::new();
    for i in 1..=501 {
        buffer.push(record(i, "k"));
    }
    assert_eq!(BUFFER_SIZE, 500);
    assert_eq!(buffer.len(), 500);
    assert_eq!(buffer.get(0).unwrap().offset, 2);
    assert_eq!(buffer.get(499).unwrap().offset, 501);
    assert!(buffer.get(500).is_none());
    assert_eq!(buffer.stats().matched, 501);
    assert_eq!(buffer.stats().buffer_size, 500);
}

#[test]
fn buffer_counts_and_resets() {
    let mut buffer = RecordsBuffer::new();
    buffer.new_record_read();
    buffer.new_record_read();
    assert_eq!(buffer.push(record(1, "a")), 1);
    buffer.set_total_to_read(9);
    let s = buffer.stats();
    assert_eq!((s.matched, s.read, s.total_to_read, s.buffer_size), (1, 2, 9, 1));
    buffer.reset();
    let s = buffer.stats();
    assert_eq!((s.matched, s.read, s.total_to_read, s.buffer_size), (0, 0, 0, 0));
}

fn offsets(buffer: &RecordsBuffer) -> Vec<i64> {
    (0..buffer.len()).map(|i| buffer.get(i).unwrap().offset).collect()
}

#[test]
fn sort_is_stable_and_waits_for_new_reads() {
    let mut buffer = RecordsBuffer::new();
    for (o, k) in [(3, "b"), (1, "a"), (2, "b"), (4, "a")] {
        buffer.push(record(o, k));
    }
    let by_key = OrderBy { order: Order::Key, direction: Direction::Asc };
    buffer.sort(&by_key);
    assert_eq!(offsets(&buffer), vec![3, 1, 2, 4]);
    buffer.new_record_read();
    buffer.sort(&by_key);
    assert_eq!(offsets(&buffer), vec![1, 4, 3, 2]);
    let by_offset = OrderBy { order: Order::Offset, direction: Direction::Desc };
    buffer.sort(&by_offset);
    assert_eq!(offsets(&buffer), vec![1, 4, 3, 2]);
    buffer.new_record_read();
    buffer.sort(&by_offset);
    assert_eq!(offsets(&buffer), vec![4, 3, 2, 1]);
    buffer.new_record_read();
    buffer.sort(&by_offset);
    assert_eq!(offsets(&buffer), vec![4, 3, 2, 1]);
}

#[test]
fn pipeline_stops_at_the_limit() {
    let registry = FilterRegistry::new();
    let query = ValidSearchQuery::from("limit 10", "filters", &registry).unwrap();
    let mut buffer = RecordsBuffer::new();
    let mut pipeline = Pipeline::new();
    assert_eq!(pipeline.start(&query, &mut buffer, 1), StartAction::Consume(None));
    assert_eq!(pipeline.state(), PipelineState::Resolving);
    pipeline.assigned();
    assert_eq!(pipeline.state(), PipelineState::Streaming);
    let mut last = None;
    for i in 0..20 {
        let action = pipeline.on_record(&query, &mut buffer, record(i, "k"), &vec![]);
        if action == RecordAction::BufferedLast {
            last = Some(i);
        }
        if i >= 10 {
            assert_eq!(action, RecordAction::Discard);
        }
    }
    assert_eq!(last, Some(9));
    assert_eq!(pipeline.state(), PipelineState::Cancelled);
    assert_eq!(pipeline.matched(), 10);
    assert_eq!(buffer.len(), 10);
    assert_eq!(buffer.stats().read, 10);
    assert_eq!(buffer.stats().matched, 10);
}

#[test]
fn pipeline_skips_and_completes() {
    let registry = FilterRegistry::new();
    let query = ValidSearchQuery::from("offset > 1", "filters", &registry).unwrap();
    let mut buffer = RecordsBuffer::new();
    let mut pipeline = Pipeline::new();
    assert_eq!(pipeline.on_record(&query, &mut buffer, record(5, "k"), &vec![]), RecordAction::Discard);
    assert_eq!(
        pipeline.start(&query, &mut buffer, 2),
        StartAction::Consume(Some(yozefu::ast::FromOffset::AbsoluteOffset(2)))
    );
    pipeline.assigned();
    assert_eq!(pipeline.on_record(&query, &mut buffer, record(1, "k"), &vec![]), RecordAction::Skipped);
    assert_eq!(pipeline.on_record(&query, &mut buffer, record(2, "k"), &vec![]), RecordAction::Buffered);
    pipeline.on_exhausted();
    assert_eq!(pipeline.state(), PipelineState::Completed);
    assert!(!pipeline.is_running());
    assert_eq!(buffer.stats().read, 2);
    assert_eq!(buffer.stats().matched, 1);
}

#[test]
fn test_new_topic_list() {
    let topics = vec!["ketchup".to_string(), "mayo".to_string()];
    let selected = vec!["ketchup".to_string()];
    let topic_list = TopicList::new(topics.clone(), selected.clone());
    assert_eq!(topic_list.selected(), vec!["ketchup".to_string()]);
    assert_eq!(
        topic_list.get_with_selection(),
        vec![(&"ketchup".to_string(), true), (&"mayo".to_string(), false)]
    );
}

#[test]
fn test_refresh_topics() {
    let topics = vec!["1".to_string()];
    let selected = vec!["1".to_string()];
    let mut topic_list = TopicList::new(topics.clone(), selected.clone());
    topic_list.refresh_topics(vec!["1".to_string(), "3".to_string()]);
    assert_eq!(
        topic_list.get_with_selection(),
        vec![(&"1".to_string(), true), (&"3".to_string(), false)]
    );
}

#[test]
fn topic_list_filter_toggle_and_clear() {
    let mut list = TopicList::new(vec!["b".into(), "a".into(), "ab".into()], vec![]);
    list.refresh_topics(vec!["b".into(), "a".into(), "ab".into(), "ab".into()]);
    assert_eq!(list.all(), vec!["a".to_string(), "ab".to_string(), "b".to_string()]);
    list.set_filter("a");
    assert_eq!(list.get(), vec![&"a".to_string(), &"ab".to_string()]);
    assert!(!list.any_selected());
    list.clear_selected();
    assert_eq!(list.all(), vec!["a".to_string(), "ab".to_string(), "b".to_string()]);
}

#[test]
fn test_config_dir_both_set() {
    let args = GlobalArgs {
        config_dir: Some("/tmp/config_dir".into()),
        config_file: Some("/tmp/config_dir/config.json".into()),
        log_file: None,
    };
    let ws = args.workspace("/home/user/.config/yozefu");
    assert_eq!(ws.path, "/tmp/config_dir");
    assert_eq!(ws.config_file(), "/tmp/config_dir/config.json");
}

#[test]
fn test_config_dir_only_dir() {
    let args = GlobalArgs { config_dir: Some("/tmp/config_dir".into()), config_file: None, log_file: None };
    let ws = args.workspace("/home/user/.config/yozefu");
    assert_eq!(ws.path, "/tmp/config_dir");
    assert_eq!(ws.config_file(), Workspace::new("/tmp/config_dir", "/tmp/config_dir/config.json").config_file());
    assert_eq!(args.log_file_in(&ws, &None), "/tmp/config_dir/application.log");
}

#[test]
fn test_config_dir_only_file() {
    let default_ws = Workspace::new("/home/user/.config/yozefu", "/home/user/.config/yozefu/config.json");
    let args = GlobalArgs { config_dir: None, config_file: Some("/tmp/config_dir/config.json".into()), log_file: None };
    let ws = args.workspace(&default_ws.path);
    assert_eq!(ws.path, default_ws.path);
    assert_eq!(ws.config_file(), "/tmp/config_dir/config.json");
}

#[test]
fn test_default() {
    let default_ws = Workspace::new("/home/user/.config/yozefu", "/home/user/.config/yozefu/config.json");
    let args = GlobalArgs { config_dir: None, config_file: None, log_file: None };
    let ws = args.workspace(&default_ws.path);
    assert_eq!(ws.path, default_ws.path);
    assert_eq!(ws.config_file(), default_ws.config_file());
}

#[test]
fn test_config_file_method() {
    let args = GlobalArgs {
        config_dir: Some("/tmp/config_dir".into()),
        config_file: Some("/tmp/config_dir/config.json".into()),
        log_file: None,
    };
    assert_eq!(args.workspace("/home/user/.config/yozefu").config_file(), "/tmp/config_dir/config.json");
}

#[test]
fn workspace_files() {
    let ws = Workspace::new("/tmp/ws/", "/tmp/ws/config.json");
    assert_eq!(ws.logs_file(), "/tmp/ws/application.log");
    assert_eq!(ws.themes_file(), "/tmp/ws/themes.json");
    assert_eq!(ws.filters_dir(), "/tmp/ws/filters");
    let c = ConsumerConfig::default();
    assert_eq!((c.buffer_capacity, c.timeout_in_ms), (1000, 10));
}

#[test]
fn small_ui_state() {
    assert_eq!(ComponentName::RecordDetails.label(), "Record");
    assert_eq!(ComponentName::TopicDetails.label(), "Topic");
    assert_eq!(ComponentName::Records.label(), "Records");
    assert!(FilterResult::new(true).is_match);
    let mut bar = ProgressBarComponent::new(0);
    assert_eq!(bar.filled_width(50), 0);
    bar.set_length(100);
    bar.set_progress(30);
    assert_eq!(bar.filled_width(50), 15);
}

#[test]
fn pipeline_without_topics_stops_at_once() {
    let registry = FilterRegistry::new();
    let query = ValidSearchQuery::from("from begin", "filters", &registry).unwrap();
    let mut buffer = RecordsBuffer::new();
    buffer.push(record(1, "k"));
    let mut pipeline = Pipeline::new();
    assert_eq!(pipeline.start(&query, &mut buffer, 0), StartAction::Stop);
    assert_eq!(pipeline.state(), PipelineState::Cancelled);
    assert_eq!(buffer.len(), 0);
    pipeline.assigned();
    assert_eq!(pipeline.on_record(&query, &mut buffer, record(2, "k"), &vec![]), RecordAction::Discard);
    assert_eq!(buffer.stats().read, 0);
}

#[test]
fn toggle_topics_selects_and_unselects() {
    let mut list = TopicList::new(vec!["b".into(), "a".into(), "c".into()], vec![]);
    list.toggle_topics("b");
    assert_eq!(list.selected(), vec!["b".to_string()]);
    assert_eq!(list.all(), vec!["a".to_string(), "c".to_string()]);
    list.toggle_topics("b");
    assert!(!list.any_selected());
    assert_eq!(list.all(), vec!["a".to_string(), "b".to_string(), "c".to_string()]);
}

#[test]
fn headers_must_have_distinct_names() {
    let mut r = record(1, "k");
    r.headers = vec![("a".into(), "1".into()), ("b".into(), "2".into())];
    assert!(r.headers_unique());
    r.headers.push(("a".into(), "3".into()));
    assert!(!r.headers_unique());
}
