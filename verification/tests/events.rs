use std::sync::Arc;
use vector::config::global::AcknowledgementsConfig;
use vector::config::io::{DataType, SourceOutput, TransformOutput};
use vector::config::source::{Duration, SourceContext};
use vector::configurable::{Configurable, ConfigurableRef, Metadata, SchemaGenerator};
use vector::component_map::ComponentMap;
use vector::event::array::{events_into_arrays, EventArray};
use vector::event::log_event::{LogEvent, TraceEvent};
use vector::event::metadata::{BatchNotifier, EventStatus};
use vector::event::metric::{Float64, Metric, MetricKind, MetricValue, StatisticKind};
use vector::event::proto::ProtoStatisticKind;
use vector::event::time::{Time, FIRST_SECOND, LAST_SECOND};
use vector::event::value::Value;
use vector::event::{Event, LogNamespace};
use vector::id::{ComponentKey, OutputId};
use vector::schema::Definition;
use vector::sinks::blackhole::{BlackholeConfig, BlackholeSink};
use vector::sinks::console::{settle, Attempt, Sent};
use vector::source_sender::output::{get_timestamp_millis, Unsent, UnsentEventCount};
use vector::source_sender::sender::{SourceSender, SourceSenderItem};
use vector::source_sender::{SendError, CHUNK_SIZE};
use vector::sources::BuildError;
use vector::transform::outputs::{OutputBuffer, TransformOutputsBuf};
use vector::transform::sending::{TransformOutputs, DEFAULT_OUTPUT};
use vector::transform::{Transform, WrapEventTask};

fn log(message: &str) -> Event {
    let fields = vec![("message".to_string(), Value::text(message))];
    Event::from(LogEvent::from_value(Value::Object(fields)))
}

fn counter(value: f64) -> Event {
    let value = Float64::from_bits(value.to_bits());
    Event::from(Metric::new("c", MetricKind::Incremental, MetricValue::Counter { value }))
}

fn trace() -> Event {
    Event::from(TraceEvent::from_log(LogEvent::default()))
}

#[test]
fn events_are_told_apart() {
    assert!(log("a").maybe_as_log().is_some());
    assert!(counter(1.0).maybe_as_log().is_none());
    assert!(log("a").try_into_log().is_some());
    assert!(log("a").try_into_metric().is_none());
    assert!(counter(1.0).try_into_metric().is_some());
    assert!(trace().try_into_trace().is_some());
    assert!(log("a").event_data_eq(&log("a")));
    assert!(!log("a").event_data_eq(&log("b")));
    assert!(!log("a").event_data_eq(&trace()));
    assert!(!counter(f64::NAN).event_data_eq(&counter(f64::NAN)) || counter(1.0).event_data_eq(&counter(1.0)));
    assert_eq!(log("a").event_count(), 1);
}

#[test]
fn events_come_from_objects() {
    let list = || Value::Array(Vec::new());
    assert!(Event::from_json_value(list(), LogNamespace::Vector).is_ok());
    assert_eq!(
        Event::from_json_value(list(), LogNamespace::Legacy).unwrap_err(),
        "Attempted to convert non-Object JSON into an Event."
    );
}

#[test]
fn metadata_travels_with_events() {
    let event = log("a")
        .with_source_id(Arc::new(ComponentKey::new("in")))
        .with_source_type("file")
        .with_upstream_id(Arc::new(OutputId::new(&ComponentKey::new("up"), &None)));
    assert_eq!(event.source_id().unwrap().id(), "in");
    let copy = event.clone();
    assert_eq!(copy.source_id().unwrap().id(), "in");
    assert!(copy.event_data_eq(&log("a")));
}

#[test]
fn batches_are_told_what_became_of_events() {
    let batch = BatchNotifier { batch: 7 };
    let event = log("a").with_batch_notifier(&batch).with_batch_notifier_option(&None);
    let mut event = event.with_batch_notifier_option(&Some(BatchNotifier { batch: 8 }));
    let reports = event.take_finalizers().update_status(EventStatus::Errored);
    assert_eq!(reports.len(), 2);
    assert_eq!(reports[0].notifier, batch);
    assert_eq!(reports[1].notifier, BatchNotifier { batch: 8 });
    assert_eq!(reports[0].status, EventStatus::Errored);
    assert!(event.take_finalizers().update_status(EventStatus::Delivered).is_empty());
}

#[test]
fn order_of_fields_does_not_matter() {
    let field = |name: &str, number: i64| (name.to_string(), Value::Integer(number));
    let object = |fields: Vec<(String, Value)>| Value::Object(fields);
    let ab = object(vec![field("a", 1), field("b", 2)]);
    assert!(ab.same(&object(vec![field("b", 2), field("a", 1)])));
    assert!(ab.same(&object(vec![field("a", 7), field("b", 2), field("a", 1)])));
    assert!(!ab.same(&object(vec![field("a", 1)])));
    assert!(!ab.same(&object(vec![field("a", 1), field("b", 2), field("c", 3)])));
    assert!(!ab.same(&object(vec![field("a", 1), field("b", 3)])));
    assert!(ab.duplicate().same(&ab));
    let twice = object(vec![field("a", 1), field("a", 2)]);
    assert!(twice.get("a").unwrap().same(&Value::Integer(2)));
    assert!(twice.get("b").is_none());
    assert!(Value::Null.get("a").is_none());
    let set = |values: &[&str]| {
        let mut list = Vec::new();
        for value in values {
            list.push(value.to_string());
        }
        let value = MetricValue::UniqueValues { values: list };
        Event::from(Metric::new("s", MetricKind::Incremental, value))
    };
    assert!(set(&["x", "y"]).event_data_eq(&set(&["y", "x", "y"])));
    assert!(!set(&["x", "y"]).event_data_eq(&set(&["x"])));
    assert!(!set(&["x"]).event_data_eq(&set(&["x", "y"])));
}

#[test]
fn data_keeps_bytes_and_fine_times() {
    let bytes = |list: &[u8]| Value::Bytes(list.to_vec());
    assert!(bytes(&[0xff, 0]).duplicate().same(&bytes(&[0xff, 0])));
    assert!(!bytes(&[0xff, 0]).same(&bytes(&[0xff])));
    assert!(Value::text("é").same(&bytes(&[0xc3, 0xa9])));
    let time = |nanos: u32| Value::Timestamp(Time::new(1, nanos).unwrap());
    assert!(time(1).same(&time(1)));
    assert!(!time(1).same(&time(2)));
}

#[test]
fn whole_events_are_compared() {
    let marked = |name: &str| log("a").with_source_id(Arc::new(ComponentKey::new(name)));
    assert!(log("a").same(&log("a")));
    assert!(!log("a").same(&log("b")));
    assert!(marked("x").same(&marked("x")));
    assert!(!marked("x").same(&marked("y")));
    assert!(!marked("x").same(&log("a")));
    assert!(marked("x").event_data_eq(&log("a")));
    let told = log("a").with_batch_notifier(&BatchNotifier { batch: 7 });
    assert!(!told.same(&log("a")));
    assert!(!log("a").with_source_type("file").same(&log("a")));
}

#[test]
fn times_have_bounds() {
    assert_eq!(Time::new(0, 0).unwrap().timestamp_millis(), 0);
    assert_eq!(Time::new(-1, 999_999_999).unwrap().timestamp_millis(), -1);
    assert_eq!(Time::new(-2, 1_000_000).unwrap().timestamp_millis(), -1999);
    assert_eq!(Time::new(59, 1_500_000_000).unwrap().subsec_nanos(), 1_500_000_000);
    assert_eq!(Time::new(-1, 1_500_000_000).unwrap().secs(), -1);
    let seconds = [
        0,
        58,
        59,
        -1,
        -61,
        FIRST_SECOND,
        FIRST_SECOND - 1,
        LAST_SECOND,
        LAST_SECOND + 1,
        i64::MIN,
        i64::MAX,
    ];
    for secs in seconds {
        for nanos in [0, 999_999_999, 1_000_000_000, 1_999_999_999, 2_000_000_000, u32::MAX] {
            let expected = chrono::DateTime::from_timestamp(secs, nanos);
            assert_eq!(Time::new(secs, nanos).is_some(), expected.is_some(), "{} {}", secs, nanos);
            if let Some(time) = Time::new(secs, nanos) {
                assert_eq!(time.timestamp_millis(), expected.unwrap().timestamp_millis());
            }
        }
    }
}

#[test]
fn events_are_put_into_arrays_of_one_type() {
    let mut events = Vec::new();
    for event in [log("a"), log("b"), counter(1.0), log("c"), trace()] {
        events.push(event);
    }
    let arrays = events_into_arrays(events, Some(1));
    assert_eq!(arrays.len(), 5);
    let arrays = events_into_arrays(vec![log("a"), log("b"), counter(1.0), log("c")], None);
    let mut lengths = Vec::new();
    for array in &arrays {
        lengths.push(array.len());
    }
    assert_eq!(lengths, [2, 1, 1]);
}

#[test]
fn output_buffers_give_back_what_was_pushed() {
    let mut buffer = OutputBuffer::with_capacity(4);
    assert!(buffer.capacity() >= 4);
    assert!(buffer.is_empty());
    assert!(buffer.first().is_none());
    let mut more = vec![log("a"), counter(1.0)];
    buffer.append(&mut more);
    assert!(more.is_empty());
    buffer.extend(vec![log("b")]);
    assert_eq!(buffer.len(), 3);
    assert!(buffer.event_data_eq(&vec![log("a"), counter(1.0), log("b")]));
    assert!(!buffer.event_data_eq(&vec![log("a"), counter(1.0)]));
    assert!(buffer.first().unwrap().event_data_eq(&log("a")));
    assert_eq!(buffer.iter_events().len(), 3);
    let room = buffer.capacity();
    let events = buffer.drain();
    assert_eq!(events.len(), 3);
    assert!(buffer.is_empty());
    assert_eq!(buffer.capacity(), room);
    assert_eq!(OutputBuffer::from_events(events).into_events().len(), 3);
}

#[test]
fn arrival_does_not_change_batches() {
    let events = || vec![log("a"), log("b"), counter(1.0), log("c"), counter(2.0), counter(3.0)];
    let lengths = |buffer: &OutputBuffer| {
        let mut lengths = Vec::new();
        for array in &buffer.0 {
            lengths.push(array.len());
        }
        lengths
    };
    let start = || OutputBuffer::from_events(vec![log("first")]);
    let mut pushed = start();
    for event in events() {
        pushed.push(event);
    }
    let mut extended = start();
    extended.extend(events());
    let mut appended = start();
    appended.append(&mut events());
    assert_eq!(lengths(&pushed), [3, 1, 1, 2]);
    assert_eq!(lengths(&extended), lengths(&pushed));
    assert_eq!(lengths(&appended), lengths(&pushed));
    assert!(extended.event_data_eq(&pushed.into_events()));
}

#[test]
fn named_outputs_are_apart() {
    let outputs = vec![
        TransformOutput::new(DataType::all_bits(), Vec::new()),
        TransformOutput::new(DataType::all_bits(), Vec::new()).with_port("x"),
    ];
    let mut buffer = TransformOutputsBuf::new_with_capacity(outputs, 1);
    buffer.push(None, log("a"));
    buffer.push(Some("x"), log("b"));
    assert!(buffer.has_primary());
    assert_eq!(buffer.named_count(), 1);
    assert!(buffer.drain()[0].event_data_eq(&log("a")));
    let all = buffer.take_all_named();
    assert_eq!(all.len(), 1);
    assert_eq!(all[0].0, "x");
    assert_eq!(all[0].1.len(), 1);
    assert!(buffer.drain_named("x").is_empty());
}

#[test]
fn shipments_mark_where_events_come_from() {
    let outputs = || {
        vec![
            TransformOutput::new(DataType::all_bits(), Vec::new()),
            TransformOutput::new(DataType::all_bits(), Vec::new()).with_port("x"),
        ]
    };
    let (transform, _) = TransformOutputs::new(outputs(), &ComponentKey::new("t"));
    let mut buffer = transform.new_buf_with_capacity(1);
    buffer.push(None, log("a"));
    buffer.push(Some("x"), log("b"));
    buffer.push(Some("x"), log("c"));
    let mut counts = Vec::new();
    while let Some(shipment) = transform.send(&mut buffer, counts.len()) {
        for array in shipment.arrays {
            for event in array.into_events() {
                let upstream = event.metadata().upstream_id.clone().unwrap();
                let expected = if shipment.events_sent == "x" { "t.x" } else { "t" };
                assert_eq!(upstream.to_text(), expected);
            }
        }
        counts.push(shipment.count);
    }
    assert_eq!(counts, [1, 2]);
    assert!(buffer.drain().is_empty());
    assert!(buffer.drain_named("x").is_empty());
    assert_eq!(DEFAULT_OUTPUT, "output");
}

#[test]
fn tasks_are_taken_out_of_transforms() {
    let transform: Transform<(), (), WrapEventTask<u8>> = Transform::event_task(7);
    assert_eq!(transform.into_task().0, 7);
    let mut array = EventArray::from_event(log("a"));
    array.push(log("b"));
    let events = WrapEventTask::<u8>::unpack(array);
    assert_eq!(events.len(), 2);
    let mut sizes = Vec::new();
    for event in events {
        sizes.push(WrapEventTask::<u8>::pack(event).len());
    }
    assert_eq!(sizes, [1, 1]);
}

#[test]
fn senders_cut_batches() {
    let mut events = Vec::new();
    for i in 0..(CHUNK_SIZE + 1) {
        events.push(log(&format!("{}", i)));
    }
    let (sender, channel) = SourceSender::new_test();
    assert_eq!(channel.max_events, 100);
    assert_eq!(channel.output, "output");
    let pending = sender.send_batch(events);
    assert_eq!(pending.arrays.len(), 2);
    assert_eq!(pending.arrays[0].len(), CHUNK_SIZE);
    assert_eq!(pending.arrays[1].len(), 1);
    assert_eq!(pending.unsent.count, CHUNK_SIZE + 1);
    assert_eq!(pending.timeout, None);
    let single = sender.send_event(EventArray::from_event(log("one")));
    assert_eq!(single.arrays.len(), 1);
    for event in single.arrays.into_iter().next().unwrap().into_events() {
        let id = event.metadata().upstream_id.clone().unwrap();
        assert_eq!(id.to_text(), "test");
    }
}

#[test]
fn senders_have_named_outputs() {
    let (mut sender, _) = SourceSender::new_test_sender_with_options(5, Some(Duration::from_secs(2)));
    let receiver = sender.add_outputs(EventStatus::Rejected, "extra");
    assert_eq!(receiver.channel.output, "extra");
    assert_eq!(receiver.channel.max_events, 100);
    assert_eq!(receiver.status, EventStatus::Rejected);
    let pending = sender.send_batch_named("extra", vec![log("a"), counter(1.0)]);
    assert_eq!(pending.arrays.len(), 2);
    assert_eq!(sender.send_batch(Vec::new()).timeout, Some(Duration::from_secs(2)));
}

#[test]
fn builders_make_senders() {
    let mut builder = SourceSender::builder().with_buffer(7).with_timeout(None);
    let output = |port: Option<&str>| SourceOutput {
        port: port.map(|name| name.to_string()),
        data_type: DataType::all_bits(),
        schema_definition: None,
    };
    let channel = builder.add_source_output(output(None), ComponentKey::new("in"));
    assert_eq!((channel.max_events, channel.output.as_str()), (7, "output"));
    let channel = builder.add_source_output(output(Some("x")), ComponentKey::new("in"));
    assert_eq!(channel.output, "x");
    let sender = builder.build();
    assert_eq!(sender.default_output.as_ref().unwrap().id.to_text(), "in");
    assert_eq!(sender.named_outputs.get("x").unwrap().id.to_text(), "in.x");
}

#[test]
fn unsent_events_are_counted() {
    let mut unsent = UnsentEventCount::new(10);
    assert!(unsent.settle_batch(4, Ok(())).is_none());
    assert_eq!(unsent.count, 6);
    assert_eq!(unsent.finish(), Some(Unsent::Dropped(6)));
    unsent.decr(100);
    assert_eq!(unsent.count, 0);
    assert_eq!(unsent.finish(), None);
    let mut unsent = UnsentEventCount::new(3);
    assert_eq!(unsent.settle_event(Err(SendError::Timeout)), Some(Unsent::TimedOut(3)));
    assert_eq!(unsent.finish(), None);
    let mut unsent = UnsentEventCount::new(3);
    unsent.discard();
    assert_eq!(unsent.finish(), None);
}

#[test]
fn received_items_are_finalized() {
    let item = SourceSenderItem {
        events: EventArray::from_event(log("a")),
        send_reference: Duration::from_secs(1),
    };
    assert_eq!(item.event_count(), 1);
    let item = item.add_batch_notifier(BatchNotifier { batch: 3 });
    let (item, reports) = item.finalize(EventStatus::Delivered);
    assert_eq!(reports.len(), 1);
    assert_eq!(reports[0].status, EventStatus::Delivered);
    assert_eq!(reports[0].notifier, BatchNotifier { batch: 3 });
    assert_eq!(item.into_events().len(), 1);
}

#[test]
fn test_receivers_report() {
    let item = || SourceSenderItem {
        events: EventArray::from_event(log("a").with_batch_notifier(&BatchNotifier { batch: 3 })),
        send_reference: Duration::from_secs(1),
    };
    let (_, receiver) = SourceSender::new_test_finalize(EventStatus::Errored);
    let (events, reports) = receiver.receive(item());
    assert!(events[0].event_data_eq(&log("a")));
    assert_eq!(reports[0].status, EventStatus::Errored);

    let (_, mut receiver) = SourceSender::new_test_errors();
    let mut statuses = Vec::new();
    for _ in 0..3 {
        statuses.push(receiver.receive_or_fail(item(), |number| number == 1).1[0].status);
    }
    assert_eq!(statuses, [EventStatus::Delivered, EventStatus::Errored, EventStatus::Delivered]);
}

#[test]
fn timestamps_give_milliseconds() {
    let time = Time::new(5, 6_999_999).unwrap();
    assert_eq!(get_timestamp_millis(&Value::Timestamp(time)), Some(5006));
    assert_eq!(get_timestamp_millis(&Value::Integer(5)), None);
}

#[test]
fn statistics_are_converted() {
    assert_eq!(StatisticKind::from(ProtoStatisticKind::Histogram), StatisticKind::Histogram);
    assert_eq!(StatisticKind::from(ProtoStatisticKind::Summary), StatisticKind::Summary);
}

#[test]
fn sources_wait_where_it_is_wanted() {
    let context = SourceContext::new_shutdown(&ComponentKey::new("in"));
    assert!(!context.do_acknowledgements(AcknowledgementsConfig::unset()));
    assert!(context.do_acknowledgements(AcknowledgementsConfig::from_bool(true)));
    assert_eq!(context.log_namespace(Some(true)), LogNamespace::Vector);
    assert_eq!(context.log_namespace(None), LogNamespace::Legacy);
}

#[test]
fn blackholes_count() {
    let config = |secs: u64, rate| BlackholeConfig {
        print_interval_secs: Duration::from_secs(secs),
        rate,
        acknowledgements: AcknowledgementsConfig::unset(),
    };
    let mut sink = BlackholeSink::new(config(0, None));
    assert!(!sink.prints());
    assert_eq!(sink.wait_until(5, 3), None);
    let mut array = EventArray::from_event(log("a").with_batch_notifier(&BatchNotifier { batch: 1 }));
    array.push(log("b"));
    let swallowed = sink.swallow(array, 100, None);
    assert_eq!((swallowed.events, swallowed.bytes), (2, 100));
    assert_eq!(swallowed.reports.len(), 1);
    assert_eq!(swallowed.reports[0].status, EventStatus::Delivered);
    assert_eq!((sink.total_events, sink.total_raw_bytes, sink.last), (2, 100, None));
    sink.total_raw_bytes = usize::MAX;
    sink.swallow(EventArray::from_event(log("a")), 2, None);
    assert_eq!(sink.total_raw_bytes, 1);

    let mut limited = BlackholeSink::new(config(1, Some(10)));
    assert!(limited.prints());
    assert_eq!(limited.wait_until(5, 3), Some(8));
    limited.swallow(EventArray::from_event(log("a")), 1, Some(8));
    assert_eq!(limited.wait_until(100, 3), Some(11));
}

#[test]
fn consoles_report_deliveries() {
    let event = || log("foo").with_batch_notifier(&BatchNotifier { batch: 1 });
    let settled = settle(event(), 40, Attempt::Written(10));
    assert!(settled.goes_on);
    assert_eq!(settled.reports[0].status, EventStatus::Delivered);
    assert_eq!(settled.sent, Some(Sent { events: 1, event_bytes: 40, bytes: 10 }));
    for attempt in [Attempt::NotEncoded, Attempt::NotWritten] {
        let settled = settle(event(), 40, attempt);
        assert!(!settled.goes_on);
        assert_eq!(settled.reports[0].status, EventStatus::Errored);
        assert_eq!(settled.sent, None);
    }
}

#[test]
fn build_errors_have_messages() {
    let error = BuildError::UriParseError { source: "empty string".to_string() };
    assert_eq!(error.to_text(), "URI parse error: empty string");
    let error = BuildError::VrlCompilationError { message: "no".to_string() };
    assert_eq!(error.to_text(), "VRL compilation error: no");
}

struct Plain;

impl Configurable for Plain {
    fn generate_schema(
        _generator: &mut SchemaGenerator,
    ) -> Result<vector::configurable::SchemaObject, vector::configurable::GenerateError> {
        Ok(vector::configurable::SchemaObject { json: "{}".to_string() })
    }
}

#[test]
fn configurable_types_describe_themselves() {
    let plain = ConfigurableRef::new::<Plain>();
    assert_eq!(plain.referenceable_name(), None);
    assert!(!plain.is_optional);
    assert!(Plain::validate_metadata(&Metadata::default()).is_ok());
    let text = ConfigurableRef::new::<String>();
    assert_eq!(text.referenceable_name(), Some("stdlib::String"));
    let mut generator = SchemaGenerator { definitions: ComponentMap::new() };
    assert_eq!(bool::generate_schema(&mut generator).unwrap().json, "{\"type\":\"boolean\"}");
    assert!(Plain::generate_schema(&mut generator).is_ok());
}

#[test]
fn definitions_are_shared() {
    let definition = Arc::new(Definition::any());
    let mut event = log("a");
    event.metadata_mut().set_schema_definition(&definition);
    assert!(Arc::ptr_eq(&event.metadata().schema_definition, &definition));
}
