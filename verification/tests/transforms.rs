use vector::component_map::ComponentMap;
use vector::config::io::{DataType, TransformOutput};
use vector::event::log_event::{LogEvent, TraceEvent};
use vector::event::metric::{Float64, Metric, MetricKind, MetricValue};
use vector::event::time::Time;
use vector::event::value::Value;
use vector::event::{Event, LogNamespace};
use vector::transform::outputs::{OutputBuffer, TransformOutputsBuf};
use vector::transform::{FunctionTransform, SyncTransform, Transform};
use vector::transforms::conditions::{
    check_program, is_met, AnyCondition, Condition, ConditionConfig, VrlConfig,
};
use vector::transforms::filter::{Filter, FilterConfig};
use vector::transforms::route::{Route, RouteConfig, DEFAULT_ROUTE, UNMATCHED_ROUTE};
use vector::transforms::syntax::ends;

fn text(value: &str) -> Value {
    Value::text(value)
}

fn log(fields: &[(&str, &str)]) -> Event {
    let mut list = Vec::new();
    for (name, value) in fields {
        list.push((name.to_string(), text(value)));
    }
    Event::from_json_value(Value::Object(list), LogNamespace::Legacy).unwrap()
}

fn counter(name: &str) -> Metric {
    let value = Float64::from_bits(1.0f64.to_bits());
    Metric::new(name, MetricKind::Absolute, MetricValue::Counter { value })
}

fn vrl(source: &str) -> AnyCondition {
    AnyCondition::from(ConditionConfig::Vrl(VrlConfig { source: source.to_string() }))
}

fn three_routes(reroute_unmatched: bool) -> RouteConfig {
    let mut route = ComponentMap::new();
    route.insert("first", vrl(".message == \"hello world\""));
    route.insert("second", vrl(".second == \"second\""));
    route.insert("third", vrl(".third == \"third\""));
    RouteConfig { reroute_unmatched, route }
}

fn buffers(names: &[&str]) -> TransformOutputsBuf {
    let mut outputs = Vec::new();
    for name in names {
        outputs.push(TransformOutput::new(DataType::all_bits(), Vec::new()).with_port(name));
    }
    TransformOutputsBuf::new_with_capacity(outputs, 1)
}

#[test]
fn buffers_output() {
    let mut buf = OutputBuffer::default();
    assert_eq!(buf.len(), 0);
    assert_eq!(buf.0.len(), 0);

    buf.push(LogEvent::default().into());
    assert_eq!(buf.len(), 1);
    assert_eq!(buf.0.len(), 1);

    buf.push(LogEvent::default().into());
    assert_eq!(buf.len(), 2);
    assert_eq!(buf.0.len(), 1);

    buf.push(counter("name").into());
    assert_eq!(buf.len(), 3);
    assert_eq!(buf.0.len(), 2);

    buf.push(LogEvent::default().into());
    assert_eq!(buf.len(), 4);
    assert_eq!(buf.0.len(), 3);
}

#[test]
fn filter_generate_config() {
    let config = FilterConfig::generate_config();
    assert!(matches!(&config.condition, AnyCondition::Program(source) if source == ".message == \"value\""));
    assert_eq!(config.to_json(), "{\"condition\":\".message == \\\"value\\\"\"}");
    assert!(config.build().is_ok());
}

#[test]
fn route_generate_config() {
    let config = RouteConfig::generate_config();
    assert!(config.reroute_unmatched);
    assert_eq!(config.route.key_at(0), "foo-exists");
    assert_eq!(config.route.key_at(1), "foo-does-not-exist");
    assert!(config.build().is_ok());
    assert!(config.validate().is_ok());
}

#[test]
fn can_serialize_remap() {
    let mut route = ComponentMap::new();
    route.insert("first", vrl(".message == \"hello world\""));
    let config = RouteConfig { reroute_unmatched: true, route };
    assert_eq!(
        config.to_json(),
        r#"{"reroute_unmatched":true,"route":{"first":{"type":"vrl","source":".message == \"hello world\""}}}"#
    );
}

#[test]
fn route_pass_all_route_conditions() {
    let output_names = ["first", "second", "third", UNMATCHED_ROUTE];
    let event = log(&[("message", "hello world"), ("second", "second"), ("third", "third")]);
    let mut transform = Route::new(&three_routes(true)).unwrap();
    let mut outputs = buffers(&output_names);

    transform.transform(event.clone(), &mut outputs);
    for output_name in output_names {
        let mut events = outputs.drain_named(output_name);
        if output_name == UNMATCHED_ROUTE {
            assert!(events.is_empty());
        } else {
            assert_eq!(events.len(), 1);
            assert!(events.pop().unwrap().same(&event));
        }
    }
}

#[test]
fn route_pass_one_route_condition() {
    let output_names = ["first", "second", "third", UNMATCHED_ROUTE];
    let event = log(&[("message", "hello world")]);
    let mut transform = Route::new(&three_routes(true)).unwrap();
    let mut outputs = buffers(&output_names);

    transform.transform(event.clone(), &mut outputs);
    for output_name in output_names {
        let mut events = outputs.drain_named(output_name);
        if output_name == "first" {
            assert_eq!(events.len(), 1);
            assert!(events.pop().unwrap().same(&event));
        }
        assert_eq!(events.len(), 0);
    }
}

#[test]
fn route_pass_no_route_condition() {
    let output_names = ["first", "second", "third", UNMATCHED_ROUTE];
    let event = log(&[("message", "NOPE")]);
    let mut transform = Route::new(&three_routes(true)).unwrap();
    let mut outputs = buffers(&output_names);

    transform.transform(event.clone(), &mut outputs);
    for output_name in output_names {
        let mut events = outputs.drain_named(output_name);
        if output_name == UNMATCHED_ROUTE {
            assert_eq!(events.len(), 1);
            assert!(events.pop().unwrap().same(&event));
        }
        assert_eq!(events.len(), 0);
    }
}

#[test]
fn route_no_unmatched_output() {
    let output_names = ["first", "second", "third", UNMATCHED_ROUTE];
    let event = log(&[("message", "NOPE")]);
    let mut transform = Route::new(&three_routes(false)).unwrap();
    let mut outputs = buffers(&output_names);

    transform.transform(event.clone(), &mut outputs);
    for output_name in output_names {
        let events = outputs.drain_named(output_name);
        assert_eq!(events.len(), 0);
    }
}

#[test]
fn route_outputs_follow_the_routes() {
    let ports = |config: &RouteConfig| {
        let mut ports = Vec::new();
        for output in config.outputs(&Vec::new()) {
            ports.push(output.port.unwrap());
        }
        ports
    };
    assert_eq!(ports(&three_routes(true)), ["first", "second", "third", "_unmatched"]);
    assert_eq!(ports(&three_routes(false)), ["first", "second", "third"]);
    assert!(three_routes(true).enable_concurrency());
    assert_eq!(three_routes(true).input().data_type, DataType::all_bits());
}

#[test]
fn route_writes_to_the_outputs_it_declares() {
    let config = three_routes(true);
    let mut route = Route::new(&config).unwrap();
    let mut outputs = TransformOutputsBuf::new_with_capacity(config.outputs(&Vec::new()), 1);
    route.transform(log(&[("message", "hello world")]), &mut outputs);
    route.transform(log(&[("message", "NOPE")]), &mut outputs);
    let mut held = Vec::new();
    for (name, buffer) in outputs.take_all_named() {
        held.push((name, buffer.len()));
    }
    held.sort();
    let expected = [("_unmatched", 1), ("first", 1), ("second", 0), ("third", 0)];
    for (found, (name, count)) in held.iter().zip(expected) {
        assert_eq!((found.0.as_str(), found.1), (name, count));
    }
    assert_eq!(held.len(), 4);
}

#[test]
fn copies_of_transforms_do_the_same() {
    let route = Route::new(&three_routes(true)).unwrap();
    let mut copy = route.clone();
    let mut outputs = buffers(&["first", "second", "third", UNMATCHED_ROUTE]);
    copy.transform(log(&[("message", "hello world")]), &mut outputs);
    assert_eq!(outputs.drain_named("first").len(), 1);
    assert!(outputs.drain_named(UNMATCHED_ROUTE).is_empty());
    let filter = Filter::new(vrl("exists(.keep)").build().unwrap());
    let mut copy = filter.clone();
    let mut output = OutputBuffer::default();
    FunctionTransform::transform(&mut copy, &mut output, log(&[("keep", "a")]));
    FunctionTransform::transform(&mut copy, &mut output, log(&[("drop", "b")]));
    FunctionTransform::transform(&mut copy, &mut output, counter("c").into());
    assert_eq!(copy.events_dropped, 2);
    assert_eq!(filter.events_dropped, 0);
    assert!(output.clone().event_data_eq(&output.into_events()));
}

#[test]
fn route_refuses_reserved_names() {
    let mut route = ComponentMap::new();
    route.insert(UNMATCHED_ROUTE, vrl("true"));
    route.insert("mine", vrl("true"));
    route.insert(DEFAULT_ROUTE, vrl("true"));
    let config = RouteConfig { reroute_unmatched: true, route };
    assert_eq!(
        config.validate().unwrap_err(),
        [
            "cannot have a named output with reserved name: `_unmatched`",
            "cannot have a named output with reserved name: `_default`",
        ]
    );
}

#[test]
fn route_reports_the_first_faulty_condition() {
    let mut route = ComponentMap::new();
    route.insert("good", vrl("true"));
    route.insert("number", vrl("1"));
    route.insert("broken", vrl("((("));
    let config = RouteConfig { reroute_unmatched: true, route };
    assert_eq!(Route::new(&config).unwrap_err(), "VRL conditions must return a boolean.");
}

#[test]
fn filter_keeps_logs_only() {
    let config = FilterConfig::from(AnyCondition::from(ConditionConfig::IsLog));
    let mut filter = match config.build() {
        Ok(Transform::Function(filter)) => filter,
        _ => panic!("a filter"),
    };
    let mut output = OutputBuffer::default();
    let event = log(&[("message", "message")]);
    FunctionTransform::transform(&mut filter, &mut output, event.clone());
    FunctionTransform::transform(&mut filter, &mut output, counter("test metric").into());
    assert_eq!(filter.events_dropped, 1);
    let events = output.drain();
    assert_eq!(events.len(), 1);
    assert!(events[0].event_data_eq(&event));
}

#[test]
fn filter_keeps_order_and_data() {
    let mut filter = Filter::new(vrl("exists(.keep)").build().unwrap());
    let mut output = OutputBuffer::default();
    for fields in [&[("keep", "a")], &[("drop", "b")], &[("keep", "c")]] {
        FunctionTransform::transform(&mut filter, &mut output, log(fields));
    }
    let events = output.into_events();
    assert_eq!(events.len(), 2);
    assert!(events[0].event_data_eq(&log(&[("keep", "a")])));
    assert!(events[1].event_data_eq(&log(&[("keep", "c")])));
    assert_eq!(filter.events_dropped, 1);
}

#[test]
fn filter_count_starts_again() {
    let mut filter = Filter::new(Condition::IsTrace);
    filter.events_dropped = u64::MAX;
    filter.settle(false, &mut OutputBuffer::default(), log(&[]));
    assert_eq!(filter.events_dropped, 0);
}

#[test]
fn filter_has_one_output() {
    let config = FilterConfig::generate_config();
    let outputs = config.outputs(&Vec::new());
    assert_eq!(outputs.len(), 1);
    assert_eq!(outputs[0].port, None);
    assert_eq!(outputs[0].data_type, DataType::all_bits());
    assert!(config.enable_concurrency());
}

#[test]
fn filter_with_a_faulty_program_is_refused() {
    let config = FilterConfig::from(AnyCondition::Program("1 +".to_string()));
    let error = match config.build() {
        Err(error) => error,
        Ok(_) => panic!("an error"),
    };
    assert!(error.contains("error"));
}

#[test]
fn conditions_go_by_the_type_of_events() {
    let events = [
        log(&[]),
        Event::from(counter("c")),
        Event::from(TraceEvent::from_log(LogEvent::default())),
    ];
    let conditions = [ConditionConfig::IsLog, ConditionConfig::IsMetric, ConditionConfig::IsTrace];
    let mut i = 0;
    for config in conditions {
        let condition = AnyCondition::from(config).build().unwrap();
        for (j, event) in events.iter().enumerate() {
            assert_eq!(condition.check(event.clone()).0, i == j);
        }
        i += 1;
    }
}

#[test]
fn programs_see_the_fields() {
    let met = |source: &str, event: Event| vrl(source).build().unwrap().check(event).0;
    assert!(met("exists(.foo)", log(&[("foo", "")])));
    assert!(!met("exists(.foo)", log(&[("bar", "")])));
    assert!(met("!exists(.foo)", log(&[("bar", "")])));
    assert!(met("starts_with(to_string!(.a), \"x\")", log(&[("a", "xyz")])));
    assert!(met("match(string!(.a), r'^\\d+$')", log(&[("a", "123")])));
    assert!(!met("match(string!(.a), r'^\\d+$')", log(&[("a", "12c")])));
    assert!(!met("to_bool!(.a)", log(&[("a", "neither")])));
    assert!(met("(.a == \"1\" || .a == \"2\") && !(is_null(.a))", log(&[("a", "2")])));
    assert!(met("to_int!(.a) > 1 && length(string!(.a)) == 1", log(&[("a", "2")])));
    assert!(!met("to_int!(.a) > 1", log(&[("a", "x")])));
}

#[test]
fn programs_see_the_types_of_data() {
    let event = |name: &str, value: Value| {
        Event::from_json_value(Value::Object(vec![(name.to_string(), value)]), LogNamespace::Legacy)
            .unwrap()
    };
    let met = |source: &str, event: Event| vrl(source).build().unwrap().check(event).0;
    let time = || Value::Timestamp(Time::new(1_600_000_000, 1).unwrap());
    assert!(met("timestamp!(.t) > t'2020-01-01T00:00:00Z'", event("t", time())));
    assert!(!met("timestamp!(.t) > t'2021-01-01T00:00:00Z'", event("t", time())));
    assert!(met("timestamp!(.t) == t'2020-09-13T12:26:40.000000001Z'", event("t", time())));
    assert!(met("is_timestamp(.t) && !is_string(.t)", event("t", time())));
    assert!(met("is_regex(.r)", event("r", Value::Regex("^a".to_string()))));
    assert!(met("is_null(.r)", event("r", Value::Regex("(".to_string()))));
    assert!(met("is_float(.f) && .f == 1.5", event("f", Value::Float("1.5".to_string()))));
    assert!(met("is_integer(.i) && .i == -5", event("i", Value::Integer(-5))));
    assert!(met("is_boolean(.b) && .b == true", event("b", Value::Boolean(true))));
    assert!(met("is_null(.n) && exists(.n)", event("n", Value::Null)));
    assert!(met("length(string!(.s)) == 1", event("s", Value::Bytes(vec![0xff]))));
    let list = || Value::Array(vec![Value::Integer(1), Value::Boolean(true)]);
    assert!(met("length(array!(.l)) == 2 && .l[1] == true", event("l", list())));
    let inner = || Value::Object(vec![("x".to_string(), Value::Integer(3))]);
    assert!(met(".o.x == 3", event("o", inner())));
}

#[test]
fn programs_see_measurements() {
    let mut metric = counter("requests");
    metric.timestamp = Time::new(1_600_000_000, 0);
    let met = |source: &str| vrl(source).build().unwrap().check(Event::from(metric.clone())).0;
    assert!(met(".name == \"requests\" && .kind == \"absolute\" && .type == \"counter\""));
    assert!(met("timestamp!(.timestamp) > t'2020-01-01T00:00:00Z'"));
    assert!(!met("exists(.message)"));
}

#[test]
fn programs_for_conditions_must_be_boolean() {
    assert_eq!(vrl("\"text\"").build().unwrap_err(), "VRL conditions must return a boolean.");
    assert!(check_program(true).is_ok());
    assert_eq!(check_program(false).unwrap_err(), "VRL conditions must return a boolean.");
    assert!(is_met(Some(true)));
    assert!(!is_met(Some(false)));
    assert!(!is_met(None));
}

#[test]
fn conditions_are_serialized() {
    assert_eq!(AnyCondition::from(ConditionConfig::IsLog).to_json(), "{\"type\":\"is_log\"}");
    assert_eq!(AnyCondition::from(ConditionConfig::IsMetric).to_json(), "{\"type\":\"is_metric\"}");
    assert_eq!(AnyCondition::from(ConditionConfig::IsTrace).to_json(), "{\"type\":\"is_trace\"}");
    assert_eq!(AnyCondition::Program("a\n".to_string()).to_json(), "\"a\\n\"");
    for code in 0..0x300u32 {
        let text = format!("{}x", char::from_u32(code).unwrap());
        let condition = AnyCondition::Program(text.clone());
        assert_eq!(condition.to_json(), serde_json::to_string(&text).unwrap());
    }
}

#[test]
fn programs_that_end_are_told_by_their_calls() {
    for source in [
        "",
        "true",
        "exists(.abs)",
        ".abs == 1",
        "starts_with(string!(.a), \"x\")",
        "starts_with(downcase(join!([\"a\", \"b\"], \",\")), \"x\")",
        "find(string!(.a), \"x\") == 1",
        "!exists(.a) && .b != 2",
        "unknown(.a)",
        "absent(.a)",
        "length! (.a) == 1",
    ] {
        assert!(ends(source), "{}", source);
    }
    for source in [
        "abs(.a) == 1",
        "abs!(.a) == 1",
        "abs! (.a) == 1",
        "abs!",
        "true\n&& exists(.a[values(.b)])",
        "starts_with(string!(.a), \"x\", false)",
        "starts_with!(.a, \"x\", case_sensitive: false)",
        "find(string!(.a), \"x\", 3) == 1",
        "random_int(1, 2) == 1",
        "unflatten({}, \"\") == {}",
        "filter([]) -> |i, v| { true } == []",
    ] {
        assert!(!ends(source), "{}", source);
    }
}

#[test]
fn programs_that_end_have_small_factors_and_indexes() {
    for source in [
        ".a * 3 == 6",
        ".a *3 == 6",
        ".a * 999999 == 6",
        ".a * 1_000 == 6",
        ".a * 1.5 == 3.0",
        ".a[0] == 1",
        ".a[ 999999 ] == 1",
        ".a[-1] == 1",
        ".[3] == 1",
        "[4294967296, 1] == []",
        "includes([ 4294967296 ], .a)",
    ] {
        assert!(ends(source), "{}", source);
    }
    for source in [
        ".a * .b == 6",
        ".a * 1000000 == 6",
        ".a * 1e9 == 6",
        "\"ab\" *",
        ".a[1000000] == 1",
        ".a[-9223372036854775808] == 1",
        ".a[0][4294967296] == 1",
        "f(.a)[4294967296] == 1",
        "%[4294967296] == 1",
    ] {
        assert!(!ends(source), "{}", source);
    }
}

#[test]
fn programs_that_end_may_hold_any_text() {
    for source in [
        "match(string!(.a), r'^a.*b[1234567]$')",
        "# abs(.a) * .b\ntrue",
        ".a == \"abs(.a) * \\\" * \u{e9}\"",
        ".a == s'abs(.a) * \\' * '",
        "timestamp!(.t) > t'2020-01-01T00:00:00Z'",
        "true # \u{e9}",
    ] {
        assert!(ends(source), "{}", source);
    }
    for source in [
        "\u{e9} == 1",
        "'a' == 1",
        "as'a' == 1",
        "' abs(.a)",
        "\"a\\\"b\" == \"\" && abs(.a) == 1",
        "# text\nabs(.a) == 1",
        "s'a\\'' == \"\" && abs(.a) == 1",
    ] {
        assert!(!ends(source), "{}", source);
    }
}

#[test]
fn conditions_that_end_are_told_by_their_programs() {
    assert!(vrl("exists(.a)").ends());
    assert!(!vrl("abs(.a) == 1").ends());
    assert!(AnyCondition::Program("true".to_string()).ends());
    assert!(!AnyCondition::Program(".a * .b == 1".to_string()).ends());
    for config in [ConditionConfig::IsLog, ConditionConfig::IsMetric, ConditionConfig::IsTrace] {
        assert!(AnyCondition::from(config).ends());
    }
    let mut config = three_routes(true);
    assert!(config.ends());
    config.route.insert("fourth", vrl("values(.a) == []"));
    assert!(!config.ends());
}

#[test]
fn programs_call_functions() {
    let met = |source: &str, event: Event| {
        let condition = vrl(source);
        assert!(condition.ends());
        condition.build().unwrap().check(event).0
    };
    let event = || log(&[("j", "{\"x\":[1,{\"y\":2}]}"), ("s", "a,b,c"), ("n", "12")]);
    assert!(met("parse_json!(string!(.j)).x[1].y == 2", event()));
    assert!(!met("parse_json!(string!(.s)) == 1", event()));
    assert!(met("split(string!(.s), \",\") == [\"a\", \"b\", \"c\"]", event()));
    assert!(met("split(string!(.s), \",\")[-1] == \"c\"", event()));
    assert!(met("replace(string!(.s), r'[,]', \"\") == \"abc\"", event()));
    assert!(met("parse_regex!(.s, r'^(?P<first>[a-z]*)').first == \"a\"", event()));
    assert!(met("string!(.s) * 2 == \"a,b,ca,b,c\"", event()));
    assert!(met("truncate(string!(.s), 3) == \"a,b\"", event()));
    assert!(met("to_int!(.n) * 3 == 36", event()));
}

#[test]
fn texts_are_escaped() {
    let json = |text: &str| AnyCondition::Program(text.to_string()).to_json();
    assert_eq!(json("plain"), "\"plain\"");
    assert_eq!(json("\"\\/"), "\"\\\"\\\\/\"");
    assert_eq!(json("\u{8}\t\n\u{c}\r"), "\"\\b\\t\\n\\f\\r\"");
    assert_eq!(json("\u{0}\u{1}\u{1f}"), "\"\\u0000\\u0001\\u001f\"");
    assert_eq!(json("\u{7f}\u{e9}\u{1f600}"), "\"\u{7f}\u{e9}\u{1f600}\"");
}
