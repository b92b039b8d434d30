use std::sync::Arc;
use vector::component_map::ComponentMap;
use vector::config::compiler::compile;
use vector::config::diff::{ConfigDiff, Difference};
use vector::config::global::{AcknowledgementsConfig, ConfiguredNumber, WildcardMatching};
use vector::config::globs::expand_globs;
use vector::config::graph::Graph;
use vector::config::io::{DataType, Input, SourceOutput, TransformOutput};
use vector::config::resource::{IpAddress, Resource};
use vector::config::sink::{BufferConfig, BufferType, SinkConfig, WhenFull};
use vector::config::source::SourceConfig;
use vector::config::table::{EnrichmentTableOuter, TableSource};
use vector::config::transform::TransformConfig;
use vector::config::validation::{
    capitalize, check_names, check_outputs, check_provider, check_resources, check_shape,
    check_values, warnings,
};
use vector::config::{Config, ConfigBuilder, TestDefinition};
use vector::event::metric::Float64;
use vector::event::LogNamespace;
use vector::id::{ComponentKey, KeySet, OutputId};

fn log_only() -> DataType {
    DataType { log: true, metric: false, trace: false }
}

fn metric_only() -> DataType {
    DataType { log: false, metric: true, trace: false }
}

fn source_of(data_type: DataType) -> SourceConfig {
    let output = || SourceOutput { port: None, data_type, schema_definition: None };
    SourceConfig {
        component_type: "test_basic".to_string(),
        legacy_outputs: vec![output()],
        vector_outputs: vec![output()],
        resources: Vec::new(),
        can_acknowledge: true,
        send_timeout: None,
        settings: "{}".to_string(),
    }
}

fn basic_source() -> SourceConfig {
    source_of(DataType::all_bits())
}

fn transform_with(ports: &[&str]) -> TransformConfig {
    let outputs = || {
        let mut list = Vec::new();
        if ports.is_empty() {
            list.push(TransformOutput::new(DataType::all_bits(), Vec::new()));
        }
        for port in ports {
            list.push(TransformOutput::new(DataType::all_bits(), Vec::new()).with_port(port));
        }
        list
    };
    TransformConfig {
        component_type: "test_basic".to_string(),
        input: Input::all(),
        legacy_outputs: outputs(),
        vector_outputs: outputs(),
        validation_errors: Vec::new(),
        enable_concurrency: false,
        files: Vec::new(),
        settings: "{}".to_string(),
    }
}

fn basic_transform() -> TransformConfig {
    transform_with(&[])
}

fn sink_of(data_type: DataType) -> SinkConfig {
    SinkConfig {
        component_type: "test_basic".to_string(),
        input: Input { data_type },
        resources: Vec::new(),
        acknowledgements: AcknowledgementsConfig::unset(),
        files: Vec::new(),
        settings: "{}".to_string(),
    }
}

fn basic_sink() -> SinkConfig {
    sink_of(DataType::all_bits())
}

fn inputs(names: &[&str]) -> Vec<String> {
    let mut list = Vec::new();
    for name in names {
        list.push(name.to_string());
    }
    list
}

fn without_ports(outputs: &Vec<OutputId>) -> Vec<&str> {
    let mut names = Vec::new();
    for output in outputs {
        assert!(output.port.is_none());
        names.push(output.component.id());
    }
    names
}

fn names_of(set: &KeySet) -> Vec<&str> {
    let mut names = Vec::new();
    for key in set.keys() {
        names.push(key.id());
    }
    names.sort();
    names
}

fn table(settings: &str, source: Option<&str>) -> EnrichmentTableOuter<String> {
    EnrichmentTableOuter {
        inputs: Vec::new(),
        graph: "{}".to_string(),
        source: source.map(|key| TableSource {
            key: ComponentKey::new(key),
            config: Arc::new(basic_source()),
        }),
        sink: Some(Arc::new(basic_sink())),
        settings: settings.to_string(),
    }
}

fn small() -> ConfigBuilder {
    let mut builder = ConfigBuilder::default();
    builder.add_source("in", basic_source());
    builder.add_sink("out", inputs(&["in"]), basic_sink());
    builder
}

fn fails(builder: ConfigBuilder) -> Vec<String> {
    match builder.build() {
        Ok(_) => panic!("the build succeeds"),
        Err(errors) => errors,
    }
}

#[test]
fn glob_expansion() {
    let mut builder = ConfigBuilder::default();
    builder.add_source("foo1", basic_source());
    builder.add_source("foo2", basic_source());
    builder.add_source("bar", basic_source());
    builder.add_transform("foos", inputs(&["foo*"]), basic_transform());
    builder.add_sink("baz", inputs(&["foos*", "b*"]), basic_sink());
    builder.add_sink("quix", inputs(&["*oo*"]), basic_sink());
    builder.add_sink("quux", inputs(&["*"]), basic_sink());

    let config = match builder.build() {
        Ok(config) => config,
        Err(_) => panic!("build should succeed"),
    };

    assert_eq!(without_ports(&config.transforms.get("foos").unwrap().inputs), ["foo1", "foo2"]);
    assert_eq!(without_ports(&config.sinks.get("baz").unwrap().inputs), ["foos", "bar"]);
    assert_eq!(
        without_ports(&config.sinks.get("quux").unwrap().inputs),
        ["foo1", "foo2", "bar", "foos"]
    );
    assert_eq!(
        without_ports(&config.sinks.get("quix").unwrap().inputs),
        ["foo1", "foo2", "foos"]
    );
}

#[test]
fn diff_enrichment_tables_uses_correct_keys() {
    let ttl = |n: u32| format!("{{\"type\":\"memory\",\"ttl\":{}}}", n);
    let build = |ttl_of_table: u32, other: &str, ttl_of_other: u32| {
        let mut builder = ConfigBuilder::default();
        builder
            .enrichment_tables
            .insert("memory_table", table(&ttl(ttl_of_table), Some("memory_table_source")));
        builder.enrichment_tables.insert("memory_table_unchanged", table(&ttl(10), None));
        builder.enrichment_tables.insert(other, table(&ttl(ttl_of_other), None));
        builder.add_source("test", basic_source());
        builder.add_sink("test_sink", inputs(&["test"]), basic_sink());
        match builder.build() {
            Ok(config) => config,
            Err(_) => panic!("build should succeed"),
        }
    };
    let old_config = build(10, "memory_table_old", 10);
    let new_config = build(20, "memory_table_new", 1000);

    let diff = Difference::from_enrichment_tables(
        &old_config.enrichment_tables,
        &new_config.enrichment_tables,
    );

    assert_eq!(names_of(&diff.to_add), ["memory_table_new"]);
    assert_eq!(names_of(&diff.to_remove), ["memory_table_old"]);
    assert_eq!(names_of(&diff.to_change), ["memory_table", "memory_table_source"]);
}

#[test]
fn diff_finds_what_changed() {
    let build = |settings: &str, extra: &str| {
        let mut builder = small();
        let mut transform = basic_transform();
        transform.settings = settings.to_string();
        builder.add_transform("middle", inputs(&["in"]), transform);
        builder.add_sink(extra, inputs(&["middle"]), basic_sink());
        match builder.build() {
            Ok(config) => config,
            Err(_) => panic!("build should succeed"),
        }
    };
    let old = build("{\"a\":1, \"b\":2}", "gone");
    let same = build("{\"b\":2,\"a\":1}", "gone");
    let new = build("{\"a\":2,\"b\":2}", "new");

    let none = ConfigDiff::new(&old, &same, KeySet::new());
    assert!(!none.transforms.any_changed_or_added());
    assert!(!none.sinks.any_changed_or_removed());

    let diff = ConfigDiff::new(&old, &new, KeySet::new());
    assert_eq!(names_of(&diff.transforms.to_change), ["middle"]);
    assert_eq!(names_of(&diff.sinks.to_add), ["new"]);
    assert_eq!(names_of(&diff.sinks.to_remove), ["gone"]);
    assert!(diff.contains(&ComponentKey::new("gone")));
    assert!(!diff.contains(&ComponentKey::new("in")));
    assert!(diff.is_changed(&ComponentKey::new("middle")));
    assert!(diff.is_removed(&ComponentKey::new("gone")));
    assert!(diff.sinks.contains_new(&ComponentKey::new("new")));
    assert!(!diff.sinks.contains_new(&ComponentKey::new("gone")));
    assert_eq!(diff.sinks.changed_and_added().len(), 1);
    assert_eq!(diff.sinks.removed_and_changed().len(), 1);

    let flipped = diff.flip();
    assert_eq!(names_of(&flipped.sinks.to_add), ["gone"]);
    assert_eq!(names_of(&flipped.sinks.to_remove), ["new"]);

    let mut reload = KeySet::new();
    reload.insert(ComponentKey::new("out"));
    let forced = ConfigDiff::new(&old, &same, reload);
    assert_eq!(names_of(&forced.sinks.to_change), ["out"]);

    let initial = ConfigDiff::initial(&old);
    assert!(initial.sources.is_added(&ComponentKey::new("in")));
    assert_eq!(names_of(&initial.sinks.to_add), ["gone", "out"]);
}

#[test]
fn diff_reads_deep_settings_as_texts() {
    let build = |settings: &str| {
        let mut builder = small();
        let mut transform = basic_transform();
        transform.settings = settings.to_string();
        builder.add_transform("middle", inputs(&["in"]), transform);
        builder.add_sink("more", inputs(&["middle"]), basic_sink());
        match builder.build() {
            Ok(config) => config,
            Err(_) => panic!("build should succeed"),
        }
    };
    let nested = |inner: &str| format!("{}{}{}", "[".repeat(200), inner, "]".repeat(200));
    let changed = |old: &str, new: &str| {
        let diff = ConfigDiff::new(&build(old), &build(new), KeySet::new());
        diff.is_changed(&ComponentKey::new("middle"))
    };
    assert!(!changed(&nested("1"), &nested("1")));
    assert!(changed(&nested("1"), &nested("2")));
    assert!(changed("[1]", &nested("1")));
    assert!(!changed("[1]", "[ 1 ]"));
}

#[test]
fn diff_goes_by_the_type_of_components() {
    let build = |kind: &str| {
        let mut builder = ConfigBuilder::default();
        let mut source = basic_source();
        source.component_type = kind.to_string();
        builder.add_source("in", source);
        let mut transform = basic_transform();
        transform.component_type = kind.to_string();
        builder.add_transform("middle", inputs(&["in"]), transform);
        let mut sink = basic_sink();
        sink.component_type = kind.to_string();
        builder.add_sink("out", inputs(&["middle"]), sink);
        match builder.build() {
            Ok(config) => config,
            Err(_) => panic!("build should succeed"),
        }
    };
    let old = build("one");
    let diff = ConfigDiff::new(&old, &build("two"), KeySet::new());
    assert_eq!(names_of(&diff.sources.to_change), ["in"]);
    assert_eq!(names_of(&diff.transforms.to_change), ["middle"]);
    assert_eq!(names_of(&diff.sinks.to_change), ["out"]);
    let same = ConfigDiff::new(&old, &build("one"), KeySet::new());
    assert!(!same.contains(&ComponentKey::new("in")));
    assert!(!same.contains(&ComponentKey::new("middle")));
    assert!(!same.contains(&ComponentKey::new("out")));
}

#[test]
fn tables_that_come_or_go_have_not_changed() {
    let build = |name: &str, ttl: u32| {
        let mut builder = small();
        let settings = format!("{{\"type\":\"memory\",\"ttl\":{}}}", ttl);
        builder.enrichment_tables.insert("kept", table(&settings, None));
        builder.enrichment_tables.insert(name, table("{}", None));
        match builder.build() {
            Ok(config) => config,
            Err(_) => panic!("build should succeed"),
        }
    };
    let old = build("old", 1);
    let new = build("new", 2);
    let diff = ConfigDiff::new(&old, &new, KeySet::new());
    assert!(diff.is_changed(&ComponentKey::new("kept")));
    assert!(!diff.is_removed(&ComponentKey::new("kept")));
    assert!(!diff.is_changed(&ComponentKey::new("old")));
    assert!(diff.is_removed(&ComponentKey::new("old")));
    assert!(!diff.is_changed(&ComponentKey::new("new")));
    assert!(!diff.is_removed(&ComponentKey::new("new")));
    assert!(diff.contains(&ComponentKey::new("new")));

    let back = ConfigDiff::new(&new, &old, KeySet::new());
    let flipped = diff.flip();
    assert_eq!(names_of(&flipped.enrichment_tables.to_change), ["kept"]);
    assert_eq!(
        names_of(&flipped.enrichment_tables.to_add),
        names_of(&back.enrichment_tables.to_add)
    );
    assert_eq!(
        names_of(&flipped.enrichment_tables.to_remove),
        names_of(&back.enrichment_tables.to_remove)
    );
    assert_eq!(
        names_of(&flipped.enrichment_tables.to_change),
        names_of(&back.enrichment_tables.to_change)
    );
    let none = ConfigDiff::new(&old, &old, KeySet::new());
    assert!(!none.enrichment_tables.any_changed_or_added());
    assert!(!none.enrichment_tables.any_changed_or_removed());
}

#[test]
fn inputs_that_match_nothing_stay() {
    let mut builder = ConfigBuilder::default();
    builder.add_source("first", basic_source());
    builder.add_sink("out", inputs(&["nowhere", "x*", "fir?t", "["]), basic_sink());
    expand_globs(&mut builder);
    assert_eq!(
        builder.sinks.get("out").unwrap().inputs,
        ["nowhere", "x*", "first", "["]
    );
}

#[test]
fn globs_see_ports_but_not_the_taker() {
    let mut builder = ConfigBuilder::default();
    builder.add_source("in", basic_source());
    builder.add_transform("split", inputs(&["in"]), transform_with(&["a", "b"]));
    builder.add_transform("split_more", inputs(&["split*"]), basic_transform());
    builder.add_sink("out", inputs(&["split.*"]), basic_sink());
    expand_globs(&mut builder);
    assert_eq!(builder.transforms.get("split_more").unwrap().inputs, ["split.a", "split.b"]);
    assert_eq!(builder.sinks.get("out").unwrap().inputs, ["split.a", "split.b"]);
}

#[test]
fn unknown_inputs_are_errors() {
    let mut builder = small();
    builder.add_sink("other", inputs(&["nowhere"]), basic_sink());
    assert_eq!(
        fails(builder),
        ["Input \"nowhere\" for sink \"other\" doesn't match any components."]
    );
}

#[test]
fn relaxed_matching_drops_wildcards() {
    let mut builder = small();
    builder.add_sink("other", inputs(&["in", "x*"]), basic_sink());
    builder.global.wildcard_matching = Some(WildcardMatching::Relaxed);
    let config = match builder.build() {
        Ok(config) => config,
        Err(_) => panic!("build should succeed"),
    };
    assert_eq!(without_ports(&config.sinks.get("other").unwrap().inputs), ["in"]);
}

#[test]
fn cycles_are_errors() {
    let mut builder = small();
    builder.add_transform("one", inputs(&["in", "three"]), basic_transform());
    builder.add_transform("two", inputs(&["one"]), basic_transform());
    builder.add_transform("three", inputs(&["two"]), basic_transform());
    builder.add_sink("end", inputs(&["three"]), basic_sink());
    let errors = fails(builder);
    assert_eq!(errors.len(), 1);
    assert!(errors[0].starts_with("Cyclic dependency detected in the chain [ "));
    let chain = &errors[0]["Cyclic dependency detected in the chain [ ".len()..errors[0].len() - 2];
    let mut names = Vec::new();
    for name in chain.split(" -> ") {
        names.push(name);
    }
    assert_eq!(names.len(), 4);
    assert_eq!(names[0], names[3]);
}

#[test]
fn data_types_must_meet() {
    let mut builder = ConfigBuilder::default();
    builder.add_source("metrics", source_of(metric_only()));
    builder.add_sink("logs", inputs(&["metrics"]), sink_of(log_only()));
    assert_eq!(
        fails(builder),
        ["Data type mismatch between metrics ([\"Metric\"]) and logs ([\"Log\"])"]
    );
}

#[test]
fn shapes_are_checked() {
    let empty = ConfigBuilder::default();
    assert_eq!(
        check_shape(&empty).unwrap_err(),
        ["No sources defined in the config.", "No sinks defined in the config."]
    );
    let mut allowed = ConfigBuilder::default();
    allowed.allow_empty = true;
    assert!(check_shape(&allowed).is_ok());

    let mut builder = small();
    builder.add_transform("in", inputs(&["in"]), basic_transform());
    builder.add_transform("out", inputs(&[]), basic_transform());
    builder.add_sink("twice", inputs(&["in", "in", "in"]), basic_sink());
    assert_eq!(
        check_shape(&builder).unwrap_err(),
        [
            "More than one component with name \"in\" (source, transform).",
            "More than one component with name \"out\" (transform, sink).",
            "Sink \"twice\" has input \"in\" duplicated 3 times",
            "Transform \"out\" has no inputs",
        ]
    );
    assert_eq!(capitalize("sink"), "Sink");
    assert_eq!(capitalize(""), "");
    assert_eq!(capitalize("Été"), "Été");
}

#[test]
fn names_hold_no_dots() {
    let names = vec![ComponentKey::new("good"), ComponentKey::new("not.good")];
    assert_eq!(
        check_names(&names).unwrap_err(),
        ["Component name \"not.good\" should not contain a \".\""]
    );
}

#[test]
fn providers_stand_alone() {
    let mut builder = small();
    assert!(check_provider(&builder).is_ok());
    builder.provider = Some("http".to_string());
    assert_eq!(
        check_provider(&builder).unwrap_err(),
        ["No sources/transforms/sinks are allowed if provider config is present."]
    );
    let mut alone = ConfigBuilder::default();
    alone.provider = Some("http".to_string());
    assert!(check_provider(&alone).is_ok());
}

#[test]
fn values_are_checked() {
    let number = |value: f64| {
        Some(ConfiguredNumber { number: Float64::from_bits(value.to_bits()), text: format!("{}", value) })
    };
    let mut builder = small();
    builder.global.buffer_utilization_ewma_half_life_seconds = number(5.0);
    builder.global.latency_ewma_alpha = number(0.5);
    assert!(check_values(&builder).is_ok());
    builder.global.buffer_utilization_ewma_half_life_seconds = number(0.0);
    builder.global.latency_ewma_alpha = number(1.0);
    assert_eq!(check_values(&builder).unwrap_err().len(), 2);
    builder.global.buffer_utilization_ewma_half_life_seconds = number(f64::NAN);
    builder.global.latency_ewma_alpha = number(-0.5);
    assert_eq!(check_values(&builder).unwrap_err().len(), 2);
}

#[test]
fn output_names_are_checked() {
    let mut builder = small();
    assert!(check_outputs(&builder).is_ok());
    builder.add_transform("bad", inputs(&["in"]), transform_with(&["output"]));
    let mut faulty = basic_transform();
    faulty.validation_errors.push("is faulty".to_string());
    builder.add_transform("other", inputs(&["in"]), faulty);
    let mut source = basic_source();
    source.legacy_outputs[0].port = Some("output".to_string());
    builder.add_source("source", source);
    assert_eq!(
        check_outputs(&builder).unwrap_err(),
        [
            "Source source cannot have a named output with reserved name: `output`",
            "Transform bad cannot have a named output with reserved name: `output`",
            "Transform other is faulty",
        ]
    );
}

#[test]
fn resources_belong_to_one_component() {
    let mut builder = ConfigBuilder::default();
    let port = |ip, text: &str| Resource::tcp(ip, 80, text);
    let mut first = basic_source();
    first.resources.push(port(IpAddress::V4(127, 0, 0, 1), "127.0.0.1:80"));
    let mut second = basic_source();
    second.resources.push(Resource::udp(IpAddress::V4(127, 0, 0, 1), 80, "127.0.0.1:80"));
    builder.add_source("first", first);
    builder.add_source("second", second);
    assert!(check_resources(&builder).is_ok());

    let mut third = basic_source();
    third.resources.push(port(IpAddress::V4(0, 0, 0, 0), "0.0.0.0:80"));
    builder.add_source("third", third);
    let errors = check_resources(&builder).unwrap_err();
    assert_eq!(errors.len(), 1);
    assert!(errors[0].starts_with("Resource `tcp 127.0.0.1:80` is claimed by multiple components: {"));
    assert!(errors[0].contains("first"));
    assert!(errors[0].contains("third"));
    assert!(!errors[0].contains("second"));
}

#[test]
fn ports_on_all_interfaces_take_in_long_addresses() {
    let all = Resource::tcp(IpAddress::V4(0, 0, 0, 0), 8080, "0.0.0.0:8080");
    let long = Resource::tcp(IpAddress::V6(1), 8080, "[::1]:8080");
    assert!(all.also_takes(&long));
    assert!(!long.also_takes(&all));
    assert!(Resource::tcp(IpAddress::V6(0), 8080, "[::]:8080").also_takes(&all));
    assert!(!all.also_takes(&Resource::udp(IpAddress::V6(1), 8080, "[::1]:8080")));
    assert!(!all.also_takes(&Resource::tcp(IpAddress::V6(1), 8081, "[::1]:8081")));
}

#[test]
fn resources_have_texts() {
    assert_eq!(Resource::Fd(3).to_text(), "file descriptor: 3");
    assert_eq!(Resource::SystemFdOffset(0).to_text(), "systemd 1th socket");
    assert_eq!(Resource::DiskBuffer("a\"b".to_string()).to_text(), "disk buffer \"a\\\"b\"");
}

#[test]
fn outputs_without_takers_are_warned_of() {
    let mut builder = small();
    builder.add_source("lonely", basic_source());
    builder.add_transform("split", inputs(&["in"]), transform_with(&["a", "b"]));
    builder.add_sink("end", inputs(&["split.b"]), basic_sink());
    let (config, found) = match builder.build_with_warnings() {
        Ok(built) => built,
        Err(_) => panic!("build should succeed"),
    };
    assert_eq!(
        found,
        ["Transform \"split.a\" has no consumers", "Source \"lonely\" has no consumers"]
    );
    assert_eq!(warnings(&config), found);
}

#[test]
fn acknowledgements_reach_the_sources() {
    let mut builder = ConfigBuilder::default();
    builder.add_source("waits", basic_source());
    builder.add_source("free", basic_source());
    builder.add_source("direct", basic_source());
    builder.add_transform("middle", inputs(&["waits"]), basic_transform());
    let mut sink = basic_sink();
    sink.acknowledgements = AcknowledgementsConfig::from_bool(true);
    builder.add_sink("confirms", inputs(&["middle", "direct"]), sink);
    builder.add_sink("plain", inputs(&["free"]), basic_sink());
    let config = match builder.build() {
        Ok(config) => config,
        Err(_) => panic!("build should succeed"),
    };
    assert!(config.sources.get("waits").unwrap().sink_acknowledgements);
    assert!(!config.sources.get("free").unwrap().sink_acknowledgements);
    assert!(config.sources.get("direct").unwrap().sink_acknowledgements);
}

#[test]
fn tests_name_outputs_that_are_there() {
    let test = |extract: &str, none: &str| TestDefinition {
        name: "mine".to_string(),
        extract_from: vec![extract.to_string()],
        no_outputs_from: vec![none.to_string()],
    };
    let mut builder = small();
    builder.add_transform("middle", inputs(&["in"]), basic_transform());
    builder.tests.push(test("middle", "in"));
    let config = match builder.build() {
        Ok(config) => config,
        Err(_) => panic!("build should succeed"),
    };
    assert_eq!(without_ports(&config.tests[0].extract_from), ["middle"]);
    assert_eq!(without_ports(&config.tests[0].no_outputs_from), ["in"]);

    let mut builder = small();
    builder.tests.push(test("gone", "in"));
    assert_eq!(
        fails(builder),
        ["Invalid extract_from target in test 'mine': 'gone' does not exist"]
    );
}

#[test]
fn builders_are_joined() {
    let mut first = small();
    let mut second = ConfigBuilder::default();
    second.add_source("more", basic_source());
    second.global.data_dir = Some("/data".to_string());
    assert!(first.append(second).is_ok());
    assert_eq!(first.sources.len(), 2);
    assert_eq!(first.global.data_dir, Some("/data".to_string()));

    let errors = first.append(small()).unwrap_err();
    assert_eq!(errors, ["duplicate source id found: in", "duplicate sink id found: out"]);
    assert_eq!(first.sources.len(), 2);
}

#[test]
fn compiling_gives_what_building_gives() {
    let (config, found) = match compile(small()) {
        Ok(built) => built,
        Err(_) => panic!("build should succeed"),
    };
    assert!(found.is_empty());
    assert_eq!(config.sources.key_at(0), "in");
    let invalid = match compile(ConfigBuilder::default()) {
        Ok(_) => panic!("an error"),
        Err(errors) => errors,
    };
    assert_eq!(invalid.len(), 2);
}

#[test]
fn graphs_know_who_feeds_whom() {
    let builder = small();
    let graph = match Graph::new(
        &builder.sources,
        &builder.transforms,
        &builder.sinks,
        &builder.enrichment_tables,
        LogNamespace::Legacy,
        WildcardMatching::Strict,
    ) {
        Ok(graph) => graph,
        Err(_) => panic!("a graph"),
    };
    assert!(graph.typecheck().is_ok());
    assert!(graph.check_for_cycles().is_ok());
    assert_eq!(without_ports(&graph.inputs_for("out")), ["in"]);
    assert!(graph.inputs_for("in").is_empty());
}

#[test]
fn disk_buffers_are_resources() {
    let mut builder = small();
    let mut sink = vector::config::sink::SinkOuter::new(inputs(&["in"]), basic_sink());
    sink.buffer = BufferConfig {
        stages: vec![
            BufferType::Memory { max_events: 1, when_full: WhenFull::Overflow },
            BufferType::DiskV2 { max_size: 10, when_full: WhenFull::Block },
        ],
    };
    let resources = sink.resources(&ComponentKey::new("disk"));
    assert_eq!(resources.len(), 1);
    assert!(resources[0].same(&Resource::DiskBuffer("disk".to_string())));
    builder.sinks.insert("disk", sink);
    builder.global.data_dir = Some("/d".to_string());
    let config = match builder.build() {
        Ok(config) => config,
        Err(_) => panic!("build should succeed"),
    };
    let usages = vector::config::disk::configured_disk_buffers(&config);
    assert_eq!(usages.len(), 1);
    assert_eq!(usages[0].data_dir, "/d/buffer/v2/disk");
    assert_eq!(usages[0].max_size, 10);
}

#[test]
fn component_maps_keep_their_order() {
    let mut map: ComponentMap<u32> = ComponentMap::new();
    assert!(map.is_empty());
    map.insert("b", 1);
    map.insert("a", 2);
    map.insert("b", 3);
    assert_eq!(map.len(), 2);
    assert_eq!(map.key_at(0), "b");
    assert_eq!(map.get("b"), Some(&3));
    assert_eq!(map.index_of("a"), Some(1));
    assert_eq!(map.get("c"), None);
    assert_eq!(map.value_at(1), &2);
    assert_eq!(map.into_entries(), [("b".to_string(), 3), ("a".to_string(), 2)]);
}

#[test]
fn default_configurations_are_empty() {
    let config = Config::default();
    assert!(config.sources.is_empty());
    assert!(config.healthchecks.enabled);
}
