//! Turning what configuration files say into a validated configuration.
//!
//! The names of components are checked first, before patterns in inputs are
//! replaced. The other checks follow, then the graph is built, in which every
//! input is an output of another component. Findings are collected, so that an
//! operator sees as many of them as possible at once.
use vstd::prelude::*;

use crate::component_map::{distinct_keys, entry_models, keys, ComponentMap};
use crate::config::acknowledgements::{
    sources_wait_for_sinks_that_acknowledge, waiting_sources, way_to_acknowledgement,
};
use crate::config::cycles::{acyclic, cycle_message, cycle_rules_out_ranks, is_cycle, ranks};
use crate::config::global::{chosen_namespace, WildcardMatching};
use crate::config::globs::{expand_globs, globs_expanded};
use crate::config::graph::{
    all_sinks, all_sources, edge_models, edges_belong, edges_start_at_outputs, fed_by_outputs,
    feeding, graph_edges, graph_errors, graph_outputs, has_output, has_sink, input_stands, is_output,
    output_infos, outputs_belong, reads_as, starts_at, takes_events, type_errors,
    typechecked_edges_meet, unresolved_inputs_are_refused, EdgeModel, Graph, OutputInfo,
};
use crate::config::io::DataType;
use crate::config::resource::ResourceModel;
use crate::config::sink::SinkOuter;
use crate::config::table::EnrichmentTableOuter;
use crate::config::transform::TransformOuter;
use crate::config::unit_tests::{test_errors, test_names_outputs, test_resolved};
use crate::config::validation::{
    all_claims, check_names, check_outputs, check_resources, check_shape, check_values, finds,
    name_errors, names_have_no_dots, needs, numbers_are_in_range, output_errors,
    outputs_have_free_names, resource_errors, resources_are_had_alone, resources_clash,
    shape_errors, shapes_are_sound, source_takes_kept_name, transform_takes_kept_name, value_errors,
    warning_texts, warnings,
};
use crate::config::{Config, ConfigBuilder, TestDefinition};
use crate::event::LogNamespace;
use crate::id::{key_texts, output_names, ComponentKey, OutputId};
use crate::text::{append_texts, gather, gathered, push_text, texts};

verus! {

/// The names of all transforms, sources and sinks.
pub open spec fn component_names(builder: ConfigBuilder) -> Seq<Seq<char>> {
    keys(builder.transforms@) + keys(builder.sources@) + keys(builder.sinks@)
}

/// The messages of the checks that come before the graph is built. Names are
/// checked as they are in the files, all else with patterns replaced.
pub open spec fn early_errors(builder: ConfigBuilder, expanded: ConfigBuilder) -> Seq<Seq<char>> {
    name_errors(component_names(builder)) + shape_errors(expanded) + resource_errors(
        all_claims(expanded),
    ) + output_errors(expanded) + value_errors(expanded)
}

/// The outputs of a pipeline.
pub open spec fn pipeline_outputs(builder: ConfigBuilder) -> Seq<OutputInfo> {
    graph_outputs(
        all_sources(builder.sources@, builder.enrichment_tables@),
        builder.transforms@,
        chosen_namespace(None, builder.schema.log_namespace),
    )
}

/// What the outputs of a pipeline feed.
pub open spec fn pipeline_edges(builder: ConfigBuilder) -> Seq<EdgeModel> {
    graph_edges(
        pipeline_outputs(builder),
        builder.transforms@,
        all_sinks(builder.sinks@, builder.enrichment_tables@),
    )
}

/// What an input with a wildcard that matches nothing means: a mistake, where
/// nothing is set.
pub open spec fn wildcards(builder: ConfigBuilder) -> WildcardMatching {
    match builder.global.wildcard_matching {
        Some(matching) => matching,
        None => WildcardMatching::Strict,
    }
}

/// The messages on inputs that name no output.
pub open spec fn unresolved_errors(builder: ConfigBuilder) -> Seq<Seq<char>> {
    graph_errors(
        pipeline_outputs(builder),
        builder.transforms@,
        all_sinks(builder.sinks@, builder.enrichment_tables@),
        wildcards(builder),
    )
}

/// Whether a test is the first that names an output that is not there.
pub open spec fn first_failing(
    outputs: Seq<OutputInfo>,
    tests: Seq<TestDefinition<String>>,
    k: int,
) -> bool {
    &&& 0 <= k < tests.len()
    &&& test_errors(outputs, tests[k]).len() > 0
    &&& forall|j: int| 0 <= j < k ==> test_errors(outputs, #[trigger] tests[j]).len() == 0
}

/// Whether all tests name outputs that are there.
pub open spec fn tests_hold(outputs: Seq<OutputInfo>, tests: Seq<TestDefinition<String>>) -> bool {
    forall|j: int| 0 <= j < tests.len() ==> test_errors(outputs, #[trigger] tests[j]).len() == 0
}

/// Whether sinks are other ones, with inputs replaced by the outputs they name.
pub open spec fn sinks_connected(
    before: Seq<(Seq<char>, SinkOuter<String>)>,
    after: Seq<(Seq<char>, SinkOuter<OutputId>)>,
    edges: Seq<EdgeModel>,
) -> bool {
    &&& after.len() == before.len()
    &&& forall|i: int|
        0 <= i < before.len() ==> {
            &&& (#[trigger] after[i]).0 == before[i].0
            &&& after[i].1 == (SinkOuter::<OutputId> {
                inputs: after[i].1.inputs,
                inner: before[i].1.inner,
                buffer: before[i].1.buffer,
                healthcheck: before[i].1.healthcheck,
                healthcheck_uri: before[i].1.healthcheck_uri,
                proxy: before[i].1.proxy,
                graph: before[i].1.graph,
            })
            &&& output_names(after[i].1.inputs@) == feeding(edges, before[i].0)
        }
}

/// Whether transforms are other ones, with inputs replaced by the outputs they
/// name.
pub open spec fn transforms_connected(
    before: Seq<(Seq<char>, TransformOuter<String>)>,
    after: Seq<(Seq<char>, TransformOuter<OutputId>)>,
    edges: Seq<EdgeModel>,
) -> bool {
    &&& after.len() == before.len()
    &&& forall|i: int|
        0 <= i < before.len() ==> {
            &&& (#[trigger] after[i]).0 == before[i].0
            &&& after[i].1 == (TransformOuter::<OutputId> {
                inputs: after[i].1.inputs,
                inner: before[i].1.inner,
                graph: before[i].1.graph,
            })
            &&& output_names(after[i].1.inputs@) == feeding(edges, before[i].0)
        }
}

/// Whether enrichment tables are other ones, with inputs replaced by the
/// outputs they name.
pub open spec fn tables_connected(
    before: Seq<(Seq<char>, EnrichmentTableOuter<String>)>,
    after: Seq<(Seq<char>, EnrichmentTableOuter<OutputId>)>,
    edges: Seq<EdgeModel>,
) -> bool {
    &&& after.len() == before.len()
    &&& forall|i: int|
        0 <= i < before.len() ==> {
            &&& (#[trigger] after[i]).0 == before[i].0
            &&& after[i].1 == (EnrichmentTableOuter::<OutputId> {
                inputs: after[i].1.inputs,
                graph: before[i].1.graph,
                source: before[i].1.source,
                sink: before[i].1.sink,
                settings: before[i].1.settings,
            })
            &&& output_names(after[i].1.inputs@) == feeding(edges, before[i].0)
        }
}

/// Whether tests are other ones, with names replaced by the outputs they name.
pub open spec fn tests_resolved(
    outputs: Seq<OutputInfo>,
    before: Seq<TestDefinition<String>>,
    after: Seq<TestDefinition<OutputId>>,
) -> bool {
    &&& after.len() == before.len()
    &&& forall|i: int|
        0 <= i < before.len() ==> test_resolved(outputs, before[i], #[trigger] after[i])
}

/// Whether a configuration is what a builder stands for.
pub open spec fn stands_for(builder: ConfigBuilder, config: Config) -> bool {
    &&& config.global == builder.global
    &&& config.schema == builder.schema
    &&& config.healthchecks == builder.healthchecks
    &&& config.secret == builder.secret
    &&& config.graceful_shutdown_duration == builder.graceful_shutdown_duration
    &&& sinks_connected(builder.sinks@, config.sinks@, pipeline_edges(builder))
    &&& transforms_connected(builder.transforms@, config.transforms@, pipeline_edges(builder))
    &&& tables_connected(
        builder.enrichment_tables@,
        config.enrichment_tables@,
        pipeline_edges(builder),
    )
    &&& tests_resolved(pipeline_outputs(builder), builder.tests@, config.tests@)
    &&& config.sources@ == waiting_sources(config.sinks@, config.transforms@, builder.sources@)
}

/// Whether messages are those on cycles: none where there is no cycle, and else
/// one that shows a cycle.
pub open spec fn tells_cycle(edges: Seq<EdgeModel>, messages: Seq<Seq<char>>) -> bool {
    if acyclic(edges) {
        messages.len() == 0
    } else {
        exists|path: Seq<int>| #[trigger]
            is_cycle(edges, path) && messages == seq![cycle_message(edges, path)]
    }
}

/// Whether nothing is wrong with a configuration.
pub open spec fn is_valid(builder: ConfigBuilder, expanded: ConfigBuilder) -> bool {
    &&& early_errors(builder, expanded).len() == 0
    &&& unresolved_errors(expanded).len() == 0
    &&& type_errors(pipeline_edges(expanded)).len() == 0
    &&& acyclic(pipeline_edges(expanded))
    &&& tests_hold(pipeline_outputs(expanded), expanded.tests@)
}

/// What compiling gives, once patterns have been replaced.
pub open spec fn compiles_to(
    builder: ConfigBuilder,
    expanded: ConfigBuilder,
    result: Result<(Config, Vec<String>), Vec<String>>,
) -> bool {
    let outputs = pipeline_outputs(expanded);
    let edges = pipeline_edges(expanded);
    match result {
        Ok((config, found)) => {
            &&& is_valid(builder, expanded)
            &&& stands_for(expanded, config)
            &&& texts(found@) == warning_texts(config)
        },
        Err(errors) => if unresolved_errors(expanded).len() > 0 {
            texts(errors@) == early_errors(builder, expanded) + unresolved_errors(expanded)
        } else if !tests_hold(outputs, expanded.tests@) {
            exists|k: int| #[trigger]
                first_failing(outputs, expanded.tests@, k) && texts(errors@) == test_errors(
                    outputs,
                    expanded.tests@[k],
                )
        } else {
            &&& !is_valid(builder, expanded)
            &&& exists|messages: Seq<Seq<char>>| #[trigger]
                tells_cycle(edges, messages) && texts(errors@) == early_errors(builder, expanded)
                    + type_errors(edges) + messages
        },
    }
}

/// Adds the names of components to a list.
fn add_names<T>(names: &mut Vec<ComponentKey>, map: &ComponentMap<T>)
    ensures
        key_texts(final(names)@) == key_texts(old(names)@) + keys(map@),
{
    let ghost before = key_texts(names@);
    let len: usize = map.len();
    let mut i: usize = 0;
    assert(key_texts(names@) =~= before + keys(map@).take(0));
    while i < len
        invariant
            i <= len,
            len == map@.len(),
            key_texts(names@) == before + keys(map@).take(i as int),
        decreases len - i,
    {
        let ghost held = key_texts(names@);
        names.push(ComponentKey::new(map.key_at(i)));
        assert(key_texts(names@) =~= held.push(keys(map@)[i as int]));
        assert(key_texts(names@) =~= before + keys(map@).take(i + 1));
        i = i + 1;
    }
    assert(keys(map@).take(i as int) =~= keys(map@));
}

/// Adds the findings of a check to a list.
fn add_findings(errors: &mut Vec<String>, result: Result<(), Vec<String>>)
    ensures
        forall|messages: Seq<Seq<char>>| #[trigger]
            finds(result, messages) ==> texts(final(errors)@) == texts(old(errors)@) + messages,
{
    let ghost before = texts(errors@);
    match result {
        Ok(_) => {
            assert forall|messages: Seq<Seq<char>>| #[trigger] finds(result, messages) implies texts(
                errors@,
            ) == before + messages by {
                assert(before + messages =~= before);
            }
        },
        Err(found) => {
            append_texts(errors, found);
        },
    }
}

/// Runs the checks that come before the graph is built, and replaces patterns.
fn check_and_expand(builder: &mut ConfigBuilder) -> (errors: Vec<String>)
    ensures
        globs_expanded(*old(builder), *final(builder)),
        texts(errors@) == early_errors(*old(builder), *final(builder)),
{
    let mut names: Vec<ComponentKey> = Vec::new();
    assert(key_texts(names@) =~= Seq::empty());
    add_names(&mut names, &builder.transforms);
    add_names(&mut names, &builder.sources);
    add_names(&mut names, &builder.sinks);
    assert(key_texts(names@) =~= component_names(*builder));
    let mut errors: Vec<String> = Vec::new();
    assert(texts(errors@) =~= Seq::empty());
    add_findings(&mut errors, check_names(&names));
    expand_globs(builder);
    add_findings(&mut errors, check_shape(builder));
    add_findings(&mut errors, check_resources(builder));
    add_findings(&mut errors, check_outputs(builder));
    add_findings(&mut errors, check_values(builder));
    assert(texts(errors@) =~= early_errors(*old(builder), *builder));
    errors
}

fn connect_sinks(sinks: ComponentMap<SinkOuter<String>>, graph: &Graph) -> (connected: ComponentMap<
    SinkOuter<OutputId>,
>)
    ensures
        sinks_connected(sinks@, connected@, edge_models(graph.edges@)),
{
    let ghost all = sinks@;
    let ghost edges = edge_models(graph.edges@);
    let mut connected: ComponentMap<SinkOuter<OutputId>> = ComponentMap::new();
    let entries = sinks.into_entries();
    let ghost given = entries@;
    for entry in iter: entries
        invariant
            iter.seq() == given,
            entry_models(given) == all,
            distinct_keys(all),
            edges == edge_models(graph.edges@),
            sinks_connected(all.take(iter.index()), connected@, edges),
    {
        let ghost index = iter.index();
        let ghost held = connected@;
        let (key, sink) = entry;
        assert(all[index] == (key@, sink));
        assert forall|i: int| 0 <= i < connected@.len() implies (#[trigger] connected@[i]).0 != key@ by {
            assert(connected@[i].0 == all.take(index)[i].0);
            assert(all[i].0 != all[index].0);
        }
        let inputs = graph.inputs_for(key.as_str());
        connected.add(key.as_str(), sink.with_inputs(inputs));
        assert forall|i: int| 0 <= i < index implies connected@[i] == held[i] && all.take(
            index + 1,
        )[i] == all.take(index)[i] by {}
    }
    assert(all.take(given.len() as int) =~= all);
    connected
}

fn connect_transforms(transforms: ComponentMap<TransformOuter<String>>, graph: &Graph) -> (connected:
    ComponentMap<TransformOuter<OutputId>>)
    ensures
        transforms_connected(transforms@, connected@, edge_models(graph.edges@)),
{
    let ghost all = transforms@;
    let ghost edges = edge_models(graph.edges@);
    let mut connected: ComponentMap<TransformOuter<OutputId>> = ComponentMap::new();
    let entries = transforms.into_entries();
    let ghost given = entries@;
    for entry in iter: entries
        invariant
            iter.seq() == given,
            entry_models(given) == all,
            distinct_keys(all),
            edges == edge_models(graph.edges@),
            transforms_connected(all.take(iter.index()), connected@, edges),
    {
        let ghost index = iter.index();
        let ghost held = connected@;
        let (key, transform) = entry;
        assert(all[index] == (key@, transform));
        assert forall|i: int| 0 <= i < connected@.len() implies (#[trigger] connected@[i]).0 != key@ by {
            assert(connected@[i].0 == all.take(index)[i].0);
            assert(all[i].0 != all[index].0);
        }
        let inputs = graph.inputs_for(key.as_str());
        connected.add(key.as_str(), transform.with_inputs(inputs));
        assert forall|i: int| 0 <= i < index implies connected@[i] == held[i] && all.take(
            index + 1,
        )[i] == all.take(index)[i] by {}
    }
    assert(all.take(given.len() as int) =~= all);
    connected
}

fn connect_tables(tables: ComponentMap<EnrichmentTableOuter<String>>, graph: &Graph) -> (connected:
    ComponentMap<EnrichmentTableOuter<OutputId>>)
    ensures
        tables_connected(tables@, connected@, edge_models(graph.edges@)),
{
    let ghost all = tables@;
    let ghost edges = edge_models(graph.edges@);
    let mut connected: ComponentMap<EnrichmentTableOuter<OutputId>> = ComponentMap::new();
    let entries = tables.into_entries();
    let ghost given = entries@;
    for entry in iter: entries
        invariant
            iter.seq() == given,
            entry_models(given) == all,
            distinct_keys(all),
            edges == edge_models(graph.edges@),
            tables_connected(all.take(iter.index()), connected@, edges),
    {
        let ghost index = iter.index();
        let ghost held = connected@;
        let (key, table) = entry;
        assert(all[index] == (key@, table));
        assert forall|i: int| 0 <= i < connected@.len() implies (#[trigger] connected@[i]).0 != key@ by {
            assert(connected@[i].0 == all.take(index)[i].0);
            assert(all[i].0 != all[index].0);
        }
        let inputs = graph.inputs_for(key.as_str());
        connected.add(key.as_str(), table.with_inputs(inputs));
        assert forall|i: int| 0 <= i < index implies connected@[i] == held[i] && all.take(
            index + 1,
        )[i] == all.take(index)[i] by {}
    }
    assert(all.take(given.len() as int) =~= all);
    connected
}

/// Looks up the outputs that tests name, up to the first test that fails.
fn resolve_tests(tests: Vec<TestDefinition<String>>, graph: &Graph) -> (result: Result<
    Vec<TestDefinition<OutputId>>,
    Vec<String>,
>)
    ensures
        match result {
            Ok(resolved) => tests_hold(output_infos(graph.outputs@), tests@) && tests_resolved(
                output_infos(graph.outputs@),
                tests@,
                resolved@,
            ),
            Err(errors) => exists|k: int| #[trigger]
                first_failing(output_infos(graph.outputs@), tests@, k) && texts(errors@)
                    == test_errors(output_infos(graph.outputs@), tests@[k]),
        },
{
    let ghost outputs = output_infos(graph.outputs@);
    let ghost all = tests@;
    let mut resolved: Vec<TestDefinition<OutputId>> = Vec::new();
    for test in iter: tests
        invariant
            iter.seq() == all,
            outputs == output_infos(graph.outputs@),
            resolved@.len() == iter.index(),
            forall|j: int|
                0 <= j < iter.index() ==> test_errors(outputs, #[trigger] all[j]).len() == 0,
            forall|j: int|
                0 <= j < iter.index() ==> test_resolved(outputs, all[j], #[trigger] resolved@[j]),
    {
        let ghost index = iter.index();
        assert(all[index] == test);
        match test.resolve_outputs(graph) {
            Ok(done) => {
                resolved.push(done);
            },
            Err(errors) => {
                proof {
                    assert(texts(errors@).len() == errors@.len());
                    assert(first_failing(outputs, all, index));
                }
                return Err(errors);
            },
        }
    }
    Ok(resolved)
}

/// Compiles a configuration: replaces patterns in inputs, checks everything,
/// and connects the components. Where all is well, gives the configuration and
/// warnings on outputs that feed nothing.
pub fn compile(builder: ConfigBuilder) -> (result: Result<(Config, Vec<String>), Vec<String>>)
    ensures
        exists|expanded: ConfigBuilder| #[trigger]
            globs_expanded(builder, expanded) && compiles_to(builder, expanded, result),
{
    let ghost given = builder;
    let mut builder = builder;
    let mut errors = check_and_expand(&mut builder);
    let ghost expanded = builder;
    let ghost edges = pipeline_edges(expanded);
    let ghost outputs = pipeline_outputs(expanded);
    let matching = match builder.global.wildcard_matching {
        Some(matching) => matching,
        None => WildcardMatching::Strict,
    };
    let graph = match Graph::new(
        &builder.sources,
        &builder.transforms,
        &builder.sinks,
        &builder.enrichment_tables,
        builder.schema.log_namespace(),
        matching,
    ) {
        Ok(graph) => graph,
        Err(graph_errors) => {
            append_texts(&mut errors, graph_errors);
            return Err(errors);
        },
    };
    add_findings(&mut errors, graph.typecheck());
    let ghost before = texts(errors@);
    let ghost mut messages: Seq<Seq<char>> = Seq::empty();
    match graph.check_for_cycles() {
        Ok(_) => {
            assert(before + messages =~= before);
        },
        Err(message) => {
            proof {
                let path = choose|path: Seq<int>| #[trigger]
                    is_cycle(edges, path) && message@ == cycle_message(edges, path);
                cycle_rules_out_ranks(edges, path);
                messages = seq![cycle_message(edges, path)];
            }
            push_text(&mut errors, message);
            assert(texts(errors@) =~= before + messages);
        },
    }
    assert(tells_cycle(edges, messages));
    let ConfigBuilder {
        global,
        schema,
        healthchecks,
        enrichment_tables,
        sources,
        sinks,
        transforms,
        tests,
        provider: _,
        secret,
        graceful_shutdown_duration,
        allow_empty: _,
    } = builder;
    let sinks = connect_sinks(sinks, &graph);
    let transforms = connect_transforms(transforms, &graph);
    let enrichment_tables = connect_tables(enrichment_tables, &graph);
    let tests = match resolve_tests(tests, &graph) {
        Ok(tests) => tests,
        Err(test_failures) => {
            proof {
                let k = choose|k: int| #[trigger]
                    first_failing(outputs, expanded.tests@, k) && texts(test_failures@)
                        == test_errors(outputs, expanded.tests@[k]);
                assert(!tests_hold(outputs, expanded.tests@)) by {
                    assert(test_errors(outputs, expanded.tests@[k]).len() > 0);
                }
            }
            return Err(test_failures);
        },
    };
    assert(texts(errors@).len() == errors@.len());
    if errors.len() == 0 {
        let mut config = Config {
            global,
            schema,
            healthchecks,
            enrichment_tables,
            sources,
            sinks,
            transforms,
            tests,
            secret,
            graceful_shutdown_duration,
        };
        config.propagate_acknowledgements();
        let found = warnings(&config);
        assert(stands_for(expanded, config));
        Ok((config, found))
    } else {
        Err(errors)
    }
}

/// A configuration compiles just where nothing is wrong with it.
pub proof fn valid_configurations_compile(
    builder: ConfigBuilder,
    expanded: ConfigBuilder,
    result: Result<(Config, Vec<String>), Vec<String>>,
)
    requires
        compiles_to(builder, expanded, result),
    ensures
        result is Ok <==> is_valid(builder, expanded),
        result is Err ==> result->Err_0@.len() > 0,
{
    if result is Err {
        let errors = result->Err_0;
        let outputs = pipeline_outputs(expanded);
        let edges = pipeline_edges(expanded);
        assert(texts(errors@).len() == errors@.len());
        if unresolved_errors(expanded).len() == 0 && tests_hold(outputs, expanded.tests@) {
            let messages = choose|messages: Seq<Seq<char>>| #[trigger]
                tells_cycle(edges, messages) && texts(errors@) == early_errors(builder, expanded)
                    + type_errors(edges) + messages;
            if !acyclic(edges) {
                assert(messages.len() == 1);
            }
        }
    }
}

/// Whether all inputs of a component are outputs of the pipeline.
pub open spec fn inputs_are_outputs(outputs: Seq<OutputInfo>, inputs: Seq<OutputId>) -> bool {
    forall|k: int| 0 <= k < inputs.len() ==> is_output(outputs, (#[trigger] inputs[k])@)
}

/// In a compiled configuration every input of a transform, a sink or an
/// enrichment table is an output of a source or a transform.
pub proof fn compiled_inputs_are_outputs(
    builder: ConfigBuilder,
    expanded: ConfigBuilder,
    config: Config,
    found: Vec<String>,
)
    requires
        compiles_to(builder, expanded, Ok((config, found))),
    ensures
        forall|i: int|
            0 <= i < config.transforms@.len() ==> inputs_are_outputs(
                pipeline_outputs(expanded),
                (#[trigger] config.transforms@[i]).1.inputs@,
            ),
        forall|i: int|
            0 <= i < config.sinks@.len() ==> inputs_are_outputs(
                pipeline_outputs(expanded),
                (#[trigger] config.sinks@[i]).1.inputs@,
            ),
        forall|i: int|
            0 <= i < config.enrichment_tables@.len() ==> inputs_are_outputs(
                pipeline_outputs(expanded),
                (#[trigger] config.enrichment_tables@[i]).1.inputs@,
            ),
{
    let outputs = pipeline_outputs(expanded);
    let edges = pipeline_edges(expanded);
    edges_start_at_outputs(
        outputs,
        expanded.transforms@,
        all_sinks(expanded.sinks@, expanded.enrichment_tables@),
    );
    assert forall|i: int| 0 <= i < config.transforms@.len() implies inputs_are_outputs(
        outputs,
        (#[trigger] config.transforms@[i]).1.inputs@,
    ) by {
        fed_inputs_are_outputs(
            outputs,
            edges,
            expanded.transforms@[i].0,
            config.transforms@[i].1.inputs@,
        );
    }
    assert forall|i: int| 0 <= i < config.sinks@.len() implies inputs_are_outputs(
        outputs,
        (#[trigger] config.sinks@[i]).1.inputs@,
    ) by {
        fed_inputs_are_outputs(outputs, edges, expanded.sinks@[i].0, config.sinks@[i].1.inputs@);
    }
    assert forall|i: int| 0 <= i < config.enrichment_tables@.len() implies inputs_are_outputs(
        outputs,
        (#[trigger] config.enrichment_tables@[i]).1.inputs@,
    ) by {
        fed_inputs_are_outputs(
            outputs,
            edges,
            expanded.enrichment_tables@[i].0,
            config.enrichment_tables@[i].1.inputs@,
        );
    }
}

proof fn fed_inputs_are_outputs(
    outputs: Seq<OutputInfo>,
    edges: Seq<EdgeModel>,
    key: Seq<char>,
    inputs: Seq<OutputId>,
)
    requires
        forall|k: int| 0 <= k < edges.len() ==> starts_at(outputs, #[trigger] edges[k]),
        output_names(inputs) == feeding(edges, key),
    ensures
        inputs_are_outputs(outputs, inputs),
{
    fed_by_outputs(outputs, edges, key);
    assert forall|k: int| 0 <= k < inputs.len() implies is_output(outputs, (#[trigger] inputs[k])@) by {
        assert(output_names(inputs)[k] == inputs[k]@);
        assert(is_output(outputs, feeding(edges, key)[k]));
    }
}

/// Whether no source, transform or sink has a dot in its name.
pub open spec fn well_named(builder: ConfigBuilder) -> bool {
    &&& forall|i: int, k: int|
        0 <= i < builder.sources@.len() && 0 <= k < builder.sources@[i].0.len()
            ==> #[trigger] builder.sources@[i].0[k] != '.'
    &&& forall|i: int, k: int|
        0 <= i < builder.transforms@.len() && 0 <= k < builder.transforms@[i].0.len()
            ==> #[trigger] builder.transforms@[i].0[k] != '.'
    &&& forall|i: int, k: int|
        0 <= i < builder.sinks@.len() && 0 <= k < builder.sinks@[i].0.len()
            ==> #[trigger] builder.sinks@[i].0[k] != '.'
}

/// Whether there are sources and sinks, or need be none, no two components have
/// the same name, and each transform and each sink has inputs and lists none of
/// them twice.
pub open spec fn well_shaped(expanded: ConfigBuilder) -> bool {
    &&& expanded.allow_empty || (expanded.sources@.len() > 0 && expanded.sinks@.len() > 0)
    &&& forall|i: int, j: int|
        0 <= i < expanded.sources@.len() && 0 <= j < expanded.transforms@.len() ==> (
        #[trigger] expanded.sources@[i]).0 != (#[trigger] expanded.transforms@[j]).0
    &&& forall|i: int, j: int|
        0 <= i < expanded.sources@.len() && 0 <= j < expanded.sinks@.len() ==> (
        #[trigger] expanded.sources@[i]).0 != (#[trigger] expanded.sinks@[j]).0
    &&& forall|i: int, j: int|
        0 <= i < expanded.transforms@.len() && 0 <= j < expanded.sinks@.len() ==> (
        #[trigger] expanded.transforms@[i]).0 != (#[trigger] expanded.sinks@[j]).0
    &&& forall|i: int|
        0 <= i < expanded.sinks@.len() ==> (#[trigger] expanded.sinks@[i]).1.inputs@.len() > 0
    &&& forall|i: int|
        0 <= i < expanded.transforms@.len() ==> (
        #[trigger] expanded.transforms@[i]).1.inputs@.len() > 0
    &&& forall|i: int, a: int, b: int|
        0 <= i < expanded.sinks@.len() && 0 <= a < b < expanded.sinks@[i].1.inputs@.len() ==> (
        #[trigger] expanded.sinks@[i].1.inputs@[a])@ != (
        #[trigger] expanded.sinks@[i].1.inputs@[b])@
    &&& forall|i: int, a: int, b: int|
        0 <= i < expanded.transforms@.len() && 0 <= a < b
            < expanded.transforms@[i].1.inputs@.len() ==> (
        #[trigger] expanded.transforms@[i].1.inputs@[a])@ != (
        #[trigger] expanded.transforms@[i].1.inputs@[b])@
}

/// Whether no two components need resources that cannot both be had, no transform
/// finds fault with its settings, no output has the name that is kept for the
/// default one, and all numbers are in range.
pub open spec fn well_set(expanded: ConfigBuilder) -> bool {
    &&& forall|a: Seq<char>, b: Seq<char>, first: ResourceModel, second: ResourceModel|
        #![trigger needs(expanded, a, first), needs(expanded, b, second)]
        needs(expanded, a, first) && needs(expanded, b, second) && a != b ==> !resources_clash(
            first,
            second,
        )
    &&& forall|i: int|
        0 <= i < expanded.transforms@.len() ==> (
        #[trigger] expanded.transforms@[i]).1.inner.validation_errors@.len() == 0
    &&& forall|i: int, o: int|
        0 <= i < expanded.sources@.len() ==> !#[trigger] source_takes_kept_name(expanded, i, o)
    &&& forall|i: int, o: int|
        0 <= i < expanded.transforms@.len() ==> !#[trigger] transform_takes_kept_name(
            expanded,
            i,
            o,
        )
    &&& expanded.global.buffer_utilization_ewma_half_life_seconds matches Some(half_life) ==> 0
        < half_life.number.bits <= 0x7FF0_0000_0000_0000u64
    &&& expanded.global.latency_ewma_alpha matches Some(alpha) ==> 0 < alpha.number.bits
        < 0x3FF0_0000_0000_0000u64
}

/// Whether an output belongs to a pipeline.
pub open spec fn gives_out(expanded: ConfigBuilder, output: OutputInfo) -> bool {
    has_output(
        expanded.sources@,
        expanded.transforms@,
        expanded.enrichment_tables@,
        if expanded.schema.log_namespace == Some(true) {
            LogNamespace::Vector
        } else {
            LogNamespace::Legacy
        },
        output,
    )
}

/// Whether a component of a pipeline takes events under a name, with these inputs
/// and these types of events.
pub open spec fn takes_in(
    expanded: ConfigBuilder,
    name: Seq<char>,
    inputs: Seq<String>,
    types: DataType,
) -> bool {
    takes_events(
        expanded.transforms@,
        expanded.sinks@,
        expanded.enrichment_tables@,
        name,
        inputs,
        types,
    )
}

/// Whether a text is that of an output of a pipeline.
pub open spec fn is_text_of_output(expanded: ConfigBuilder, text: Seq<char>) -> bool {
    exists|output: OutputInfo| #[trigger] gives_out(expanded, output) && reads_as(output, text)
}

/// Whether every input is the text of an output, or, where that is allowed, has a
/// character of patterns; and whether all that tests name are texts of outputs.
pub open spec fn well_connected(expanded: ConfigBuilder) -> bool {
    &&& forall|name: Seq<char>, inputs: Seq<String>, types: DataType, k: int|
        #![trigger takes_in(expanded, name, inputs, types), inputs[k]]
        takes_in(expanded, name, inputs, types) && 0 <= k < inputs.len() ==> is_text_of_output(
            expanded,
            inputs[k]@,
        ) || (expanded.global.wildcard_matching == Some(WildcardMatching::Relaxed) && (
        inputs[k]@.contains('?') || inputs[k]@.contains('*') || inputs[k]@.contains('[')
            || inputs[k]@.contains(']')))
    &&& forall|t: int, k: int|
        0 <= t < expanded.tests@.len() && 0 <= k < expanded.tests@[t].extract_from@.len()
            ==> is_text_of_output(expanded, (#[trigger] expanded.tests@[t].extract_from@[k])@)
    &&& forall|t: int, k: int|
        0 <= t < expanded.tests@.len() && 0 <= k < expanded.tests@[t].no_outputs_from@.len()
            ==> is_text_of_output(expanded, (#[trigger] expanded.tests@[t].no_outputs_from@[k])@)
}

/// Whether two streams share log entries, measurements or trace spans.
pub open spec fn share_a_type(a: DataType, b: DataType) -> bool {
    (a.log && b.log) || (a.metric && b.metric) || (a.trace && b.trace)
}

/// Whether every component shares a type of events with all outputs that its
/// inputs may mean, and components can be ranked so that each ranks above all
/// whose outputs these are.
pub open spec fn well_fed(expanded: ConfigBuilder, rank: spec_fn(Seq<char>) -> nat) -> bool {
    forall|name: Seq<char>, inputs: Seq<String>, types: DataType, k: int, output: OutputInfo|
        #![trigger takes_in(expanded, name, inputs, types), reads_as(output, inputs[k]@)]
        takes_in(expanded, name, inputs, types) && 0 <= k < inputs.len() && gives_out(
            expanded,
            output,
        ) && reads_as(output, inputs[k]@) ==> share_a_type(output.1, types) && rank(output.0.0)
            < rank(name)
}

/// The namespace that a configuration chooses.
proof fn namespace_is_chosen(expanded: ConfigBuilder)
    ensures
        chosen_namespace(None, expanded.schema.log_namespace) == (
        if expanded.schema.log_namespace == Some(true) {
            LogNamespace::Vector
        } else {
            LogNamespace::Legacy
        }),
{
}

/// There is no early message just where names, shape and settings are as they
/// should be.
proof fn early_checks_pass(builder: ConfigBuilder, expanded: ConfigBuilder)
    ensures
        early_errors(builder, expanded).len() == 0 <==> well_named(builder) && well_shaped(expanded)
            && well_set(expanded),
{
    let names = component_names(builder);
    names_have_no_dots(names);
    let n = builder.transforms@.len();
    let m = builder.sources@.len();
    assert(name_errors(names).len() == 0 <==> well_named(builder)) by {
        if name_errors(names).len() == 0 {
            assert forall|i: int, k: int|
                0 <= i < builder.sources@.len() && 0 <= k < builder.sources@[i].0.len()
                    implies #[trigger] builder.sources@[i].0[k] != '.' by {
                assert(names[n + i][k] != '.');
            }
            assert forall|i: int, k: int|
                0 <= i < builder.transforms@.len() && 0 <= k < builder.transforms@[i].0.len()
                    implies #[trigger] builder.transforms@[i].0[k] != '.' by {
                assert(names[i][k] != '.');
            }
            assert forall|i: int, k: int|
                0 <= i < builder.sinks@.len() && 0 <= k < builder.sinks@[i].0.len()
                    implies #[trigger] builder.sinks@[i].0[k] != '.' by {
                assert(names[n + m + i][k] != '.');
            }
        }
        if well_named(builder) {
            assert forall|i: int, k: int|
                0 <= i < names.len() && 0 <= k < names[i].len() implies #[trigger] names[i][k]
                != '.' by {
                if i < n {
                    assert(builder.transforms@[i].0[k] != '.');
                } else if i < n + m {
                    assert(builder.sources@[i - n].0[k] != '.');
                } else {
                    assert(builder.sinks@[i - n - m].0[k] != '.');
                }
            }
        }
    }
    assert(shape_errors(expanded).len() == 0 <==> well_shaped(expanded)) by {
        shapes_are_sound(expanded);
    }
    assert(resource_errors(all_claims(expanded)).len() == 0 && output_errors(expanded).len() == 0
        && value_errors(expanded).len() == 0 <==> well_set(expanded)) by {
        resources_are_had_alone(expanded);
        outputs_have_free_names(expanded);
        numbers_are_in_range(expanded);
    }
}

/// Inputs and tests pass just where they are connected as they should be.
proof fn connections_pass(expanded: ConfigBuilder)
    requires
        distinct_keys(expanded.sources@),
        distinct_keys(expanded.sinks@),
    ensures
        unresolved_errors(expanded).len() == 0 && tests_hold(
            pipeline_outputs(expanded),
            expanded.tests@,
        ) <==> well_connected(expanded),
{
    let namespace = chosen_namespace(None, expanded.schema.log_namespace);
    let outputs = pipeline_outputs(expanded);
    namespace_is_chosen(expanded);
    assert forall|output: OutputInfo| #[trigger] gives_out(expanded, output) <==> outputs.contains(output) by {
        outputs_belong(
            expanded.sources@,
            expanded.transforms@,
            expanded.enrichment_tables@,
            namespace,
            output,
        );
    }
    assert forall|text: Seq<char>| #[trigger] is_text_of_output(expanded, text) <==> exists|i: int|
        0 <= i < outputs.len() && reads_as(#[trigger] outputs[i], text) by {
        if is_text_of_output(expanded, text) {
            let output = choose|output: OutputInfo| #[trigger]
                gives_out(expanded, output) && reads_as(output, text);
            let i = choose|i: int| 0 <= i < outputs.len() && outputs[i] == output;
            assert(reads_as(outputs[i], text));
        }
        if exists|i: int| 0 <= i < outputs.len() && reads_as(#[trigger] outputs[i], text) {
            let i = choose|i: int| 0 <= i < outputs.len() && reads_as(#[trigger] outputs[i], text);
            assert(outputs.contains(outputs[i]));
            assert(gives_out(expanded, outputs[i]));
        }
    }
    unresolved_inputs_are_refused(
        expanded.sources@,
        expanded.transforms@,
        expanded.sinks@,
        expanded.enrichment_tables@,
        namespace,
        wildcards(expanded),
    );
    let stands = |input: Seq<char>|
        input_stands(
            expanded.sources@,
            expanded.transforms@,
            expanded.enrichment_tables@,
            namespace,
            wildcards(expanded),
            input,
        );
    assert forall|input: Seq<char>| #[trigger] stands(input) <==> is_text_of_output(expanded, input)
        || (expanded.global.wildcard_matching == Some(WildcardMatching::Relaxed) && (
    input.contains('?') || input.contains('*') || input.contains('[') || input.contains(']'))) by {
        if exists|output: OutputInfo| #[trigger]
            has_output(
                expanded.sources@,
                expanded.transforms@,
                expanded.enrichment_tables@,
                namespace,
                output,
            ) && reads_as(output, input) {
            let output = choose|output: OutputInfo| #[trigger]
                has_output(
                    expanded.sources@,
                    expanded.transforms@,
                    expanded.enrichment_tables@,
                    namespace,
                    output,
                ) && reads_as(output, input);
            assert(gives_out(expanded, output));
        }
        if is_text_of_output(expanded, input) {
            let output = choose|output: OutputInfo| #[trigger]
                gives_out(expanded, output) && reads_as(output, input);
            assert(has_output(
                expanded.sources@,
                expanded.transforms@,
                expanded.enrichment_tables@,
                namespace,
                output,
            ));
        }
    }
    let inputs_stand = forall|name: Seq<char>, inputs: Seq<String>, types: DataType, k: int|
        #![trigger takes_in(expanded, name, inputs, types), inputs[k]]
        takes_in(expanded, name, inputs, types) && 0 <= k < inputs.len() ==> stands(inputs[k]@);
    assert(inputs_stand <==> unresolved_errors(expanded).len() == 0) by {
        if unresolved_errors(expanded).len() == 0 {
            assert forall|name: Seq<char>, inputs: Seq<String>, types: DataType, k: int|
                #![trigger takes_in(expanded, name, inputs, types), inputs[k]]
                takes_in(expanded, name, inputs, types) && 0 <= k < inputs.len() implies stands(
                inputs[k]@,
            ) by {
                if !has_sink(expanded.sinks@, expanded.enrichment_tables@, name, inputs, types) {
                    let i = choose|i: int|
                        0 <= i < expanded.transforms@.len() && (
                        #[trigger] expanded.transforms@[i]).0 == name
                            && expanded.transforms@[i].1.inputs@ == inputs
                            && expanded.transforms@[i].1.inner.input.data_type == types;
                    assert(expanded.transforms@[i].1.inputs@[k] == inputs[k]);
                }
            }
        }
        if inputs_stand {
            assert forall|i: int, k: int|
                0 <= i < expanded.transforms@.len() && 0 <= k
                    < expanded.transforms@[i].1.inputs@.len() implies stands(
                (#[trigger] expanded.transforms@[i].1.inputs@[k])@,
            ) by {
                assert(takes_in(
                    expanded,
                    expanded.transforms@[i].0,
                    expanded.transforms@[i].1.inputs@,
                    expanded.transforms@[i].1.inner.input.data_type,
                ));
            }
            assert forall|name: Seq<char>, inputs: Seq<String>, types: DataType, k: int|
                #![trigger has_sink(expanded.sinks@, expanded.enrichment_tables@, name, inputs, types), inputs[k]]
                has_sink(expanded.sinks@, expanded.enrichment_tables@, name, inputs, types) && 0
                    <= k < inputs.len() implies stands(inputs[k]@) by {
                assert(takes_in(expanded, name, inputs, types));
            }
        }
    }
    let tests_fit = (forall|t: int, k: int|
        0 <= t < expanded.tests@.len() && 0 <= k < expanded.tests@[t].extract_from@.len()
            ==> is_text_of_output(expanded, (#[trigger] expanded.tests@[t].extract_from@[k])@)) && (
    forall|t: int, k: int|
        0 <= t < expanded.tests@.len() && 0 <= k < expanded.tests@[t].no_outputs_from@.len()
            ==> is_text_of_output(expanded, (#[trigger] expanded.tests@[t].no_outputs_from@[k])@));
    assert(tests_fit <==> tests_hold(outputs, expanded.tests@)) by {
        assert forall|t: int| 0 <= t < expanded.tests@.len() implies (test_errors(
            outputs,
            #[trigger] expanded.tests@[t],
        ).len() == 0 <==> (forall|k: int|
            0 <= k < expanded.tests@[t].extract_from@.len() ==> is_text_of_output(
                expanded,
                (#[trigger] expanded.tests@[t].extract_from@[k])@,
            )) && (forall|k: int|
            0 <= k < expanded.tests@[t].no_outputs_from@.len() ==> is_text_of_output(
                expanded,
                (#[trigger] expanded.tests@[t].no_outputs_from@[k])@,
            ))) by {
            test_names_outputs(outputs, expanded.tests@[t]);
        }
        if tests_fit {
            assert forall|t: int| 0 <= t < expanded.tests@.len() implies test_errors(
                outputs,
                #[trigger] expanded.tests@[t],
            ).len() == 0 by {}
        }
    }
}

/// Edges pass where components are fed as they should be.
proof fn edges_pass(expanded: ConfigBuilder, rank: spec_fn(Seq<char>) -> nat)
    requires
        distinct_keys(expanded.sources@),
        distinct_keys(expanded.sinks@),
        well_fed(expanded, rank),
    ensures
        type_errors(pipeline_edges(expanded)).len() == 0,
        acyclic(pipeline_edges(expanded)),
{
    let namespace = chosen_namespace(None, expanded.schema.log_namespace);
    let edges = pipeline_edges(expanded);
    namespace_is_chosen(expanded);
    edges_belong(
        expanded.sources@,
        expanded.transforms@,
        expanded.sinks@,
        expanded.enrichment_tables@,
        namespace,
        all_sinks(expanded.sinks@, expanded.enrichment_tables@),
    );
    typechecked_edges_meet(edges);
    assert forall|i: int| 0 <= i < edges.len() implies share_a_type(
        (#[trigger] edges[i]).from_type,
        edges[i].to_type,
    ) && rank(edges[i].from.0) < rank(edges[i].to) by {
        let edge = edges[i];
        assert(edges.contains(edge));
        let output = (edge.from, edge.from_type);
        let (inputs, k) = choose|inputs: Seq<String>, k: int|
            #![trigger takes_events(
                expanded.transforms@,
                expanded.sinks@,
                expanded.enrichment_tables@,
                edge.to,
                inputs,
                edge.to_type,
            ), inputs[k]]
            takes_events(
                expanded.transforms@,
                expanded.sinks@,
                expanded.enrichment_tables@,
                edge.to,
                inputs,
                edge.to_type,
            ) && 0 <= k < inputs.len() && reads_as(output, inputs[k]@);
        assert(takes_in(expanded, edge.to, inputs, edge.to_type));
        assert(gives_out(expanded, output));
    }
    assert forall|i: int| 0 <= i < edges.len() implies (#[trigger] edges[i]).from_type.meets(
        edges[i].to_type,
    ) by {
        assert(share_a_type(edges[i].from_type, edges[i].to_type));
    }
    assert(ranks(edges, rank));
}

/// What compiling gives once patterns have been replaced: a configuration where the
/// one that is given is sound.
pub proof fn sound_ones_compile(
    builder: ConfigBuilder,
    expanded: ConfigBuilder,
    result: Result<(Config, Vec<String>), Vec<String>>,
    rank: spec_fn(Seq<char>) -> nat,
)
    requires
        globs_expanded(builder, expanded),
        compiles_to(builder, expanded, result),
        distinct_keys(builder.sources@),
        distinct_keys(builder.sinks@),
        well_named(builder),
        well_shaped(expanded),
        well_set(expanded),
        well_connected(expanded),
        well_fed(expanded, rank),
    ensures
        result is Ok,
{
    expansion_keeps_names(builder, expanded);
    early_checks_pass(builder, expanded);
    connections_pass(expanded);
    edges_pass(expanded, rank);
    valid_configurations_compile(builder, expanded, result);
}

/// A configuration compiles where its names, shape and settings are as they should
/// be, every input and every test names an output, every component shares a type
/// of events with what feeds it, and nothing is fed, through others, by itself.
pub proof fn sound_configurations_compile(
    builder: ConfigBuilder,
    result: Result<(Config, Vec<String>), Vec<String>>,
    rank: spec_fn(Seq<char>) -> nat,
)
    requires
        call_ensures(compile, (builder,), result),
        distinct_keys(builder.sources@),
        distinct_keys(builder.sinks@),
    ensures
        exists|expanded: ConfigBuilder| #[trigger]
            globs_expanded(builder, expanded) && (well_named(builder) && well_shaped(expanded)
                && well_set(expanded) && well_connected(expanded) && well_fed(expanded, rank)
                ==> result is Ok),
{
    let expanded = choose|expanded: ConfigBuilder| #[trigger]
        globs_expanded(builder, expanded) && compiles_to(builder, expanded, result);
    if well_named(builder) && well_shaped(expanded) && well_set(expanded) && well_connected(
        expanded,
    ) && well_fed(expanded, rank) {
        sound_ones_compile(builder, expanded, result, rank);
    }
}

/// Replacing patterns keeps the names of sources and sinks.
proof fn expansion_keeps_names(builder: ConfigBuilder, expanded: ConfigBuilder)
    requires
        globs_expanded(builder, expanded),
        distinct_keys(builder.sources@),
        distinct_keys(builder.sinks@),
    ensures
        distinct_keys(expanded.sources@),
        distinct_keys(expanded.sinks@),
{
    assert forall|i: int, j: int| 0 <= i < j < expanded.sinks@.len() implies #[trigger] expanded.sinks@[i].0
        != #[trigger] expanded.sinks@[j].0 by {
        assert(builder.sinks@[i].0 != builder.sinks@[j].0);
    }
}

/// Whether an identifier has the given text: the name of its component, or, where
/// it has a port, both names with a dot between them.
pub open spec fn id_reads_as(id: OutputId, text: Seq<char>) -> bool {
    match id.port {
        None => text == id.component@,
        Some(port) => text == id.component@ + "."@ + port@,
    }
}

/// Whether a component is fed by what its inputs name. Each of its inputs is an
/// output of the pipeline whose text the configuration has among the inputs of a
/// component of its name, shares a type of events with that component, and belongs
/// to a component that ranks below it. And each input of such a component that is
/// the text of an output is there.
pub open spec fn fed_as_named(
    expanded: ConfigBuilder,
    rank: spec_fn(Seq<char>) -> nat,
    name: Seq<char>,
    ids: Seq<OutputId>,
) -> bool {
    &&& forall|k: int|
        0 <= k < ids.len() ==> rank((#[trigger] ids[k]).component@) < rank(name) && exists|
            output: OutputInfo,
            inputs: Seq<String>,
            types: DataType,
            m: int,
        |
            #![trigger takes_in(expanded, name, inputs, types), reads_as(output, inputs[m]@)]
            gives_out(expanded, output) && takes_in(expanded, name, inputs, types) && 0 <= m
                < inputs.len() && reads_as(output, inputs[m]@) && id_reads_as(ids[k], inputs[m]@)
                && ids[k].component@ == output.0.0 && share_a_type(output.1, types)
    &&& forall|inputs: Seq<String>, types: DataType, m: int|
        #![trigger takes_in(expanded, name, inputs, types), inputs[m]]
        takes_in(expanded, name, inputs, types) && 0 <= m < inputs.len() && is_text_of_output(
            expanded,
            inputs[m]@,
        ) ==> exists|k: int| 0 <= k < ids.len() && id_reads_as(#[trigger] ids[k], inputs[m]@)
}

/// What edges feed a component is what its inputs name.
proof fn edges_feed_as_named(
    expanded: ConfigBuilder,
    rank: spec_fn(Seq<char>) -> nat,
    name: Seq<char>,
    ids: Seq<OutputId>,
)
    requires
        distinct_keys(expanded.sources@),
        distinct_keys(expanded.sinks@),
        output_names(ids) == feeding(pipeline_edges(expanded), name),
        type_errors(pipeline_edges(expanded)).len() == 0,
        ranks(pipeline_edges(expanded), rank),
    ensures
        fed_as_named(expanded, rank, name, ids),
{
    let namespace = chosen_namespace(None, expanded.schema.log_namespace);
    let edges = pipeline_edges(expanded);
    let f = |i: int|
        if edges[i].to == name {
            seq![edges[i].from]
        } else {
            Seq::empty()
        };
    let names = output_names(ids);
    assert(names == gather(edges.len(), f));
    namespace_is_chosen(expanded);
    typechecked_edges_meet(edges);
    edges_belong(
        expanded.sources@,
        expanded.transforms@,
        expanded.sinks@,
        expanded.enrichment_tables@,
        namespace,
        all_sinks(expanded.sinks@, expanded.enrichment_tables@),
    );
    assert forall|k: int| 0 <= k < ids.len() implies rank((#[trigger] ids[k]).component@) < rank(name)
        && exists|output: OutputInfo, inputs: Seq<String>, types: DataType, m: int|
        #![trigger takes_in(expanded, name, inputs, types), reads_as(output, inputs[m]@)]
        gives_out(expanded, output) && takes_in(expanded, name, inputs, types) && 0 <= m
            < inputs.len() && reads_as(output, inputs[m]@) && id_reads_as(ids[k], inputs[m]@)
            && ids[k].component@ == output.0.0 && share_a_type(output.1, types) by {
        assert(names[k] == ids[k]@);
        assert(names.contains(ids[k]@));
        gathered(edges.len(), f, ids[k]@);
        let i = choose|i: int| 0 <= i < edges.len() && (#[trigger] f(i)).contains(ids[k]@);
        let edge = edges[i];
        assert(edge.to == name && edge.from == ids[k]@);
        assert(edges.contains(edge));
        assert(rank(edge.from.0) < rank(edge.to));
        assert(edge.from_type.meets(edge.to_type));
        let output = (edge.from, edge.from_type);
        let (inputs, m) = choose|inputs: Seq<String>, m: int|
            #![trigger takes_events(
                expanded.transforms@,
                expanded.sinks@,
                expanded.enrichment_tables@,
                edge.to,
                inputs,
                edge.to_type,
            ), inputs[m]]
            takes_events(
                expanded.transforms@,
                expanded.sinks@,
                expanded.enrichment_tables@,
                edge.to,
                inputs,
                edge.to_type,
            ) && 0 <= m < inputs.len() && reads_as(output, inputs[m]@);
        assert(takes_in(expanded, name, inputs, edge.to_type));
        assert(gives_out(expanded, output));
        assert(reads_as(output, inputs[m]@));
    }
    assert forall|inputs: Seq<String>, types: DataType, m: int|
        #![trigger takes_in(expanded, name, inputs, types), inputs[m]]
        takes_in(expanded, name, inputs, types) && 0 <= m < inputs.len() && is_text_of_output(
            expanded,
            inputs[m]@,
        ) implies exists|k: int| 0 <= k < ids.len() && id_reads_as(#[trigger] ids[k], inputs[m]@) by {
        let output = choose|output: OutputInfo| #[trigger]
            gives_out(expanded, output) && reads_as(output, inputs[m]@);
        assert(takes_events(
            expanded.transforms@,
            expanded.sinks@,
            expanded.enrichment_tables@,
            name,
            inputs,
            types,
        ));
        let edge = choose|edge: EdgeModel| #[trigger]
            edges.contains(edge) && edge.to == name && edge.to_type == types && reads_as(
                (edge.from, edge.from_type),
                inputs[m]@,
            );
        let i = choose|i: int| 0 <= i < edges.len() && edges[i] == edge;
        assert(f(i)[0] == edge.from);
        assert(f(i).contains(edge.from));
        gathered(edges.len(), f, edge.from);
        let k = choose|k: int| 0 <= k < names.len() && names[k] == edge.from;
        assert(ids[k]@ == edge.from);
        assert(id_reads_as(ids[k], inputs[m]@));
    }
}

/// Whether all transforms, sinks and tables are fed by what their inputs name.
pub open spec fn all_fed(
    expanded: ConfigBuilder,
    rank: spec_fn(Seq<char>) -> nat,
    config: Config,
) -> bool {
    &&& forall|i: int|
        0 <= i < config.transforms@.len() ==> fed_as_named(
            expanded,
            rank,
            (#[trigger] config.transforms@[i]).0,
            config.transforms@[i].1.inputs@,
        )
    &&& forall|i: int|
        0 <= i < config.sinks@.len() ==> fed_as_named(
            expanded,
            rank,
            (#[trigger] config.sinks@[i]).0,
            config.sinks@[i].1.inputs@,
        )
    &&& forall|i: int|
        0 <= i < config.enrichment_tables@.len() ==> fed_as_named(
            expanded,
            rank,
            (#[trigger] config.enrichment_tables@[i]).0,
            config.enrichment_tables@[i].1.inputs@,
        )
}

/// Whether a configuration has the components of another, in the same order and with
/// the same settings, with just those sources made to wait from which there is a way
/// to a sink whose acknowledgements are switched on.
pub open spec fn carried_over(builder: ConfigBuilder, config: Config) -> bool {
    &&& config.global == builder.global
    &&& config.schema == builder.schema
    &&& config.healthchecks == builder.healthchecks
    &&& config.secret == builder.secret
    &&& config.graceful_shutdown_duration == builder.graceful_shutdown_duration
    &&& config.sources@.len() == builder.sources@.len()
    &&& forall|i: int|
        0 <= i < builder.sources@.len() ==> {
            &&& (#[trigger] config.sources@[i]).0 == builder.sources@[i].0
            &&& config.sources@[i].1.inner == builder.sources@[i].1.inner
            &&& config.sources@[i].1.proxy == builder.sources@[i].1.proxy
            &&& config.sources@[i].1.graph == builder.sources@[i].1.graph
            &&& config.sources@[i].1.sink_acknowledgements
                <==> builder.sources@[i].1.sink_acknowledgements || exists|way: Seq<int>|
             #[trigger]
                way_to_acknowledgement(
                    config.sinks@,
                    config.transforms@,
                    builder.sources@[i].0,
                    way,
                )
        }
    &&& config.transforms@.len() == builder.transforms@.len()
    &&& forall|i: int|
        0 <= i < builder.transforms@.len() ==> {
            &&& (#[trigger] config.transforms@[i]).0 == builder.transforms@[i].0
            &&& config.transforms@[i].1.inner == builder.transforms@[i].1.inner
            &&& config.transforms@[i].1.graph == builder.transforms@[i].1.graph
        }
    &&& config.sinks@.len() == builder.sinks@.len()
    &&& forall|i: int|
        0 <= i < builder.sinks@.len() ==> {
            &&& (#[trigger] config.sinks@[i]).0 == builder.sinks@[i].0
            &&& config.sinks@[i].1.inner == builder.sinks@[i].1.inner
            &&& config.sinks@[i].1.buffer == builder.sinks@[i].1.buffer
            &&& config.sinks@[i].1.healthcheck == builder.sinks@[i].1.healthcheck
            &&& config.sinks@[i].1.healthcheck_uri == builder.sinks@[i].1.healthcheck_uri
            &&& config.sinks@[i].1.proxy == builder.sinks@[i].1.proxy
            &&& config.sinks@[i].1.graph == builder.sinks@[i].1.graph
        }
    &&& config.enrichment_tables@.len() == builder.enrichment_tables@.len()
    &&& forall|i: int|
        0 <= i < builder.enrichment_tables@.len() ==> {
            &&& (#[trigger] config.enrichment_tables@[i]).0 == builder.enrichment_tables@[i].0
            &&& config.enrichment_tables@[i].1.settings == builder.enrichment_tables@[i].1.settings
            &&& config.enrichment_tables@[i].1.source == builder.enrichment_tables@[i].1.source
            &&& config.enrichment_tables@[i].1.sink == builder.enrichment_tables@[i].1.sink
            &&& config.enrichment_tables@[i].1.graph == builder.enrichment_tables@[i].1.graph
        }
    &&& config.tests@.len() == builder.tests@.len()
    &&& forall|i: int|
        0 <= i < builder.tests@.len() ==> (#[trigger] config.tests@[i]).name
            == builder.tests@[i].name
}

/// Compiling carries the components over.
proof fn components_are_carried_over(builder: ConfigBuilder, expanded: ConfigBuilder, config: Config)
    requires
        globs_expanded(builder, expanded),
        stands_for(expanded, config),
    ensures
        carried_over(builder, config),
{
    sources_wait_for_sinks_that_acknowledge(config.sinks@, config.transforms@, builder.sources@);
    assert forall|i: int| 0 <= i < builder.transforms@.len() implies {
        &&& (#[trigger] config.transforms@[i]).0 == builder.transforms@[i].0
        &&& config.transforms@[i].1.inner == builder.transforms@[i].1.inner
        &&& config.transforms@[i].1.graph == builder.transforms@[i].1.graph
    } by {
        assert(expanded.transforms@[i].0 == builder.transforms@[i].0);
    }
    assert forall|i: int| 0 <= i < builder.sinks@.len() implies {
        &&& (#[trigger] config.sinks@[i]).0 == builder.sinks@[i].0
        &&& config.sinks@[i].1.inner == builder.sinks@[i].1.inner
        &&& config.sinks@[i].1.buffer == builder.sinks@[i].1.buffer
        &&& config.sinks@[i].1.healthcheck == builder.sinks@[i].1.healthcheck
        &&& config.sinks@[i].1.healthcheck_uri == builder.sinks@[i].1.healthcheck_uri
        &&& config.sinks@[i].1.proxy == builder.sinks@[i].1.proxy
        &&& config.sinks@[i].1.graph == builder.sinks@[i].1.graph
    } by {
        assert(expanded.sinks@[i].0 == builder.sinks@[i].0);
    }
    assert forall|i: int| 0 <= i < builder.tests@.len() implies (#[trigger] config.tests@[i]).name
        == builder.tests@[i].name by {
        assert(test_resolved(pipeline_outputs(expanded), builder.tests@[i], config.tests@[i]));
    }
}

/// All components are fed by what their inputs name.
proof fn components_are_fed(
    expanded: ConfigBuilder,
    config: Config,
    rank: spec_fn(Seq<char>) -> nat,
)
    requires
        distinct_keys(expanded.sources@),
        distinct_keys(expanded.sinks@),
        stands_for(expanded, config),
        type_errors(pipeline_edges(expanded)).len() == 0,
        ranks(pipeline_edges(expanded), rank),
    ensures
        all_fed(expanded, rank, config),
{
    assert forall|i: int| 0 <= i < config.transforms@.len() implies fed_as_named(
        expanded,
        rank,
        (#[trigger] config.transforms@[i]).0,
        config.transforms@[i].1.inputs@,
    ) by {
        edges_feed_as_named(
            expanded,
            rank,
            config.transforms@[i].0,
            config.transforms@[i].1.inputs@,
        );
    }
    assert forall|i: int| 0 <= i < config.sinks@.len() implies fed_as_named(
        expanded,
        rank,
        (#[trigger] config.sinks@[i]).0,
        config.sinks@[i].1.inputs@,
    ) by {
        edges_feed_as_named(expanded, rank, config.sinks@[i].0, config.sinks@[i].1.inputs@);
    }
    assert forall|i: int| 0 <= i < config.enrichment_tables@.len() implies fed_as_named(
        expanded,
        rank,
        (#[trigger] config.enrichment_tables@[i]).0,
        config.enrichment_tables@[i].1.inputs@,
    ) by {
        edges_feed_as_named(
            expanded,
            rank,
            config.enrichment_tables@[i].0,
            config.enrichment_tables@[i].1.inputs@,
        );
    }
}

/// What compiling gives once patterns have been replaced is sound.
pub proof fn compiled_ones_are_sound(
    builder: ConfigBuilder,
    expanded: ConfigBuilder,
    config: Config,
    found: Vec<String>,
) -> (rank: spec_fn(Seq<char>) -> nat)
    requires
        globs_expanded(builder, expanded),
        compiles_to(builder, expanded, Ok((config, found))),
        distinct_keys(builder.sources@),
        distinct_keys(builder.sinks@),
    ensures
        well_named(builder) && well_shaped(expanded) && well_set(expanded),
        well_connected(expanded),
        all_fed(expanded, rank, config),
        carried_over(builder, config),
{
    let rank = choose|rank: spec_fn(Seq<char>) -> nat| ranks(pipeline_edges(expanded), rank);
    assert(distinct_keys(expanded.sources@) && distinct_keys(expanded.sinks@)) by {
        expansion_keeps_names(builder, expanded);
    }
    assert(well_named(builder) && well_shaped(expanded) && well_set(expanded)) by {
        early_checks_pass(builder, expanded);
    }
    assert(well_connected(expanded)) by {
        connections_pass(expanded);
    }
    assert(all_fed(expanded, rank, config)) by {
        components_are_fed(expanded, config, rank);
    }
    assert(carried_over(builder, config)) by {
        components_are_carried_over(builder, expanded, config);
    }
    rank
}

/// A configuration that compiles has names, a shape and settings that are as they
/// should be, and every input and every test names an output. Its components are
/// those of the files, in the same order and with the same settings; each is fed
/// by what its inputs name, and components can be ranked so that each ranks above
/// all that feed it.
pub proof fn compiled_configurations_are_sound(
    builder: ConfigBuilder,
    config: Config,
    found: Vec<String>,
)
    requires
        call_ensures(compile, (builder,), Ok((config, found))),
        distinct_keys(builder.sources@),
        distinct_keys(builder.sinks@),
    ensures
        exists|expanded: ConfigBuilder, rank: spec_fn(Seq<char>) -> nat|
            {
                &&& globs_expanded(builder, expanded)
                &&& well_named(builder) && well_shaped(expanded) && well_set(expanded)
                &&& well_connected(expanded)
                &&& #[trigger] all_fed(expanded, rank, config)
            },
        carried_over(builder, config),
{
    let result: Result<(Config, Vec<String>), Vec<String>> = Ok((config, found));
    let expanded = choose|expanded: ConfigBuilder| #[trigger]
        globs_expanded(builder, expanded) && compiles_to(builder, expanded, result);
    let rank = compiled_ones_are_sound(builder, expanded, config, found);
    assert(all_fed(expanded, rank, config));
}

} // verus!
