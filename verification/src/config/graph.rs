//! The graph of a pipeline: which outputs feed which components.
use std::sync::Arc;
use vstd::prelude::*;

use crate::component_map::{distinct_keys, put, ComponentMap};
use crate::config::global::WildcardMatching;
use crate::config::io::{DataType, SourceOutput, TransformOutput};
use crate::config::sink::SinkOuter;
use crate::config::source::{SourceConfig, SourceOuter};
use crate::config::table::EnrichmentTableOuter;
use crate::config::transform::TransformOuter;
use crate::event::LogNamespace;
use crate::config::validation::{finds, found_is_said, outcome, says};
use crate::id::{output_names, output_text, port_text, ComponentKey, OutputId, OutputName};
use crate::schema::share;
use crate::text::{
    gather, gather_all, gather_empty, gathered, has_char, join, joined, only_if, push_text, same_text, texts,
};

verus! {

/// A component that takes events in.
pub struct Taker<'a> {
    /// The outputs that feed it, as they are named in the configuration.
    pub inputs: &'a Vec<String>,
    /// The types of events that it takes.
    pub data_type: DataType,
}

/// All sources: those of the configuration, and those that read enrichment
/// tables.
pub open spec fn all_sources(
    sources: Seq<(Seq<char>, SourceOuter)>,
    tables: Seq<(Seq<char>, EnrichmentTableOuter<String>)>,
) -> Seq<(Seq<char>, Arc<SourceConfig>)>
    decreases tables.len(),
{
    if tables.len() == 0 {
        Seq::new(sources.len(), |i: int| (sources[i].0, sources[i].1.inner))
    } else {
        let before = all_sources(sources, tables.drop_last());
        match tables.last().1.source {
            None => before,
            Some(source) => put(before, source.key@, source.config),
        }
    }
}

/// All sinks: those of the configuration, and those that write to enrichment
/// tables.
pub open spec fn all_sinks<'a>(
    sinks: Seq<(Seq<char>, SinkOuter<String>)>,
    tables: Seq<(Seq<char>, EnrichmentTableOuter<String>)>,
) -> Seq<(Seq<char>, Taker<'a>)>
    decreases tables.len(),
{
    if tables.len() == 0 {
        Seq::new(
            sinks.len(),
            |i: int|
                (
                    sinks[i].0,
                    Taker {
                        inputs: &sinks[i].1.inputs,
                        data_type: sinks[i].1.inner.input.data_type,
                    },
                ),
        )
    } else {
        let before = all_sinks(sinks, tables.drop_last());
        match tables.last().1.sink {
            None => before,
            Some(sink) => put(
                before,
                tables.last().0,
                Taker { inputs: &tables.last().1.inputs, data_type: sink.input.data_type },
            ),
        }
    }
}

/// An output and the types of events that come out of it.
pub type OutputInfo = (OutputName, DataType);

/// An output of the graph.
#[derive(Debug)]
pub struct GraphOutput {
    /// What identifies the output.
    pub id: OutputId,
    /// The types of events that come out.
    pub data_type: DataType,
}

impl View for GraphOutput {
    type V = OutputInfo;

    open spec fn view(&self) -> OutputInfo {
        (self.id@, self.data_type)
    }
}

/// What a list of outputs stands for.
pub open spec fn output_infos(outputs: Seq<GraphOutput>) -> Seq<OutputInfo> {
    Seq::new(outputs.len(), |i: int| outputs[i]@)
}

/// An output that feeds a component.
#[derive(Debug)]
pub struct Edge {
    /// The output.
    pub from: OutputId,
    /// The types of events that come out.
    pub from_type: DataType,
    /// The component.
    pub to: ComponentKey,
    /// The types of events that the component takes.
    pub to_type: DataType,
}

/// An [`Edge`], with texts as sequences of characters.
pub ghost struct EdgeModel {
    pub from: OutputName,
    pub from_type: DataType,
    pub to: Seq<char>,
    pub to_type: DataType,
}

impl View for Edge {
    type V = EdgeModel;

    open spec fn view(&self) -> EdgeModel {
        EdgeModel {
            from: self.from@,
            from_type: self.from_type,
            to: self.to@,
            to_type: self.to_type,
        }
    }
}

/// What a list of edges stands for.
pub open spec fn edge_models(edges: Seq<Edge>) -> Seq<EdgeModel> {
    Seq::new(edges.len(), |i: int| edges[i]@)
}

/// The outputs of a source.
pub open spec fn source_infos(key: Seq<char>, outputs: Seq<SourceOutput>) -> Seq<OutputInfo> {
    Seq::new(outputs.len(), |i: int| ((key, port_text(outputs[i].port)), outputs[i].data_type))
}

/// The outputs of a transform.
pub open spec fn transform_infos(key: Seq<char>, outputs: Seq<TransformOutput>) -> Seq<OutputInfo> {
    Seq::new(outputs.len(), |i: int| ((key, port_text(outputs[i].port)), outputs[i].data_type))
}

/// All outputs that can feed a component.
pub open spec fn graph_outputs(
    sources: Seq<(Seq<char>, Arc<SourceConfig>)>,
    transforms: Seq<(Seq<char>, TransformOuter<String>)>,
    namespace: LogNamespace,
) -> Seq<OutputInfo> {
    gather(
        sources.len(),
        |i: int| source_infos(sources[i].0, sources[i].1.outputs_in(namespace)),
    ) + gather(
        transforms.len(),
        |i: int| transform_infos(transforms[i].0, transforms[i].1.inner.outputs_in(namespace)),
    )
}

/// The output that an input names: the first whose text it is.
pub open spec fn resolve(outputs: Seq<OutputInfo>, input: Seq<char>) -> Option<OutputInfo>
    decreases outputs.len(),
{
    if outputs.len() == 0 {
        None
    } else {
        match resolve(outputs.drop_last(), input) {
            Some(found) => Some(found),
            None => if output_text(outputs.last().0) == input {
                Some(outputs.last())
            } else {
                None
            },
        }
    }
}

/// Whether a text holds a character with a meaning of its own in patterns.
pub open spec fn has_wildcard(text: Seq<char>) -> bool {
    text.contains('?') || text.contains('*') || text.contains('[') || text.contains(']')
}

/// The edge for one input of a component.
pub open spec fn input_edge(
    outputs: Seq<OutputInfo>,
    key: Seq<char>,
    data_type: DataType,
    input: Seq<char>,
) -> Seq<EdgeModel> {
    match resolve(outputs, input) {
        Some(found) => seq![
            EdgeModel { from: found.0, from_type: found.1, to: key, to_type: data_type },
        ],
        None => Seq::empty(),
    }
}

/// The message on one input of a component.
pub open spec fn input_error(
    outputs: Seq<OutputInfo>,
    kind: Seq<char>,
    key: Seq<char>,
    input: Seq<char>,
    matching: WildcardMatching,
) -> Seq<Seq<char>> {
    only_if(
        resolve(outputs, input) is None && !(matching is Relaxed && has_wildcard(input)),
        "Input \""@ + input + "\" for "@ + kind + " \""@ + key
            + "\" doesn't match any components."@,
    )
}

/// The edges for all inputs of a component.
pub open spec fn taker_edges(
    outputs: Seq<OutputInfo>,
    key: Seq<char>,
    data_type: DataType,
    inputs: Seq<Seq<char>>,
) -> Seq<EdgeModel> {
    gather(inputs.len(), |i: int| input_edge(outputs, key, data_type, inputs[i]))
}

/// The messages on all inputs of a component.
pub open spec fn taker_errors(
    outputs: Seq<OutputInfo>,
    kind: Seq<char>,
    key: Seq<char>,
    inputs: Seq<Seq<char>>,
    matching: WildcardMatching,
) -> Seq<Seq<char>> {
    gather(inputs.len(), |i: int| input_error(outputs, kind, key, inputs[i], matching))
}

/// The edges of a graph.
pub open spec fn graph_edges<'a>(
    outputs: Seq<OutputInfo>,
    transforms: Seq<(Seq<char>, TransformOuter<String>)>,
    sinks: Seq<(Seq<char>, Taker<'a>)>,
) -> Seq<EdgeModel> {
    gather(
        transforms.len(),
        |i: int|
            taker_edges(
                outputs,
                transforms[i].0,
                transforms[i].1.inner.input.data_type,
                texts(transforms[i].1.inputs@),
            ),
    ) + gather(
        sinks.len(),
        |i: int|
            taker_edges(outputs, sinks[i].0, sinks[i].1.data_type, texts(sinks[i].1.inputs@)),
    )
}

/// The messages on inputs that name no output.
pub open spec fn graph_errors<'a>(
    outputs: Seq<OutputInfo>,
    transforms: Seq<(Seq<char>, TransformOuter<String>)>,
    sinks: Seq<(Seq<char>, Taker<'a>)>,
    matching: WildcardMatching,
) -> Seq<Seq<char>> {
    gather(
        transforms.len(),
        |i: int|
            taker_errors(
                outputs,
                "transform"@,
                transforms[i].0,
                texts(transforms[i].1.inputs@),
                matching,
            ),
    ) + gather(
        sinks.len(),
        |i: int|
            taker_errors(outputs, "sink"@, sinks[i].0, texts(sinks[i].1.inputs@), matching),
    )
}

/// Collects all sources.
fn collect_sources(
    sources: &ComponentMap<SourceOuter>,
    tables: &ComponentMap<EnrichmentTableOuter<String>>,
) -> (all: ComponentMap<Arc<SourceConfig>>)
    ensures
        all@ == all_sources(sources@, tables@),
{
    let ghost own = all_sources(sources@, Seq::empty());
    let mut all: ComponentMap<Arc<SourceConfig>> = ComponentMap::new();
    let len: usize = sources.len();
    let mut i: usize = 0;
    while i < len
        invariant
            i <= len,
            len == sources@.len(),
            distinct_keys(sources@),
            own == all_sources(sources@, Seq::empty()),
            all@ == own.take(i as int),
        decreases len - i,
    {
        let key = sources.key_at(i);
        assert forall|j: int| 0 <= j < all@.len() implies (#[trigger] all@[j]).0 != key@ by {
            assert(all@[j] == own[j]);
            assert(sources@[j].0 != sources@[i as int].0);
        }
        all.add(key, share(&sources.value_at(i).inner));
        assert(all@ =~= own.take(i + 1));
        i = i + 1;
    }
    assert(own.take(i as int) =~= own);
    assert(tables@.take(0) =~= Seq::empty());
    let len: usize = tables.len();
    let mut i: usize = 0;
    while i < len
        invariant
            i <= len,
            len == tables@.len(),
            all@ == all_sources(sources@, tables@.take(i as int)),
        decreases len - i,
    {
        assert(tables@.take(i + 1).drop_last() =~= tables@.take(i as int));
        assert(tables@.take(i + 1).last() == tables@[i as int]);
        match &tables.value_at(i).source {
            None => {},
            Some(source) => {
                all.insert(source.key.id(), share(&source.config));
            },
        }
        i = i + 1;
    }
    assert(tables@.take(i as int) =~= tables@);
    all
}

/// Collects all sinks.
fn collect_sinks<'a>(
    sinks: &'a ComponentMap<SinkOuter<String>>,
    tables: &'a ComponentMap<EnrichmentTableOuter<String>>,
) -> (all: ComponentMap<Taker<'a>>)
    ensures
        all@ == all_sinks(sinks@, tables@),
{
    let ghost own = all_sinks(sinks@, Seq::empty());
    let mut all: ComponentMap<Taker<'a>> = ComponentMap::new();
    let len: usize = sinks.len();
    let mut i: usize = 0;
    while i < len
        invariant
            i <= len,
            len == sinks@.len(),
            distinct_keys(sinks@),
            own == all_sinks(sinks@, Seq::empty()),
            all@ == own.take(i as int),
        decreases len - i,
    {
        let key = sinks.key_at(i);
        let sink = sinks.value_at(i);
        assert forall|j: int| 0 <= j < all@.len() implies (#[trigger] all@[j]).0 != key@ by {
            assert(all@[j] == own[j]);
            assert(sinks@[j].0 != sinks@[i as int].0);
        }
        all.add(key, Taker { inputs: &sink.inputs, data_type: sink.inner.input.data_type });
        assert(all@ =~= own.take(i + 1));
        i = i + 1;
    }
    assert(own.take(i as int) =~= own);
    assert(tables@.take(0) =~= Seq::empty());
    let len: usize = tables.len();
    let mut i: usize = 0;
    while i < len
        invariant
            i <= len,
            len == tables@.len(),
            all@ == all_sinks(sinks@, tables@.take(i as int)),
        decreases len - i,
    {
        assert(tables@.take(i + 1).drop_last() =~= tables@.take(i as int));
        assert(tables@.take(i + 1).last() == tables@[i as int]);
        let table = tables.value_at(i);
        match &table.sink {
            None => {},
            Some(sink) => {
                all.insert(
                    tables.key_at(i),
                    Taker { inputs: &table.inputs, data_type: sink.input.data_type },
                );
            },
        }
        i = i + 1;
    }
    assert(tables@.take(i as int) =~= tables@);
    all
}

/// Adds the outputs of a source.
fn add_source_outputs(outputs: &mut Vec<GraphOutput>, key: &ComponentKey, more: &Vec<SourceOutput>)
    ensures
        output_infos(final(outputs)@) == output_infos(old(outputs)@) + source_infos(key@, more@),
{
    let ghost before = output_infos(outputs@);
    let ghost added = source_infos(key@, more@);
    let mut i: usize = 0;
    assert(output_infos(outputs@) =~= before + added.take(0));
    while i < more.len()
        invariant
            i <= more.len(),
            added == source_infos(key@, more@),
            output_infos(outputs@) == before + added.take(i as int),
        decreases more.len() - i,
    {
        let ghost held = output_infos(outputs@);
        outputs.push(
            GraphOutput { id: OutputId::new(key, &more[i].port), data_type: more[i].data_type },
        );
        assert(output_infos(outputs@) =~= held.push(added[i as int]));
        assert(output_infos(outputs@) =~= before + added.take(i + 1));
        i = i + 1;
    }
    assert(added.take(i as int) =~= added);
}

/// Adds the outputs of a transform.
fn add_transform_outputs(
    outputs: &mut Vec<GraphOutput>,
    key: &ComponentKey,
    more: &Vec<TransformOutput>,
)
    ensures
        output_infos(final(outputs)@) == output_infos(old(outputs)@) + transform_infos(key@, more@),
{
    let ghost before = output_infos(outputs@);
    let ghost added = transform_infos(key@, more@);
    let mut i: usize = 0;
    assert(output_infos(outputs@) =~= before + added.take(0));
    while i < more.len()
        invariant
            i <= more.len(),
            added == transform_infos(key@, more@),
            output_infos(outputs@) == before + added.take(i as int),
        decreases more.len() - i,
    {
        let ghost held = output_infos(outputs@);
        outputs.push(
            GraphOutput { id: OutputId::new(key, &more[i].port), data_type: more[i].data_type },
        );
        assert(output_infos(outputs@) =~= held.push(added[i as int]));
        assert(output_infos(outputs@) =~= before + added.take(i + 1));
        i = i + 1;
    }
    assert(added.take(i as int) =~= added);
}

/// Collects all outputs that can feed a component.
fn collect_outputs(
    sources: &ComponentMap<Arc<SourceConfig>>,
    transforms: &ComponentMap<TransformOuter<String>>,
    namespace: LogNamespace,
) -> (outputs: Vec<GraphOutput>)
    ensures
        output_infos(outputs@) == graph_outputs(sources@, transforms@, namespace),
{
    let ghost f = |i: int| source_infos(sources@[i].0, sources@[i].1.outputs_in(namespace));
    let ghost g = |i: int|
        transform_infos(transforms@[i].0, transforms@[i].1.inner.outputs_in(namespace));
    let mut outputs: Vec<GraphOutput> = Vec::new();
    assert(output_infos(outputs@) =~= gather(0, f));
    let len: usize = sources.len();
    let mut i: usize = 0;
    while i < len
        invariant
            i <= len,
            len == sources@.len(),
            f == (|i: int| source_infos(sources@[i].0, sources@[i].1.outputs_in(namespace))),
            output_infos(outputs@) == gather(i as nat, f),
        decreases len - i,
    {
        let key = ComponentKey::new(sources.key_at(i));
        let more = sources.value_at(i).outputs(namespace);
        add_source_outputs(&mut outputs, &key, more);
        assert(f(i as int) == source_infos(key@, more@));
        i = i + 1;
    }
    let ghost first = output_infos(outputs@);
    assert(output_infos(outputs@) =~= first + gather(0, g));
    let len: usize = transforms.len();
    let mut i: usize = 0;
    while i < len
        invariant
            i <= len,
            len == transforms@.len(),
            g == (|i: int|
                transform_infos(transforms@[i].0, transforms@[i].1.inner.outputs_in(namespace))),
            output_infos(outputs@) == first + gather(i as nat, g),
        decreases len - i,
    {
        let key = ComponentKey::new(transforms.key_at(i));
        let more = transforms.value_at(i).inner.outputs(namespace);
        add_transform_outputs(&mut outputs, &key, more);
        assert(g(i as int) == transform_infos(key@, more@));
        assert(output_infos(outputs@) =~= first + gather((i + 1) as nat, g));
        i = i + 1;
    }
    outputs
}

/// Finds the output that an input names.
pub fn find_output(outputs: &Vec<GraphOutput>, input: &str) -> (found: Option<usize>)
    ensures
        match found {
            Some(i) => i < outputs@.len() && resolve(output_infos(outputs@), input@) == Some(
                outputs@[i as int]@,
            ),
            None => resolve(output_infos(outputs@), input@) is None,
        },
{
    let ghost infos = output_infos(outputs@);
    let mut found: Option<usize> = None;
    let mut i: usize = 0;
    while i < outputs.len()
        invariant
            i <= outputs.len(),
            infos == output_infos(outputs@),
            match found {
                Some(k) => k < i && resolve(infos.take(i as int), input@) == Some(
                    outputs@[k as int]@,
                ),
                None => resolve(infos.take(i as int), input@) is None,
            },
        decreases outputs.len() - i,
    {
        assert(infos.take(i + 1).drop_last() =~= infos.take(i as int));
        assert(infos.take(i + 1).last() == outputs@[i as int]@);
        if found.is_none() && same_text(outputs[i].id.to_text().as_str(), input) {
            found = Some(i);
        }
        i = i + 1;
    }
    assert(infos.take(i as int) =~= infos);
    found
}

/// Whether a text holds a character with a meaning of its own in patterns.
fn holds_wildcard(text: &str) -> (found: bool)
    ensures
        found == has_wildcard(text@),
{
    has_char(text, '?') || has_char(text, '*') || has_char(text, '[') || has_char(text, ']')
}

/// Adds the edges for the inputs of a component, and the messages on those that
/// name no output.
fn connect(
    edges: &mut Vec<Edge>,
    errors: &mut Vec<String>,
    outputs: &Vec<GraphOutput>,
    kind: &str,
    key: &ComponentKey,
    taker: &Taker,
    matching: WildcardMatching,
)
    ensures
        edge_models(final(edges)@) == edge_models(old(edges)@) + taker_edges(
            output_infos(outputs@),
            key@,
            taker.data_type,
            texts(taker.inputs@),
        ),
        texts(final(errors)@) == texts(old(errors)@) + taker_errors(
            output_infos(outputs@),
            kind@,
            key@,
            texts(taker.inputs@),
            matching,
        ),
{
    let ghost infos = output_infos(outputs@);
    let ghost inputs = texts(taker.inputs@);
    let ghost f = |i: int| input_edge(infos, key@, taker.data_type, inputs[i]);
    let ghost g = |i: int| input_error(infos, kind@, key@, inputs[i], matching);
    let ghost edges_before = edge_models(edges@);
    let ghost errors_before = texts(errors@);
    assert(edge_models(edges@) =~= edges_before + gather(0, f));
    assert(texts(errors@) =~= errors_before + gather(0, g));
    let mut i: usize = 0;
    while i < taker.inputs.len()
        invariant
            i <= taker.inputs.len(),
            infos == output_infos(outputs@),
            inputs == texts(taker.inputs@),
            f == (|i: int| input_edge(infos, key@, taker.data_type, inputs[i])),
            g == (|i: int| input_error(infos, kind@, key@, inputs[i], matching)),
            edge_models(edges@) == edges_before + gather(i as nat, f),
            texts(errors@) == errors_before + gather(i as nat, g),
        decreases taker.inputs.len() - i,
    {
        let input = taker.inputs[i].as_str();
        assert(inputs[i as int] == input@);
        let ghost edges_held = edge_models(edges@);
        let ghost errors_held = texts(errors@);
        let relaxed = match matching {
            WildcardMatching::Relaxed => holds_wildcard(input),
            WildcardMatching::Strict => false,
        };
        match find_output(outputs, input) {
            Some(found) => {
                edges.push(
                    Edge {
                        from: outputs[found].id.clone(),
                        from_type: outputs[found].data_type,
                        to: key.clone(),
                        to_type: taker.data_type,
                    },
                );
            },
            None => {
                if !relaxed {
                    let mut message = "Input \"".to_owned();
                    message.append(input);
                    message.append("\" for ");
                    message.append(kind);
                    message.append(" \"");
                    message.append(key.id());
                    message.append("\" doesn't match any components.");
                    push_text(errors, message);
                }
            },
        }
        assert(edge_models(edges@) =~= edges_held + f(i as int));
        assert(texts(errors@) =~= errors_held + g(i as int));
        assert(edge_models(edges@) =~= edges_before + gather((i + 1) as nat, f));
        assert(texts(errors@) =~= errors_before + gather((i + 1) as nat, g));
        i = i + 1;
    }
}

/// The outputs of a pipeline and what they feed.
#[derive(Debug)]
pub struct Graph {
    /// All outputs.
    pub outputs: Vec<GraphOutput>,
    /// What they feed.
    pub edges: Vec<Edge>,
}

impl Graph {
    /// Builds the graph of a pipeline. Every input must name an output; where
    /// matching is relaxed, a pattern that matches none is passed over.
    pub fn new(
        sources: &ComponentMap<SourceOuter>,
        transforms: &ComponentMap<TransformOuter<String>>,
        sinks: &ComponentMap<SinkOuter<String>>,
        tables: &ComponentMap<EnrichmentTableOuter<String>>,
        namespace: LogNamespace,
        matching: WildcardMatching,
    ) -> (result: Result<Graph, Vec<String>>)
        ensures
            ({
                let outputs = graph_outputs(
                    all_sources(sources@, tables@),
                    transforms@,
                    namespace,
                );
                let takers = all_sinks(sinks@, tables@);
                let errors = graph_errors(outputs, transforms@, takers, matching);
                match result {
                    Ok(graph) => {
                        &&& errors.len() == 0
                        &&& output_infos(graph.outputs@) == outputs
                        &&& edge_models(graph.edges@) == graph_edges(outputs, transforms@, takers)
                    },
                    Err(messages) => errors.len() > 0 && texts(messages@) == errors,
                }
            }),
    {
        let every_source = collect_sources(sources, tables);
        let takers = collect_sinks(sinks, tables);
        let outputs = collect_outputs(&every_source, transforms, namespace);
        let ghost infos = output_infos(outputs@);
        let ghost f = |i: int|
            taker_edges(
                infos,
                transforms@[i].0,
                transforms@[i].1.inner.input.data_type,
                texts(transforms@[i].1.inputs@),
            );
        let ghost g = |i: int|
            taker_errors(
                infos,
                "transform"@,
                transforms@[i].0,
                texts(transforms@[i].1.inputs@),
                matching,
            );
        let ghost p = |i: int|
            taker_edges(infos, takers@[i].0, takers@[i].1.data_type, texts(takers@[i].1.inputs@));
        let ghost q = |i: int|
            taker_errors(infos, "sink"@, takers@[i].0, texts(takers@[i].1.inputs@), matching);
        let mut edges: Vec<Edge> = Vec::new();
        let mut errors: Vec<String> = Vec::new();
        assert(edge_models(edges@) =~= gather(0, f));
        assert(texts(errors@) =~= gather(0, g));
        let len: usize = transforms.len();
        let mut i: usize = 0;
        while i < len
            invariant
                i <= len,
                len == transforms@.len(),
                infos == output_infos(outputs@),
                f == (|i: int|
                    taker_edges(
                        infos,
                        transforms@[i].0,
                        transforms@[i].1.inner.input.data_type,
                        texts(transforms@[i].1.inputs@),
                    )),
                g == (|i: int|
                    taker_errors(
                        infos,
                        "transform"@,
                        transforms@[i].0,
                        texts(transforms@[i].1.inputs@),
                        matching,
                    )),
                edge_models(edges@) == gather(i as nat, f),
                texts(errors@) == gather(i as nat, g),
            decreases len - i,
        {
            let key = ComponentKey::new(transforms.key_at(i));
            let transform = transforms.value_at(i);
            let taker = Taker {
                inputs: &transform.inputs,
                data_type: transform.inner.input.data_type,
            };
            connect(&mut edges, &mut errors, &outputs, "transform", &key, &taker, matching);
            assert(f(i as int) == taker_edges(
                infos,
                key@,
                taker.data_type,
                texts(taker.inputs@),
            ));
            assert(g(i as int) == taker_errors(
                infos,
                "transform"@,
                key@,
                texts(taker.inputs@),
                matching,
            ));
            i = i + 1;
        }
        let ghost edges_first = edge_models(edges@);
        let ghost errors_first = texts(errors@);
        assert(edge_models(edges@) =~= edges_first + gather(0, p));
        assert(texts(errors@) =~= errors_first + gather(0, q));
        let len: usize = takers.len();
        let mut i: usize = 0;
        while i < len
            invariant
                i <= len,
                len == takers@.len(),
                infos == output_infos(outputs@),
                p == (|i: int|
                    taker_edges(
                        infos,
                        takers@[i].0,
                        takers@[i].1.data_type,
                        texts(takers@[i].1.inputs@),
                    )),
                q == (|i: int|
                    taker_errors(
                        infos,
                        "sink"@,
                        takers@[i].0,
                        texts(takers@[i].1.inputs@),
                        matching,
                    )),
                edge_models(edges@) == edges_first + gather(i as nat, p),
                texts(errors@) == errors_first + gather(i as nat, q),
            decreases len - i,
        {
            let key = ComponentKey::new(takers.key_at(i));
            let taker = takers.value_at(i);
            connect(&mut edges, &mut errors, &outputs, "sink", &key, taker, matching);
            assert(p(i as int) == taker_edges(
                infos,
                key@,
                taker.data_type,
                texts(taker.inputs@),
            ));
            assert(q(i as int) == taker_errors(
                infos,
                "sink"@,
                key@,
                texts(taker.inputs@),
                matching,
            ));
            assert(edge_models(edges@) =~= edges_first + gather((i + 1) as nat, p));
            assert(texts(errors@) =~= errors_first + gather((i + 1) as nat, q));
            i = i + 1;
        }
        if errors.len() == 0 {
            Ok(Graph { outputs, edges })
        } else {
            Err(errors)
        }
    }
}

/// The types of events in messages.
pub open spec fn type_text(types: DataType) -> Seq<char> {
    "["@ + joined(
        only_if(types.log, "\"Log\""@) + only_if(types.metric, "\"Metric\""@) + only_if(
            types.trace,
            "\"Trace\""@,
        ),
        ", "@,
    ) + "]"@
}

/// The message on an edge between an output and a component that takes none of
/// its events.
pub open spec fn type_error(edge: EdgeModel) -> Seq<Seq<char>> {
    only_if(
        !edge.from_type.meets(edge.to_type),
        "Data type mismatch between "@ + output_text(edge.from) + " ("@ + type_text(edge.from_type)
            + ") and "@ + edge.to + " ("@ + type_text(edge.to_type) + ")"@,
    )
}

/// The messages of [`Graph::typecheck`].
pub open spec fn type_errors(edges: Seq<EdgeModel>) -> Seq<Seq<char>> {
    gather(edges.len(), |i: int| type_error(edges[i]))
}

/// The outputs that feed a component.
pub open spec fn feeding(edges: Seq<EdgeModel>, key: Seq<char>) -> Seq<OutputName> {
    gather(
        edges.len(),
        |i: int|
            if edges[i].to == key {
                seq![edges[i].from]
            } else {
                Seq::empty()
            },
    )
}

/// The types of events in messages.
fn types_to_text(types: &DataType) -> (text: String)
    ensures
        text@ == type_text(*types),
{
    let mut parts: Vec<String> = Vec::new();
    assert(texts(parts@) =~= Seq::empty());
    if types.log {
        push_text(&mut parts, "\"Log\"".to_owned());
    }
    if types.metric {
        push_text(&mut parts, "\"Metric\"".to_owned());
    }
    if types.trace {
        push_text(&mut parts, "\"Trace\"".to_owned());
    }
    assert(texts(parts@) =~= only_if(types.log, "\"Log\""@) + only_if(
        types.metric,
        "\"Metric\""@,
    ) + only_if(types.trace, "\"Trace\""@));
    let mut text = "[".to_owned();
    text.append(join(&parts, ", ").as_str());
    text.append("]");
    text
}

impl Graph {
    /// Checks that every component takes some of the events that each of its
    /// inputs may hold.
    pub fn typecheck(&self) -> (result: Result<(), Vec<String>>)
        ensures
            finds(result, type_errors(edge_models(self.edges@))),
    {
        let ghost all = edge_models(self.edges@);
        let ghost f = |i: int| type_error(all[i]);
        let mut errors: Vec<String> = Vec::new();
        assert(texts(errors@) =~= gather(0, f));
        let mut i: usize = 0;
        while i < self.edges.len()
            invariant
                i <= self.edges.len(),
                all == edge_models(self.edges@),
                f == (|i: int| type_error(all[i])),
                texts(errors@) == gather(i as nat, f),
            decreases self.edges.len() - i,
        {
            let ghost before = texts(errors@);
            let edge = &self.edges[i];
            assert(all[i as int] == edge@);
            if !edge.from_type.intersects(&edge.to_type) {
                let mut message = "Data type mismatch between ".to_owned();
                message.append(edge.from.to_text().as_str());
                message.append(" (");
                message.append(types_to_text(&edge.from_type).as_str());
                message.append(") and ");
                message.append(edge.to.id());
                message.append(" (");
                message.append(types_to_text(&edge.to_type).as_str());
                message.append(")");
                push_text(&mut errors, message);
            }
            assert(texts(errors@) =~= before + f(i as int));
            i = i + 1;
        }
        outcome(errors)
    }

    /// The outputs that feed a component.
    pub fn inputs_for(&self, key: &str) -> (inputs: Vec<OutputId>)
        ensures
            output_names(inputs@) == feeding(edge_models(self.edges@), key@),
    {
        let ghost all = edge_models(self.edges@);
        let ghost f = |i: int|
            if all[i].to == key@ {
                seq![all[i].from]
            } else {
                Seq::empty()
            };
        let mut inputs: Vec<OutputId> = Vec::new();
        assert(output_names(inputs@) =~= gather(0, f));
        let mut i: usize = 0;
        while i < self.edges.len()
            invariant
                i <= self.edges.len(),
                all == edge_models(self.edges@),
                f == (|i: int|
                    if all[i].to == key@ {
                        seq![all[i].from]
                    } else {
                        Seq::empty()
                    }),
                output_names(inputs@) == gather(i as nat, f),
            decreases self.edges.len() - i,
        {
            let ghost before = output_names(inputs@);
            let edge = &self.edges[i];
            assert(all[i as int] == edge@);
            if same_text(edge.to.id(), key) {
                inputs.push(edge.from.clone());
            }
            assert(output_names(inputs@) =~= before + f(i as int));
            i = i + 1;
        }
        inputs
    }
}

/// What an input is resolved to is an output, and the input is its text.
pub proof fn resolved_is_output(outputs: Seq<OutputInfo>, input: Seq<char>)
    ensures
        match resolve(outputs, input) {
            Some(found) => outputs.contains(found) && output_text(found.0) == input,
            None => forall|i: int|
                0 <= i < outputs.len() ==> output_text((#[trigger] outputs[i]).0) != input,
        },
    decreases outputs.len(),
{
    if outputs.len() > 0 {
        let rest = outputs.drop_last();
        resolved_is_output(rest, input);
        match resolve(rest, input) {
            Some(found) => {
                let i = choose|i: int| 0 <= i < rest.len() && rest[i] == found;
                assert(outputs[i] == found);
            },
            None => {
                assert(outputs[outputs.len() - 1] == outputs.last());
                assert forall|i: int|
                    0 <= i < outputs.len() && output_text(outputs.last().0) != input implies output_text(
                    (#[trigger] outputs[i]).0,
                ) != input by {
                    if i < rest.len() {
                        assert(rest[i] == outputs[i]);
                    }
                }
            },
        }
    }
}

/// Whether an edge starts at one of the outputs, with the events that come out
/// of it.
pub open spec fn starts_at(outputs: Seq<OutputInfo>, edge: EdgeModel) -> bool {
    outputs.contains((edge.from, edge.from_type))
}

/// Every input of a connected pipeline is an output of one of its components.
pub proof fn edges_start_at_outputs<'a>(
    outputs: Seq<OutputInfo>,
    transforms: Seq<(Seq<char>, TransformOuter<String>)>,
    sinks: Seq<(Seq<char>, Taker<'a>)>,
)
    ensures
        forall|k: int|
            0 <= k < graph_edges(outputs, transforms, sinks).len() ==> starts_at(
                outputs,
                #[trigger] graph_edges(outputs, transforms, sinks)[k],
            ),
{
    let f = |i: int|
        taker_edges(
            outputs,
            transforms[i].0,
            transforms[i].1.inner.input.data_type,
            texts(transforms[i].1.inputs@),
        );
    let g = |i: int|
        taker_edges(outputs, sinks[i].0, sinks[i].1.data_type, texts(sinks[i].1.inputs@));
    let holds = |edge: EdgeModel| starts_at(outputs, edge);
    assert forall|i: int, k: int| 0 <= i < transforms.len() && 0 <= k < f(i).len() implies holds(
        #[trigger] f(i)[k],
    ) by {
        taker_edges_start_at_outputs(
            outputs,
            transforms[i].0,
            transforms[i].1.inner.input.data_type,
            texts(transforms[i].1.inputs@),
        );
    }
    gather_all(transforms.len(), f, holds);
    assert forall|i: int, k: int| 0 <= i < sinks.len() && 0 <= k < g(i).len() implies holds(
        #[trigger] g(i)[k],
    ) by {
        taker_edges_start_at_outputs(
            outputs,
            sinks[i].0,
            sinks[i].1.data_type,
            texts(sinks[i].1.inputs@),
        );
    }
    gather_all(sinks.len(), g, holds);
    let first = gather(transforms.len(), f);
    let second = gather(sinks.len(), g);
    assert forall|k: int| 0 <= k < graph_edges(outputs, transforms, sinks).len() implies starts_at(
        outputs,
        #[trigger] graph_edges(outputs, transforms, sinks)[k],
    ) by {
        if k < first.len() {
            assert(holds(first[k]));
        } else {
            assert(holds(second[k - first.len()]));
        }
    }
}

proof fn taker_edges_start_at_outputs(
    outputs: Seq<OutputInfo>,
    key: Seq<char>,
    data_type: DataType,
    inputs: Seq<Seq<char>>,
)
    ensures
        forall|k: int|
            0 <= k < taker_edges(outputs, key, data_type, inputs).len() ==> starts_at(
                outputs,
                #[trigger] taker_edges(outputs, key, data_type, inputs)[k],
            ),
{
    let f = |i: int| input_edge(outputs, key, data_type, inputs[i]);
    let holds = |edge: EdgeModel| starts_at(outputs, edge);
    assert forall|i: int, k: int| 0 <= i < inputs.len() && 0 <= k < f(i).len() implies holds(
        #[trigger] f(i)[k],
    ) by {
        resolved_is_output(outputs, inputs[i]);
    }
    gather_all(inputs.len(), f, holds);
    assert forall|k: int| 0 <= k < taker_edges(outputs, key, data_type, inputs).len() implies starts_at(
        outputs,
        #[trigger] taker_edges(outputs, key, data_type, inputs)[k],
    ) by {
        assert(holds(gather(inputs.len(), f)[k]));
    }
}

/// A pipeline passes the check on types just where every component takes some
/// of the events that each of its inputs may hold.
pub proof fn typechecked_edges_meet(edges: Seq<EdgeModel>)
    ensures
        type_errors(edges).len() == 0 <==> forall|i: int|
            0 <= i < edges.len() ==> (#[trigger] edges[i]).from_type.meets(edges[i].to_type),
{
    let f = |i: int| type_error(edges[i]);
    gather_empty(edges.len(), f);
    assert forall|i: int| 0 <= i < edges.len() implies ((#[trigger] f(i)).len() == 0) == (
    edges[i].from_type.meets(edges[i].to_type)) by {}
    if type_errors(edges).len() == 0 {
        assert forall|i: int| 0 <= i < edges.len() implies (#[trigger] edges[i]).from_type.meets(
            edges[i].to_type,
        ) by {
            assert(f(i).len() == 0);
        }
    }
}

/// Whether one of the outputs has the given name.
pub open spec fn is_output(outputs: Seq<OutputInfo>, name: OutputName) -> bool {
    exists|k: int| 0 <= k < outputs.len() && (#[trigger] outputs[k]).0 == name
}

/// What feeds a component are outputs of the pipeline.
pub proof fn fed_by_outputs(outputs: Seq<OutputInfo>, edges: Seq<EdgeModel>, key: Seq<char>)
    requires
        forall|k: int| 0 <= k < edges.len() ==> starts_at(outputs, #[trigger] edges[k]),
    ensures
        forall|k: int|
            0 <= k < feeding(edges, key).len() ==> is_output(
                outputs,
                #[trigger] feeding(edges, key)[k],
            ),
{
    let f = |i: int|
        if edges[i].to == key {
            seq![edges[i].from]
        } else {
            Seq::empty()
        };
    let holds = |name: OutputName| is_output(outputs, name);
    assert forall|i: int, k: int| 0 <= i < edges.len() && 0 <= k < f(i).len() implies holds(
        #[trigger] f(i)[k],
    ) by {
        assert(starts_at(outputs, edges[i]));
        let n = choose|n: int|
            0 <= n < outputs.len() && outputs[n] == (edges[i].from, edges[i].from_type);
        assert(outputs[n].0 == edges[i].from);
    }
    gather_all(edges.len(), f, holds);
    assert forall|k: int| 0 <= k < feeding(edges, key).len() implies is_output(
        outputs,
        #[trigger] feeding(edges, key)[k],
    ) by {
        assert(holds(gather(edges.len(), f)[k]));
    }
}

/// A pipeline passes the check on types just where, for every edge, some type of
/// events both comes out of the output and is taken by the component: log
/// entries, measurements or trace spans.
pub proof fn edges_share_a_type(graph: &Graph, result: Result<(), Vec<String>>)
    requires
        call_ensures(Graph::typecheck, (graph,), result),
    ensures
        result is Ok <==> forall|i: int|
            0 <= i < graph.edges@.len() ==> {
                ||| (#[trigger] graph.edges@[i]).from_type.log && graph.edges@[i].to_type.log
                ||| graph.edges@[i].from_type.metric && graph.edges@[i].to_type.metric
                ||| graph.edges@[i].from_type.trace && graph.edges@[i].to_type.trace
            },
{
    let edges = edge_models(graph.edges@);
    typechecked_edges_meet(edges);
    if result is Ok {
        assert forall|i: int| 0 <= i < graph.edges@.len() implies {
            ||| (#[trigger] graph.edges@[i]).from_type.log && graph.edges@[i].to_type.log
            ||| graph.edges@[i].from_type.metric && graph.edges@[i].to_type.metric
            ||| graph.edges@[i].from_type.trace && graph.edges@[i].to_type.trace
        } by {
            assert(edges[i].from_type.meets(edges[i].to_type));
        }
    } else {
        let i = choose|i: int|
            0 <= i < edges.len() && !(#[trigger] edges[i]).from_type.meets(edges[i].to_type);
        assert(edges[i] == graph.edges@[i]@);
    }
}

/// An input names an output whose text it is: the name of the component, or, for
/// an output with a name, both names with a dot between them. It names none just
/// where it is the text of none.
pub proof fn inputs_name_outputs_by_text(
    outputs: &Vec<GraphOutput>,
    input: &str,
    found: Option<usize>,
)
    requires
        call_ensures(find_output, (outputs, input), found),
    ensures
        match found {
            Some(_) => exists|i: int|
                0 <= i < outputs@.len() && input@ == match (#[trigger] outputs@[i]).id.port {
                    None => outputs@[i].id.component@,
                    Some(port) => outputs@[i].id.component@ + "."@ + port@,
                },
            None => forall|i: int|
                0 <= i < outputs@.len() ==> input@ != match (#[trigger] outputs@[i]).id.port {
                    None => outputs@[i].id.component@,
                    Some(port) => outputs@[i].id.component@ + "."@ + port@,
                },
        },
        found matches Some(k) ==> k < outputs@.len() && input@ == match outputs@[k as int].id.port {
            None => outputs@[k as int].id.component@,
            Some(port) => outputs@[k as int].id.component@ + "."@ + port@,
        },
{
    let infos = output_infos(outputs@);
    resolved_is_output(infos, input@);
    assert forall|i: int| 0 <= i < outputs@.len() implies output_text((#[trigger] infos[i]).0)
        == match outputs@[i].id.port {
        None => outputs@[i].id.component@,
        Some(port) => outputs@[i].id.component@ + "."@ + port@,
    } by {}
    if let Some(k) = found {
        assert(infos[k as int] == outputs@[k as int]@);
    } else {
        assert forall|i: int| 0 <= i < outputs@.len() implies input@ != match (
        #[trigger] outputs@[i]).id.port {
            None => outputs@[i].id.component@,
            Some(port) => outputs@[i].id.component@ + "."@ + port@,
        } by {
            assert(output_text(infos[i].0) != input@);
        }
    }
}

/// What feeds a component are just the outputs that an edge leads from to it.
pub proof fn components_are_fed_along_edges(
    graph: &Graph,
    key: &str,
    inputs: Vec<OutputId>,
    output: OutputId,
)
    requires
        call_ensures(Graph::inputs_for, (graph, key), inputs),
    ensures
        (exists|k: int|
            0 <= k < inputs@.len() && (#[trigger] inputs@[k]).component@ == output.component@ && (
            inputs@[k].port is Some) == (output.port is Some) && (output.port is Some
                ==> inputs@[k].port->0@ == output.port->0@)) <==> exists|i: int|
            0 <= i < graph.edges@.len() && (#[trigger] graph.edges@[i]).to@ == key@
                && graph.edges@[i].from.component@ == output.component@ && (
            graph.edges@[i].from.port is Some) == (output.port is Some) && (output.port is Some
                ==> graph.edges@[i].from.port->0@ == output.port->0@),
{
    let edges = edge_models(graph.edges@);
    let f = |i: int|
        if edges[i].to == key@ {
            seq![edges[i].from]
        } else {
            Seq::empty()
        };
    let names = output_names(inputs@);
    assert(names == gather(edges.len(), f));
    crate::text::gathered(edges.len(), f, output@);
    if exists|k: int|
        0 <= k < inputs@.len() && (#[trigger] inputs@[k]).component@ == output.component@ && (
        inputs@[k].port is Some) == (output.port is Some) && (output.port is Some
            ==> inputs@[k].port->0@ == output.port->0@) {
        let k = choose|k: int|
            0 <= k < inputs@.len() && (#[trigger] inputs@[k]).component@ == output.component@ && (
            inputs@[k].port is Some) == (output.port is Some) && (output.port is Some
                ==> inputs@[k].port->0@ == output.port->0@);
        assert(names[k] == output@);
        let i = choose|i: int| 0 <= i < edges.len() && (#[trigger] f(i)).contains(output@);
        assert(edges[i] == graph.edges@[i]@);
        assert(graph.edges@[i].to@ == key@);
    }
    if exists|i: int|
        0 <= i < graph.edges@.len() && (#[trigger] graph.edges@[i]).to@ == key@
            && graph.edges@[i].from.component@ == output.component@ && (
        graph.edges@[i].from.port is Some) == (output.port is Some) && (output.port is Some
            ==> graph.edges@[i].from.port->0@ == output.port->0@) {
        let i = choose|i: int|
            0 <= i < graph.edges@.len() && (#[trigger] graph.edges@[i]).to@ == key@
                && graph.edges@[i].from.component@ == output.component@ && (
            graph.edges@[i].from.port is Some) == (output.port is Some) && (output.port is Some
                ==> graph.edges@[i].from.port->0@ == output.port->0@);
        assert(edges[i] == graph.edges@[i]@);
        assert(f(i)[0] == output@);
        assert(f(i).contains(output@));
        let k = choose|k: int| 0 <= k < names.len() && names[k] == output@;
        assert(inputs@[k]@ == output@);
    }
}

/// Whether a source belongs to a pipeline under a name: as the one that reads a
/// table, of several tables the last, or else as one of the configuration.
pub open spec fn has_source(
    sources: Seq<(Seq<char>, SourceOuter)>,
    tables: Seq<(Seq<char>, EnrichmentTableOuter<String>)>,
    name: Seq<char>,
    config: Arc<SourceConfig>,
) -> bool {
    ||| exists|t: int|
        0 <= t < tables.len() && (#[trigger] tables[t]).1.source is Some
            && tables[t].1.source->0.key@ == name && tables[t].1.source->0.config == config && forall|
            u: int,
        |
            t < u < tables.len() && (#[trigger] tables[u]).1.source is Some
                ==> tables[u].1.source->0.key@ != name
    ||| (exists|i: int|
        0 <= i < sources.len() && (#[trigger] sources[i]).0 == name && sources[i].1.inner == config)
        && forall|t: int|
        0 <= t < tables.len() && (#[trigger] tables[t]).1.source is Some
            ==> tables[t].1.source->0.key@ != name
}

/// Whether a sink belongs to a pipeline under a name, with these inputs and these
/// types of events: as the one that writes to the table of that name, or else as
/// one of the configuration.
pub open spec fn has_sink(
    sinks: Seq<(Seq<char>, SinkOuter<String>)>,
    tables: Seq<(Seq<char>, EnrichmentTableOuter<String>)>,
    name: Seq<char>,
    inputs: Seq<String>,
    types: DataType,
) -> bool {
    ||| exists|t: int|
        0 <= t < tables.len() && (#[trigger] tables[t]).1.sink is Some && tables[t].0 == name
            && tables[t].1.inputs@ == inputs && tables[t].1.sink->0.input.data_type == types
            && forall|u: int|
            t < u < tables.len() && (#[trigger] tables[u]).1.sink is Some ==> tables[u].0 != name
    ||| (exists|i: int|
        0 <= i < sinks.len() && (#[trigger] sinks[i]).0 == name && sinks[i].1.inputs@ == inputs
            && sinks[i].1.inner.input.data_type == types) && forall|t: int|
        0 <= t < tables.len() && (#[trigger] tables[t]).1.sink is Some ==> tables[t].0 != name
}

/// Whether an output belongs to a pipeline: to one of its sources or to one of
/// its transforms, in the namespace that is chosen.
pub open spec fn has_output(
    sources: Seq<(Seq<char>, SourceOuter)>,
    transforms: Seq<(Seq<char>, TransformOuter<String>)>,
    tables: Seq<(Seq<char>, EnrichmentTableOuter<String>)>,
    namespace: LogNamespace,
    output: OutputInfo,
) -> bool {
    ||| exists|config: Arc<SourceConfig>, o: int| #[trigger]
        source_gives(config, namespace, o, output) && has_source(
            sources,
            tables,
            output.0.0,
            config,
        )
    ||| exists|i: int, o: int|
        0 <= i < transforms.len() && transforms[i].0 == output.0.0 && #[trigger] transform_gives(
            transforms[i].1,
            namespace,
            o,
            output,
        )
}

/// Whether the output of a source at a place has the given port and gives the
/// given types of events.
pub open spec fn source_gives(
    config: Arc<SourceConfig>,
    namespace: LogNamespace,
    o: int,
    output: OutputInfo,
) -> bool {
    let outputs = match namespace {
        LogNamespace::Legacy => config.legacy_outputs@,
        LogNamespace::Vector => config.vector_outputs@,
    };
    &&& 0 <= o < outputs.len()
    &&& outputs[o].data_type == output.1
    &&& match (outputs[o].port, output.0.1) {
        (None, None) => true,
        (Some(port), Some(text)) => port@ == text,
        _ => false,
    }
}

/// Whether the output of a transform at a place has the given port and gives the
/// given types of events.
pub open spec fn transform_gives(
    transform: TransformOuter<String>,
    namespace: LogNamespace,
    o: int,
    output: OutputInfo,
) -> bool {
    let outputs = match namespace {
        LogNamespace::Legacy => transform.inner.legacy_outputs@,
        LogNamespace::Vector => transform.inner.vector_outputs@,
    };
    &&& 0 <= o < outputs.len()
    &&& outputs[o].data_type == output.1
    &&& match (outputs[o].port, output.0.1) {
        (None, None) => true,
        (Some(port), Some(text)) => port@ == text,
        _ => false,
    }
}

/// All sources are those that belong to the pipeline.
proof fn sources_belong(
    sources: Seq<(Seq<char>, SourceOuter)>,
    tables: Seq<(Seq<char>, EnrichmentTableOuter<String>)>,
)
    requires
        distinct_keys(sources),
    ensures
        distinct_keys(all_sources(sources, tables)),
        forall|name: Seq<char>, config: Arc<SourceConfig>| #[trigger]
            all_sources(sources, tables).contains((name, config)) <==> has_source(
                sources,
                tables,
                name,
                config,
            ),
    decreases tables.len(),
{
    let all = all_sources(sources, tables);
    if tables.len() == 0 {
        assert forall|i: int, j: int| 0 <= i < j < all.len() implies #[trigger] all[i].0
            != #[trigger] all[j].0 by {
            assert(sources[i].0 != sources[j].0);
        }
        assert forall|name: Seq<char>, config: Arc<SourceConfig>| #[trigger]
            all.contains((name, config)) <==> has_source(sources, tables, name, config) by {
            if all.contains((name, config)) {
                let i = choose|i: int| 0 <= i < all.len() && all[i] == (name, config);
                assert(sources[i].0 == name);
            }
            if has_source(sources, tables, name, config) {
                let i = choose|i: int|
                    0 <= i < sources.len() && (#[trigger] sources[i]).0 == name && sources[i].1.inner
                        == config;
                assert(all[i] == (name, config));
            }
        }
    } else {
        let less = tables.drop_last();
        let last = tables.len() - 1;
        let before = all_sources(sources, less);
        sources_belong(sources, less);
        if let Some(source) = tables.last().1.source {
            crate::component_map::put_is_found(before, source.key@, source.config);
        }
        assert forall|name: Seq<char>, config: Arc<SourceConfig>| #[trigger]
            all.contains((name, config)) <==> has_source(sources, tables, name, config) by {
            let own = tables[last].1.source is Some && tables[last].1.source->0.key@ == name;
            assert(all.contains((name, config)) <==> if own {
                config == tables[last].1.source->0.config
            } else {
                before.contains((name, config))
            });
            if own {
                if has_source(sources, tables, name, config) {
                    if exists|t: int|
                        0 <= t < tables.len() && (#[trigger] tables[t]).1.source is Some
                            && tables[t].1.source->0.key@ == name && tables[t].1.source->0.config
                            == config && forall|u: int|
                            t < u < tables.len() && (#[trigger] tables[u]).1.source is Some
                                ==> tables[u].1.source->0.key@ != name {
                        let t = choose|t: int|
                            0 <= t < tables.len() && (#[trigger] tables[t]).1.source is Some
                                && tables[t].1.source->0.key@ == name
                                && tables[t].1.source->0.config == config && forall|u: int|
                                t < u < tables.len() && (#[trigger] tables[u]).1.source is Some
                                    ==> tables[u].1.source->0.key@ != name;
                        if t < last {
                            assert(tables[last].1.source->0.key@ != name);
                        }
                    }
                }
            } else {
                assert(has_source(sources, tables, name, config) <==> has_source(
                    sources,
                    less,
                    name,
                    config,
                )) by {
                    assert forall|t: int| 0 <= t < less.len() implies less[t] == tables[t] by {}
                    if has_source(sources, less, name, config) {
                        if exists|t: int|
                            0 <= t < less.len() && (#[trigger] less[t]).1.source is Some
                                && less[t].1.source->0.key@ == name && less[t].1.source->0.config
                                == config && forall|u: int|
                                t < u < less.len() && (#[trigger] less[u]).1.source is Some
                                    ==> less[u].1.source->0.key@ != name {
                            let t = choose|t: int|
                                0 <= t < less.len() && (#[trigger] less[t]).1.source is Some
                                    && less[t].1.source->0.key@ == name
                                    && less[t].1.source->0.config == config && forall|u: int|
                                    t < u < less.len() && (#[trigger] less[u]).1.source is Some
                                        ==> less[u].1.source->0.key@ != name;
                            assert(tables[t] == less[t]);
                            assert forall|u: int|
                                t < u < tables.len() && (#[trigger] tables[u]).1.source is Some
                                    implies tables[u].1.source->0.key@ != name by {
                                if u < last {
                                    assert(less[u] == tables[u]);
                                }
                            }
                        } else {
                            assert forall|t: int|
                                0 <= t < tables.len() && (#[trigger] tables[t]).1.source is Some
                                    implies tables[t].1.source->0.key@ != name by {
                                if t < last {
                                    assert(less[t] == tables[t]);
                                }
                            }
                        }
                    }
                    if has_source(sources, tables, name, config) {
                        if exists|t: int|
                            0 <= t < tables.len() && (#[trigger] tables[t]).1.source is Some
                                && tables[t].1.source->0.key@ == name
                                && tables[t].1.source->0.config == config && forall|u: int|
                                t < u < tables.len() && (#[trigger] tables[u]).1.source is Some
                                    ==> tables[u].1.source->0.key@ != name {
                            let t = choose|t: int|
                                0 <= t < tables.len() && (#[trigger] tables[t]).1.source is Some
                                    && tables[t].1.source->0.key@ == name
                                    && tables[t].1.source->0.config == config && forall|u: int|
                                    t < u < tables.len() && (#[trigger] tables[u]).1.source is Some
                                        ==> tables[u].1.source->0.key@ != name;
                            assert(less[t] == tables[t]);
                            assert forall|u: int|
                                t < u < less.len() && (#[trigger] less[u]).1.source is Some
                                    implies less[u].1.source->0.key@ != name by {
                                assert(less[u] == tables[u]);
                            }
                        } else {
                            assert forall|t: int|
                                0 <= t < less.len() && (#[trigger] less[t]).1.source is Some
                                    implies less[t].1.source->0.key@ != name by {
                                assert(less[t] == tables[t]);
                            }
                        }
                    }
                }
            }
        }
    }
}

/// Whether a component that takes events belongs to a pipeline under a name: as
/// the sink of the table of that name, of several the last, or else as a sink of
/// the configuration.
spec fn has_taker<'a>(
    sinks: Seq<(Seq<char>, SinkOuter<String>)>,
    tables: Seq<(Seq<char>, EnrichmentTableOuter<String>)>,
    name: Seq<char>,
    taker: Taker<'a>,
) -> bool {
    ||| exists|t: int|
        0 <= t < tables.len() && (#[trigger] tables[t]).1.sink is Some && tables[t].0 == name && (
        Taker { inputs: &tables[t].1.inputs, data_type: tables[t].1.sink->0.input.data_type })
            == taker && forall|u: int|
            t < u < tables.len() && (#[trigger] tables[u]).1.sink is Some ==> tables[u].0 != name
    ||| (exists|i: int|
        0 <= i < sinks.len() && (#[trigger] sinks[i]).0 == name && (Taker {
            inputs: &sinks[i].1.inputs,
            data_type: sinks[i].1.inner.input.data_type,
        }) == taker) && forall|t: int|
        0 <= t < tables.len() && (#[trigger] tables[t]).1.sink is Some ==> tables[t].0 != name
}

/// All sinks are those that belong to the pipeline.
proof fn sinks_belong<'a>(
    sinks: Seq<(Seq<char>, SinkOuter<String>)>,
    tables: Seq<(Seq<char>, EnrichmentTableOuter<String>)>,
)
    requires
        distinct_keys(sinks),
    ensures
        distinct_keys::<Taker<'a>>(all_sinks(sinks, tables)),
        forall|name: Seq<char>, taker: Taker<'a>| #[trigger]
            all_sinks(sinks, tables).contains((name, taker)) <==> has_taker(
                sinks,
                tables,
                name,
                taker,
            ),
    decreases tables.len(),
{
    let all: Seq<(Seq<char>, Taker<'a>)> = all_sinks(sinks, tables);
    if tables.len() == 0 {
        assert forall|i: int, j: int| 0 <= i < j < all.len() implies #[trigger] all[i].0
            != #[trigger] all[j].0 by {
            assert(sinks[i].0 != sinks[j].0);
        }
        assert forall|name: Seq<char>, taker: Taker<'a>| #[trigger]
            all.contains((name, taker)) <==> has_taker(sinks, tables, name, taker) by {
            if all.contains((name, taker)) {
                let i = choose|i: int| 0 <= i < all.len() && all[i] == (name, taker);
                assert(sinks[i].0 == name);
            }
            if has_taker(sinks, tables, name, taker) {
                let i = choose|i: int|
                    0 <= i < sinks.len() && (#[trigger] sinks[i]).0 == name && (Taker {
                        inputs: &sinks[i].1.inputs,
                        data_type: sinks[i].1.inner.input.data_type,
                    }) == taker;
                assert(all[i] == (name, taker));
            }
        }
    } else {
        let less = tables.drop_last();
        let last = tables.len() - 1;
        let before: Seq<(Seq<char>, Taker<'a>)> = all_sinks(sinks, less);
        sinks_belong(sinks, less);
        if let Some(sink) = tables.last().1.sink {
            crate::component_map::put_is_found(before, tables.last().0, Taker {
                inputs: &tables.last().1.inputs,
                data_type: sink.input.data_type,
            });
        }
        assert forall|name: Seq<char>, taker: Taker<'a>| #[trigger]
            all.contains((name, taker)) <==> has_taker(sinks, tables, name, taker) by {
            let own = tables[last].1.sink is Some && tables[last].0 == name;
            assert(all.contains((name, taker)) <==> if own {
                taker == (Taker {
                    inputs: &tables[last].1.inputs,
                    data_type: tables[last].1.sink->0.input.data_type,
                })
            } else {
                before.contains((name, taker))
            });
            if own {
                if has_taker(sinks, tables, name, taker) {
                    if exists|t: int|
                        0 <= t < tables.len() && (#[trigger] tables[t]).1.sink is Some
                            && tables[t].0 == name && (Taker {
                                inputs: &tables[t].1.inputs,
                                data_type: tables[t].1.sink->0.input.data_type,
                            })
                            == taker && forall|u: int|
                            t < u < tables.len() && (#[trigger] tables[u]).1.sink is Some
                                ==> tables[u].0 != name {
                        let t = choose|t: int|
                            0 <= t < tables.len() && (#[trigger] tables[t]).1.sink is Some
                                && tables[t].0 == name
                                && (Taker {
                                    inputs: &tables[t].1.inputs,
                                    data_type: tables[t].1.sink->0.input.data_type,
                                }) == taker && forall|u: int|
                                t < u < tables.len() && (#[trigger] tables[u]).1.sink is Some
                                    ==> tables[u].0 != name;
                        if t < last {
                            assert(tables[last].0 != name);
                        }
                    }
                }
            } else {
                assert(has_taker(sinks, tables, name, taker) <==> has_taker(
                    sinks,
                    less,
                    name,
                    taker,
                )) by {
                    assert forall|t: int| 0 <= t < less.len() implies less[t] == tables[t] by {}
                    if has_taker(sinks, less, name, taker) {
                        if exists|t: int|
                            0 <= t < less.len() && (#[trigger] less[t]).1.sink is Some
                                && less[t].0 == name && (Taker {
                                    inputs: &less[t].1.inputs,
                                    data_type: less[t].1.sink->0.input.data_type,
                                })
                                == taker && forall|u: int|
                                t < u < less.len() && (#[trigger] less[u]).1.sink is Some
                                    ==> less[u].0 != name {
                            let t = choose|t: int|
                                0 <= t < less.len() && (#[trigger] less[t]).1.sink is Some
                                    && less[t].0 == name
                                    && (Taker {
                                        inputs: &less[t].1.inputs,
                                        data_type: less[t].1.sink->0.input.data_type,
                                    }) == taker && forall|u: int|
                                    t < u < less.len() && (#[trigger] less[u]).1.sink is Some
                                        ==> less[u].0 != name;
                            assert(tables[t] == less[t]);
                            assert forall|u: int|
                                t < u < tables.len() && (#[trigger] tables[u]).1.sink is Some
                                    implies tables[u].0 != name by {
                                if u < last {
                                    assert(less[u] == tables[u]);
                                }
                            }
                        } else {
                            assert forall|t: int|
                                0 <= t < tables.len() && (#[trigger] tables[t]).1.sink is Some
                                    implies tables[t].0 != name by {
                                if t < last {
                                    assert(less[t] == tables[t]);
                                }
                            }
                        }
                    }
                    if has_taker(sinks, tables, name, taker) {
                        if exists|t: int|
                            0 <= t < tables.len() && (#[trigger] tables[t]).1.sink is Some
                                && tables[t].0 == name
                                && (Taker {
                                    inputs: &tables[t].1.inputs,
                                    data_type: tables[t].1.sink->0.input.data_type,
                                }) == taker && forall|u: int|
                                t < u < tables.len() && (#[trigger] tables[u]).1.sink is Some
                                    ==> tables[u].0 != name {
                            let t = choose|t: int|
                                0 <= t < tables.len() && (#[trigger] tables[t]).1.sink is Some
                                    && tables[t].0 == name
                                    && (Taker {
                                        inputs: &tables[t].1.inputs,
                                        data_type: tables[t].1.sink->0.input.data_type,
                                    }) == taker && forall|u: int|
                                    t < u < tables.len() && (#[trigger] tables[u]).1.sink is Some
                                        ==> tables[u].0 != name;
                            assert(less[t] == tables[t]);
                            assert forall|u: int|
                                t < u < less.len() && (#[trigger] less[u]).1.sink is Some
                                    implies less[u].0 != name by {
                                assert(less[u] == tables[u]);
                            }
                        } else {
                            assert forall|t: int|
                                0 <= t < less.len() && (#[trigger] less[t]).1.sink is Some
                                    implies less[t].0 != name by {
                                assert(less[t] == tables[t]);
                            }
                        }
                    }
                }
            }
        }
    }
}

/// The outputs of the graph are those that belong to the pipeline.
pub proof fn outputs_belong(
    sources: Seq<(Seq<char>, SourceOuter)>,
    transforms: Seq<(Seq<char>, TransformOuter<String>)>,
    tables: Seq<(Seq<char>, EnrichmentTableOuter<String>)>,
    namespace: LogNamespace,
    output: OutputInfo,
)
    requires
        distinct_keys(sources),
    ensures
        graph_outputs(all_sources(sources, tables), transforms, namespace).contains(output)
            <==> has_output(sources, transforms, tables, namespace, output),
{
    let all = all_sources(sources, tables);
    sources_belong(sources, tables);
    let f = |i: int| source_infos(all[i].0, all[i].1.outputs_in(namespace));
    let g = |i: int|
        transform_infos(transforms[i].0, transforms[i].1.inner.outputs_in(namespace));
    let first = gather(all.len(), f);
    let second = gather(transforms.len(), g);
    let whole = first + second;
    assert(graph_outputs(all, transforms, namespace) == whole);
    crate::text::gathered(all.len(), f, output);
    crate::text::gathered(transforms.len(), g, output);
    if whole.contains(output) {
        let k = choose|k: int| 0 <= k < whole.len() && whole[k] == output;
        if k < first.len() {
            assert(first[k] == output);
            let i = choose|i: int| 0 <= i < all.len() && (#[trigger] f(i)).contains(output);
            let infos = f(i);
            let o = choose|o: int| 0 <= o < infos.len() && infos[o] == output;
            assert(all.contains((all[i].0, all[i].1)));
            assert(source_gives(all[i].1, namespace, o, output));
        } else {
            assert(second[k - first.len()] == output);
            let i = choose|i: int| 0 <= i < transforms.len() && (#[trigger] g(i)).contains(output);
            let infos = g(i);
            let o = choose|o: int| 0 <= o < infos.len() && infos[o] == output;
            assert(transform_gives(transforms[i].1, namespace, o, output));
        }
    }
    if has_output(sources, transforms, tables, namespace, output) {
        if exists|config: Arc<SourceConfig>, o: int| #[trigger]
            source_gives(config, namespace, o, output) && has_source(
                sources,
                tables,
                output.0.0,
                config,
            ) {
            let (config, o) = choose|config: Arc<SourceConfig>, o: int| #[trigger]
                source_gives(config, namespace, o, output) && has_source(
                    sources,
                    tables,
                    output.0.0,
                    config,
                );
            assert(all.contains((output.0.0, config)));
            let i = choose|i: int| 0 <= i < all.len() && all[i] == (output.0.0, config);
            assert(f(i)[o] == output);
            assert(f(i).contains(output));
            let k = choose|k: int| 0 <= k < first.len() && first[k] == output;
            assert(whole[k] == output);
        } else {
            let (i, o) = choose|i: int, o: int|
                0 <= i < transforms.len() && transforms[i].0 == output.0.0
                    && #[trigger] transform_gives(transforms[i].1, namespace, o, output);
            assert(g(i)[o] == output);
            assert(g(i).contains(output));
            let k = choose|k: int| 0 <= k < second.len() && second[k] == output;
            assert(whole[first.len() + k] == output);
        }
    }
}

/// Whether an input is the text of an output: the name of its component, or, for
/// an output with a name, both names with a dot between them.
pub open spec fn reads_as(output: OutputInfo, input: Seq<char>) -> bool {
    match output.0.1 {
        None => input == output.0.0,
        Some(port) => input == output.0.0 + "."@ + port,
    }
}

/// Whether an input may stand: where it is the text of an output of the pipeline,
/// or where matching is relaxed and it has a character of patterns.
pub open spec fn input_stands(
    sources: Seq<(Seq<char>, SourceOuter)>,
    transforms: Seq<(Seq<char>, TransformOuter<String>)>,
    tables: Seq<(Seq<char>, EnrichmentTableOuter<String>)>,
    namespace: LogNamespace,
    matching: WildcardMatching,
    input: Seq<char>,
) -> bool {
    ||| exists|output: OutputInfo| #[trigger]
        has_output(sources, transforms, tables, namespace, output) && reads_as(output, input)
    ||| matching == WildcardMatching::Relaxed && (input.contains('?') || input.contains('*')
        || input.contains('[') || input.contains(']'))
}

/// No message is given on an input just where it may stand.
proof fn standing_inputs_pass(
    sources: Seq<(Seq<char>, SourceOuter)>,
    transforms: Seq<(Seq<char>, TransformOuter<String>)>,
    tables: Seq<(Seq<char>, EnrichmentTableOuter<String>)>,
    namespace: LogNamespace,
    matching: WildcardMatching,
    kind: Seq<char>,
    key: Seq<char>,
    inputs: Seq<String>,
)
    requires
        distinct_keys(sources),
    ensures
        taker_errors(
            graph_outputs(all_sources(sources, tables), transforms, namespace),
            kind,
            key,
            texts(inputs),
            matching,
        ).len() == 0 <==> forall|k: int|
            0 <= k < inputs.len() ==> input_stands(
                sources,
                transforms,
                tables,
                namespace,
                matching,
                (#[trigger] inputs[k])@,
            ),
{
    let outputs = graph_outputs(all_sources(sources, tables), transforms, namespace);
    let names = texts(inputs);
    let f = |i: int| input_error(outputs, kind, key, names[i], matching);
    gather_empty(names.len(), f);
    assert forall|k: int| 0 <= k < inputs.len() implies ((#[trigger] f(k)).len() == 0
        <==> input_stands(sources, transforms, tables, namespace, matching, inputs[k]@)) by {
        let input = inputs[k]@;
        assert(names[k] == input);
        resolved_is_output(outputs, input);
        if let Some(found) = resolve(outputs, input) {
            outputs_belong(sources, transforms, tables, namespace, found);
            assert(reads_as(found, input));
        } else {
            if exists|output: OutputInfo| #[trigger]
                has_output(sources, transforms, tables, namespace, output) && reads_as(output, input) {
                let output = choose|output: OutputInfo| #[trigger]
                    has_output(sources, transforms, tables, namespace, output) && reads_as(
                        output,
                        input,
                    );
                outputs_belong(sources, transforms, tables, namespace, output);
                let m = choose|m: int| 0 <= m < outputs.len() && outputs[m] == output;
                assert(output_text(outputs[m].0) != input);
            }
        }
    }
    if forall|k: int|
        0 <= k < inputs.len() ==> input_stands(
            sources,
            transforms,
            tables,
            namespace,
            matching,
            (#[trigger] inputs[k])@,
        ) {
        assert forall|i: int| 0 <= i < names.len() implies (#[trigger] f(i)).len() == 0 by {
            assert(input_stands(
                sources,
                transforms,
                tables,
                namespace,
                matching,
                inputs[i]@,
            ));
        }
    }
    if taker_errors(outputs, kind, key, names, matching).len() == 0 {
        assert forall|k: int| 0 <= k < inputs.len() implies input_stands(
            sources,
            transforms,
            tables,
            namespace,
            matching,
            (#[trigger] inputs[k])@,
        ) by {
            assert(f(k).len() == 0);
        }
    }
}

/// No message is given on the inputs of a pipeline just where all inputs of its
/// transforms and sinks may stand.
pub proof fn unresolved_inputs_are_refused<'a>(
    sources: Seq<(Seq<char>, SourceOuter)>,
    transforms: Seq<(Seq<char>, TransformOuter<String>)>,
    sinks: Seq<(Seq<char>, SinkOuter<String>)>,
    tables: Seq<(Seq<char>, EnrichmentTableOuter<String>)>,
    namespace: LogNamespace,
    matching: WildcardMatching,
)
    requires
        distinct_keys(sources),
        distinct_keys(sinks),
    ensures
        graph_errors(
            graph_outputs(all_sources(sources, tables), transforms, namespace),
            transforms,
            all_sinks(sinks, tables),
            matching,
        ).len() == 0 <==> {
            &&& forall|i: int, k: int|
                0 <= i < transforms.len() && 0 <= k < transforms[i].1.inputs@.len()
                    ==> input_stands(
                    sources,
                    transforms,
                    tables,
                    namespace,
                    matching,
                    (#[trigger] transforms[i].1.inputs@[k])@,
                )
            &&& forall|name: Seq<char>, inputs: Seq<String>, types: DataType, k: int|
                #![trigger has_sink(sinks, tables, name, inputs, types), inputs[k]]
                has_sink(sinks, tables, name, inputs, types) && 0 <= k < inputs.len()
                    ==> input_stands(
                    sources,
                    transforms,
                    tables,
                    namespace,
                    matching,
                    inputs[k]@,
                )
        },
{
    let outputs = graph_outputs(all_sources(sources, tables), transforms, namespace);
    let takers = all_sinks(sinks, tables);
    sinks_belong(sinks, tables);
    let f = |i: int|
        taker_errors(
            outputs,
            "transform"@,
            transforms[i].0,
            texts(transforms[i].1.inputs@),
            matching,
        );
    let g = |i: int|
        taker_errors(outputs, "sink"@, takers[i].0, texts(takers[i].1.inputs@), matching);
    let stands = |input: Seq<char>|
        input_stands(sources, transforms, tables, namespace, matching, input);
    gather_empty(transforms.len(), f);
    gather_empty(takers.len(), g);
    assert(graph_errors(outputs, transforms, takers, matching) == gather(transforms.len(), f)
        + gather(takers.len(), g));
    assert forall|i: int| 0 <= i < transforms.len() implies ((#[trigger] f(i)).len() == 0 <==> forall|
        k: int,
    |
        0 <= k < transforms[i].1.inputs@.len() ==> stands((#[trigger] transforms[i].1.inputs@[k])@)) by {
        standing_inputs_pass(
            sources,
            transforms,
            tables,
            namespace,
            matching,
            "transform"@,
            transforms[i].0,
            transforms[i].1.inputs@,
        );
    }
    assert forall|i: int| 0 <= i < takers.len() implies ((#[trigger] g(i)).len() == 0 <==> forall|
        k: int,
    |
        0 <= k < takers[i].1.inputs@.len() ==> stands((#[trigger] takers[i].1.inputs@[k])@)) by {
        standing_inputs_pass(
            sources,
            transforms,
            tables,
            namespace,
            matching,
            "sink"@,
            takers[i].0,
            takers[i].1.inputs@,
        );
    }
    if graph_errors(outputs, transforms, takers, matching).len() == 0 {
        assert forall|i: int, k: int|
            0 <= i < transforms.len() && 0 <= k < transforms[i].1.inputs@.len() implies stands(
            (#[trigger] transforms[i].1.inputs@[k])@,
        ) by {
            assert(f(i).len() == 0);
        }
        assert forall|name: Seq<char>, inputs: Seq<String>, types: DataType, k: int|
            #![trigger has_sink(sinks, tables, name, inputs, types), inputs[k]]
            has_sink(sinks, tables, name, inputs, types) && 0 <= k < inputs.len() implies stands(
            inputs[k]@,
        ) by {
            let taker = taken_as(sinks, tables, name, inputs, types);
            assert(takers.contains((name, taker)));
            let i = choose|i: int| 0 <= i < takers.len() && takers[i] == (name, taker);
            assert(g(i).len() == 0);
            assert(stands(takers[i].1.inputs@[k]@));
        }
    }
    if (forall|i: int, k: int|
        0 <= i < transforms.len() && 0 <= k < transforms[i].1.inputs@.len() ==> stands(
            (#[trigger] transforms[i].1.inputs@[k])@,
        )) && (forall|name: Seq<char>, inputs: Seq<String>, types: DataType, k: int|
        #![trigger has_sink(sinks, tables, name, inputs, types), inputs[k]]
        has_sink(sinks, tables, name, inputs, types) && 0 <= k < inputs.len() ==> stands(
            inputs[k]@,
        )) {
        assert forall|i: int| 0 <= i < transforms.len() implies (#[trigger] f(i)).len() == 0 by {}
        assert forall|i: int| 0 <= i < takers.len() implies (#[trigger] g(i)).len() == 0 by {
            let (name, taker) = takers[i];
            assert(takers.contains((name, taker)));
            assert(has_taker(sinks, tables, name, taker));
            taker_is_sink(sinks, tables, name, taker);
            assert(has_sink(sinks, tables, name, taker.inputs@, taker.data_type));
        }
    }
}

/// A component that takes events and belongs to a pipeline is a sink of it.
proof fn taker_is_sink<'a>(
    sinks: Seq<(Seq<char>, SinkOuter<String>)>,
    tables: Seq<(Seq<char>, EnrichmentTableOuter<String>)>,
    name: Seq<char>,
    taker: Taker<'a>,
)
    requires
        has_taker(sinks, tables, name, taker),
    ensures
        has_sink(sinks, tables, name, taker.inputs@, taker.data_type),
{
    if exists|t: int|
        0 <= t < tables.len() && (#[trigger] tables[t]).1.sink is Some && tables[t].0 == name && (
        Taker { inputs: &tables[t].1.inputs, data_type: tables[t].1.sink->0.input.data_type })
            == taker && forall|u: int|
            t < u < tables.len() && (#[trigger] tables[u]).1.sink is Some ==> tables[u].0 != name {
        let t = choose|t: int|
            0 <= t < tables.len() && (#[trigger] tables[t]).1.sink is Some && tables[t].0 == name
                && (Taker {
                inputs: &tables[t].1.inputs,
                data_type: tables[t].1.sink->0.input.data_type,
            }) == taker && forall|u: int|
                t < u < tables.len() && (#[trigger] tables[u]).1.sink is Some ==> tables[u].0 != name;
        assert(tables[t].1.inputs@ == taker.inputs@);
    } else {
        let i = choose|i: int|
            0 <= i < sinks.len() && (#[trigger] sinks[i]).0 == name && (Taker {
                inputs: &sinks[i].1.inputs,
                data_type: sinks[i].1.inner.input.data_type,
            }) == taker;
        assert(sinks[i].1.inputs@ == taker.inputs@);
    }
}

/// A sink of a pipeline is one of the components that take events.
proof fn taken_as<'a>(
    sinks: Seq<(Seq<char>, SinkOuter<String>)>,
    tables: Seq<(Seq<char>, EnrichmentTableOuter<String>)>,
    name: Seq<char>,
    inputs: Seq<String>,
    types: DataType,
) -> (taker: Taker<'a>)
    requires
        has_sink(sinks, tables, name, inputs, types),
        distinct_keys(sinks),
    ensures
        has_taker(sinks, tables, name, taker),
        taker.inputs@ == inputs,
        taker.data_type == types,
        all_sinks(sinks, tables).contains((name, taker)),
{
    sinks_belong(sinks, tables);
    if exists|t: int|
        0 <= t < tables.len() && (#[trigger] tables[t]).1.sink is Some && tables[t].0 == name
            && tables[t].1.inputs@ == inputs && tables[t].1.sink->0.input.data_type == types
            && forall|u: int|
            t < u < tables.len() && (#[trigger] tables[u]).1.sink is Some ==> tables[u].0 != name {
        let t = choose|t: int|
            0 <= t < tables.len() && (#[trigger] tables[t]).1.sink is Some && tables[t].0 == name
                && tables[t].1.inputs@ == inputs && tables[t].1.sink->0.input.data_type == types
                && forall|u: int|
                t < u < tables.len() && (#[trigger] tables[u]).1.sink is Some ==> tables[u].0 != name;
        let taker = Taker {
            inputs: &tables[t].1.inputs,
            data_type: tables[t].1.sink->0.input.data_type,
        };
        assert(has_taker(sinks, tables, name, taker));
        taker
    } else {
        let i = choose|i: int|
            0 <= i < sinks.len() && (#[trigger] sinks[i]).0 == name && sinks[i].1.inputs@ == inputs
                && sinks[i].1.inner.input.data_type == types;
        let taker = Taker {
            inputs: &sinks[i].1.inputs,
            data_type: sinks[i].1.inner.input.data_type,
        };
        assert(has_taker(sinks, tables, name, taker));
        taker
    }
}

/// Whether a component takes events under a name, with these inputs and these
/// types of events: as a transform, or as a sink.
pub open spec fn takes_events(
    transforms: Seq<(Seq<char>, TransformOuter<String>)>,
    sinks: Seq<(Seq<char>, SinkOuter<String>)>,
    tables: Seq<(Seq<char>, EnrichmentTableOuter<String>)>,
    name: Seq<char>,
    inputs: Seq<String>,
    types: DataType,
) -> bool {
    ||| exists|i: int|
        0 <= i < transforms.len() && (#[trigger] transforms[i]).0 == name
            && transforms[i].1.inputs@ == inputs && transforms[i].1.inner.input.data_type == types
    ||| has_sink(sinks, tables, name, inputs, types)
}

/// Whether an edge leads from an output of the pipeline to a component that has
/// the text of the output among its inputs, with the types of both.
pub open spec fn edge_belongs(
    sources: Seq<(Seq<char>, SourceOuter)>,
    transforms: Seq<(Seq<char>, TransformOuter<String>)>,
    sinks: Seq<(Seq<char>, SinkOuter<String>)>,
    tables: Seq<(Seq<char>, EnrichmentTableOuter<String>)>,
    namespace: LogNamespace,
    edge: EdgeModel,
) -> bool {
    &&& has_output(sources, transforms, tables, namespace, (edge.from, edge.from_type))
    &&& exists|inputs: Seq<String>, k: int|
        #![trigger takes_events(transforms, sinks, tables, edge.to, inputs, edge.to_type), inputs[k]]
        takes_events(transforms, sinks, tables, edge.to, inputs, edge.to_type) && 0 <= k
            < inputs.len() && reads_as((edge.from, edge.from_type), inputs[k]@)
}

/// The edges for the inputs of a component, one by one.
proof fn edges_of_inputs(
    outputs: Seq<OutputInfo>,
    key: Seq<char>,
    types: DataType,
    inputs: Seq<String>,
    edge: EdgeModel,
)
    ensures
        taker_edges(outputs, key, types, texts(inputs)).contains(edge) <==> edge.to == key
            && edge.to_type == types && exists|k: int|
            0 <= k < inputs.len() && resolve(outputs, (#[trigger] inputs[k])@) == Some(
                (edge.from, edge.from_type),
            ),
{
    let names = texts(inputs);
    let f = |i: int| input_edge(outputs, key, types, names[i]);
    crate::text::gathered(names.len(), f, edge);
    assert(taker_edges(outputs, key, types, names) == gather(names.len(), f));
    assert forall|k: int| 0 <= k < inputs.len() implies ((#[trigger] f(k)).contains(edge) <==> edge.to
        == key && edge.to_type == types && resolve(outputs, inputs[k]@) == Some(
        (edge.from, edge.from_type),
    )) by {
        assert(names[k] == inputs[k]@);
        if let Some(found) = resolve(outputs, inputs[k]@) {
            let made = EdgeModel { from: found.0, from_type: found.1, to: key, to_type: types };
            assert(f(k) =~= seq![made]);
            assert(seq![made][0] == made);
            if f(k).contains(edge) {
                assert(edge == made);
            }
            if edge == made {
                assert(f(k)[0] == edge);
            }
        }
    }
    if taker_edges(outputs, key, types, names).contains(edge) {
        let k = choose|k: int| 0 <= k < names.len() && (#[trigger] f(k)).contains(edge);
        assert(resolve(outputs, inputs[k]@) == Some((edge.from, edge.from_type)));
    }
    if edge.to == key && edge.to_type == types && exists|k: int|
        0 <= k < inputs.len() && resolve(outputs, (#[trigger] inputs[k])@) == Some(
            (edge.from, edge.from_type),
        ) {
        let k = choose|k: int|
            0 <= k < inputs.len() && resolve(outputs, (#[trigger] inputs[k])@) == Some(
                (edge.from, edge.from_type),
            );
        assert(f(k).contains(edge));
    }
}

/// The edges of a pipeline lead from its outputs to the components that name them
/// among their inputs; and where an input is the text of an output, an edge leads
/// to its component from an output with that text.
pub proof fn edges_belong<'a>(
    sources: Seq<(Seq<char>, SourceOuter)>,
    transforms: Seq<(Seq<char>, TransformOuter<String>)>,
    sinks: Seq<(Seq<char>, SinkOuter<String>)>,
    tables: Seq<(Seq<char>, EnrichmentTableOuter<String>)>,
    namespace: LogNamespace,
    takers: Seq<(Seq<char>, Taker<'a>)>,
)
    requires
        distinct_keys(sources),
        distinct_keys(sinks),
        takers == all_sinks(sinks, tables),
    ensures
        ({
            let outputs = graph_outputs(all_sources(sources, tables), transforms, namespace);
            let edges = graph_edges(outputs, transforms, takers);
            &&& forall|edge: EdgeModel| #[trigger]
                edges.contains(edge) ==> edge_belongs(
                    sources,
                    transforms,
                    sinks,
                    tables,
                    namespace,
                    edge,
                )
            &&& forall|
                name: Seq<char>,
                inputs: Seq<String>,
                types: DataType,
                k: int,
                output: OutputInfo,
            |
                #![trigger takes_events(transforms, sinks, tables, name, inputs, types),
                    reads_as(output, inputs[k]@)]
                takes_events(transforms, sinks, tables, name, inputs, types) && 0 <= k
                    < inputs.len() && has_output(sources, transforms, tables, namespace, output)
                    && reads_as(output, inputs[k]@) ==> exists|edge: EdgeModel| #[trigger]
                    edges.contains(edge) && edge.to == name && edge.to_type == types && reads_as(
                        (edge.from, edge.from_type),
                        inputs[k]@,
                    )
        }),
{
    let outputs = graph_outputs(all_sources(sources, tables), transforms, namespace);
    let f = |i: int|
        taker_edges(
            outputs,
            transforms[i].0,
            transforms[i].1.inner.input.data_type,
            texts(transforms[i].1.inputs@),
        );
    let g = |i: int|
        taker_edges(outputs, takers[i].0, takers[i].1.data_type, texts(takers[i].1.inputs@));
    let first = gather(transforms.len(), f);
    let second = gather(takers.len(), g);
    let edges = graph_edges(outputs, transforms, takers);
    assert(edges == first + second);
    sinks_belong(sinks, tables);
    assert forall|edge: EdgeModel| #[trigger] edges.contains(edge) <==> first.contains(edge)
        || second.contains(edge) by {
        if edges.contains(edge) {
            let k = choose|k: int| 0 <= k < edges.len() && edges[k] == edge;
            if k < first.len() {
                assert(first[k] == edge);
            } else {
                assert(second[k - first.len()] == edge);
            }
        }
        if first.contains(edge) {
            let k = choose|k: int| 0 <= k < first.len() && first[k] == edge;
            assert(edges[k] == edge);
        }
        if second.contains(edge) {
            let k = choose|k: int| 0 <= k < second.len() && second[k] == edge;
            assert(edges[first.len() + k] == edge);
        }
    }
    assert forall|edge: EdgeModel| #[trigger] edges.contains(edge) implies edge_belongs(
        sources,
        transforms,
        sinks,
        tables,
        namespace,
        edge,
    ) by {
        let output = (edge.from, edge.from_type);
        crate::text::gathered(transforms.len(), f, edge);
        crate::text::gathered(takers.len(), g, edge);
        outputs_belong(sources, transforms, tables, namespace, output);
        if first.contains(edge) {
            let i = choose|i: int| 0 <= i < transforms.len() && (#[trigger] f(i)).contains(edge);
            let inputs = transforms[i].1.inputs@;
            edges_of_inputs(
                outputs,
                transforms[i].0,
                transforms[i].1.inner.input.data_type,
                inputs,
                edge,
            );
            let k = choose|k: int|
                0 <= k < inputs.len() && resolve(outputs, (#[trigger] inputs[k])@) == Some(output);
            resolved_is_output(outputs, inputs[k]@);
            assert(takes_events(transforms, sinks, tables, edge.to, inputs, edge.to_type));
            assert(reads_as(output, inputs[k]@));
        } else {
            let i = choose|i: int| 0 <= i < takers.len() && (#[trigger] g(i)).contains(edge);
            let inputs = takers[i].1.inputs@;
            edges_of_inputs(outputs, takers[i].0, takers[i].1.data_type, inputs, edge);
            let k = choose|k: int|
                0 <= k < inputs.len() && resolve(outputs, (#[trigger] inputs[k])@) == Some(output);
            resolved_is_output(outputs, inputs[k]@);
            assert(takers.contains((takers[i].0, takers[i].1)));
            taker_is_sink(sinks, tables, takers[i].0, takers[i].1);
            assert(takes_events(transforms, sinks, tables, edge.to, inputs, edge.to_type));
            assert(reads_as(output, inputs[k]@));
        }
    }
    assert forall|name: Seq<char>, inputs: Seq<String>, types: DataType, k: int, output: OutputInfo|
        #![trigger takes_events(transforms, sinks, tables, name, inputs, types), reads_as(output, inputs[k]@)]
        takes_events(transforms, sinks, tables, name, inputs, types) && 0 <= k < inputs.len()
            && has_output(sources, transforms, tables, namespace, output) && reads_as(
            output,
            inputs[k]@,
        ) implies exists|edge: EdgeModel| #[trigger]
        edges.contains(edge) && edge.to == name && edge.to_type == types && reads_as(
            (edge.from, edge.from_type),
            inputs[k]@,
        ) by {
        outputs_belong(sources, transforms, tables, namespace, output);
        resolved_is_output(outputs, inputs[k]@);
        if resolve(outputs, inputs[k]@) is None {
            let m = choose|m: int| 0 <= m < outputs.len() && outputs[m] == output;
            assert(output_text(outputs[m].0) != inputs[k]@);
        }
        let found = resolve(outputs, inputs[k]@)->0;
        let edge = EdgeModel { from: found.0, from_type: found.1, to: name, to_type: types };
        edges_of_inputs(outputs, name, types, inputs, edge);
        crate::text::gathered(transforms.len(), f, edge);
        crate::text::gathered(takers.len(), g, edge);
        assert(resolve(outputs, inputs[k]@) == Some((edge.from, edge.from_type)));
        assert(reads_as((edge.from, edge.from_type), inputs[k]@));
        if exists|i: int|
            0 <= i < transforms.len() && (#[trigger] transforms[i]).0 == name
                && transforms[i].1.inputs@ == inputs && transforms[i].1.inner.input.data_type
                == types {
            let i = choose|i: int|
                0 <= i < transforms.len() && (#[trigger] transforms[i]).0 == name
                    && transforms[i].1.inputs@ == inputs && transforms[i].1.inner.input.data_type
                    == types;
            assert(f(i).contains(edge));
        } else {
            let taker = taken_as(sinks, tables, name, inputs, types);
            let i = choose|i: int| 0 <= i < takers.len() && takers[i] == (name, taker);
            assert(g(i).contains(edge));
        }
        assert(edges.contains(edge));
    }
}

/// The graph of a pipeline is built just where all inputs of its transforms and
/// sinks may stand. It has the outputs of the pipeline and no others. Its edges
/// lead from them to the components that have their texts among their inputs, and
/// no input that is the text of an output is without an edge.
pub proof fn graphs_connect_inputs_to_outputs(
    sources: &ComponentMap<SourceOuter>,
    transforms: &ComponentMap<TransformOuter<String>>,
    sinks: &ComponentMap<SinkOuter<String>>,
    tables: &ComponentMap<EnrichmentTableOuter<String>>,
    namespace: LogNamespace,
    matching: WildcardMatching,
    result: Result<Graph, Vec<String>>,
)
    requires
        call_ensures(Graph::new, (sources, transforms, sinks, tables, namespace, matching), result),
        distinct_keys(sources@),
        distinct_keys(sinks@),
    ensures
        result is Ok <==> forall|name: Seq<char>, inputs: Seq<String>, types: DataType, k: int|
            #![trigger takes_events(transforms@, sinks@, tables@, name, inputs, types), inputs[k]]
            takes_events(transforms@, sinks@, tables@, name, inputs, types) && 0 <= k
                < inputs.len() ==> input_stands(
                sources@,
                transforms@,
                tables@,
                namespace,
                matching,
                inputs[k]@,
            ),
        result matches Ok(graph) ==> forall|output: OutputInfo| #[trigger]
            has_output(sources@, transforms@, tables@, namespace, output) <==> exists|i: int|
                0 <= i < graph.outputs@.len() && (#[trigger] graph.outputs@[i]).id.component@
                    == output.0.0 && graph.outputs@[i].data_type == output.1 && match (
                    graph.outputs@[i].id.port,
                    output.0.1,
                ) {
                    (None, None) => true,
                    (Some(port), Some(text)) => port@ == text,
                    _ => false,
                },
        result matches Ok(graph) ==> forall|i: int|
            0 <= i < graph.edges@.len() ==> edge_belongs(
                sources@,
                transforms@,
                sinks@,
                tables@,
                namespace,
                (#[trigger] graph.edges@[i])@,
            ),
        result matches Ok(graph) ==> forall|
            name: Seq<char>,
            inputs: Seq<String>,
            types: DataType,
            k: int,
            output: OutputInfo,
        |
            #![trigger takes_events(transforms@, sinks@, tables@, name, inputs, types),
                reads_as(output, inputs[k]@)]
            takes_events(transforms@, sinks@, tables@, name, inputs, types) && 0 <= k < inputs.len()
                && has_output(sources@, transforms@, tables@, namespace, output) && reads_as(
                output,
                inputs[k]@,
            ) ==> exists|i: int|
                0 <= i < graph.edges@.len() && (#[trigger] graph.edges@[i]).to@ == name
                    && graph.edges@[i].to_type == types && match graph.edges@[i].from.port {
                    None => inputs[k]@ == graph.edges@[i].from.component@,
                    Some(port) => inputs[k]@ == graph.edges@[i].from.component@ + "."@ + port@,
                },
{
    let takers = all_sinks(sinks@, tables@);
    let outputs = graph_outputs(all_sources(sources@, tables@), transforms@, namespace);
    let edges = graph_edges(outputs, transforms@, takers);
    unresolved_inputs_are_refused(sources@, transforms@, sinks@, tables@, namespace, matching);
    edges_belong(sources@, transforms@, sinks@, tables@, namespace, takers);
    assert(result is Ok ==> forall|name: Seq<char>, inputs: Seq<String>, types: DataType, k: int|
        #![trigger takes_events(transforms@, sinks@, tables@, name, inputs, types), inputs[k]]
        takes_events(transforms@, sinks@, tables@, name, inputs, types) && 0 <= k < inputs.len()
            ==> input_stands(
            sources@,
            transforms@,
            tables@,
            namespace,
            matching,
            inputs[k]@,
        )) by {
        if result is Ok {
            assert forall|name: Seq<char>, inputs: Seq<String>, types: DataType, k: int|
                #![trigger takes_events(transforms@, sinks@, tables@, name, inputs, types), inputs[k]]
                takes_events(transforms@, sinks@, tables@, name, inputs, types) && 0 <= k
                    < inputs.len() implies input_stands(
                sources@,
                transforms@,
                tables@,
                namespace,
                matching,
                inputs[k]@,
            ) by {
                if !has_sink(sinks@, tables@, name, inputs, types) {
                    let i = choose|i: int|
                        0 <= i < transforms@.len() && (#[trigger] transforms@[i]).0 == name
                            && transforms@[i].1.inputs@ == inputs
                            && transforms@[i].1.inner.input.data_type == types;
                    assert(transforms@[i].1.inputs@[k] == inputs[k]);
                }
            }
        }
    }
    if forall|name: Seq<char>, inputs: Seq<String>, types: DataType, k: int|
        #![trigger takes_events(transforms@, sinks@, tables@, name, inputs, types), inputs[k]]
        takes_events(transforms@, sinks@, tables@, name, inputs, types) && 0 <= k < inputs.len()
            ==> input_stands(
            sources@,
            transforms@,
            tables@,
            namespace,
            matching,
            inputs[k]@,
        ) {
        assert forall|i: int, k: int|
            0 <= i < transforms@.len() && 0 <= k < transforms@[i].1.inputs@.len()
                implies input_stands(
            sources@,
            transforms@,
            tables@,
            namespace,
            matching,
            (#[trigger] transforms@[i].1.inputs@[k])@,
        ) by {
            assert(takes_events(
                transforms@,
                sinks@,
                tables@,
                transforms@[i].0,
                transforms@[i].1.inputs@,
                transforms@[i].1.inner.input.data_type,
            ));
        }
        assert forall|name: Seq<char>, inputs: Seq<String>, types: DataType, k: int|
            #![trigger has_sink(sinks@, tables@, name, inputs, types), inputs[k]]
            has_sink(sinks@, tables@, name, inputs, types) && 0 <= k < inputs.len()
                implies input_stands(
            sources@,
            transforms@,
            tables@,
            namespace,
            matching,
            inputs[k]@,
        ) by {
            assert(takes_events(transforms@, sinks@, tables@, name, inputs, types));
        }
    }
    if let Ok(graph) = result {
        let infos = output_infos(graph.outputs@);
        assert forall|output: OutputInfo| #[trigger]
            has_output(sources@, transforms@, tables@, namespace, output) <==> exists|i: int|
                0 <= i < graph.outputs@.len() && (#[trigger] graph.outputs@[i]).id.component@
                    == output.0.0 && graph.outputs@[i].data_type == output.1 && match (
                    graph.outputs@[i].id.port,
                    output.0.1,
                ) {
                    (None, None) => true,
                    (Some(port), Some(text)) => port@ == text,
                    _ => false,
                } by {
            outputs_belong(sources@, transforms@, tables@, namespace, output);
            if has_output(sources@, transforms@, tables@, namespace, output) {
                let i = choose|i: int| 0 <= i < infos.len() && infos[i] == output;
                assert(graph.outputs@[i]@ == output);
            }
            if exists|i: int|
                0 <= i < graph.outputs@.len() && (#[trigger] graph.outputs@[i]).id.component@
                    == output.0.0 && graph.outputs@[i].data_type == output.1 && match (
                    graph.outputs@[i].id.port,
                    output.0.1,
                ) {
                    (None, None) => true,
                    (Some(port), Some(text)) => port@ == text,
                    _ => false,
                } {
                let i = choose|i: int|
                    0 <= i < graph.outputs@.len() && (#[trigger] graph.outputs@[i]).id.component@
                        == output.0.0 && graph.outputs@[i].data_type == output.1 && match (
                        graph.outputs@[i].id.port,
                        output.0.1,
                    ) {
                        (None, None) => true,
                        (Some(port), Some(text)) => port@ == text,
                        _ => false,
                    };
                assert(infos[i] == output);
            }
        }
        assert forall|i: int| 0 <= i < graph.edges@.len() implies edge_belongs(
            sources@,
            transforms@,
            sinks@,
            tables@,
            namespace,
            (#[trigger] graph.edges@[i])@,
        ) by {
            assert(edge_models(graph.edges@)[i] == graph.edges@[i]@);
            assert(edges.contains(graph.edges@[i]@));
        }
        assert forall|name: Seq<char>, inputs: Seq<String>, types: DataType, k: int, output: OutputInfo|
            #![trigger takes_events(transforms@, sinks@, tables@, name, inputs, types),
                reads_as(output, inputs[k]@)]
            takes_events(transforms@, sinks@, tables@, name, inputs, types) && 0 <= k < inputs.len()
                && has_output(sources@, transforms@, tables@, namespace, output) && reads_as(
                output,
                inputs[k]@,
            ) implies exists|i: int|
            0 <= i < graph.edges@.len() && (#[trigger] graph.edges@[i]).to@ == name
                && graph.edges@[i].to_type == types && match graph.edges@[i].from.port {
                None => inputs[k]@ == graph.edges@[i].from.component@,
                Some(port) => inputs[k]@ == graph.edges@[i].from.component@ + "."@ + port@,
            } by {
            let edge = choose|edge: EdgeModel| #[trigger]
                edges.contains(edge) && edge.to == name && edge.to_type == types && reads_as(
                    (edge.from, edge.from_type),
                    inputs[k]@,
                );
            let i = choose|i: int| 0 <= i < edges.len() && edges[i] == edge;
            assert(edge_models(graph.edges@)[i] == graph.edges@[i]@);
            assert(graph.edges@[i].to@ == name);
        }
    }
}

/// The types of events as they stand in messages: in brackets, and log entries
/// before measurements before trace spans.
pub open spec fn shown_types(types: DataType) -> Seq<char> {
    match (types.log, types.metric, types.trace) {
        (false, false, false) => "[]"@,
        (true, false, false) => "[\"Log\"]"@,
        (false, true, false) => "[\"Metric\"]"@,
        (false, false, true) => "[\"Trace\"]"@,
        (true, true, false) => "[\"Log\", \"Metric\"]"@,
        (true, false, true) => "[\"Log\", \"Trace\"]"@,
        (false, true, true) => "[\"Metric\", \"Trace\"]"@,
        (true, true, true) => "[\"Log\", \"Metric\", \"Trace\"]"@,
    }
}

/// The text of types is as they stand in messages.
proof fn types_are_shown(types: DataType)
    ensures
        type_text(types) == shown_types(types),
{
    reveal_with_fuel(joined, 4);
    reveal_strlit("[");
    reveal_strlit("]");
    reveal_strlit(", ");
    reveal_strlit("\"Log\"");
    reveal_strlit("\"Metric\"");
    reveal_strlit("\"Trace\"");
    reveal_strlit("[]");
    reveal_strlit("[\"Log\"]");
    reveal_strlit("[\"Metric\"]");
    reveal_strlit("[\"Trace\"]");
    reveal_strlit("[\"Log\", \"Metric\"]");
    reveal_strlit("[\"Log\", \"Trace\"]");
    reveal_strlit("[\"Metric\", \"Trace\"]");
    reveal_strlit("[\"Log\", \"Metric\", \"Trace\"]");
    let parts = only_if(types.log, "\"Log\""@) + only_if(types.metric, "\"Metric\""@) + only_if(
        types.trace,
        "\"Trace\""@,
    );
    let log = "\"Log\""@;
    let metric = "\"Metric\""@;
    let trace = "\"Trace\""@;
    if types.log && types.metric && types.trace {
        assert(parts =~= seq![log, metric, trace]);
        assert(parts.drop_last() =~= seq![log, metric]);
        assert(seq![log, metric].drop_last() =~= seq![log]);
    } else if types.log && types.metric {
        assert(parts =~= seq![log, metric]);
        assert(parts.drop_last() =~= seq![log]);
    } else if types.log && types.trace {
        assert(parts =~= seq![log, trace]);
        assert(parts.drop_last() =~= seq![log]);
    } else if types.metric && types.trace {
        assert(parts =~= seq![metric, trace]);
        assert(parts.drop_last() =~= seq![metric]);
    } else if types.log {
        assert(parts =~= seq![log]);
    } else if types.metric {
        assert(parts =~= seq![metric]);
    } else if types.trace {
        assert(parts =~= seq![trace]);
    } else {
        assert(parts =~= Seq::empty());
    }
    assert(type_text(types) =~= shown_types(types));
}

/// A component that takes none of the events of an output that feeds it is told
/// of, with the output and the types of both.
pub proof fn mismatches_are_told_of(graph: &Graph, result: Result<(), Vec<String>>, i: int)
    requires
        call_ensures(Graph::typecheck, (graph,), result),
        0 <= i < graph.edges@.len(),
        !(graph.edges@[i].from_type.log && graph.edges@[i].to_type.log),
        !(graph.edges@[i].from_type.metric && graph.edges@[i].to_type.metric),
        !(graph.edges@[i].from_type.trace && graph.edges@[i].to_type.trace),
    ensures
        ({
            let edge = graph.edges@[i];
            let output = match edge.from.port {
                Some(port) => edge.from.component@ + "."@ + port@,
                None => edge.from.component@,
            };
            says(
                result,
                "Data type mismatch between "@ + output + " ("@ + shown_types(edge.from_type)
                    + ") and "@ + edge.to@ + " ("@ + shown_types(edge.to_type) + ")"@,
            )
        }),
{
    let edges = edge_models(graph.edges@);
    let edge = graph.edges@[i];
    assert(edges[i] == edge@);
    types_are_shown(edge.from_type);
    types_are_shown(edge.to_type);
    let message = "Data type mismatch between "@ + output_text(edge.from@) + " ("@ + type_text(
        edge.from_type,
    ) + ") and "@ + edge.to@ + " ("@ + type_text(edge.to_type) + ")"@;
    let f = |i: int| type_error(edges[i]);
    let list = f(i);
    assert(list[0] == message);
    assert(f(i).contains(message));
    gathered(edges.len(), f, message);
    found_is_said(result, type_errors(edges), message);
}

/// An input that may not stand has a message on it.
proof fn strange_input_is_told_of(
    sources: Seq<(Seq<char>, SourceOuter)>,
    transforms: Seq<(Seq<char>, TransformOuter<String>)>,
    tables: Seq<(Seq<char>, EnrichmentTableOuter<String>)>,
    namespace: LogNamespace,
    matching: WildcardMatching,
    kind: Seq<char>,
    key: Seq<char>,
    input: String,
)
    requires
        distinct_keys(sources),
        !input_stands(sources, transforms, tables, namespace, matching, input@),
    ensures
        input_error(
            graph_outputs(all_sources(sources, tables), transforms, namespace),
            kind,
            key,
            input@,
            matching,
        ) == seq![
            "Input \""@ + input@ + "\" for "@ + kind + " \""@ + key
                + "\" doesn't match any components."@,
        ],
{
    let outputs = graph_outputs(all_sources(sources, tables), transforms, namespace);
    let one = seq![input];
    let names = texts(one);
    standing_inputs_pass(sources, transforms, tables, namespace, matching, kind, key, one);
    let f = |i: int| input_error(outputs, kind, key, names[i], matching);
    assert(names[0] == input@);
    assert(one[0] == input);
    assert(taker_errors(outputs, kind, key, names, matching) == gather(1, f));
    assert(gather(0, f) =~= Seq::<Seq<char>>::empty());
    assert(gather(1, f) =~= f(0));
}

/// An input of a transform that is the text of no output, and no pattern that
/// may match nothing, is told of with the transform.
pub proof fn strange_inputs_are_told_of(
    sources: &ComponentMap<SourceOuter>,
    transforms: &ComponentMap<TransformOuter<String>>,
    sinks: &ComponentMap<SinkOuter<String>>,
    tables: &ComponentMap<EnrichmentTableOuter<String>>,
    namespace: LogNamespace,
    matching: WildcardMatching,
    result: Result<Graph, Vec<String>>,
    i: int,
    k: int,
)
    requires
        call_ensures(Graph::new, (sources, transforms, sinks, tables, namespace, matching), result),
        distinct_keys(sources@),
        0 <= i < transforms@.len(),
        0 <= k < transforms@[i].1.inputs@.len(),
        !input_stands(
            sources@,
            transforms@,
            tables@,
            namespace,
            matching,
            transforms@[i].1.inputs@[k]@,
        ),
    ensures
        result matches Err(errors) && exists|m: int|
            0 <= m < errors@.len() && (#[trigger] errors@[m])@ == "Input \""@
                + transforms@[i].1.inputs@[k]@ + "\" for "@ + "transform"@ + " \""@ + transforms@[i].0
                + "\" doesn't match any components."@,
{
    let outputs = graph_outputs(all_sources(sources@, tables@), transforms@, namespace);
    let takers = all_sinks(sinks@, tables@);
    let key = transforms@[i].0;
    let inputs = texts(transforms@[i].1.inputs@);
    let input = transforms@[i].1.inputs@[k];
    let message = "Input \""@ + input@ + "\" for "@ + "transform"@ + " \""@ + key
        + "\" doesn't match any components."@;
    strange_input_is_told_of(
        sources@,
        transforms@,
        tables@,
        namespace,
        matching,
        "transform"@,
        key,
        input,
    );
    let f = |j: int| input_error(outputs, "transform"@, key, inputs[j], matching);
    assert(inputs[k] == input@);
    let list = f(k);
    assert(list[0] == message);
    assert(f(k).contains(message));
    gathered(inputs.len(), f, message);
    let g = |j: int|
        taker_errors(
            outputs,
            "transform"@,
            transforms@[j].0,
            texts(transforms@[j].1.inputs@),
            matching,
        );
    let h = |j: int|
        taker_errors(outputs, "sink"@, takers[j].0, texts(takers[j].1.inputs@), matching);
    assert(g(i).contains(message));
    gathered(transforms@.len(), g, message);
    let first = gather(transforms@.len(), g);
    let all = graph_errors(outputs, transforms@, takers, matching);
    assert(all == first + gather(takers.len(), h));
    let m = choose|m: int| 0 <= m < first.len() && first[m] == message;
    assert(all[m] == message);
    let errors = result->Err_0;
    assert(texts(errors@) == all);
    assert(texts(errors@).len() == errors@.len());
    assert(errors@[m]@ == message);
}

} // verus!
