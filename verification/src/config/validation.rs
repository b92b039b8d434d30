//! Checks on a configuration.
//!
//! Each check goes through the whole configuration and gives all its findings
//! at once, as messages for the operator.
use vstd::prelude::*;

use crate::component_map::{keys, ComponentMap};
use crate::config::global::{chosen_namespace, ConfiguredNumber};
use crate::config::io::{SourceOutput, TransformOutput};
use crate::config::resource::{
    debug_str, debug_text, described, resource_text, takes, IpAddress, Resource, ResourceInfo,
    ResourceModel,
};
use crate::config::sink::{sink_resources, BufferType, SinkOuter};
use crate::config::source::{get_source_output_ids, source_output_names, SourceOuter};
use crate::config::table::EnrichmentTableOuter;
use crate::config::transform::{get_transform_output_ids, transform_output_names, TransformOuter};
use crate::config::{Config, ConfigBuilder};
use crate::event::LogNamespace;
use crate::id::{
    holds_output, key_texts, output_names, output_text, port_text, ComponentKey, OutputId, OutputName,
};
use crate::text::{
    append_texts, decimal, gather, gather_empty, gathered, has_char, holds_text, join, joined,
    number, only_if, push_text, same_text, texts,
};
use crate::transform::sending::DEFAULT_OUTPUT;

verus! {

/// Whether a check came out well, and else with which messages.
pub open spec fn finds(result: Result<(), Vec<String>>, messages: Seq<Seq<char>>) -> bool {
    match result {
        Ok(_) => messages.len() == 0,
        Err(errors) => messages.len() > 0 && texts(errors@) == messages,
    }
}

/// The outcome of a check that found the given messages.
pub fn outcome(errors: Vec<String>) -> (result: Result<(), Vec<String>>)
    ensures
        finds(result, texts(errors@)),
{
    if errors.len() == 0 {
        Ok(())
    } else {
        Err(errors)
    }
}

/// The messages of [`check_provider`].
pub open spec fn provider_errors(config: ConfigBuilder) -> Seq<Seq<char>> {
    only_if(
        config.provider is Some && (config.sources@.len() > 0 || config.transforms@.len() > 0
            || config.sinks@.len() > 0),
        "No sources/transforms/sinks are allowed if provider config is present."@,
    )
}

/// Checks that a provider and components are not configured together.
pub fn check_provider(config: &ConfigBuilder) -> (result: Result<(), Vec<String>>)
    ensures
        finds(result, provider_errors(*config)),
{
    let mut errors: Vec<String> = Vec::new();
    assert(texts(errors@) =~= Seq::empty());
    if config.provider.is_some() && (!config.sources.is_empty() || !config.transforms.is_empty()
        || !config.sinks.is_empty()) {
        push_text(
            &mut errors,
            "No sources/transforms/sinks are allowed if provider config is present.".to_owned(),
        );
    }
    assert(texts(errors@) =~= provider_errors(*config));
    outcome(errors)
}

/// The message on a component's name.
pub open spec fn name_error(name: Seq<char>) -> Seq<Seq<char>> {
    only_if(
        name.contains('.'),
        "Component name \""@ + name + "\" should not contain a \".\""@,
    )
}

/// The messages of [`check_names`].
pub open spec fn name_errors(names: Seq<Seq<char>>) -> Seq<Seq<char>> {
    gather(names.len(), |i: int| name_error(names[i]))
}

/// Checks that no component has a dot in its name.
pub fn check_names(names: &Vec<ComponentKey>) -> (result: Result<(), Vec<String>>)
    ensures
        finds(result, name_errors(key_texts(names@))),
{
    let mut errors: Vec<String> = Vec::new();
    let ghost all = key_texts(names@);
    let ghost f = |i: int| name_error(all[i]);
    assert(texts(errors@) =~= gather(0, f));
    let mut i: usize = 0;
    while i < names.len()
        invariant
            i <= names.len(),
            all == key_texts(names@),
            f == (|i: int| name_error(all[i])),
            texts(errors@) == gather(i as nat, f),
        decreases names.len() - i,
    {
        let id = names[i].id();
        let ghost before = texts(errors@);
        if has_char(id, '.') {
            let mut message = "Component name \"".to_owned();
            message.append(id);
            message.append("\" should not contain a \".\"");
            push_text(&mut errors, message);
        }
        assert(f(i as int) == name_error(all[i as int]));
        assert(texts(errors@) =~= before + f(i as int));
        i = i + 1;
    }
    outcome(errors)
}

/// A character, as a capital letter where it is a small one of the alphabet.
pub open spec fn upper(c: char) -> char {
    if 'a' <= c && c <= 'z' {
        (c as u32 - 32) as char
    } else {
        c
    }
}

/// A text with its first character as a capital letter.
pub open spec fn capitalized(text: Seq<char>) -> Seq<char> {
    if text.len() == 0 {
        text
    } else {
        text.update(0, upper(text[0]))
    }
}

/// The capital letter for a small one.
fn to_upper(c: char) -> (upper_case: char)
    ensures
        upper_case == upper(c),
{
    match c {
        'a' => 'A',
        'b' => 'B',
        'c' => 'C',
        'd' => 'D',
        'e' => 'E',
        'f' => 'F',
        'g' => 'G',
        'h' => 'H',
        'i' => 'I',
        'j' => 'J',
        'k' => 'K',
        'l' => 'L',
        'm' => 'M',
        'n' => 'N',
        'o' => 'O',
        'p' => 'P',
        'q' => 'Q',
        'r' => 'R',
        's' => 'S',
        't' => 'T',
        'u' => 'U',
        'v' => 'V',
        'w' => 'W',
        'x' => 'X',
        'y' => 'Y',
        'z' => 'Z',
        _ => c,
    }
}

/// A text with its first character as a capital letter.
pub fn capitalize(s: &str) -> (text: String)
    ensures
        text@ == capitalized(s@),
{
    let mut text = String::new();
    let mut first = true;
    for c in iter: s.chars()
        invariant
            iter.seq() == s@,
            first == (iter.index() == 0),
            text@ == capitalized(s@).take(iter.index()),
    {
        if first {
            text.push(to_upper(c));
            first = false;
        } else {
            text.push(c);
        }
        assert(text@ =~= capitalized(s@).take(iter.index() + 1));
    }
    assert(capitalized(s@).take(s@.len() as int) =~= capitalized(s@));
    text
}

/// How often a text occurs in a list.
pub open spec fn occurrences(list: Seq<Seq<char>>, wanted: Seq<char>) -> nat
    decreases list.len(),
{
    if list.len() == 0 {
        0
    } else {
        occurrences(list.drop_last(), wanted) + if list.last() == wanted {
            1nat
        } else {
            0
        }
    }
}

/// The message on an input that is listed more than once, at its first place.
pub open spec fn duplicate_error(
    kind: Seq<char>,
    key: Seq<char>,
    inputs: Seq<Seq<char>>,
    i: int,
) -> Seq<Seq<char>> {
    only_if(
        !inputs.take(i).contains(inputs[i]) && occurrences(inputs, inputs[i]) > 1,
        capitalized(kind) + " \""@ + key + "\" has input \""@ + inputs[i] + "\" duplicated "@ + decimal(
            occurrences(inputs, inputs[i]),
        ) + " times"@,
    )
}

/// The messages on the inputs of one component.
pub open spec fn input_errors(
    kind: Seq<char>,
    key: Seq<char>,
    inputs: Seq<Seq<char>>,
) -> Seq<Seq<char>> {
    only_if(inputs.len() == 0, capitalized(kind) + " \""@ + key + "\" has no inputs"@) + gather(
        inputs.len(),
        |i: int| duplicate_error(kind, key, inputs, i),
    )
}

/// The message on a name that several components have.
pub open spec fn clash_message(key: Seq<char>, uses: Seq<char>) -> Seq<char> {
    "More than one component with name \""@ + key + "\" ("@ + uses + ")."@
}

/// The message on the name of a source that other components have too.
pub open spec fn source_clash(
    key: Seq<char>,
    transforms: Seq<Seq<char>>,
    sinks: Seq<Seq<char>>,
) -> Seq<Seq<char>> {
    only_if(
        transforms.contains(key) || sinks.contains(key),
        clash_message(
            key,
            if !sinks.contains(key) {
                "source, transform"@
            } else if !transforms.contains(key) {
                "source, sink"@
            } else {
                "source, transform, sink"@
            },
        ),
    )
}

/// The message on the name of a transform that a sink, but no source, has too.
pub open spec fn transform_clash(
    key: Seq<char>,
    sources: Seq<Seq<char>>,
    sinks: Seq<Seq<char>>,
) -> Seq<Seq<char>> {
    only_if(
        !sources.contains(key) && sinks.contains(key),
        clash_message(key, "transform, sink"@),
    )
}

/// The messages on names that several components have.
pub open spec fn clash_errors(
    sources: Seq<Seq<char>>,
    transforms: Seq<Seq<char>>,
    sinks: Seq<Seq<char>>,
) -> Seq<Seq<char>> {
    gather(sources.len(), |i: int| source_clash(sources[i], transforms, sinks)) + gather(
        transforms.len(),
        |i: int| transform_clash(transforms[i], sources, sinks),
    )
}

/// The messages on the inputs of sinks.
pub open spec fn sink_input_errors(sinks: Seq<(Seq<char>, SinkOuter<String>)>) -> Seq<Seq<char>> {
    gather(
        sinks.len(),
        |i: int| input_errors("sink"@, sinks[i].0, texts(sinks[i].1.inputs@)),
    )
}

/// The messages on the inputs of transforms.
pub open spec fn transform_input_errors(
    transforms: Seq<(Seq<char>, TransformOuter<String>)>,
) -> Seq<Seq<char>> {
    gather(
        transforms.len(),
        |i: int| input_errors("transform"@, transforms[i].0, texts(transforms[i].1.inputs@)),
    )
}

/// The messages of [`check_shape`].
pub open spec fn shape_errors(config: ConfigBuilder) -> Seq<Seq<char>> {
    only_if(
        !config.allow_empty && config.sources@.len() == 0,
        "No sources defined in the config."@,
    ) + only_if(
        !config.allow_empty && config.sinks@.len() == 0,
        "No sinks defined in the config."@,
    ) + clash_errors(keys(config.sources@), keys(config.transforms@), keys(config.sinks@))
        + sink_input_errors(config.sinks@) + transform_input_errors(config.transforms@)
}

fn clash_text(key: &str, uses: &str) -> (message: String)
    ensures
        message@ == clash_message(key@, uses@),
{
    let mut message = "More than one component with name \"".to_owned();
    message.append(key);
    message.append("\" (");
    message.append(uses);
    message.append(").");
    message
}

/// Finds names that several components have.
fn check_clashes(config: &ConfigBuilder) -> (errors: Vec<String>)
    ensures
        texts(errors@) == clash_errors(
            keys(config.sources@),
            keys(config.transforms@),
            keys(config.sinks@),
        ),
{
    let ghost sources = keys(config.sources@);
    let ghost transforms = keys(config.transforms@);
    let ghost sinks = keys(config.sinks@);
    let ghost f = |i: int| source_clash(sources[i], transforms, sinks);
    let ghost g = |i: int| transform_clash(transforms[i], sources, sinks);
    let mut errors: Vec<String> = Vec::new();
    let mut i: usize = 0;
    let len: usize = config.sources.len();
    assert(texts(errors@) =~= gather(0, f));
    while i < len
        invariant
            i <= len,
            len == sources.len(),
            sources == keys(config.sources@),
            transforms == keys(config.transforms@),
            sinks == keys(config.sinks@),
            f == (|i: int| source_clash(sources[i], transforms, sinks)),
            texts(errors@) == gather(i as nat, f),
        decreases len - i,
    {
        let key = config.sources.key_at(i);
        let ghost before = texts(errors@);
        let transform = config.transforms.contains_key(key);
        let sink = config.sinks.contains_key(key);
        assert(sources[i as int] == key@);
        if transform || sink {
            let uses = if !sink {
                "source, transform"
            } else if !transform {
                "source, sink"
            } else {
                "source, transform, sink"
            };
            push_text(&mut errors, clash_text(key, uses));
        }
        assert(f(i as int) == source_clash(key@, transforms, sinks));
        assert(texts(errors@) =~= before + f(i as int));
        i = i + 1;
    }
    let ghost first = texts(errors@);
    let mut j: usize = 0;
    let count: usize = config.transforms.len();
    assert(texts(errors@) =~= first + gather(0, g));
    while j < count
        invariant
            j <= count,
            count == transforms.len(),
            sources == keys(config.sources@),
            transforms == keys(config.transforms@),
            sinks == keys(config.sinks@),
            g == (|i: int| transform_clash(transforms[i], sources, sinks)),
            texts(errors@) == first + gather(j as nat, g),
        decreases count - j,
    {
        let key = config.transforms.key_at(j);
        let ghost before = texts(errors@);
        assert(transforms[j as int] == key@);
        if !config.sources.contains_key(key) && config.sinks.contains_key(key) {
            push_text(&mut errors, clash_text(key, "transform, sink"));
        }
        assert(g(j as int) == transform_clash(key@, sources, sinks));
        assert(texts(errors@) =~= first + gather((j + 1) as nat, g));
        j = j + 1;
    }
    errors
}

/// Counts how often a text occurs in a list.
fn count_text(list: &Vec<String>, wanted: &str) -> (count: usize)
    ensures
        count == occurrences(texts(list@), wanted@),
{
    let mut count: usize = 0;
    let mut i: usize = 0;
    while i < list.len()
        invariant
            i <= list.len(),
            count <= i,
            count == occurrences(texts(list@).take(i as int), wanted@),
        decreases list.len() - i,
    {
        assert(texts(list@).take(i + 1).drop_last() =~= texts(list@).take(i as int));
        if same_text(list[i].as_str(), wanted) {
            count = count + 1;
        }
        i = i + 1;
    }
    assert(texts(list@).take(i as int) =~= texts(list@));
    count
}

/// Whether the text at a place in a list has occurred before that place.
fn occurred_before(list: &Vec<String>, place: usize) -> (found: bool)
    requires
        place < list@.len(),
    ensures
        found == texts(list@).take(place as int).contains(list@[place as int]@),
{
    let mut i: usize = 0;
    while i < place
        invariant
            i <= place,
            place < list@.len(),
            forall|j: int| 0 <= j < i ==> (#[trigger] list@[j])@ != list@[place as int]@,
        decreases place - i,
    {
        if list[i] == list[place] {
            assert(texts(list@).take(place as int)[i as int] == list@[place as int]@);
            return true;
        }
        i = i + 1;
    }
    assert forall|j: int| 0 <= j < place implies texts(list@).take(place as int)[j]
        != list@[place as int]@ by {
        assert(list@[j]@ != list@[place as int]@);
    }
    false
}

/// Finds what is wrong with the inputs of one component.
fn check_inputs(kind: &str, key: &str, inputs: &Vec<String>) -> (errors: Vec<String>)
    ensures
        texts(errors@) == input_errors(kind@, key@, texts(inputs@)),
{
    let ghost all = texts(inputs@);
    let ghost f = |i: int| duplicate_error(kind@, key@, all, i);
    let mut errors: Vec<String> = Vec::new();
    assert(texts(errors@) =~= Seq::empty());
    if inputs.len() == 0 {
        let mut message = capitalize(kind);
        message.append(" \"");
        message.append(key);
        message.append("\" has no inputs");
        push_text(&mut errors, message);
    }
    let ghost first = texts(errors@);
    assert(first =~= only_if(
        all.len() == 0,
        capitalized(kind@) + " \""@ + key@ + "\" has no inputs"@,
    ));
    assert(texts(errors@) =~= first + gather(0, f));
    let mut i: usize = 0;
    while i < inputs.len()
        invariant
            i <= inputs.len(),
            all == texts(inputs@),
            f == (|i: int| duplicate_error(kind@, key@, all, i)),
            texts(errors@) == first + gather(i as nat, f),
        decreases inputs.len() - i,
    {
        let count: usize = count_text(inputs, inputs[i].as_str());
        if !occurred_before(inputs, i) && count > 1 {
            let mut message = capitalize(kind);
            message.append(" \"");
            message.append(key);
            message.append("\" has input \"");
            message.append(inputs[i].as_str());
            message.append("\" duplicated ");
            message.append(number(count as u128).as_str());
            message.append(" times");
            push_text(&mut errors, message);
        }
        assert(all[i as int] == inputs@[i as int]@);
        assert(f(i as int) == duplicate_error(kind@, key@, all, i as int));
        assert(texts(errors@) =~= first + gather((i + 1) as nat, f));
        i = i + 1;
    }
    errors
}

/// Finds what is wrong with the inputs of sinks.
fn check_sink_inputs(sinks: &ComponentMap<SinkOuter<String>>) -> (errors: Vec<String>)
    ensures
        texts(errors@) == sink_input_errors(sinks@),
{
    let ghost all = sinks@;
    let ghost f = |i: int| input_errors("sink"@, all[i].0, texts(all[i].1.inputs@));
    let mut errors: Vec<String> = Vec::new();
    let len: usize = sinks.len();
    assert(texts(errors@) =~= gather(0, f));
    let mut i: usize = 0;
    while i < len
        invariant
            i <= len,
            len == all.len(),
            all == sinks@,
            f == (|i: int| input_errors("sink"@, all[i].0, texts(all[i].1.inputs@))),
            texts(errors@) == gather(i as nat, f),
        decreases len - i,
    {
        let found = check_inputs("sink", sinks.key_at(i), &sinks.value_at(i).inputs);
        append_texts(&mut errors, found);
        assert(f(i as int) == input_errors("sink"@, all[i as int].0, texts(all[i as int].1.inputs@)));
        i = i + 1;
    }
    errors
}

/// Finds what is wrong with the inputs of transforms.
fn check_transform_inputs(transforms: &ComponentMap<TransformOuter<String>>) -> (errors: Vec<String>)
    ensures
        texts(errors@) == transform_input_errors(transforms@),
{
    let ghost all = transforms@;
    let ghost f = |i: int| input_errors("transform"@, all[i].0, texts(all[i].1.inputs@));
    let mut errors: Vec<String> = Vec::new();
    let len: usize = transforms.len();
    assert(texts(errors@) =~= gather(0, f));
    let mut i: usize = 0;
    while i < len
        invariant
            i <= len,
            len == all.len(),
            all == transforms@,
            f == (|i: int| input_errors("transform"@, all[i].0, texts(all[i].1.inputs@))),
            texts(errors@) == gather(i as nat, f),
        decreases len - i,
    {
        let found = check_inputs("transform", transforms.key_at(i), &transforms.value_at(i).inputs);
        append_texts(&mut errors, found);
        assert(f(i as int) == input_errors(
            "transform"@,
            all[i as int].0,
            texts(all[i as int].1.inputs@),
        ));
        i = i + 1;
    }
    errors
}

/// Checks that there are sources and sinks, that no two components share a
/// name, and that every transform and sink has inputs and lists none twice.
pub fn check_shape(config: &ConfigBuilder) -> (result: Result<(), Vec<String>>)
    ensures
        finds(result, shape_errors(*config)),
{
    let mut errors: Vec<String> = Vec::new();
    assert(texts(errors@) =~= Seq::empty());
    if !config.allow_empty {
        if config.sources.is_empty() {
            push_text(&mut errors, "No sources defined in the config.".to_owned());
        }
        if config.sinks.is_empty() {
            push_text(&mut errors, "No sinks defined in the config.".to_owned());
        }
    }
    assert(texts(errors@) =~= only_if(
        !config.allow_empty && config.sources@.len() == 0,
        "No sources defined in the config."@,
    ) + only_if(
        !config.allow_empty && config.sinks@.len() == 0,
        "No sinks defined in the config."@,
    ));
    append_texts(&mut errors, check_clashes(config));
    append_texts(&mut errors, check_sink_inputs(&config.sinks));
    append_texts(&mut errors, check_transform_inputs(&config.transforms));
    outcome(errors)
}

/// What is wrong with a weight: it must lie between zero and one.
pub open spec fn alpha_error(alpha: Option<ConfiguredNumber>, field: Seq<char>) -> Seq<Seq<char>> {
    only_if(
        alpha is Some && !alpha->0.number.fraction(),
        "Global `"@ + field + "` must be between 0 and 1 exclusive (0 < alpha < 1), got "@
            + alpha->0.text@,
    )
}

/// What is wrong with a half-life: it must be greater than zero.
pub open spec fn half_life_error(
    half_life: Option<ConfiguredNumber>,
    field: Seq<char>,
) -> Seq<Seq<char>> {
    only_if(
        half_life is Some && !half_life->0.number.positive(),
        "Global `"@ + field + "` must be greater than 0, got "@ + half_life->0.text@,
    )
}

/// Finds what is wrong with a weight.
fn validate_ewma_alpha(alpha: &Option<ConfiguredNumber>, field_name: &str) -> (error: Option<String>)
    ensures
        match error {
            Some(message) => alpha_error(*alpha, field_name@) == seq![message@],
            None => alpha_error(*alpha, field_name@).len() == 0,
        },
{
    match alpha {
        Some(alpha) => {
            if alpha.number.is_fraction() {
                None
            } else {
                let mut message = "Global `".to_owned();
                message.append(field_name);
                message.append("` must be between 0 and 1 exclusive (0 < alpha < 1), got ");
                message.append(alpha.text.as_str());
                Some(message)
            }
        },
        None => None,
    }
}

/// Finds what is wrong with a half-life.
fn validate_ewma_half_life_seconds(
    half_life_seconds: &Option<ConfiguredNumber>,
    field_name: &str,
) -> (error: Option<String>)
    ensures
        match error {
            Some(message) => half_life_error(*half_life_seconds, field_name@) == seq![message@],
            None => half_life_error(*half_life_seconds, field_name@).len() == 0,
        },
{
    match half_life_seconds {
        Some(half_life) => {
            if half_life.number.is_positive() {
                None
            } else {
                let mut message = "Global `".to_owned();
                message.append(field_name);
                message.append("` must be greater than 0, got ");
                message.append(half_life.text.as_str());
                Some(message)
            }
        },
        None => None,
    }
}

/// The messages of [`check_values`].
pub open spec fn value_errors(config: ConfigBuilder) -> Seq<Seq<char>> {
    half_life_error(
        config.global.buffer_utilization_ewma_half_life_seconds,
        "buffer_utilization_ewma_half_life_seconds"@,
    ) + alpha_error(config.global.latency_ewma_alpha, "latency_ewma_alpha"@)
}

/// Checks that the numbers in the shared settings are in range.
pub fn check_values(config: &ConfigBuilder) -> (result: Result<(), Vec<String>>)
    ensures
        finds(result, value_errors(*config)),
{
    let mut errors: Vec<String> = Vec::new();
    assert(texts(errors@) =~= Seq::empty());
    if let Some(error) = validate_ewma_half_life_seconds(
        &config.global.buffer_utilization_ewma_half_life_seconds,
        "buffer_utilization_ewma_half_life_seconds",
    ) {
        push_text(&mut errors, error);
    }
    assert(texts(errors@) =~= half_life_error(
        config.global.buffer_utilization_ewma_half_life_seconds,
        "buffer_utilization_ewma_half_life_seconds"@,
    ));
    if let Some(error) = validate_ewma_alpha(
        &config.global.latency_ewma_alpha,
        "latency_ewma_alpha",
    ) {
        push_text(&mut errors, error);
    }
    assert(texts(errors@) =~= value_errors(*config));
    outcome(errors)
}

/// Whether one of the ports has the reserved name.
pub open spec fn uses_reserved(ports: Seq<Option<Seq<char>>>) -> bool {
    exists|i: int| 0 <= i < ports.len() && #[trigger] ports[i] == Some(DEFAULT_OUTPUT@)
}

/// The ports of the outputs of a source.
pub open spec fn source_ports(outputs: Seq<SourceOutput>) -> Seq<Option<Seq<char>>> {
    Seq::new(outputs.len(), |i: int| port_text(outputs[i].port))
}

/// The ports of the outputs of a transform.
pub open spec fn transform_ports(outputs: Seq<TransformOutput>) -> Seq<Option<Seq<char>>> {
    Seq::new(outputs.len(), |i: int| port_text(outputs[i].port))
}

/// The message on a component with an output of the reserved name.
pub open spec fn reserved_message(kind: Seq<char>, key: Seq<char>) -> Seq<char> {
    kind + key + " cannot have a named output with reserved name: `"@ + DEFAULT_OUTPUT@ + "`"@
}

/// The message on the outputs of a source.
pub open spec fn source_output_error(
    key: Seq<char>,
    source: SourceOuter,
    namespace: LogNamespace,
) -> Seq<Seq<char>> {
    only_if(
        uses_reserved(source_ports(source.inner.outputs_in(namespace))),
        reserved_message("Source "@, key),
    )
}

/// The messages on the settings and the outputs of a transform.
pub open spec fn transform_output_error(
    key: Seq<char>,
    transform: TransformOuter<String>,
    namespace: LogNamespace,
) -> Seq<Seq<char>> {
    gather(
        transform.inner.validation_errors@.len(),
        |i: int|
            seq!["Transform "@ + key + " "@ + transform.inner.validation_errors@[i]@],
    ) + only_if(
        uses_reserved(transform_ports(transform.inner.outputs_in(namespace))),
        reserved_message("Transform "@, key),
    )
}

/// The messages of [`check_outputs`].
pub open spec fn output_errors(config: ConfigBuilder) -> Seq<Seq<char>> {
    let namespace = chosen_namespace(None, config.schema.log_namespace);
    gather(
        config.sources@.len(),
        |i: int| source_output_error(config.sources@[i].0, config.sources@[i].1, namespace),
    ) + gather(
        config.transforms@.len(),
        |i: int|
            transform_output_error(config.transforms@[i].0, config.transforms@[i].1, namespace),
    )
}

fn reserved_text(kind: &str, key: &str) -> (message: String)
    ensures
        message@ == reserved_message(kind@, key@),
{
    let mut message = kind.to_owned();
    message.append(key);
    message.append(" cannot have a named output with reserved name: `");
    message.append(DEFAULT_OUTPUT);
    message.append("`");
    message
}

fn is_reserved(port: &Option<String>) -> (reserved: bool)
    ensures
        reserved == (port_text(*port) == Some(DEFAULT_OUTPUT@)),
{
    match port {
        Some(name) => same_text(name.as_str(), DEFAULT_OUTPUT),
        None => false,
    }
}

fn source_uses_reserved(outputs: &Vec<SourceOutput>) -> (found: bool)
    ensures
        found == uses_reserved(source_ports(outputs@)),
{
    let mut i: usize = 0;
    while i < outputs.len()
        invariant
            i <= outputs.len(),
            forall|j: int|
                0 <= j < i ==> #[trigger] source_ports(outputs@)[j] != Some(DEFAULT_OUTPUT@),
        decreases outputs.len() - i,
    {
        if is_reserved(&outputs[i].port) {
            assert(source_ports(outputs@)[i as int] == Some(DEFAULT_OUTPUT@));
            return true;
        }
        i = i + 1;
    }
    false
}

fn transform_uses_reserved(outputs: &Vec<TransformOutput>) -> (found: bool)
    ensures
        found == uses_reserved(transform_ports(outputs@)),
{
    let mut i: usize = 0;
    while i < outputs.len()
        invariant
            i <= outputs.len(),
            forall|j: int|
                0 <= j < i ==> #[trigger] transform_ports(outputs@)[j] != Some(DEFAULT_OUTPUT@),
        decreases outputs.len() - i,
    {
        if is_reserved(&outputs[i].port) {
            assert(transform_ports(outputs@)[i as int] == Some(DEFAULT_OUTPUT@));
            return true;
        }
        i = i + 1;
    }
    false
}

/// Finds what is wrong with the settings and the outputs of one transform.
fn check_transform_outputs(
    key: &str,
    transform: &TransformOuter<String>,
    namespace: LogNamespace,
) -> (errors: Vec<String>)
    ensures
        texts(errors@) == transform_output_error(key@, *transform, namespace),
{
    let ghost f = |i: int| seq!["Transform "@ + key@ + " "@ + transform.inner.validation_errors@[i]@];
    let mut errors: Vec<String> = Vec::new();
    assert(texts(errors@) =~= gather(0, f));
    let mut i: usize = 0;
    while i < transform.inner.validation_errors.len()
        invariant
            i <= transform.inner.validation_errors.len(),
            f == (|i: int|
                seq!["Transform "@ + key@ + " "@ + transform.inner.validation_errors@[i]@]),
            texts(errors@) == gather(i as nat, f),
        decreases transform.inner.validation_errors.len() - i,
    {
        let ghost before = texts(errors@);
        let mut message = "Transform ".to_owned();
        message.append(key);
        message.append(" ");
        message.append(transform.inner.validation_errors[i].as_str());
        push_text(&mut errors, message);
        assert(texts(errors@) =~= before + f(i as int));
        i = i + 1;
    }
    let ghost before = texts(errors@);
    if transform_uses_reserved(transform.inner.outputs(namespace)) {
        push_text(&mut errors, reserved_text("Transform ", key));
    }
    assert(texts(errors@) =~= transform_output_error(key@, *transform, namespace));
    errors
}

/// Checks that no output has the name that stands for the default output in
/// metrics, and that every transform is set up as it should be.
pub fn check_outputs(config: &ConfigBuilder) -> (result: Result<(), Vec<String>>)
    ensures
        finds(result, output_errors(*config)),
{
    let namespace = config.schema.log_namespace();
    let ghost sources = config.sources@;
    let ghost transforms = config.transforms@;
    let ghost f = |i: int| source_output_error(sources[i].0, sources[i].1, namespace);
    let ghost g = |i: int| transform_output_error(transforms[i].0, transforms[i].1, namespace);
    let mut errors: Vec<String> = Vec::new();
    assert(texts(errors@) =~= gather(0, f));
    let len: usize = config.sources.len();
    let mut i: usize = 0;
    while i < len
        invariant
            i <= len,
            len == sources.len(),
            sources == config.sources@,
            f == (|i: int| source_output_error(sources[i].0, sources[i].1, namespace)),
            texts(errors@) == gather(i as nat, f),
        decreases len - i,
    {
        let ghost before = texts(errors@);
        if source_uses_reserved(config.sources.value_at(i).inner.outputs(namespace)) {
            push_text(&mut errors, reserved_text("Source ", config.sources.key_at(i)));
        }
        assert(f(i as int) == source_output_error(sources[i as int].0, sources[i as int].1, namespace));
        assert(texts(errors@) =~= before + f(i as int));
        i = i + 1;
    }
    let ghost first = texts(errors@);
    assert(texts(errors@) =~= first + gather(0, g));
    let count: usize = config.transforms.len();
    let mut j: usize = 0;
    while j < count
        invariant
            j <= count,
            count == transforms.len(),
            transforms == config.transforms@,
            g == (|i: int| transform_output_error(transforms[i].0, transforms[i].1, namespace)),
            texts(errors@) == first + gather(j as nat, g),
        decreases count - j,
    {
        let found = check_transform_outputs(
            config.transforms.key_at(j),
            config.transforms.value_at(j),
            namespace,
        );
        append_texts(&mut errors, found);
        assert(g(j as int) == transform_output_error(
            transforms[j as int].0,
            transforms[j as int].1,
            namespace,
        ));
        assert(texts(errors@) =~= first + gather((j + 1) as nat, g));
        j = j + 1;
    }
    outcome(errors)
}

/// A resource that a component claims, with its text in messages.
pub ghost struct Claim {
    pub key: Seq<char>,
    pub resource: ResourceModel,
    pub text: Seq<char>,
}

/// The claims of one component.
pub open spec fn claims_of(key: Seq<char>, resources: Seq<ResourceInfo>) -> Seq<Claim> {
    Seq::new(
        resources.len(),
        |i: int| Claim { key, resource: resources[i].0, text: resources[i].1 },
    )
}

/// The claims of all sources and sinks.
pub open spec fn all_claims(config: ConfigBuilder) -> Seq<Claim> {
    gather(
        config.sources@.len(),
        |i: int|
            claims_of(config.sources@[i].0, described(config.sources@[i].1.inner.resources@)),
    ) + gather(
        config.sinks@.len(),
        |i: int|
            claims_of(
                config.sinks@[i].0,
                sink_resources(
                    described(config.sinks@[i].1.inner.resources@),
                    config.sinks@[i].1.buffer.stages@,
                    config.sinks@[i].0,
                ),
            ),
    )
}

/// The components whose claims take a resource, each once, in the order of
/// their claims.
pub open spec fn holders(claims: Seq<Claim>, resource: ResourceModel) -> Seq<Seq<char>>
    decreases claims.len(),
{
    if claims.len() == 0 {
        Seq::empty()
    } else {
        let before = holders(claims.drop_last(), resource);
        if takes(claims.last().resource, resource) && !before.contains(claims.last().key) {
            before.push(claims.last().key)
        } else {
            before
        }
    }
}

/// Whether a claim is the first on its resource.
pub open spec fn first_claim(claims: Seq<Claim>, i: int) -> bool {
    forall|j: int| 0 <= j < i ==> (#[trigger] claims[j]).resource != claims[i].resource
}

/// A component in the message on a conflict.
pub open spec fn holder_text(key: Seq<char>) -> Seq<char> {
    "ComponentKey { id: "@ + debug_text(key) + " }"@
}

/// The message on a resource that several components take.
pub open spec fn conflict_error(claims: Seq<Claim>, i: int) -> Seq<Seq<char>> {
    let keys = holders(claims, claims[i].resource);
    only_if(
        first_claim(claims, i) && keys.len() > 1,
        "Resource `"@ + claims[i].text + "` is claimed by multiple components: {"@ + joined(
            keys.map_values(|key: Seq<char>| holder_text(key)),
            ", "@,
        ) + "}"@,
    )
}

/// The messages of [`check_resources`].
pub open spec fn resource_errors(claims: Seq<Claim>) -> Seq<Seq<char>> {
    gather(claims.len(), |i: int| conflict_error(claims, i))
}

/// What a list of claims stands for.
pub open spec fn claim_models(claims: Seq<(ComponentKey, Resource)>) -> Seq<Claim> {
    Seq::new(
        claims.len(),
        |i: int|
            Claim {
                key: claims[i].0@,
                resource: claims[i].1@,
                text: resource_text(claims[i].1),
            },
    )
}

/// Adds the claims of one component.
fn add_claims(claims: &mut Vec<(ComponentKey, Resource)>, key: &ComponentKey, resources: &Vec<Resource>)
    ensures
        claim_models(final(claims)@) == claim_models(old(claims)@) + claims_of(
            key@,
            described(resources@),
        ),
{
    let ghost before = claim_models(claims@);
    let ghost added = claims_of(key@, described(resources@));
    let mut i: usize = 0;
    assert(claim_models(claims@) =~= before + added.take(0));
    while i < resources.len()
        invariant
            i <= resources.len(),
            added == claims_of(key@, described(resources@)),
            claim_models(claims@) == before + added.take(i as int),
        decreases resources.len() - i,
    {
        let ghost held = claims@;
        claims.push((key.clone(), resources[i].clone()));
        assert(claim_models(claims@) =~= claim_models(held).push(added[i as int]));
        assert(claim_models(claims@) =~= before + added.take(i + 1));
        i = i + 1;
    }
    assert(added.take(i as int) =~= added);
}

/// Collects the claims of all sources and sinks.
fn collect_claims(config: &ConfigBuilder) -> (claims: Vec<(ComponentKey, Resource)>)
    ensures
        claim_models(claims@) == all_claims(*config),
{
    let ghost sources = config.sources@;
    let ghost sinks = config.sinks@;
    let ghost f = |i: int| claims_of(sources[i].0, described(sources[i].1.inner.resources@));
    let ghost g = |i: int|
        claims_of(
            sinks[i].0,
            sink_resources(
                described(sinks[i].1.inner.resources@),
                sinks[i].1.buffer.stages@,
                sinks[i].0,
            ),
        );
    let mut claims: Vec<(ComponentKey, Resource)> = Vec::new();
    assert(claim_models(claims@) =~= gather(0, f));
    let len: usize = config.sources.len();
    let mut i: usize = 0;
    while i < len
        invariant
            i <= len,
            len == sources.len(),
            sources == config.sources@,
            f == (|i: int| claims_of(sources[i].0, described(sources[i].1.inner.resources@))),
            claim_models(claims@) == gather(i as nat, f),
        decreases len - i,
    {
        let key = ComponentKey::new(config.sources.key_at(i));
        add_claims(&mut claims, &key, &config.sources.value_at(i).inner.resources);
        assert(f(i as int) == claims_of(key@, described(sources[i as int].1.inner.resources@)));
        i = i + 1;
    }
    let ghost first = claim_models(claims@);
    assert(claim_models(claims@) =~= first + gather(0, g));
    let count: usize = config.sinks.len();
    let mut j: usize = 0;
    while j < count
        invariant
            j <= count,
            count == sinks.len(),
            sinks == config.sinks@,
            g == (|i: int|
                claims_of(
                    sinks[i].0,
                    sink_resources(
                        described(sinks[i].1.inner.resources@),
                        sinks[i].1.buffer.stages@,
                        sinks[i].0,
                    ),
                )),
            claim_models(claims@) == first + gather(j as nat, g),
        decreases count - j,
    {
        let key = ComponentKey::new(config.sinks.key_at(j));
        let resources = config.sinks.value_at(j).resources(&key);
        add_claims(&mut claims, &key, &resources);
        assert(g(j as int) == claims_of(key@, described(resources@)));
        assert(claim_models(claims@) =~= first + gather((j + 1) as nat, g));
        j = j + 1;
    }
    claims
}

/// Finds the components whose claims take a resource.
fn find_holders(claims: &Vec<(ComponentKey, Resource)>, resource: &Resource) -> (found: Vec<String>)
    ensures
        texts(found@) == holders(claim_models(claims@), resource@),
{
    let ghost all = claim_models(claims@);
    let mut found: Vec<String> = Vec::new();
    assert(texts(found@) =~= Seq::empty());
    let mut i: usize = 0;
    while i < claims.len()
        invariant
            i <= claims.len(),
            all == claim_models(claims@),
            texts(found@) == holders(all.take(i as int), resource@),
        decreases claims.len() - i,
    {
        assert(all.take(i + 1).drop_last() =~= all.take(i as int));
        assert(all.take(i + 1).last() == all[i as int]);
        let key = claims[i].0.id();
        if claims[i].1.also_takes(resource) && !holds_text(&found, key) {
            push_text(&mut found, key.to_owned());
        }
        i = i + 1;
    }
    assert(all.take(i as int) =~= all);
    found
}

/// Whether a claim is the first on its resource.
fn is_first_claim(claims: &Vec<(ComponentKey, Resource)>, place: usize) -> (first: bool)
    requires
        place < claims@.len(),
    ensures
        first == first_claim(claim_models(claims@), place as int),
{
    let ghost all = claim_models(claims@);
    let mut i: usize = 0;
    while i < place
        invariant
            i <= place,
            place < claims@.len(),
            all == claim_models(claims@),
            forall|j: int| 0 <= j < i ==> (#[trigger] all[j]).resource != all[place as int].resource,
        decreases place - i,
    {
        if claims[i].1.same(&claims[place].1) {
            assert(all[i as int].resource == all[place as int].resource);
            return false;
        }
        i = i + 1;
    }
    true
}

/// The text of the components that take a resource.
fn holders_list(keys: &Vec<String>) -> (list: String)
    ensures
        list@ == joined(
            texts(keys@).map_values(|key: Seq<char>| holder_text(key)),
            ", "@,
        ),
{
    let ghost wanted = texts(keys@).map_values(|key: Seq<char>| holder_text(key));
    let mut parts: Vec<String> = Vec::new();
    let mut i: usize = 0;
    assert(texts(parts@) =~= wanted.take(0));
    while i < keys.len()
        invariant
            i <= keys.len(),
            wanted == texts(keys@).map_values(|key: Seq<char>| holder_text(key)),
            texts(parts@) == wanted.take(i as int),
        decreases keys.len() - i,
    {
        let mut part = "ComponentKey { id: ".to_owned();
        part.append(debug_str(keys[i].as_str()).as_str());
        part.append(" }");
        assert(part@ == wanted[i as int]);
        push_text(&mut parts, part);
        assert(wanted.take(i + 1) =~= wanted.take(i as int).push(wanted[i as int]));
        i = i + 1;
    }
    assert(wanted.take(i as int) =~= wanted);
    join(&parts, ", ")
}

/// Checks that no two components need the same resource for themselves alone.
pub fn check_resources(config: &ConfigBuilder) -> (result: Result<(), Vec<String>>)
    ensures
        finds(result, resource_errors(all_claims(*config))),
{
    let claims = collect_claims(config);
    let ghost all = claim_models(claims@);
    let ghost f = |i: int| conflict_error(all, i);
    let mut errors: Vec<String> = Vec::new();
    assert(texts(errors@) =~= gather(0, f));
    let mut i: usize = 0;
    while i < claims.len()
        invariant
            i <= claims.len(),
            all == claim_models(claims@),
            f == (|i: int| conflict_error(all, i)),
            texts(errors@) == gather(i as nat, f),
        decreases claims.len() - i,
    {
        let ghost before = texts(errors@);
        let resource = &claims[i].1;
        let keys = find_holders(&claims, resource);
        assert(all[i as int].resource == resource@);
        if is_first_claim(&claims, i) && keys.len() > 1 {
            let mut message = "Resource `".to_owned();
            message.append(resource.to_text().as_str());
            message.append("` is claimed by multiple components: {");
            message.append(holders_list(&keys).as_str());
            message.append("}");
            push_text(&mut errors, message);
        }
        assert(texts(keys@).len() == keys@.len());
        assert(f(i as int) == conflict_error(all, i as int));
        assert(texts(errors@) =~= before + f(i as int));
        i = i + 1;
    }
    outcome(errors)
}

/// A component is among those that take a resource just where one of its claims
/// takes it, and it is there once.
proof fn holders_claim(claims: Seq<Claim>, resource: ResourceModel)
    ensures
        holders(claims, resource).no_duplicates(),
        forall|key: Seq<char>| #[trigger]
            holders(claims, resource).contains(key) <==> exists|j: int|
                0 <= j < claims.len() && (#[trigger] claims[j]).key == key && takes(
                    claims[j].resource,
                    resource,
                ),
    decreases claims.len(),
{
    if claims.len() > 0 {
        let rest = claims.drop_last();
        let before = holders(rest, resource);
        let after = holders(claims, resource);
        holders_claim(rest, resource);
        assert forall|key: Seq<char>| #[trigger] after.contains(key) <==> exists|j: int|
            0 <= j < claims.len() && (#[trigger] claims[j]).key == key && takes(
                claims[j].resource,
                resource,
            ) by {
            if before.contains(key) {
                let i = choose|i: int| 0 <= i < before.len() && before[i] == key;
                assert(after[i] == key);
                let j = choose|j: int|
                    0 <= j < rest.len() && (#[trigger] rest[j]).key == key && takes(
                        rest[j].resource,
                        resource,
                    );
                assert(claims[j] == rest[j]);
            }
            if after.contains(key) && !before.contains(key) {
                let i = choose|i: int| 0 <= i < after.len() && after[i] == key;
                if i < before.len() {
                    assert(before[i] == key);
                }
                assert(claims[claims.len() - 1].key == key);
            }
            if exists|j: int|
                0 <= j < claims.len() && (#[trigger] claims[j]).key == key && takes(
                    claims[j].resource,
                    resource,
                ) {
                let j = choose|j: int|
                    0 <= j < claims.len() && (#[trigger] claims[j]).key == key && takes(
                        claims[j].resource,
                        resource,
                    );
                if j < rest.len() {
                    assert(rest[j] == claims[j]);
                    assert(before.contains(key));
                } else if !before.contains(key) {
                    assert(after[before.len() as int] == key);
                }
            }
        }
    }
}

/// Components pass the check on resources just where no two of them take the
/// same resource.
pub proof fn resources_are_not_shared(claims: Seq<Claim>)
    ensures
        resource_errors(claims).len() == 0 <==> forall|i: int, j: int|
            0 <= i < claims.len() && 0 <= j < claims.len() && takes(
                (#[trigger] claims[j]).resource,
                (#[trigger] claims[i]).resource,
            ) ==> claims[j].key == claims[i].key,
{
    let f = |i: int| conflict_error(claims, i);
    gather_empty(claims.len(), f);
    if resource_errors(claims).len() == 0 {
        assert forall|i: int, j: int|
            0 <= i < claims.len() && 0 <= j < claims.len() && takes(
                (#[trigger] claims[j]).resource,
                (#[trigger] claims[i]).resource,
            ) implies claims[j].key == claims[i].key by {
            let resource = claims[i].resource;
            let found = holders(claims, resource);
            holders_claim(claims, resource);
            assert(found.contains(claims[i].key) && found.contains(claims[j].key));
            let first = first_claim_on(claims, i);
            assert(f(first).len() == 0);
            let a = choose|a: int| 0 <= a < found.len() && found[a] == claims[i].key;
            let b = choose|b: int| 0 <= b < found.len() && found[b] == claims[j].key;
            assert(a == 0 && b == 0);
        }
    }
    if forall|i: int, j: int|
        0 <= i < claims.len() && 0 <= j < claims.len() && takes(
            (#[trigger] claims[j]).resource,
            (#[trigger] claims[i]).resource,
        ) ==> claims[j].key == claims[i].key {
        assert forall|i: int| 0 <= i < claims.len() implies (#[trigger] f(i)).len() == 0 by {
            let found = holders(claims, claims[i].resource);
            holders_claim(claims, claims[i].resource);
            if found.len() > 1 {
                assert(found.contains(found[0]) && found.contains(found[1]));
                assert(found[0] == claims[i].key && found[1] == claims[i].key);
            }
        }
    }
}

/// The first claim on the resource of a claim.
proof fn first_claim_on(claims: Seq<Claim>, i: int) -> (first: int)
    requires
        0 <= i < claims.len(),
    ensures
        0 <= first <= i,
        first_claim(claims, first),
        claims[first].resource == claims[i].resource,
    decreases i,
{
    if first_claim(claims, i) {
        i
    } else {
        let j = choose|j: int| 0 <= j < i && (#[trigger] claims[j]).resource == claims[i].resource;
        first_claim_on(claims, j)
    }
}

/// Whether an output feeds a transform, a sink or an enrichment table.
pub open spec fn consumed(config: Config, name: OutputName) -> bool {
    ||| exists|i: int|
        0 <= i < config.transforms@.len() && output_names(
            (#[trigger] config.transforms@[i]).1.inputs@,
        ).contains(name)
    ||| exists|i: int|
        0 <= i < config.sinks@.len() && output_names(
            (#[trigger] config.sinks@[i]).1.inputs@,
        ).contains(name)
    ||| exists|i: int|
        0 <= i < config.enrichment_tables@.len() && (
        #[trigger] config.enrichment_tables@[i]).1.sink is Some && output_names(
            config.enrichment_tables@[i].1.inputs@,
        ).contains(name)
}

/// The warnings on the outputs of one component.
pub open spec fn unconsumed(kind: Seq<char>, names: Seq<OutputName>, config: Config) -> Seq<
    Seq<char>,
> {
    gather(
        names.len(),
        |i: int|
            only_if(
                !consumed(config, names[i]),
                capitalized(kind) + " \""@ + output_text(names[i]) + "\" has no consumers"@,
            ),
    )
}

/// The warnings on the source that reads an enrichment table, if there is one.
pub open spec fn table_warnings(
    table: EnrichmentTableOuter<OutputId>,
    namespace: LogNamespace,
    config: Config,
) -> Seq<Seq<char>> {
    match table.source {
        None => Seq::empty(),
        Some(source) => unconsumed(
            "source"@,
            source_output_names(source.key@, source.config.outputs_in(namespace)),
            config,
        ),
    }
}

/// The warnings of [`warnings`].
pub open spec fn warning_texts(config: Config) -> Seq<Seq<char>> {
    let namespace = chosen_namespace(None, config.schema.log_namespace);
    gather(
        config.transforms@.len(),
        |i: int|
            unconsumed(
                "transform"@,
                transform_output_names(
                    config.transforms@[i].0,
                    config.transforms@[i].1.inner.outputs_in(namespace),
                ),
                config,
            ),
    ) + gather(
        config.sources@.len(),
        |i: int|
            unconsumed(
                "source"@,
                source_output_names(
                    config.sources@[i].0,
                    config.sources@[i].1.inner.outputs_in(namespace),
                ),
                config,
            ),
    ) + gather(
        config.enrichment_tables@.len(),
        |i: int| table_warnings(config.enrichment_tables@[i].1, namespace, config),
    )
}

/// Whether an output feeds a transform, a sink or an enrichment table.
fn is_consumed(config: &Config, id: &OutputId) -> (found: bool)
    ensures
        found == consumed(*config, id@),
{
    let transforms: usize = config.transforms.len();
    let mut i: usize = 0;
    while i < transforms
        invariant
            i <= transforms,
            transforms == config.transforms@.len(),
            forall|j: int|
                0 <= j < i ==> !output_names(
                    (#[trigger] config.transforms@[j]).1.inputs@,
                ).contains(id@),
        decreases transforms - i,
    {
        if holds_output(&config.transforms.value_at(i).inputs, id) {
            return true;
        }
        i = i + 1;
    }
    let sinks: usize = config.sinks.len();
    let mut i: usize = 0;
    while i < sinks
        invariant
            i <= sinks,
            sinks == config.sinks@.len(),
            forall|j: int|
                0 <= j < i ==> !output_names((#[trigger] config.sinks@[j]).1.inputs@).contains(id@),
        decreases sinks - i,
    {
        if holds_output(&config.sinks.value_at(i).inputs, id) {
            return true;
        }
        i = i + 1;
    }
    let tables: usize = config.enrichment_tables.len();
    let mut i: usize = 0;
    while i < tables
        invariant
            i <= tables,
            tables == config.enrichment_tables@.len(),
            forall|j: int|
                0 <= j < i ==> !((#[trigger] config.enrichment_tables@[j]).1.sink is Some
                    && output_names(config.enrichment_tables@[j].1.inputs@).contains(id@)),
        decreases tables - i,
    {
        let table = config.enrichment_tables.value_at(i);
        if table.sink.is_some() && holds_output(&table.inputs, id) {
            return true;
        }
        i = i + 1;
    }
    false
}

/// Finds the outputs of one component that feed nothing.
fn find_unconsumed(kind: &str, ids: &Vec<OutputId>, config: &Config) -> (found: Vec<String>)
    ensures
        texts(found@) == unconsumed(kind@, output_names(ids@), *config),
{
    let ghost names = output_names(ids@);
    let ghost f = |i: int|
        only_if(
            !consumed(*config, names[i]),
            capitalized(kind@) + " \""@ + output_text(names[i]) + "\" has no consumers"@,
        );
    let mut found: Vec<String> = Vec::new();
    assert(texts(found@) =~= gather(0, f));
    let mut i: usize = 0;
    while i < ids.len()
        invariant
            i <= ids.len(),
            names == output_names(ids@),
            f == (|i: int|
                only_if(
                    !consumed(*config, names[i]),
                    capitalized(kind@) + " \""@ + output_text(names[i]) + "\" has no consumers"@,
                )),
            texts(found@) == gather(i as nat, f),
        decreases ids.len() - i,
    {
        let ghost before = texts(found@);
        assert(names[i as int] == ids@[i as int]@);
        if !is_consumed(config, &ids[i]) {
            let mut message = capitalize(kind);
            message.append(" \"");
            message.append(ids[i].to_text().as_str());
            message.append("\" has no consumers");
            push_text(&mut found, message);
        }
        assert(texts(found@) =~= before + f(i as int));
        i = i + 1;
    }
    found
}

/// Finds the outputs of sources and transforms that feed nothing.
pub fn warnings(config: &Config) -> (found: Vec<String>)
    ensures
        texts(found@) == warning_texts(*config),
{
    let namespace = config.schema.log_namespace();
    let ghost transforms = config.transforms@;
    let ghost sources = config.sources@;
    let ghost tables = config.enrichment_tables@;
    let ghost f = |i: int|
        unconsumed(
            "transform"@,
            transform_output_names(transforms[i].0, transforms[i].1.inner.outputs_in(namespace)),
            *config,
        );
    let ghost g = |i: int|
        unconsumed(
            "source"@,
            source_output_names(sources[i].0, sources[i].1.inner.outputs_in(namespace)),
            *config,
        );
    let ghost h = |i: int| table_warnings(tables[i].1, namespace, *config);
    let mut found: Vec<String> = Vec::new();
    assert(texts(found@) =~= gather(0, f));
    let len: usize = config.transforms.len();
    let mut i: usize = 0;
    while i < len
        invariant
            i <= len,
            len == transforms.len(),
            transforms == config.transforms@,
            f == (|i: int|
                unconsumed(
                    "transform"@,
                    transform_output_names(
                        transforms[i].0,
                        transforms[i].1.inner.outputs_in(namespace),
                    ),
                    *config,
                )),
            texts(found@) == gather(i as nat, f),
        decreases len - i,
    {
        let key = ComponentKey::new(config.transforms.key_at(i));
        let inner = &config.transforms.value_at(i).inner;
        let ids = get_transform_output_ids(inner, &key, namespace);
        append_texts(&mut found, find_unconsumed("transform", &ids, config));
        assert(f(i as int) == unconsumed("transform"@, output_names(ids@), *config));
        i = i + 1;
    }
    let ghost first = texts(found@);
    assert(texts(found@) =~= first + gather(0, g));
    let len: usize = config.sources.len();
    let mut i: usize = 0;
    while i < len
        invariant
            i <= len,
            len == sources.len(),
            sources == config.sources@,
            g == (|i: int|
                unconsumed(
                    "source"@,
                    source_output_names(sources[i].0, sources[i].1.inner.outputs_in(namespace)),
                    *config,
                )),
            texts(found@) == first + gather(i as nat, g),
        decreases len - i,
    {
        let key = ComponentKey::new(config.sources.key_at(i));
        let inner = &config.sources.value_at(i).inner;
        let ids = get_source_output_ids(inner, &key, namespace);
        append_texts(&mut found, find_unconsumed("source", &ids, config));
        assert(g(i as int) == unconsumed("source"@, output_names(ids@), *config));
        assert(texts(found@) =~= first + gather((i + 1) as nat, g));
        i = i + 1;
    }
    let ghost second = texts(found@);
    assert(texts(found@) =~= second + gather(0, h));
    let len: usize = config.enrichment_tables.len();
    let mut i: usize = 0;
    while i < len
        invariant
            i <= len,
            len == tables.len(),
            tables == config.enrichment_tables@,
            h == (|i: int| table_warnings(tables[i].1, namespace, *config)),
            texts(found@) == second + gather(i as nat, h),
        decreases len - i,
    {
        let ghost before = texts(found@);
        assert(h(i as int) == table_warnings(tables[i as int].1, namespace, *config));
        match &config.enrichment_tables.value_at(i).source {
            None => {},
            Some(source) => {
                let ids = get_source_output_ids(&source.config, &source.key, namespace);
                append_texts(&mut found, find_unconsumed("source", &ids, config));
            },
        }
        assert(texts(found@) =~= before + h(i as int));
        assert(texts(found@) =~= second + gather((i + 1) as nat, h));
        i = i + 1;
    }
    found
}

/// A check passes just where it has no message.
proof fn passes_without_messages(result: Result<(), Vec<String>>, messages: Seq<Seq<char>>)
    requires
        finds(result, messages),
    ensures
        result is Ok <==> messages.len() == 0,
        result matches Err(errors) ==> errors@.len() > 0,
{
    if let Err(errors) = result {
        assert(texts(errors@).len() == errors@.len());
    }
}

/// A configuration passes just where it names no provider or has no sources,
/// transforms and sinks.
pub proof fn providers_stand_alone(config: &ConfigBuilder, result: Result<(), Vec<String>>)
    requires
        call_ensures(check_provider, (config,), result),
    ensures
        result is Ok <==> config.provider is None || (config.sources@.len() == 0
            && config.transforms@.len() == 0 && config.sinks@.len() == 0),
{
    passes_without_messages(result, provider_errors(*config));
}

/// There is no message on names just where none has a dot.
pub proof fn names_have_no_dots(names: Seq<Seq<char>>)
    ensures
        name_errors(names).len() == 0 <==> forall|i: int, k: int|
            0 <= i < names.len() && 0 <= k < names[i].len() ==> #[trigger] names[i][k] != '.',
{
    let f = |i: int| name_error(names[i]);
    gather_empty(names.len(), f);
    if name_errors(names).len() == 0 {
        assert forall|i: int, k: int|
            0 <= i < names.len() && 0 <= k < names[i].len() implies #[trigger] names[i][k] != '.' by {
            assert(f(i).len() == 0);
            assert(names[i].contains(names[i][k]));
        }
    }
    if forall|i: int, k: int|
        0 <= i < names.len() && 0 <= k < names[i].len() ==> #[trigger] names[i][k] != '.' {
        assert forall|i: int| 0 <= i < names.len() implies (#[trigger] f(i)).len() == 0 by {
            if names[i].contains('.') {
                let name = names[i];
                let k = choose|k: int| 0 <= k < name.len() && name[k] == '.';
                assert(names[i][k] != '.');
            }
        }
    }
}

/// Names pass the check just where none has a dot.
pub proof fn names_with_dots_are_refused(names: &Vec<ComponentKey>, result: Result<(), Vec<String>>)
    requires
        call_ensures(check_names, (names,), result),
    ensures
        result is Ok <==> forall|i: int, k: int|
            0 <= i < names@.len() && 0 <= k < names@[i]@.len() ==> #[trigger] names@[i]@[k] != '.',
{
    let keys = key_texts(names@);
    passes_without_messages(result, name_errors(keys));
    names_have_no_dots(keys);
    if result is Ok {
        assert forall|i: int, k: int|
            0 <= i < names@.len() && 0 <= k < names@[i]@.len() implies #[trigger] names@[i]@[k]
            != '.' by {
            assert(keys[i][k] != '.');
        }
    } else {
        let (i, k) = choose|i: int, k: int|
            0 <= i < keys.len() && 0 <= k < keys[i].len() && #[trigger] keys[i][k] == '.';
        assert(names@[i]@[k] == '.');
    }
}

/// A text that stands in two places of a list occurs more than once.
proof fn occurs_twice(list: Seq<Seq<char>>, i: int, j: int)
    requires
        0 <= i < j < list.len(),
        list[i] == list[j],
    ensures
        occurrences(list, list[i]) > 1,
    decreases list.len(),
{
    let less = list.drop_last();
    if j < list.len() - 1 {
        occurs_twice(less, i, j);
    } else {
        occurs_somewhere(less, i);
    }
}

/// A text that stands in a list occurs in it.
proof fn occurs_somewhere(list: Seq<Seq<char>>, i: int)
    requires
        0 <= i < list.len(),
    ensures
        occurrences(list, list[i]) > 0,
    decreases list.len(),
{
    if i < list.len() - 1 {
        occurs_somewhere(list.drop_last(), i);
    }
}

/// A text that occurs in a list stands in it.
proof fn stands_somewhere(list: Seq<Seq<char>>, wanted: Seq<char>)
    requires
        occurrences(list, wanted) > 0,
    ensures
        exists|i: int| 0 <= i < list.len() && list[i] == wanted,
    decreases list.len(),
{
    if list.last() != wanted {
        let less = list.drop_last();
        stands_somewhere(less, wanted);
        let i = choose|i: int| 0 <= i < less.len() && less[i] == wanted;
        assert(list[i] == wanted);
    } else {
        assert(list[list.len() - 1] == wanted);
    }
}

/// A text that occurs more than once in a list stands in two places of it.
proof fn stands_twice(list: Seq<Seq<char>>, wanted: Seq<char>)
    requires
        occurrences(list, wanted) > 1,
    ensures
        exists|i: int, j: int|
            0 <= i < j < list.len() && #[trigger] list[i] == wanted && #[trigger] list[j] == wanted,
    decreases list.len(),
{
    let less = list.drop_last();
    if list.last() == wanted {
        stands_somewhere(less, wanted);
        let i = choose|i: int| 0 <= i < less.len() && less[i] == wanted;
        assert(list[i] == wanted && list[list.len() - 1] == wanted);
    } else {
        stands_twice(less, wanted);
        let (i, j) = choose|i: int, j: int|
            0 <= i < j < less.len() && #[trigger] less[i] == wanted && #[trigger] less[j] == wanted;
        assert(list[i] == wanted && list[j] == wanted);
    }
}

/// There is no message on the inputs of a component just where it has some and
/// lists none of them twice.
proof fn inputs_are_listed_once(kind: Seq<char>, key: Seq<char>, inputs: Seq<String>)
    ensures
        input_errors(kind, key, texts(inputs)).len() == 0 <==> inputs.len() > 0 && forall|
            i: int,
            j: int,
        |
            0 <= i < j < inputs.len() ==> (#[trigger] inputs[i])@ != (#[trigger] inputs[j])@,
{
    let names = texts(inputs);
    let f = |i: int| duplicate_error(kind, key, names, i);
    gather_empty(names.len(), f);
    if forall|i: int, j: int|
        0 <= i < j < inputs.len() ==> (#[trigger] inputs[i])@ != (#[trigger] inputs[j])@ {
        assert forall|i: int| 0 <= i < names.len() implies (#[trigger] f(i)).len() == 0 by {
            if occurrences(names, names[i]) > 1 {
                stands_twice(names, names[i]);
                let (a, b) = choose|a: int, b: int|
                    0 <= a < b < names.len() && #[trigger] names[a] == names[i] && #[trigger] names[b]
                        == names[i];
                assert(inputs[a]@ == inputs[b]@);
            }
        }
    }
    if exists|i: int, j: int|
        0 <= i < j < inputs.len() && (#[trigger] inputs[i])@ == (#[trigger] inputs[j])@ {
        let (i, j) = choose|i: int, j: int|
            0 <= i < j < inputs.len() && (#[trigger] inputs[i])@ == (#[trigger] inputs[j])@;
        let first = first_place(names, names[i], i);
        assert(names[first] == names[i]);
        assert(names[i] == names[j]);
        occurs_twice(names, first, j);
        assert(!names.take(first).contains(names[first])) by {
            if names.take(first).contains(names[first]) {
                let k = choose|k: int|
                    0 <= k < names.take(first).len() && names.take(first)[k] == names[first];
                assert(names[k] == names[first]);
            }
        }
        assert(f(first).len() == 1);
    }
}

/// The first place of a text in a list.
proof fn first_place(list: Seq<Seq<char>>, wanted: Seq<char>, i: int) -> (first: int)
    requires
        0 <= i < list.len(),
        list[i] == wanted,
    ensures
        0 <= first <= i,
        list[first] == wanted,
        forall|k: int| 0 <= k < first ==> list[k] != wanted,
    decreases i,
{
    if exists|k: int| 0 <= k < i && list[k] == wanted {
        let k = choose|k: int| 0 <= k < i && list[k] == wanted;
        first_place(list, wanted, k)
    } else {
        i
    }
}

/// There is no message on names that several components have just where no two of
/// them have the same.
proof fn no_two_share_a_name(config: ConfigBuilder)
    ensures
        clash_errors(
            keys(config.sources@),
            keys(config.transforms@),
            keys(config.sinks@),
        ).len() == 0 <==> {
            &&& forall|i: int, j: int|
                0 <= i < config.sources@.len() && 0 <= j < config.transforms@.len() ==> (
                #[trigger] config.sources@[i]).0 != (#[trigger] config.transforms@[j]).0
            &&& forall|i: int, j: int|
                0 <= i < config.sources@.len() && 0 <= j < config.sinks@.len() ==> (
                #[trigger] config.sources@[i]).0 != (#[trigger] config.sinks@[j]).0
            &&& forall|i: int, j: int|
                0 <= i < config.transforms@.len() && 0 <= j < config.sinks@.len() ==> (
                #[trigger] config.transforms@[i]).0 != (#[trigger] config.sinks@[j]).0
        },
{
    let sources = keys(config.sources@);
    let transforms = keys(config.transforms@);
    let sinks = keys(config.sinks@);
    let f = |i: int| source_clash(sources[i], transforms, sinks);
    let g = |i: int| transform_clash(transforms[i], sources, sinks);
    gather_empty(sources.len(), f);
    gather_empty(transforms.len(), g);
    assert forall|key: Seq<char>| #[trigger] transforms.contains(key) <==> exists|j: int|
        0 <= j < config.transforms@.len() && (#[trigger] config.transforms@[j]).0 == key by {
        if transforms.contains(key) {
            let j = choose|j: int| 0 <= j < transforms.len() && transforms[j] == key;
            assert(config.transforms@[j].0 == key);
        }
        if exists|j: int|
            0 <= j < config.transforms@.len() && (#[trigger] config.transforms@[j]).0 == key {
            let j = choose|j: int|
                0 <= j < config.transforms@.len() && (#[trigger] config.transforms@[j]).0 == key;
            assert(transforms[j] == key);
        }
    }
    assert forall|key: Seq<char>| #[trigger] sinks.contains(key) <==> exists|j: int|
        0 <= j < config.sinks@.len() && (#[trigger] config.sinks@[j]).0 == key by {
        if sinks.contains(key) {
            let j = choose|j: int| 0 <= j < sinks.len() && sinks[j] == key;
            assert(config.sinks@[j].0 == key);
        }
        if exists|j: int| 0 <= j < config.sinks@.len() && (#[trigger] config.sinks@[j]).0 == key {
            let j = choose|j: int|
                0 <= j < config.sinks@.len() && (#[trigger] config.sinks@[j]).0 == key;
            assert(sinks[j] == key);
        }
    }
    assert forall|key: Seq<char>| #[trigger] sources.contains(key) <==> exists|j: int|
        0 <= j < config.sources@.len() && (#[trigger] config.sources@[j]).0 == key by {
        if sources.contains(key) {
            let j = choose|j: int| 0 <= j < sources.len() && sources[j] == key;
            assert(config.sources@[j].0 == key);
        }
        if exists|j: int|
            0 <= j < config.sources@.len() && (#[trigger] config.sources@[j]).0 == key {
            let j = choose|j: int|
                0 <= j < config.sources@.len() && (#[trigger] config.sources@[j]).0 == key;
            assert(sources[j] == key);
        }
    }
    let clashes = clash_errors(sources, transforms, sinks);
    assert(clashes == gather(sources.len(), f) + gather(transforms.len(), g));
    if clashes.len() == 0 {
        assert forall|i: int, j: int|
            0 <= i < config.sources@.len() && 0 <= j < config.transforms@.len() implies (
        #[trigger] config.sources@[i]).0 != (#[trigger] config.transforms@[j]).0 by {
            assert(f(i).len() == 0);
            assert(sources[i] == config.sources@[i].0);
            assert(!transforms.contains(sources[i]));
        }
        assert forall|i: int, j: int|
            0 <= i < config.sources@.len() && 0 <= j < config.sinks@.len() implies (
        #[trigger] config.sources@[i]).0 != (#[trigger] config.sinks@[j]).0 by {
            assert(f(i).len() == 0);
            assert(sources[i] == config.sources@[i].0);
            assert(!sinks.contains(sources[i]));
        }
        assert forall|i: int, j: int|
            0 <= i < config.transforms@.len() && 0 <= j < config.sinks@.len() implies (
        #[trigger] config.transforms@[i]).0 != (#[trigger] config.sinks@[j]).0 by {
            assert(g(i).len() == 0);
            assert(transforms[i] == config.transforms@[i].0);
            if sinks.contains(transforms[i]) {
                assert(sources.contains(transforms[i]));
                let s = choose|s: int| 0 <= s < sources.len() && sources[s] == transforms[i];
                assert(f(s).len() == 0);
                assert(!sinks.contains(sources[s]));
            }
        }
    }
    if {
        &&& forall|i: int, j: int|
            0 <= i < config.sources@.len() && 0 <= j < config.transforms@.len() ==> (
            #[trigger] config.sources@[i]).0 != (#[trigger] config.transforms@[j]).0
        &&& forall|i: int, j: int|
            0 <= i < config.sources@.len() && 0 <= j < config.sinks@.len() ==> (
            #[trigger] config.sources@[i]).0 != (#[trigger] config.sinks@[j]).0
        &&& forall|i: int, j: int|
            0 <= i < config.transforms@.len() && 0 <= j < config.sinks@.len() ==> (
            #[trigger] config.transforms@[i]).0 != (#[trigger] config.sinks@[j]).0
    } {
        assert forall|i: int| 0 <= i < sources.len() implies (#[trigger] f(i)).len() == 0 by {
            assert(sources[i] == config.sources@[i].0);
        }
        assert forall|i: int| 0 <= i < transforms.len() implies (#[trigger] g(i)).len() == 0 by {
            assert(transforms[i] == config.transforms@[i].0);
        }
        assert(clashes.len() == 0);
    }
}

/// There is no message on the inputs of sinks just where each has some and lists
/// none of them twice.
proof fn inputs_of_sinks_are_listed_once(config: ConfigBuilder)
    ensures
        sink_input_errors(config.sinks@).len() == 0 <==> {
            &&& forall|i: int|
                0 <= i < config.sinks@.len() ==> (#[trigger] config.sinks@[i]).1.inputs@.len() > 0
            &&& forall|i: int, a: int, b: int|
                0 <= i < config.sinks@.len() && 0 <= a < b < config.sinks@[i].1.inputs@.len()
                    ==> (#[trigger] config.sinks@[i].1.inputs@[a])@ != (
                #[trigger] config.sinks@[i].1.inputs@[b])@
        },
{
    let h = |i: int|
        input_errors("sink"@, config.sinks@[i].0, texts(config.sinks@[i].1.inputs@));
    gather_empty(config.sinks@.len(), h);
    assert(sink_input_errors(config.sinks@) == gather(config.sinks@.len(), h));
    assert forall|i: int| 0 <= i < config.sinks@.len() implies ((#[trigger] h(i)).len() == 0
        <==> config.sinks@[i].1.inputs@.len() > 0 && forall|a: int, b: int|
        0 <= a < b < config.sinks@[i].1.inputs@.len() ==> (
        #[trigger] config.sinks@[i].1.inputs@[a])@ != (#[trigger] config.sinks@[i].1.inputs@[b])@) by {
        inputs_are_listed_once("sink"@, config.sinks@[i].0, config.sinks@[i].1.inputs@);
    }
    if sink_input_errors(config.sinks@).len() == 0 {
        assert forall|i: int| 0 <= i < config.sinks@.len() implies (
        #[trigger] config.sinks@[i]).1.inputs@.len() > 0 by {
            assert(h(i).len() == 0);
        }
        assert forall|i: int, a: int, b: int|
            0 <= i < config.sinks@.len() && 0 <= a < b < config.sinks@[i].1.inputs@.len()
                implies (#[trigger] config.sinks@[i].1.inputs@[a])@ != (
        #[trigger] config.sinks@[i].1.inputs@[b])@ by {
            assert(h(i).len() == 0);
        }
    }
    if {
        &&& forall|i: int|
            0 <= i < config.sinks@.len() ==> (#[trigger] config.sinks@[i]).1.inputs@.len() > 0
        &&& forall|i: int, a: int, b: int|
            0 <= i < config.sinks@.len() && 0 <= a < b < config.sinks@[i].1.inputs@.len() ==> (
            #[trigger] config.sinks@[i].1.inputs@[a])@ != (
            #[trigger] config.sinks@[i].1.inputs@[b])@
    } {
        assert forall|i: int| 0 <= i < config.sinks@.len() implies (#[trigger] h(i)).len() == 0 by {
            assert(config.sinks@[i].1.inputs@.len() > 0);
        }
    }
}

/// There is no message on the inputs of transforms just where each has some and lists
/// none of them twice.
proof fn inputs_of_transforms_are_listed_once(config: ConfigBuilder)
    ensures
        transform_input_errors(config.transforms@).len() == 0 <==> {
            &&& forall|i: int|
                0 <= i < config.transforms@.len() ==> (#[trigger] config.transforms@[i]).1.inputs@.len() > 0
            &&& forall|i: int, a: int, b: int|
                0 <= i < config.transforms@.len() && 0 <= a < b < config.transforms@[i].1.inputs@.len()
                    ==> (#[trigger] config.transforms@[i].1.inputs@[a])@ != (
                #[trigger] config.transforms@[i].1.inputs@[b])@
        },
{
    let h = |i: int|
        input_errors("transform"@, config.transforms@[i].0, texts(config.transforms@[i].1.inputs@));
    gather_empty(config.transforms@.len(), h);
    assert(transform_input_errors(config.transforms@) == gather(config.transforms@.len(), h));
    assert forall|i: int| 0 <= i < config.transforms@.len() implies ((#[trigger] h(i)).len() == 0
        <==> config.transforms@[i].1.inputs@.len() > 0 && forall|a: int, b: int|
        0 <= a < b < config.transforms@[i].1.inputs@.len() ==> (
        #[trigger] config.transforms@[i].1.inputs@[a])@ != (#[trigger] config.transforms@[i].1.inputs@[b])@) by {
        inputs_are_listed_once("transform"@, config.transforms@[i].0, config.transforms@[i].1.inputs@);
    }
    if transform_input_errors(config.transforms@).len() == 0 {
        assert forall|i: int| 0 <= i < config.transforms@.len() implies (
        #[trigger] config.transforms@[i]).1.inputs@.len() > 0 by {
            assert(h(i).len() == 0);
        }
        assert forall|i: int, a: int, b: int|
            0 <= i < config.transforms@.len() && 0 <= a < b < config.transforms@[i].1.inputs@.len()
                implies (#[trigger] config.transforms@[i].1.inputs@[a])@ != (
        #[trigger] config.transforms@[i].1.inputs@[b])@ by {
            assert(h(i).len() == 0);
        }
    }
    if {
        &&& forall|i: int|
            0 <= i < config.transforms@.len() ==> (#[trigger] config.transforms@[i]).1.inputs@.len() > 0
        &&& forall|i: int, a: int, b: int|
            0 <= i < config.transforms@.len() && 0 <= a < b < config.transforms@[i].1.inputs@.len() ==> (
            #[trigger] config.transforms@[i].1.inputs@[a])@ != (
            #[trigger] config.transforms@[i].1.inputs@[b])@
    } {
        assert forall|i: int| 0 <= i < config.transforms@.len() implies (#[trigger] h(i)).len() == 0 by {
            assert(config.transforms@[i].1.inputs@.len() > 0);
        }
    }
}

/// There is no message on the shape of a configuration just where it has sources
/// and sinks, or may be without, where no two of its components have the same
/// name, and where each sink and each transform has inputs and lists none of them
/// twice.
pub proof fn shapes_are_sound(config: ConfigBuilder)
    ensures
        shape_errors(config).len() == 0 <==> {
            &&& config.allow_empty || (config.sources@.len() > 0 && config.sinks@.len() > 0)
            &&& forall|i: int, j: int|
                0 <= i < config.sources@.len() && 0 <= j < config.transforms@.len() ==> (
                #[trigger] config.sources@[i]).0 != (#[trigger] config.transforms@[j]).0
            &&& forall|i: int, j: int|
                0 <= i < config.sources@.len() && 0 <= j < config.sinks@.len() ==> (
                #[trigger] config.sources@[i]).0 != (#[trigger] config.sinks@[j]).0
            &&& forall|i: int, j: int|
                0 <= i < config.transforms@.len() && 0 <= j < config.sinks@.len() ==> (
                #[trigger] config.transforms@[i]).0 != (#[trigger] config.sinks@[j]).0
            &&& forall|i: int|
                0 <= i < config.sinks@.len() ==> (#[trigger] config.sinks@[i]).1.inputs@.len() > 0
            &&& forall|i: int|
                0 <= i < config.transforms@.len() ==> (
                #[trigger] config.transforms@[i]).1.inputs@.len() > 0
            &&& forall|i: int, a: int, b: int|
                0 <= i < config.sinks@.len() && 0 <= a < b < config.sinks@[i].1.inputs@.len() ==> (
                #[trigger] config.sinks@[i].1.inputs@[a])@ != (
                #[trigger] config.sinks@[i].1.inputs@[b])@
            &&& forall|i: int, a: int, b: int|
                0 <= i < config.transforms@.len() && 0 <= a < b
                    < config.transforms@[i].1.inputs@.len() ==> (
                #[trigger] config.transforms@[i].1.inputs@[a])@ != (
                #[trigger] config.transforms@[i].1.inputs@[b])@
        },
{
    shapes_are_sound_part_by_part(config);
    assert(shape_errors(config).len() == 0 <==> {
        &&& config.allow_empty || (config.sources@.len() > 0 && config.sinks@.len() > 0)
        &&& clash_errors(
            keys(config.sources@),
            keys(config.transforms@),
            keys(config.sinks@),
        ).len() == 0
        &&& sink_input_errors(config.sinks@).len() == 0
        &&& transform_input_errors(config.transforms@).len() == 0
    });
    if shape_errors(config).len() == 0 {
        no_two_share_a_name(config);
        inputs_of_sinks_are_listed_once(config);
        inputs_of_transforms_are_listed_once(config);
    } else if clash_errors(
        keys(config.sources@),
        keys(config.transforms@),
        keys(config.sinks@),
    ).len() > 0 {
        no_two_share_a_name(config);
    } else if sink_input_errors(config.sinks@).len() > 0 {
        inputs_of_sinks_are_listed_once(config);
    } else if transform_input_errors(config.transforms@).len() > 0 {
        inputs_of_transforms_are_listed_once(config);
    }
}

/// The messages on the shape of a configuration are those on its parts.
proof fn shapes_are_sound_part_by_part(config: ConfigBuilder)
    ensures
        shape_errors(config).len() == 0 <==> {
            &&& config.allow_empty || (config.sources@.len() > 0 && config.sinks@.len() > 0)
            &&& clash_errors(
                keys(config.sources@),
                keys(config.transforms@),
                keys(config.sinks@),
            ).len() == 0
            &&& sink_input_errors(config.sinks@).len() == 0
            &&& transform_input_errors(config.transforms@).len() == 0
        },
{
}

/// A configuration passes the check on its shape just where it has sources and
/// sinks, or may be without, where no two of its components have the same name,
/// and where each sink and each transform has inputs and lists none of them
/// twice.
pub proof fn unsound_shapes_are_refused(config: &ConfigBuilder, result: Result<(), Vec<String>>)
    requires
        call_ensures(check_shape, (config,), result),
    ensures
        result is Ok <==> {
            &&& config.allow_empty || (config.sources@.len() > 0 && config.sinks@.len() > 0)
            &&& forall|i: int, j: int|
                0 <= i < config.sources@.len() && 0 <= j < config.transforms@.len() ==> (
                #[trigger] config.sources@[i]).0 != (#[trigger] config.transforms@[j]).0
            &&& forall|i: int, j: int|
                0 <= i < config.sources@.len() && 0 <= j < config.sinks@.len() ==> (
                #[trigger] config.sources@[i]).0 != (#[trigger] config.sinks@[j]).0
            &&& forall|i: int, j: int|
                0 <= i < config.transforms@.len() && 0 <= j < config.sinks@.len() ==> (
                #[trigger] config.transforms@[i]).0 != (#[trigger] config.sinks@[j]).0
            &&& forall|i: int|
                0 <= i < config.sinks@.len() ==> (#[trigger] config.sinks@[i]).1.inputs@.len() > 0
            &&& forall|i: int|
                0 <= i < config.transforms@.len() ==> (
                #[trigger] config.transforms@[i]).1.inputs@.len() > 0
            &&& forall|i: int, a: int, b: int|
                0 <= i < config.sinks@.len() && 0 <= a < b < config.sinks@[i].1.inputs@.len() ==> (
                #[trigger] config.sinks@[i].1.inputs@[a])@ != (
                #[trigger] config.sinks@[i].1.inputs@[b])@
            &&& forall|i: int, a: int, b: int|
                0 <= i < config.transforms@.len() && 0 <= a < b
                    < config.transforms@[i].1.inputs@.len() ==> (
                #[trigger] config.transforms@[i].1.inputs@[a])@ != (
                #[trigger] config.transforms@[i].1.inputs@[b])@
        },
{
    passes_without_messages(result, shape_errors(*config));
    shapes_are_sound(*config);
}

/// There is no message on numbers just where a half-life is above nought and a
/// weight lies between nought and one, by the bits that they are made of. What is
/// not set is in range.
pub proof fn numbers_are_in_range(config: ConfigBuilder)
    ensures
        value_errors(config).len() == 0 <==> {
            &&& config.global.buffer_utilization_ewma_half_life_seconds matches Some(half_life)
                ==> 0 < half_life.number.bits <= 0x7FF0_0000_0000_0000u64
            &&& config.global.latency_ewma_alpha matches Some(alpha) ==> 0 < alpha.number.bits
                < 0x3FF0_0000_0000_0000u64
        },
{
}

/// Numbers out of range are refused, and no others.
pub proof fn numbers_out_of_range_are_refused(
    config: &ConfigBuilder,
    result: Result<(), Vec<String>>,
)
    requires
        call_ensures(check_values, (config,), result),
    ensures
        result is Ok <==> {
            &&& config.global.buffer_utilization_ewma_half_life_seconds matches Some(half_life)
                ==> 0 < half_life.number.bits <= 0x7FF0_0000_0000_0000u64
            &&& config.global.latency_ewma_alpha matches Some(alpha) ==> 0 < alpha.number.bits
                < 0x3FF0_0000_0000_0000u64
        },
{
    passes_without_messages(result, value_errors(*config));
}

/// Whether an output of a source has the name that is kept for the default one,
/// in the namespace that the configuration chooses.
pub open spec fn source_takes_kept_name(config: ConfigBuilder, i: int, o: int) -> bool {
    let inner = config.sources@[i].1.inner;
    let outputs = if config.schema.log_namespace == Some(true) {
        inner.vector_outputs@
    } else {
        inner.legacy_outputs@
    };
    0 <= o < outputs.len() && outputs[o].port is Some && outputs[o].port->0@ == "output"@
}

/// Whether an output of a transform has the name that is kept for the default
/// one, in the namespace that the configuration chooses.
pub open spec fn transform_takes_kept_name(config: ConfigBuilder, i: int, o: int) -> bool {
    let inner = config.transforms@[i].1.inner;
    let outputs = if config.schema.log_namespace == Some(true) {
        inner.vector_outputs@
    } else {
        inner.legacy_outputs@
    };
    0 <= o < outputs.len() && outputs[o].port is Some && outputs[o].port->0@ == "output"@
}

/// There is no message on outputs just where no transform finds fault with its
/// settings and no output has the name that is kept for the default one.
pub proof fn outputs_have_free_names(config: ConfigBuilder)
    ensures
        output_errors(config).len() == 0 <==> {
            &&& forall|i: int|
                0 <= i < config.transforms@.len() ==> (
                #[trigger] config.transforms@[i]).1.inner.validation_errors@.len() == 0
            &&& forall|i: int, o: int|
                0 <= i < config.sources@.len() ==> !#[trigger] source_takes_kept_name(config, i, o)
            &&& forall|i: int, o: int|
                0 <= i < config.transforms@.len() ==> !#[trigger] transform_takes_kept_name(
                    config,
                    i,
                    o,
                )
        },
{
    let namespace = chosen_namespace(None, config.schema.log_namespace);
    let f = |i: int| source_output_error(config.sources@[i].0, config.sources@[i].1, namespace);
    let g = |i: int|
        transform_output_error(config.transforms@[i].0, config.transforms@[i].1, namespace);
    gather_empty(config.sources@.len(), f);
    gather_empty(config.transforms@.len(), g);
    assert(output_errors(config) == gather(config.sources@.len(), f) + gather(
        config.transforms@.len(),
        g,
    ));
    assert forall|i: int| 0 <= i < config.sources@.len() implies ((#[trigger] f(i)).len() == 0
        <==> forall|o: int| !#[trigger] source_takes_kept_name(config, i, o)) by {
        let ports = source_ports(config.sources@[i].1.inner.outputs_in(namespace));
        if uses_reserved(ports) {
            let o = choose|o: int| 0 <= o < ports.len() && #[trigger] ports[o] == Some(
                DEFAULT_OUTPUT@,
            );
            assert(source_takes_kept_name(config, i, o));
        }
        if exists|o: int| #[trigger] source_takes_kept_name(config, i, o) {
            let o = choose|o: int| #[trigger] source_takes_kept_name(config, i, o);
            assert(ports[o] == Some(DEFAULT_OUTPUT@));
        }
    }
    assert forall|i: int| 0 <= i < config.transforms@.len() implies ((#[trigger] g(i)).len() == 0
        <==> config.transforms@[i].1.inner.validation_errors@.len() == 0 && forall|o: int|
        !#[trigger] transform_takes_kept_name(config, i, o)) by {
        let transform = config.transforms@[i].1;
        let key = config.transforms@[i].0;
        let ports = transform_ports(transform.inner.outputs_in(namespace));
        let h = |k: int|
            seq!["Transform "@ + key + " "@ + transform.inner.validation_errors@[k]@];
        gather_empty(transform.inner.validation_errors@.len(), h);
        assert(forall|k: int| (#[trigger] h(k)).len() == 1);
        if transform.inner.validation_errors@.len() > 0 {
            assert(h(0).len() == 1);
        }
        if uses_reserved(ports) {
            let o = choose|o: int| 0 <= o < ports.len() && #[trigger] ports[o] == Some(
                DEFAULT_OUTPUT@,
            );
            assert(transform_takes_kept_name(config, i, o));
        }
        if exists|o: int| #[trigger] transform_takes_kept_name(config, i, o) {
            let o = choose|o: int| #[trigger] transform_takes_kept_name(config, i, o);
            assert(ports[o] == Some(DEFAULT_OUTPUT@));
        }
    }
    if output_errors(config).len() == 0 {
        assert forall|i: int| 0 <= i < config.transforms@.len() implies (
        #[trigger] config.transforms@[i]).1.inner.validation_errors@.len() == 0 by {
            assert(g(i).len() == 0);
        }
        assert forall|i: int, o: int| 0 <= i < config.sources@.len() implies !#[trigger] source_takes_kept_name(
            config,
            i,
            o,
        ) by {
            assert(f(i).len() == 0);
        }
        assert forall|i: int, o: int|
            0 <= i < config.transforms@.len() implies !#[trigger] transform_takes_kept_name(
            config,
            i,
            o,
        ) by {
            assert(g(i).len() == 0);
        }
    }
}

/// A configuration passes the check on outputs just where no transform finds
/// fault with its settings and no output has the name that is kept for the
/// default one.
pub proof fn kept_output_names_are_refused(config: &ConfigBuilder, result: Result<(), Vec<String>>)
    requires
        call_ensures(check_outputs, (config,), result),
    ensures
        result is Ok <==> {
            &&& forall|i: int|
                0 <= i < config.transforms@.len() ==> (
                #[trigger] config.transforms@[i]).1.inner.validation_errors@.len() == 0
            &&& forall|i: int, o: int|
                0 <= i < config.sources@.len() ==> !#[trigger] source_takes_kept_name(*config, i, o)
            &&& forall|i: int, o: int|
                0 <= i < config.transforms@.len() ==> !#[trigger] transform_takes_kept_name(
                    *config,
                    i,
                    o,
                )
        },
{
    passes_without_messages(result, output_errors(*config));
    outputs_have_free_names(*config);
}

/// Whether a resource is the given one: a port of an interface with its protocol, a
/// socket, an open file or a place on disk.
pub open spec fn is_resource(resource: Resource, model: ResourceModel) -> bool {
    match resource {
        Resource::Port { ip, port, protocol, .. } => model == ResourceModel::Port(ip, port, protocol),
        Resource::SystemFdOffset(offset) => model == ResourceModel::SystemFdOffset(offset),
        Resource::Fd(fd) => model == ResourceModel::Fd(fd),
        Resource::DiskBuffer(name) => model == ResourceModel::DiskBuffer(name@),
    }
}

/// Whether two resources cannot both be had: where they are the same, and where
/// they are the same port for the same protocol, one of them on all interfaces.
pub open spec fn resources_clash(a: ResourceModel, b: ResourceModel) -> bool {
    ||| a == b
    ||| match (a, b) {
        (ResourceModel::Port(i, p, s), ResourceModel::Port(j, q, t)) => p == q && s == t && {
            ||| i == IpAddress::V4(0, 0, 0, 0) || i == IpAddress::V6(0)
            ||| j == IpAddress::V4(0, 0, 0, 0) || j == IpAddress::V6(0)
        },
        _ => false,
    }
}

/// One of two resources takes the other just where they cannot both be had.
pub proof fn clashing_resources_take_one_another(
    a: &Resource,
    b: &Resource,
    first: ResourceModel,
    second: ResourceModel,
    there: bool,
    back: bool,
)
    requires
        is_resource(*a, first),
        is_resource(*b, second),
        call_ensures(Resource::also_takes, (a, b), there),
        call_ensures(Resource::also_takes, (b, a), back),
    ensures
        there || back <==> resources_clash(first, second),
{
}

/// Whether a component with the given name needs the given resource for itself
/// alone: a source or a sink that names it, or a sink that has a buffer on disk,
/// for the place of the buffer.
pub open spec fn needs(config: ConfigBuilder, key: Seq<char>, resource: ResourceModel) -> bool {
    ||| exists|i: int, k: int|
        0 <= i < config.sources@.len() && config.sources@[i].0 == key && 0 <= k
            < config.sources@[i].1.inner.resources@.len()
            && is_resource(#[trigger] config.sources@[i].1.inner.resources@[k], resource)
    ||| exists|i: int, k: int|
        0 <= i < config.sinks@.len() && config.sinks@[i].0 == key && 0 <= k
            < config.sinks@[i].1.inner.resources@.len()
            && is_resource(#[trigger] config.sinks@[i].1.inner.resources@[k], resource)
    ||| exists|i: int, k: int|
        0 <= i < config.sinks@.len() && config.sinks@[i].0 == key && 0 <= k
            < config.sinks@[i].1.buffer.stages@.len()
            && #[trigger] config.sinks@[i].1.buffer.stages@[k] is DiskV2
            && resource == ResourceModel::DiskBuffer(key)
}

/// What a sink claims: its own resources, and the place of its buffer where a
/// stage of it is on disk.
proof fn sinks_claim(own: Seq<ResourceInfo>, stages: Seq<BufferType>, id: Seq<char>, info: ResourceInfo)
    ensures
        sink_resources(own, stages, id).contains(info) <==> own.contains(info) || ((exists|k: int|
            0 <= k < stages.len() && (#[trigger] stages[k]) is DiskV2) && info == (
            ResourceModel::DiskBuffer(id),
            "disk buffer "@ + debug_text(id),
        )),
    decreases stages.len(),
{
    let all = sink_resources(own, stages, id);
    if stages.len() > 0 {
        let less = stages.drop_last();
        let last = stages.len() - 1;
        let before = sink_resources(own, less, id);
        let place = (ResourceModel::DiskBuffer(id), "disk buffer "@ + debug_text(id));
        sinks_claim(own, less, id, info);
        assert((exists|k: int| 0 <= k < stages.len() && (#[trigger] stages[k]) is DiskV2) <==> (exists|
            k: int,
        |
            0 <= k < less.len() && (#[trigger] less[k]) is DiskV2) || stages[last] is DiskV2) by {
            if exists|k: int| 0 <= k < less.len() && (#[trigger] less[k]) is DiskV2 {
                let k = choose|k: int| 0 <= k < less.len() && (#[trigger] less[k]) is DiskV2;
                assert(stages[k] is DiskV2);
            }
            if exists|k: int| 0 <= k < stages.len() && (#[trigger] stages[k]) is DiskV2 {
                let k = choose|k: int| 0 <= k < stages.len() && (#[trigger] stages[k]) is DiskV2;
                if k < last {
                    assert(less[k] is DiskV2);
                }
            }
        }
        if stages[last] is DiskV2 {
            assert(all == before.push(place));
            if all.contains(info) {
                let k = choose|k: int| 0 <= k < all.len() && all[k] == info;
                if k < before.len() {
                    assert(before[k] == info);
                }
            }
            if before.contains(info) {
                let k = choose|k: int| 0 <= k < before.len() && before[k] == info;
                assert(all[k] == info);
            }
            if info == place {
                assert(all[before.len() as int] == info);
            }
        }
    }
}

/// The claims of a configuration are what its components need.
proof fn claims_are_needs(config: ConfigBuilder)
    ensures
        forall|k: int|
            0 <= k < all_claims(config).len() ==> needs(
                config,
                (#[trigger] all_claims(config)[k]).key,
                all_claims(config)[k].resource,
            ),
        forall|key: Seq<char>, resource: ResourceModel| #[trigger]
            needs(config, key, resource) ==> exists|k: int|
                0 <= k < all_claims(config).len() && (#[trigger] all_claims(config)[k]).key == key
                    && all_claims(config)[k].resource == resource,
{
    let all = all_claims(config);
    let f = |i: int|
        claims_of(config.sources@[i].0, described(config.sources@[i].1.inner.resources@));
    let g = |i: int|
        claims_of(
            config.sinks@[i].0,
            sink_resources(
                described(config.sinks@[i].1.inner.resources@),
                config.sinks@[i].1.buffer.stages@,
                config.sinks@[i].0,
            ),
        );
    let first = gather(config.sources@.len(), f);
    let second = gather(config.sinks@.len(), g);
    assert(all == first + second);
    assert forall|k: int| 0 <= k < all.len() implies needs(
        config,
        (#[trigger] all[k]).key,
        all[k].resource,
    ) by {
        let claim = all[k];
        crate::text::gathered(config.sources@.len(), f, claim);
        crate::text::gathered(config.sinks@.len(), g, claim);
        if k < first.len() {
            assert(first[k] == claim);
            let i = choose|i: int| 0 <= i < config.sources@.len() && (#[trigger] f(i)).contains(claim);
            let list = f(i);
            let m = choose|m: int| 0 <= m < list.len() && list[m] == claim;
            assert(is_resource(config.sources@[i].1.inner.resources@[m], claim.resource));
        } else {
            assert(second[k - first.len()] == claim);
            let i = choose|i: int| 0 <= i < config.sinks@.len() && (#[trigger] g(i)).contains(claim);
            let list = g(i);
            let m = choose|m: int| 0 <= m < list.len() && list[m] == claim;
            let own = described(config.sinks@[i].1.inner.resources@);
            let stages = config.sinks@[i].1.buffer.stages@;
            let info = (claim.resource, claim.text);
            let listed = sink_resources(own, stages, config.sinks@[i].0);
            assert(listed[m] == info);
            sinks_claim(own, stages, config.sinks@[i].0, info);
            if own.contains(info) {
                let n = choose|n: int| 0 <= n < own.len() && own[n] == info;
                assert(is_resource(config.sinks@[i].1.inner.resources@[n], claim.resource));
            } else {
                let n = choose|n: int| 0 <= n < stages.len() && (#[trigger] stages[n]) is DiskV2;
                assert(config.sinks@[i].1.buffer.stages@[n] is DiskV2);
            }
        }
    }
    assert forall|key: Seq<char>, resource: ResourceModel| #[trigger] needs(config, key, resource) implies exists|
        k: int,
    |
        0 <= k < all.len() && (#[trigger] all[k]).key == key && all[k].resource == resource by {
        if exists|i: int, k: int|
            0 <= i < config.sources@.len() && config.sources@[i].0 == key && 0 <= k
                < config.sources@[i].1.inner.resources@.len()
                && is_resource(#[trigger] config.sources@[i].1.inner.resources@[k], resource) {
            let (i, k) = choose|i: int, k: int|
                0 <= i < config.sources@.len() && config.sources@[i].0 == key && 0 <= k
                    < config.sources@[i].1.inner.resources@.len()
                    && is_resource(#[trigger] config.sources@[i].1.inner.resources@[k], resource);
            let claim = f(i)[k];
            assert(f(i).contains(claim));
            crate::text::gathered(config.sources@.len(), f, claim);
            let m = choose|m: int| 0 <= m < first.len() && first[m] == claim;
            assert(all[m] == claim);
        } else {
            let i = choose|i: int|
                0 <= i < config.sinks@.len() && (#[trigger] config.sinks@[i]).0 == key && {
                    ||| exists|k: int|
                        0 <= k < config.sinks@[i].1.inner.resources@.len()
                            && is_resource(#[trigger] config.sinks@[i].1.inner.resources@[k], resource)
                    ||| exists|k: int|
                        0 <= k < config.sinks@[i].1.buffer.stages@.len()
                            && #[trigger] config.sinks@[i].1.buffer.stages@[k] is DiskV2
                            && resource == ResourceModel::DiskBuffer(key)
                };
            let own = described(config.sinks@[i].1.inner.resources@);
            let stages = config.sinks@[i].1.buffer.stages@;
            let place = (
                ResourceModel::DiskBuffer(config.sinks@[i].0),
                "disk buffer "@ + debug_text(config.sinks@[i].0),
            );
            let named = exists|k: int|
                0 <= k < config.sinks@[i].1.inner.resources@.len() && is_resource(
                    #[trigger] config.sinks@[i].1.inner.resources@[k],
                    resource,
                );
            let k = choose|k: int|
                0 <= k < config.sinks@[i].1.inner.resources@.len() && is_resource(
                    #[trigger] config.sinks@[i].1.inner.resources@[k],
                    resource,
                );
            let info = if named {
                own[k]
            } else {
                place
            };
            assert(named ==> own.contains(own[k]));
            sinks_claim(own, stages, config.sinks@[i].0, info);
            let listed = sink_resources(own, stages, config.sinks@[i].0);
            assert(listed.contains(info));
            let n = choose|n: int| 0 <= n < listed.len() && listed[n] == info;
            let claim = g(i)[n];
            assert(claim.resource == resource);
            assert(g(i).contains(claim));
            crate::text::gathered(config.sinks@.len(), g, claim);
            let m = choose|m: int| 0 <= m < second.len() && second[m] == claim;
            assert(all[first.len() + m] == claim);
        }
    }
}

/// There is no message on resources just where no two components, a source or a
/// sink each, need resources that cannot both be had.
pub proof fn resources_are_had_alone(config: ConfigBuilder)
    ensures
        resource_errors(all_claims(config)).len() == 0 <==> forall|
            a: Seq<char>,
            b: Seq<char>,
            first: ResourceModel,
            second: ResourceModel,
        |
            #![trigger needs(config, a, first), needs(config, b, second)]
            needs(config, a, first) && needs(config, b, second) && a != b ==> !resources_clash(
                first,
                second,
            ),
{
    let claims = all_claims(config);
    resources_are_not_shared(claims);
    claims_are_needs(config);
    if resource_errors(claims).len() == 0 {
        assert forall|a: Seq<char>, b: Seq<char>, first: ResourceModel, second: ResourceModel|
            #![trigger needs(config, a, first), needs(config, b, second)]
            needs(config, a, first) && needs(config, b, second) && a != b implies !resources_clash(
            first,
            second,
        ) by {
            let i = choose|i: int|
                0 <= i < claims.len() && (#[trigger] claims[i]).key == a && claims[i].resource == first;
            let j = choose|j: int|
                0 <= j < claims.len() && (#[trigger] claims[j]).key == b && claims[j].resource
                    == second;
            assert(claims[i].key != claims[j].key);
            assert(!takes(claims[i].resource, claims[j].resource));
            assert(!takes(claims[j].resource, claims[i].resource));
        }
    } else {
        let (i, j) = choose|i: int, j: int|
            0 <= i < claims.len() && 0 <= j < claims.len() && takes(
                (#[trigger] claims[j]).resource,
                (#[trigger] claims[i]).resource,
            ) && claims[j].key != claims[i].key;
        assert(needs(config, claims[i].key, claims[i].resource));
        assert(needs(config, claims[j].key, claims[j].resource));
        assert(resources_clash(claims[i].resource, claims[j].resource));
    }
}

/// A configuration passes the check on resources just where no two components, a
/// source or a sink each, need resources that cannot both be had.
pub proof fn shared_resources_are_refused(config: &ConfigBuilder, result: Result<(), Vec<String>>)
    requires
        call_ensures(check_resources, (config,), result),
    ensures
        result is Ok <==> forall|
            a: Seq<char>,
            b: Seq<char>,
            first: ResourceModel,
            second: ResourceModel,
        |
            #![trigger needs(*config, a, first), needs(*config, b, second)]
            needs(*config, a, first) && needs(*config, b, second) && a != b ==> !resources_clash(
                first,
                second,
            ),
{
    passes_without_messages(result, resource_errors(all_claims(*config)));
    resources_are_had_alone(*config);
}

/// Whether an identifier names the output of a component with a port.
pub open spec fn names_output(id: OutputId, component: Seq<char>, port: Option<Seq<char>>) -> bool {
    id.component@ == component && match (id.port, port) {
        (None, None) => true,
        (Some(own), Some(text)) => own@ == text,
        _ => false,
    }
}

/// Whether an output is among the inputs of a transform, of a sink, or of a table
/// that is written to.
pub open spec fn taken_up(config: Config, component: Seq<char>, port: Option<Seq<char>>) -> bool {
    ||| exists|i: int, k: int|
        0 <= i < config.transforms@.len() && 0 <= k < config.transforms@[i].1.inputs@.len()
            && names_output(#[trigger] config.transforms@[i].1.inputs@[k], component, port)
    ||| exists|i: int, k: int|
        0 <= i < config.sinks@.len() && 0 <= k < config.sinks@[i].1.inputs@.len() && names_output(
            #[trigger] config.sinks@[i].1.inputs@[k],
            component,
            port,
        )
    ||| exists|i: int, k: int|
        0 <= i < config.enrichment_tables@.len() && config.enrichment_tables@[i].1.sink is Some && 0
            <= k < config.enrichment_tables@[i].1.inputs@.len() && names_output(
            #[trigger] config.enrichment_tables@[i].1.inputs@[k],
            component,
            port,
        )
}

/// A list names an output just where one of its identifiers does.
proof fn listed_output(ids: Seq<OutputId>, component: Seq<char>, port: Option<Seq<char>>)
    ensures
        output_names(ids).contains((component, port)) <==> exists|k: int|
            0 <= k < ids.len() && names_output(#[trigger] ids[k], component, port),
{
    let names = output_names(ids);
    if names.contains((component, port)) {
        let k = choose|k: int| 0 <= k < names.len() && names[k] == (component, port);
        assert(ids[k]@ == (component, port));
        assert(names_output(ids[k], component, port));
    }
    if exists|k: int| 0 <= k < ids.len() && names_output(#[trigger] ids[k], component, port) {
        let k = choose|k: int| 0 <= k < ids.len() && names_output(#[trigger] ids[k], component, port);
        assert(names[k] == (component, port));
    }
}

/// An output feeds something just where it is among the inputs of something.
proof fn consumed_is_taken_up(config: Config, component: Seq<char>, port: Option<Seq<char>>)
    ensures
        consumed(config, (component, port)) <==> taken_up(config, component, port),
{
    let name = (component, port);
    assert forall|i: int| 0 <= i < config.transforms@.len() implies (output_names(
        (#[trigger] config.transforms@[i]).1.inputs@,
    ).contains(name) <==> exists|k: int|
        0 <= k < config.transforms@[i].1.inputs@.len() && names_output(
            #[trigger] config.transforms@[i].1.inputs@[k],
            component,
            port,
        )) by {
        listed_output(config.transforms@[i].1.inputs@, component, port);
    }
    assert forall|i: int| 0 <= i < config.sinks@.len() implies (output_names(
        (#[trigger] config.sinks@[i]).1.inputs@,
    ).contains(name) <==> exists|k: int|
        0 <= k < config.sinks@[i].1.inputs@.len() && names_output(
            #[trigger] config.sinks@[i].1.inputs@[k],
            component,
            port,
        )) by {
        listed_output(config.sinks@[i].1.inputs@, component, port);
    }
    assert forall|i: int| 0 <= i < config.enrichment_tables@.len() implies (output_names(
        (#[trigger] config.enrichment_tables@[i]).1.inputs@,
    ).contains(name) <==> exists|k: int|
        0 <= k < config.enrichment_tables@[i].1.inputs@.len() && names_output(
            #[trigger] config.enrichment_tables@[i].1.inputs@[k],
            component,
            port,
        )) by {
        listed_output(config.enrichment_tables@[i].1.inputs@, component, port);
    }
}

/// The warnings on the outputs of a component are those on outputs that feed
/// nothing.
proof fn unconsumed_feed_nothing(
    kind: Seq<char>,
    names: Seq<OutputName>,
    config: Config,
    text: Seq<char>,
)
    ensures
        unconsumed(kind, names, config).contains(text) <==> exists|o: int|
            0 <= o < names.len() && !taken_up(config, (#[trigger] names[o]).0, names[o].1) && text
                == capitalized(kind) + " \""@ + output_text(names[o]) + "\" has no consumers"@,
{
    let f = |o: int|
        only_if(
            !consumed(config, names[o]),
            capitalized(kind) + " \""@ + output_text(names[o]) + "\" has no consumers"@,
        );
    assert(unconsumed(kind, names, config) == gather(names.len(), f));
    crate::text::gathered(names.len(), f, text);
    assert forall|o: int| 0 <= o < names.len() implies ((#[trigger] f(o)).contains(text) <==> !taken_up(
        config,
        names[o].0,
        names[o].1,
    ) && text == capitalized(kind) + " \""@ + output_text(names[o]) + "\" has no consumers"@) by {
        consumed_is_taken_up(config, names[o].0, names[o].1);
        let message = capitalized(kind) + " \""@ + output_text(names[o]) + "\" has no consumers"@;
        if !consumed(config, names[o]) {
            assert(f(o) =~= seq![message]);
            assert(seq![message][0] == message);
            if f(o).contains(text) {
                assert(text == message);
            }
        }
    }
    if exists|o: int|
        0 <= o < names.len() && !taken_up(config, (#[trigger] names[o]).0, names[o].1) && text
            == capitalized(kind) + " \""@ + output_text(names[o]) + "\" has no consumers"@ {
        let o = choose|o: int|
            0 <= o < names.len() && !taken_up(config, (#[trigger] names[o]).0, names[o].1) && text
                == capitalized(kind) + " \""@ + output_text(names[o]) + "\" has no consumers"@;
        assert(f(o).contains(text));
    }
    if unconsumed(kind, names, config).contains(text) {
        let o = choose|o: int| 0 <= o < names.len() && (#[trigger] f(o)).contains(text);
        assert(!taken_up(config, names[o].0, names[o].1));
    }
}

/// Whether a text is the warning on an output of a component.
pub open spec fn warns_of(
    text: Seq<char>,
    kind: Seq<char>,
    component: Seq<char>,
    port: Option<String>,
) -> bool {
    text == kind + " \""@ + (match port {
        None => component,
        Some(name) => component + "."@ + name@,
    }) + "\" has no consumers"@
}

/// There is a warning on just the outputs of transforms and sources, those that
/// read tables among them, that are among the inputs of nothing.
pub proof fn unused_outputs_are_warned_of(config: &Config, found: Vec<String>, text: Seq<char>)
    requires
        call_ensures(warnings, (config,), found),
    ensures
        (exists|w: int| 0 <= w < found@.len() && #[trigger] found@[w]@ == text) <==> {
            ||| exists|i: int, o: int| #[trigger]
                transform_unused(*config, i, o, text)
            ||| exists|i: int, o: int| #[trigger]
                source_unused(*config, i, o, text)
            ||| exists|i: int, o: int| #[trigger]
                table_source_unused(*config, i, o, text)
        },
{
    reveal_strlit("transform");
    reveal_strlit("Transform");
    reveal_strlit("source");
    reveal_strlit("Source");
    assert(capitalized("transform"@) =~= "Transform"@);
    assert(capitalized("source"@) =~= "Source"@);
    let namespace = chosen_namespace(None, config.schema.log_namespace);
    let a = |i: int|
        unconsumed(
            "transform"@,
            transform_output_names(
                config.transforms@[i].0,
                config.transforms@[i].1.inner.outputs_in(namespace),
            ),
            *config,
        );
    let b = |i: int|
        unconsumed(
            "source"@,
            source_output_names(
                config.sources@[i].0,
                config.sources@[i].1.inner.outputs_in(namespace),
            ),
            *config,
        );
    let c = |i: int| table_warnings(config.enrichment_tables@[i].1, namespace, *config);
    let first = gather(config.transforms@.len(), a);
    let second = gather(config.sources@.len(), b);
    let third = gather(config.enrichment_tables@.len(), c);
    let whole = first + second + third;
    assert(texts(found@) == whole);
    crate::text::gathered(config.transforms@.len(), a, text);
    crate::text::gathered(config.sources@.len(), b, text);
    crate::text::gathered(config.enrichment_tables@.len(), c, text);
    assert(whole.contains(text) <==> first.contains(text) || second.contains(text)
        || third.contains(text)) by {
        if whole.contains(text) {
            let k = choose|k: int| 0 <= k < whole.len() && whole[k] == text;
            if k < first.len() {
                assert(first[k] == text);
            } else if k < first.len() + second.len() {
                assert(second[k - first.len()] == text);
            } else {
                assert(third[k - first.len() - second.len()] == text);
            }
        }
        if first.contains(text) {
            let k = choose|k: int| 0 <= k < first.len() && first[k] == text;
            assert(whole[k] == text);
        }
        if second.contains(text) {
            let k = choose|k: int| 0 <= k < second.len() && second[k] == text;
            assert(whole[first.len() + k] == text);
        }
        if third.contains(text) {
            let k = choose|k: int| 0 <= k < third.len() && third[k] == text;
            assert(whole[first.len() + second.len() + k] == text);
        }
    }
    assert((exists|w: int| 0 <= w < found@.len() && #[trigger] found@[w]@ == text) <==> whole.contains(
        text,
    )) by {
        if exists|w: int| 0 <= w < found@.len() && #[trigger] found@[w]@ == text {
            let w = choose|w: int| 0 <= w < found@.len() && #[trigger] found@[w]@ == text;
            assert(whole[w] == text);
        }
        if whole.contains(text) {
            let w = choose|w: int| 0 <= w < whole.len() && whole[w] == text;
            assert(found@[w]@ == text);
        }
    }
    assert forall|i: int| 0 <= i < config.transforms@.len() implies ((#[trigger] a(i)).contains(text)
        <==> exists|o: int| #[trigger] transform_unused(*config, i, o, text)) by {
        let names = transform_output_names(
            config.transforms@[i].0,
            config.transforms@[i].1.inner.outputs_in(namespace),
        );
        unconsumed_feed_nothing("transform"@, names, *config, text);
        if a(i).contains(text) {
            let o = choose|o: int|
                0 <= o < names.len() && !taken_up(*config, (#[trigger] names[o]).0, names[o].1)
                    && text == "Transform"@ + " \""@ + output_text(names[o])
                    + "\" has no consumers"@;
            assert(transform_unused(*config, i, o, text));
        }
        if exists|o: int| #[trigger] transform_unused(*config, i, o, text) {
            let o = choose|o: int| #[trigger] transform_unused(*config, i, o, text);
            assert(!taken_up(*config, names[o].0, names[o].1));
        }
    }
    assert forall|i: int| 0 <= i < config.sources@.len() implies ((#[trigger] b(i)).contains(text)
        <==> exists|o: int| #[trigger] source_unused(*config, i, o, text)) by {
        let names = source_output_names(
            config.sources@[i].0,
            config.sources@[i].1.inner.outputs_in(namespace),
        );
        unconsumed_feed_nothing("source"@, names, *config, text);
        if b(i).contains(text) {
            let o = choose|o: int|
                0 <= o < names.len() && !taken_up(*config, (#[trigger] names[o]).0, names[o].1)
                    && text == "Source"@ + " \""@ + output_text(names[o]) + "\" has no consumers"@;
            assert(source_unused(*config, i, o, text));
        }
        if exists|o: int| #[trigger] source_unused(*config, i, o, text) {
            let o = choose|o: int| #[trigger] source_unused(*config, i, o, text);
            assert(!taken_up(*config, names[o].0, names[o].1));
        }
    }
    assert forall|i: int| 0 <= i < config.enrichment_tables@.len() implies ((
    #[trigger] c(i)).contains(text) <==> exists|o: int| #[trigger]
        table_source_unused(*config, i, o, text)) by {
        if let Some(source) = config.enrichment_tables@[i].1.source {
            let names = source_output_names(source.key@, source.config.outputs_in(namespace));
            unconsumed_feed_nothing("source"@, names, *config, text);
            if c(i).contains(text) {
                let o = choose|o: int|
                    0 <= o < names.len() && !taken_up(*config, (#[trigger] names[o]).0, names[o].1)
                        && text == "Source"@ + " \""@ + output_text(names[o])
                        + "\" has no consumers"@;
                assert(table_source_unused(*config, i, o, text));
            }
            if exists|o: int| #[trigger] table_source_unused(*config, i, o, text) {
                let o = choose|o: int| #[trigger] table_source_unused(*config, i, o, text);
                assert(!taken_up(*config, names[o].0, names[o].1));
            }
        }
    }
    if exists|i: int, o: int| #[trigger] transform_unused(*config, i, o, text) {
        let (i, o) = choose|i: int, o: int| #[trigger] transform_unused(*config, i, o, text);
        assert(a(i).contains(text));
    }
    if exists|i: int| 0 <= i < config.transforms@.len() && (#[trigger] a(i)).contains(text) {
        let i = choose|i: int| 0 <= i < config.transforms@.len() && (#[trigger] a(i)).contains(text);
        let o = choose|o: int| #[trigger] transform_unused(*config, i, o, text);
        assert(transform_unused(*config, i, o, text));
    }
    if exists|i: int, o: int| #[trigger] source_unused(*config, i, o, text) {
        let (i, o) = choose|i: int, o: int| #[trigger] source_unused(*config, i, o, text);
        assert(b(i).contains(text));
    }
    if exists|i: int| 0 <= i < config.sources@.len() && (#[trigger] b(i)).contains(text) {
        let i = choose|i: int| 0 <= i < config.sources@.len() && (#[trigger] b(i)).contains(text);
        let o = choose|o: int| #[trigger] source_unused(*config, i, o, text);
        assert(source_unused(*config, i, o, text));
    }
    if exists|i: int, o: int| #[trigger] table_source_unused(*config, i, o, text) {
        let (i, o) = choose|i: int, o: int| #[trigger] table_source_unused(*config, i, o, text);
        assert(c(i).contains(text));
    }
    if exists|i: int| 0 <= i < config.enrichment_tables@.len() && (#[trigger] c(i)).contains(text) {
        let i = choose|i: int| 0 <= i < config.enrichment_tables@.len() && (#[trigger] c(i)).contains(text);
        let o = choose|o: int| #[trigger] table_source_unused(*config, i, o, text);
        assert(table_source_unused(*config, i, o, text));
    }
}

/// Whether a text is the warning on an output of a transform that is among the
/// inputs of nothing.
pub open spec fn transform_unused(config: Config, i: int, o: int, text: Seq<char>) -> bool {
    let (name, transform) = config.transforms@[i];
    let outputs = if config.schema.log_namespace == Some(true) {
        transform.inner.vector_outputs@
    } else {
        transform.inner.legacy_outputs@
    };
    &&& 0 <= i < config.transforms@.len()
    &&& 0 <= o < outputs.len()
    &&& !taken_up(config, name, text_of(outputs[o].port))
    &&& warns_of(text, "Transform"@, name, outputs[o].port)
}

/// Whether a text is the warning on an output of a source that is among the inputs
/// of nothing.
pub open spec fn source_unused(config: Config, i: int, o: int, text: Seq<char>) -> bool {
    let (name, source) = config.sources@[i];
    let outputs = if config.schema.log_namespace == Some(true) {
        source.inner.vector_outputs@
    } else {
        source.inner.legacy_outputs@
    };
    &&& 0 <= i < config.sources@.len()
    &&& 0 <= o < outputs.len()
    &&& !taken_up(config, name, text_of(outputs[o].port))
    &&& warns_of(text, "Source"@, name, outputs[o].port)
}

/// Whether a text is the warning on an output of a source that reads a table, where
/// it is among the inputs of nothing.
pub open spec fn table_source_unused(config: Config, i: int, o: int, text: Seq<char>) -> bool {
    &&& 0 <= i < config.enrichment_tables@.len()
    &&& config.enrichment_tables@[i].1.source matches Some(source) && {
        let outputs = if config.schema.log_namespace == Some(true) {
            source.config.vector_outputs@
        } else {
            source.config.legacy_outputs@
        };
        &&& 0 <= o < outputs.len()
        &&& !taken_up(config, source.key@, text_of(outputs[o].port))
        &&& warns_of(text, "Source"@, source.key@, outputs[o].port)
    }
}

/// The text of a port, where it has a name.
pub open spec fn text_of(port: Option<String>) -> Option<Seq<char>> {
    match port {
        None => None,
        Some(name) => Some(name@),
    }
}

/// A capitalized text starts with the capital letter of a small one that it
/// started with, and is the same in all else.
pub proof fn only_the_first_letter_is_raised(s: &str, text: String, i: int)
    requires
        call_ensures(capitalize, (s,), text),
    ensures
        text@.len() == s@.len(),
        0 < i < s@.len() ==> text@[i] == s@[i],
        s@.len() > 0 && 'a' <= s@[0] <= 'z' ==> text@[0] as int == s@[0] as int - 32,
        s@.len() > 0 && !('a' <= s@[0] <= 'z') ==> text@[0] == s@[0],
{
}

/// A check has come out well just where it found nothing, and else gives all
/// that it found.
pub proof fn checks_give_all_that_they_found(errors: Vec<String>, result: Result<(), Vec<String>>, i: int)
    requires
        call_ensures(outcome, (errors,), result),
    ensures
        result is Ok <==> errors@.len() == 0,
        result is Err ==> result->Err_0@.len() == errors@.len() && (0 <= i < errors@.len()
            ==> result->Err_0@[i]@ == errors@[i]@),
{
    assert(texts(errors@).len() == errors@.len());
    if result is Err {
        assert(texts(result->Err_0@).len() == result->Err_0@.len());
        if 0 <= i < errors@.len() {
            assert(texts(result->Err_0@)[i] == texts(errors@)[i]);
        }
    }
}

/// Whether a check came out with a message, among others.
pub open spec fn says(result: Result<(), Vec<String>>, message: Seq<char>) -> bool {
    result matches Err(errors) && exists|i: int|
        0 <= i < errors@.len() && (#[trigger] errors@[i])@ == message
}

/// What a check found it says, and nothing else.
pub proof fn found_is_said(
    result: Result<(), Vec<String>>,
    messages: Seq<Seq<char>>,
    message: Seq<char>,
)
    requires
        finds(result, messages),
    ensures
        says(result, message) <==> messages.contains(message),
{
    if let Err(errors) = result {
        assert(texts(errors@).len() == errors@.len());
        if messages.contains(message) {
            let i = choose|i: int| 0 <= i < messages.len() && messages[i] == message;
            assert(errors@[i]@ == message);
        }
        if says(result, message) {
            let i = choose|i: int| 0 <= i < errors@.len() && (#[trigger] errors@[i])@ == message;
            assert(messages[i] == message);
        }
    }
}

/// What is in the first of two lists, or in the second, is in both together.
proof fn in_either(a: Seq<Seq<char>>, b: Seq<Seq<char>>, item: Seq<char>)
    ensures
        (a + b).contains(item) <==> a.contains(item) || b.contains(item),
{
    if a.contains(item) {
        let i = choose|i: int| 0 <= i < a.len() && a[i] == item;
        assert((a + b)[i] == item);
    }
    if b.contains(item) {
        let i = choose|i: int| 0 <= i < b.len() && b[i] == item;
        assert((a + b)[a.len() + i] == item);
    }
    if (a + b).contains(item) {
        let i = choose|i: int| 0 <= i < (a + b).len() && (a + b)[i] == item;
        if i < a.len() {
            assert(a[i] == item);
        } else {
            assert(b[i - a.len()] == item);
        }
    }
}

/// A message that is given under a condition is in the list where that holds.
proof fn in_only_if(condition: bool, message: Seq<char>)
    ensures
        condition ==> only_if(condition, message).contains(message),
{
    if condition {
        assert(only_if(condition, message)[0] == message);
    }
}

/// Components beside a provider are told of in one message.
pub proof fn components_beside_a_provider_are_told_of(
    config: &ConfigBuilder,
    result: Result<(), Vec<String>>,
)
    requires
        call_ensures(check_provider, (config,), result),
        result is Err,
    ensures
        result->Err_0@.len() == 1,
        says(result, "No sources/transforms/sinks are allowed if provider config is present."@),
{
    let message = "No sources/transforms/sinks are allowed if provider config is present."@;
    let messages = provider_errors(*config);
    found_is_said(result, messages, message);
    assert(messages.len() > 0);
    assert(messages[0] == message);
    assert(texts(result->Err_0@).len() == result->Err_0@.len());
}

/// Each name with a dot is told of.
pub proof fn names_with_dots_are_told_of(
    names: &Vec<ComponentKey>,
    result: Result<(), Vec<String>>,
    i: int,
)
    requires
        call_ensures(check_names, (names,), result),
        0 <= i < names@.len(),
        names@[i]@.contains('.'),
    ensures
        says(result, "Component name \""@ + names@[i]@ + "\" should not contain a \".\""@),
{
    let message = "Component name \""@ + names@[i]@ + "\" should not contain a \".\""@;
    let all = key_texts(names@);
    let f = |i: int| name_error(all[i]);
    found_is_said(result, name_errors(all), message);
    in_only_if(true, message);
    assert(f(i).contains(message));
    gathered(all.len(), f, message);
}

/// A pipeline without sources or sinks, where that is not accepted, and sinks and
/// transforms without inputs are told of.
pub proof fn what_is_missing_is_told_of(
    config: &ConfigBuilder,
    result: Result<(), Vec<String>>,
    i: int,
)
    requires
        call_ensures(check_shape, (config,), result),
    ensures
        !config.allow_empty && config.sources@.len() == 0 ==> says(
            result,
            "No sources defined in the config."@,
        ),
        !config.allow_empty && config.sinks@.len() == 0 ==> says(
            result,
            "No sinks defined in the config."@,
        ),
        0 <= i < config.sinks@.len() && config.sinks@[i].1.inputs@.len() == 0 ==> says(
            result,
            "Sink \""@ + config.sinks@[i].0 + "\" has no inputs"@,
        ),
        0 <= i < config.transforms@.len() && config.transforms@[i].1.inputs@.len() == 0 ==> says(
            result,
            "Transform \""@ + config.transforms@[i].0 + "\" has no inputs"@,
        ),
{
    let a = only_if(
        !config.allow_empty && config.sources@.len() == 0,
        "No sources defined in the config."@,
    );
    let b = only_if(
        !config.allow_empty && config.sinks@.len() == 0,
        "No sinks defined in the config."@,
    );
    let c = clash_errors(keys(config.sources@), keys(config.transforms@), keys(config.sinks@));
    let d = sink_input_errors(config.sinks@);
    let e = transform_input_errors(config.transforms@);
    assert(shape_errors(*config) == a + b + c + d + e);
    assert forall|message: Seq<char>|
        a.contains(message) || b.contains(message) || d.contains(message) || e.contains(
            message,
        ) implies #[trigger] says(result, message) by {
        found_is_said(result, shape_errors(*config), message);
        in_either(a, b, message);
        in_either(a + b, c, message);
        in_either(a + b + c, d, message);
        in_either(a + b + c + d, e, message);
    }
    in_only_if(
        !config.allow_empty && config.sources@.len() == 0,
        "No sources defined in the config."@,
    );
    in_only_if(
        !config.allow_empty && config.sinks@.len() == 0,
        "No sinks defined in the config."@,
    );
    if 0 <= i < config.sinks@.len() && config.sinks@[i].1.inputs@.len() == 0 {
        let sinks = config.sinks@;
        let message = "Sink \""@ + sinks[i].0 + "\" has no inputs"@;
        reveal_strlit("sink");
        reveal_strlit("Sink \"");
        reveal_strlit(" \"");
        assert(capitalized("sink"@) + " \""@ =~= "Sink \""@);
        let f = |i: int| input_errors("sink"@, sinks[i].0, texts(sinks[i].1.inputs@));
        no_inputs_are_told_of("sink"@, sinks[i].0, texts(sinks[i].1.inputs@));
        assert(f(i).contains(message));
        gathered(sinks.len(), f, message);
        assert(d.contains(message));
    }
    if 0 <= i < config.transforms@.len() && config.transforms@[i].1.inputs@.len() == 0 {
        let transforms = config.transforms@;
        let message = "Transform \""@ + transforms[i].0 + "\" has no inputs"@;
        reveal_strlit("transform");
        reveal_strlit("Transform \"");
        reveal_strlit(" \"");
        assert(capitalized("transform"@) + " \""@ =~= "Transform \""@);
        let f = |i: int| input_errors("transform"@, transforms[i].0, texts(transforms[i].1.inputs@));
        no_inputs_are_told_of("transform"@, transforms[i].0, texts(transforms[i].1.inputs@));
        assert(f(i).contains(message));
        gathered(transforms.len(), f, message);
        assert(e.contains(message));
    }
}

/// A component without inputs has a message on that.
proof fn no_inputs_are_told_of(kind: Seq<char>, key: Seq<char>, inputs: Seq<Seq<char>>)
    requires
        inputs.len() == 0,
    ensures
        input_errors(kind, key, inputs).contains(capitalized(kind) + " \""@ + key + "\" has no inputs"@),
{
    let message = capitalized(kind) + " \""@ + key + "\" has no inputs"@;
    let f = |i: int| duplicate_error(kind, key, inputs, i);
    in_only_if(true, message);
    in_either(only_if(inputs.len() == 0, message), gather(inputs.len(), f), message);
}

/// Numbers out of range are told of with their texts.
pub proof fn numbers_out_of_range_are_told_of(
    config: &ConfigBuilder,
    result: Result<(), Vec<String>>,
)
    requires
        call_ensures(check_values, (config,), result),
    ensures
        config.global.buffer_utilization_ewma_half_life_seconds matches Some(own) ==> !(0
            < own.number.bits <= 0x7FF0_0000_0000_0000) ==> says(
            result,
            "Global `"@ + "buffer_utilization_ewma_half_life_seconds"@
                + "` must be greater than 0, got "@ + own.text@,
        ),
        config.global.latency_ewma_alpha matches Some(own) ==> !(0 < own.number.bits
            < 0x3FF0_0000_0000_0000) ==> says(
            result,
            "Global `"@ + "latency_ewma_alpha"@
                + "` must be between 0 and 1 exclusive (0 < alpha < 1), got "@ + own.text@,
        ),
{
    let a = half_life_error(
        config.global.buffer_utilization_ewma_half_life_seconds,
        "buffer_utilization_ewma_half_life_seconds"@,
    );
    let b = alpha_error(config.global.latency_ewma_alpha, "latency_ewma_alpha"@);
    assert forall|message: Seq<char>| a.contains(message) || b.contains(
        message,
    ) implies #[trigger] says(result, message) by {
        found_is_said(result, value_errors(*config), message);
        in_either(a, b, message);
    }
    if let Some(own) = config.global.buffer_utilization_ewma_half_life_seconds {
        let message = "Global `"@ + "buffer_utilization_ewma_half_life_seconds"@
            + "` must be greater than 0, got "@ + own.text@;
        in_only_if(!own.number.positive(), message);
    }
    if let Some(own) = config.global.latency_ewma_alpha {
        let message = "Global `"@ + "latency_ewma_alpha"@
            + "` must be between 0 and 1 exclusive (0 < alpha < 1), got "@ + own.text@;
        in_only_if(!own.number.fraction(), message);
    }
}

/// What is wrong with the settings of a transform is told of with its name.
pub proof fn faulty_transforms_are_told_of(
    config: &ConfigBuilder,
    result: Result<(), Vec<String>>,
    i: int,
    k: int,
)
    requires
        call_ensures(check_outputs, (config,), result),
        0 <= i < config.transforms@.len(),
        0 <= k < config.transforms@[i].1.inner.validation_errors@.len(),
    ensures
        says(
            result,
            "Transform "@ + config.transforms@[i].0 + " "@
                + config.transforms@[i].1.inner.validation_errors@[k]@,
        ),
{
    let namespace = chosen_namespace(None, config.schema.log_namespace);
    let sources = config.sources@;
    let transforms = config.transforms@;
    let key = transforms[i].0;
    let transform = transforms[i].1;
    let faults = transform.inner.validation_errors@;
    let message = "Transform "@ + key + " "@ + faults[k]@;
    let f = |i: int| source_output_error(sources[i].0, sources[i].1, namespace);
    let g = |i: int| transform_output_error(transforms[i].0, transforms[i].1, namespace);
    let h = |i: int| seq!["Transform "@ + key + " "@ + transform.inner.validation_errors@[i]@];
    let list = h(k);
    assert(list[0] == message);
    assert(h(k).contains(message));
    gathered(faults.len(), h, message);
    let kept = only_if(
        uses_reserved(transform_ports(transform.inner.outputs_in(namespace))),
        reserved_message("Transform "@, key),
    );
    in_either(gather(faults.len(), h), kept, message);
    assert(g(i).contains(message));
    gathered(transforms.len(), g, message);
    in_either(gather(sources.len(), f), gather(transforms.len(), g), message);
    found_is_said(result, output_errors(*config), message);
}

/// A source and another component with one name are told of, and so are a
/// transform and a sink.
pub proof fn clashing_names_are_told_of(
    config: &ConfigBuilder,
    result: Result<(), Vec<String>>,
    i: int,
    j: int,
    k: int,
)
    requires
        call_ensures(check_shape, (config,), result),
    ensures
        0 <= i < config.sources@.len() && 0 <= j < config.transforms@.len() && config.sources@[i].0
            == config.transforms@[j].0 && !keys(config.sinks@).contains(config.sources@[i].0) ==> says(
            result,
            "More than one component with name \""@ + config.sources@[i].0 + "\" ("@
                + "source, transform"@ + ")."@,
        ),
        0 <= i < config.sources@.len() && 0 <= k < config.sinks@.len() && config.sources@[i].0
            == config.sinks@[k].0 && !keys(config.transforms@).contains(config.sources@[i].0) ==> says(
            result,
            "More than one component with name \""@ + config.sources@[i].0 + "\" ("@
                + "source, sink"@ + ")."@,
        ),
        0 <= i < config.sources@.len() && 0 <= j < config.transforms@.len() && 0 <= k
            < config.sinks@.len() && config.sources@[i].0 == config.transforms@[j].0
            && config.sources@[i].0 == config.sinks@[k].0 ==> says(
            result,
            "More than one component with name \""@ + config.sources@[i].0 + "\" ("@
                + "source, transform, sink"@ + ")."@,
        ),
        0 <= j < config.transforms@.len() && 0 <= k < config.sinks@.len() && config.transforms@[j].0
            == config.sinks@[k].0 && !keys(config.sources@).contains(config.transforms@[j].0)
            ==> says(
            result,
            "More than one component with name \""@ + config.transforms@[j].0 + "\" ("@
                + "transform, sink"@ + ")."@,
        ),
{
    let sources = keys(config.sources@);
    let transforms = keys(config.transforms@);
    let sinks = keys(config.sinks@);
    let f = |i: int| source_clash(sources[i], transforms, sinks);
    let g = |i: int| transform_clash(transforms[i], sources, sinks);
    let a = only_if(
        !config.allow_empty && config.sources@.len() == 0,
        "No sources defined in the config."@,
    );
    let b = only_if(
        !config.allow_empty && config.sinks@.len() == 0,
        "No sinks defined in the config."@,
    );
    let c = clash_errors(sources, transforms, sinks);
    let d = sink_input_errors(config.sinks@);
    let e = transform_input_errors(config.transforms@);
    assert(shape_errors(*config) == a + b + c + d + e);
    assert(c == gather(sources.len(), f) + gather(transforms.len(), g));
    assert forall|message: Seq<char>| c.contains(message) implies #[trigger] says(result, message) by {
        found_is_said(result, shape_errors(*config), message);
        in_either(a, b, message);
        in_either(a + b, c, message);
        in_either(a + b + c, d, message);
        in_either(a + b + c + d, e, message);
    }
    assert(0 <= j < transforms.len() ==> transforms.contains(transforms[j]));
    assert(0 <= k < sinks.len() ==> sinks.contains(sinks[k]));
    assert(0 <= i < sources.len() ==> sources[i] == config.sources@[i].0);
    assert(0 <= j < transforms.len() ==> transforms[j] == config.transforms@[j].0);
    assert(0 <= k < sinks.len() ==> sinks[k] == config.sinks@[k].0);
    if 0 <= i < sources.len() && (transforms.contains(sources[i]) || sinks.contains(sources[i])) {
        let list = f(i);
        let message = list[0];
        assert(list.contains(message));
        gathered(sources.len(), f, message);
        in_either(gather(sources.len(), f), gather(transforms.len(), g), message);
        assert(says(result, message));
    }
    if 0 <= j < transforms.len() && sinks.contains(transforms[j]) && !sources.contains(
        transforms[j],
    ) {
        let list = g(j);
        let message = list[0];
        assert(list.contains(message));
        gathered(transforms.len(), g, message);
        in_either(gather(sources.len(), f), gather(transforms.len(), g), message);
        assert(says(result, message));
    }
}

/// A source with an output under the name that is kept for the default one is
/// told of.
pub proof fn kept_names_are_told_of(
    config: &ConfigBuilder,
    result: Result<(), Vec<String>>,
    i: int,
    o: int,
)
    requires
        call_ensures(check_outputs, (config,), result),
        0 <= i < config.sources@.len(),
        source_takes_kept_name(*config, i, o),
    ensures
        says(
            result,
            "Source "@ + config.sources@[i].0 + " cannot have a named output with reserved name: `"@
                + "output"@ + "`"@,
        ),
{
    let namespace = chosen_namespace(None, config.schema.log_namespace);
    let sources = config.sources@;
    let transforms = config.transforms@;
    let message = reserved_message("Source "@, sources[i].0);
    let f = |i: int| source_output_error(sources[i].0, sources[i].1, namespace);
    let g = |i: int| transform_output_error(transforms[i].0, transforms[i].1, namespace);
    let outputs = sources[i].1.inner.outputs_in(namespace);
    let ports = source_ports(outputs);
    assert(ports[o] == port_text(outputs[o].port));
    assert(uses_reserved(ports));
    in_only_if(true, message);
    assert(f(i).contains(message));
    gathered(sources.len(), f, message);
    in_either(gather(sources.len(), f), gather(transforms.len(), g), message);
    found_is_said(result, output_errors(*config), message);
}

} // verus!
