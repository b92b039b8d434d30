//! Inputs that name several outputs at once.
//!
//! An input may be a pattern, such as `log_*`. It stands for all outputs that
//! it matches.
use indexmap::IndexSet;
use vstd::prelude::*;

use crate::component_map::{distinct_keys, entry_models, ComponentMap};
use crate::config::global::chosen_namespace;
use crate::config::sink::SinkOuter;
use crate::config::source::{get_source_output_ids, source_output_names, SourceOuter};
use crate::config::transform::{get_transform_output_ids, transform_output_names, TransformOuter};
use crate::config::ConfigBuilder;
use crate::event::LogNamespace;
use crate::id::{output_names, output_text, ComponentKey, OutputId, OutputName};
use crate::text::{gather, gather_all, gathered, push_text, same_text, texts};

verus! {

/// A set of the `indexmap` crate: its items keep the order in which they were
/// first inserted.
#[verifier::external_type_specification]
#[verifier::external_body]
#[verifier::reject_recursive_types(T)]
#[verifier::reject_recursive_types(S)]
pub struct ExIndexSet<T, S>(IndexSet<T, S>);

/// The items of a set of texts, in the set's order.
pub uninterp spec fn candidates_of(set: IndexSet<String>) -> Seq<Seq<char>>;

/// `IndexSet::new`: a set without items.
#[verifier::external_body]
fn candidates_new() -> (set: IndexSet<String>)
    ensures
        candidates_of(set) == Seq::<Seq<char>>::empty(),
{
    IndexSet::new()
}

/// `IndexSet::insert`: an item that the set does not hold becomes the last one;
/// with an item that it holds, nothing changes.
#[verifier::external_body]
fn candidates_insert(set: &mut IndexSet<String>, item: String)
    ensures
        candidates_of(*final(set)) == with_item(candidates_of(*old(set)), item@),
{
    set.insert(item);
}

/// `IndexSet::len`: how many items the set holds.
#[verifier::external_body]
fn candidates_len(set: &IndexSet<String>) -> (len: usize)
    ensures
        len == candidates_of(*set).len(),
{
    set.len()
}

/// `IndexSet::get_index`: the item at this place in the order.
#[verifier::external_body]
fn candidates_at(set: &IndexSet<String>, index: usize) -> (item: &str)
    requires
        index < candidates_of(*set).len(),
    ensures
        item@ == candidates_of(*set)[index as int],
{
    set.get_index(index).unwrap().as_str()
}

/// A list with an item added at the end, unless it is there already.
pub open spec fn with_item(list: Seq<Seq<char>>, item: Seq<char>) -> Seq<Seq<char>> {
    if list.contains(item) {
        list
    } else {
        list.push(item)
    }
}

/// Whether a text has no character that separates directories on some machines
/// only.
pub open spec fn portable(text: Seq<char>) -> bool {
    !text.contains('\\')
}

/// Whether a text has no character with a meaning of its own in patterns.
pub open spec fn plain(text: Seq<char>) -> bool {
    !text.contains('?') && !text.contains('*') && !text.contains('[')
}

/// Whether a text is a pattern.
pub uninterp spec fn valid_pattern(text: Seq<char>) -> bool;

/// Whether a pattern matches a text.
pub uninterp spec fn pattern_matches(pattern: Seq<char>, text: Seq<char>) -> bool;

/// `glob::Pattern::new`: whether it takes the text as a pattern.
///
/// It takes every text without `?`, `*` and `[`. Where `\` separates
/// directories it may take other texts with that character than elsewhere, so
/// of those nothing is said.
#[verifier::external_body]
fn is_pattern(text: &str) -> (valid: bool)
    ensures
        portable(text@) ==> valid == valid_pattern(text@),
        plain(text@) ==> valid,
{
    glob::Pattern::new(text).is_ok()
}

/// `glob::Pattern::matches`: whether a pattern matches a text. A text that
/// `glob::Pattern::new` does not take matches nothing here.
///
/// A pattern without `?`, `*` and `[` matches itself only. Where `\` separates
/// directories it is taken for `/` and the other way round, so nothing is said
/// of texts with that character.
#[verifier::external_body]
fn matches_pattern(pattern: &str, text: &str) -> (matches: bool)
    ensures
        portable(pattern@) && portable(text@) && valid_pattern(pattern@) ==> matches
            == pattern_matches(pattern@, text@),
        portable(pattern@) && portable(text@) && plain(pattern@) ==> matches == (pattern@ == text@),
{
    glob::Pattern::new(pattern).is_ok_and(|compiled| compiled.matches(text))
}

/// Whether an input stands for an output: where it is a pattern, whether it
/// matches, and else whether it is the output's text.
pub open spec fn input_matches(input: Seq<char>, candidate: Seq<char>) -> bool {
    if valid_pattern(input) {
        pattern_matches(input, candidate)
    } else {
        input == candidate
    }
}

/// Whether a table says which inputs stand for which outputs.
///
/// What it says of a text with a character that separates directories on some
/// machines only is up to the machine.
pub open spec fn tells_matches(
    table: Seq<Seq<bool>>,
    inputs: Seq<Seq<char>>,
    candidates: Seq<Seq<char>>,
) -> bool {
    &&& table.len() == inputs.len()
    &&& forall|i: int| 0 <= i < inputs.len() ==> (#[trigger] table[i]).len() == candidates.len()
    &&& forall|i: int, j: int|
        0 <= i < inputs.len() && 0 <= j < candidates.len() && portable(inputs[i]) && portable(
            candidates[j],
        ) ==> #[trigger] table[i][j] == input_matches(inputs[i], candidates[j])
    &&& forall|i: int, j: int|
        0 <= i < inputs.len() && 0 <= j < candidates.len() && portable(inputs[i]) && portable(
            candidates[j],
        ) && plain(inputs[i]) ==> #[trigger] table[i][j] == (inputs[i] == candidates[j])
}

/// The outputs at one place that a row of such a table selects.
pub open spec fn selection(
    id: Seq<char>,
    candidates: Seq<Seq<char>>,
    row: Seq<bool>,
) -> spec_fn(int) -> Seq<Seq<char>> {
    |j: int|
        if row[j] && candidates[j] != id {
            seq![candidates[j]]
        } else {
            Seq::empty()
        }
}

/// The outputs that a row of such a table selects, but for the component's own.
pub open spec fn selected(id: Seq<char>, candidates: Seq<Seq<char>>, row: Seq<bool>) -> Seq<Seq<char>> {
    gather(candidates.len(), selection(id, candidates, row))
}

/// What one input stands for: the outputs that are selected, and where there
/// are none, the input itself.
pub open spec fn expanded_input(
    input: Seq<char>,
    id: Seq<char>,
    candidates: Seq<Seq<char>>,
    row: Seq<bool>,
) -> Seq<Seq<char>> {
    if selected(id, candidates, row).len() == 0 {
        seq![input]
    } else {
        selected(id, candidates, row)
    }
}

/// What the inputs of a component stand for.
pub open spec fn expanded_inputs(
    inputs: Seq<Seq<char>>,
    id: Seq<char>,
    candidates: Seq<Seq<char>>,
    table: Seq<Seq<bool>>,
) -> Seq<Seq<char>> {
    gather(inputs.len(), |i: int| expanded_input(inputs[i], id, candidates, table[i]))
}

/// Whether the inputs of a component have been replaced by what they stand for.
pub open spec fn expands_to(
    inputs: Seq<Seq<char>>,
    id: Seq<char>,
    candidates: Seq<Seq<char>>,
    expanded: Seq<Seq<char>>,
) -> bool {
    exists|table: Seq<Seq<bool>>| #[trigger]
        tells_matches(table, inputs, candidates) && expanded == expanded_inputs(
            inputs,
            id,
            candidates,
            table,
        )
}

/// What a table stands for.
pub open spec fn rows(table: Seq<Vec<bool>>) -> Seq<Seq<bool>> {
    Seq::new(table.len(), |i: int| table[i]@)
}

/// Finds out which inputs stand for which outputs.
fn match_inputs(inputs: &Vec<String>, candidates: &IndexSet<String>) -> (table: Vec<Vec<bool>>)
    ensures
        tells_matches(rows(table@), texts(inputs@), candidates_of(*candidates)),
{
    let ghost all = texts(inputs@);
    let ghost outputs = candidates_of(*candidates);
    let count: usize = candidates_len(candidates);
    let mut table: Vec<Vec<bool>> = Vec::new();
    let mut i: usize = 0;
    while i < inputs.len()
        invariant
            i <= inputs.len(),
            all == texts(inputs@),
            outputs == candidates_of(*candidates),
            count == outputs.len(),
            table@.len() == i,
            tells_matches(rows(table@), all.take(i as int), outputs),
        decreases inputs.len() - i,
    {
        let input = inputs[i].as_str();
        let valid = is_pattern(input);
        let mut row: Vec<bool> = Vec::new();
        let mut j: usize = 0;
        while j < count
            invariant
                j <= count,
                outputs == candidates_of(*candidates),
                count == outputs.len(),
                row@.len() == j,
                portable(input@) ==> valid == valid_pattern(input@),
                plain(input@) ==> valid,
                forall|k: int|
                    0 <= k < j && portable(input@) && portable(outputs[k]) ==> #[trigger] row@[k]
                        == input_matches(input@, outputs[k]),
                forall|k: int|
                    0 <= k < j && portable(input@) && portable(outputs[k]) && plain(input@)
                        ==> #[trigger] row@[k] == (input@ == outputs[k]),
            decreases count - j,
        {
            let candidate = candidates_at(candidates, j);
            let matches = if valid {
                matches_pattern(input, candidate)
            } else {
                same_text(input, candidate)
            };
            row.push(matches);
            j = j + 1;
        }
        let ghost before = rows(table@);
        table.push(row);
        proof {
            let after = rows(table@);
            assert forall|a: int| 0 <= a < i implies after[a] == before[a] && all.take(i + 1)[a]
                == all.take(i as int)[a] by {}
            assert(after[i as int] == row@);
            assert(all.take(i + 1)[i as int] == input@);
            assert forall|a: int, b: int|
                0 <= a < i + 1 && 0 <= b < outputs.len() && portable(all.take(i + 1)[a])
                    && portable(outputs[b]) implies #[trigger] after[a][b] == input_matches(
                all.take(i + 1)[a],
                outputs[b],
            ) && (plain(all.take(i + 1)[a]) ==> after[a][b] == (all.take(i + 1)[a] == outputs[b])) by {
                if a < i {
                    assert(before[a][b] == after[a][b]);
                } else {
                    assert(row@[b] == after[a][b]);
                }
            }
        }
        i = i + 1;
    }
    assert(all.take(i as int) =~= all);
    table
}

/// Replaces one input by what it stands for, by a row that says which outputs
/// match.
fn expand_input(
    expanded: &mut Vec<String>,
    input: String,
    id: &str,
    candidates: &IndexSet<String>,
    row: &Vec<bool>,
)
    requires
        row@.len() == candidates_of(*candidates).len(),
    ensures
        texts(final(expanded)@) == texts(old(expanded)@) + expanded_input(
            input@,
            id@,
            candidates_of(*candidates),
            row@,
        ),
{
    let ghost outputs = candidates_of(*candidates);
    let ghost before = texts(expanded@);
    let ghost f = selection(id@, outputs, row@);
    let count: usize = candidates_len(candidates);
    let mut matched = false;
    let mut j: usize = 0;
    assert(texts(expanded@) =~= before + gather(0, f));
    while j < count
        invariant
            j <= count,
            outputs == candidates_of(*candidates),
            count == outputs.len(),
            row@.len() == count,
            f == selection(id@, outputs, row@),
            matched == (gather(j as nat, f).len() > 0),
            texts(expanded@) == before + gather(j as nat, f),
        decreases count - j,
    {
        let candidate = candidates_at(candidates, j);
        let ghost held = texts(expanded@);
        if row[j] && !same_text(candidate, id) {
            matched = true;
            push_text(expanded, candidate.to_owned());
        }
        assert(texts(expanded@) =~= held + f(j as int));
        assert(texts(expanded@) =~= before + gather((j + 1) as nat, f));
        j = j + 1;
    }
    if !matched {
        assert(before + gather(j as nat, f) =~= before);
        push_text(expanded, input);
        assert(texts(expanded@) =~= before + seq![input@]);
    }
}

/// What the inputs of a component stand for, by a table that says which of them
/// match which outputs.
pub fn expand_inputs(
    inputs: Vec<String>,
    id: &str,
    candidates: &IndexSet<String>,
    table: &Vec<Vec<bool>>,
) -> (expanded: Vec<String>)
    requires
        table@.len() == inputs@.len(),
        forall|i: int|
            0 <= i < table@.len() ==> (#[trigger] table@[i])@.len() == candidates_of(*candidates).len(),
    ensures
        texts(expanded@) == expanded_inputs(
            texts(inputs@),
            id@,
            candidates_of(*candidates),
            rows(table@),
        ),
{
    let ghost all = texts(inputs@);
    let ghost outputs = candidates_of(*candidates);
    let ghost lines = rows(table@);
    let ghost f = |i: int| expanded_input(all[i], id@, outputs, lines[i]);
    let mut expanded: Vec<String> = Vec::new();
    assert(texts(expanded@) =~= gather(0, f));
    let mut i: usize = 0;
    let ghost given = inputs@;
    let count: usize = inputs.len();
    for input in iter: inputs
        invariant
            iter.seq() == given,
            i == iter.index(),
            count == given.len(),
            all == texts(given),
            outputs == candidates_of(*candidates),
            lines == rows(table@),
            table@.len() == given.len(),
            forall|i: int|
                0 <= i < table@.len() ==> (#[trigger] table@[i])@.len() == candidates_of(
                    *candidates,
                ).len(),
            f == (|i: int| expanded_input(all[i], id@, outputs, lines[i])),
            texts(expanded@) == gather(i as nat, f),
    {
        assert(all[i as int] == input@);
        assert(lines[i as int] == table@[i as int]@);
        expand_input(&mut expanded, input, id, candidates, &table[i]);
        assert(f(i as int) == expanded_input(input@, id@, outputs, table@[i as int]@));
        i = i + 1;
    }
    expanded
}

/// Replaces the inputs of a component by what they stand for.
fn expand_globs_inner(inputs: &mut Vec<String>, id: &str, candidates: &IndexSet<String>)
    ensures
        expands_to(
            texts(old(inputs)@),
            id@,
            candidates_of(*candidates),
            texts(final(inputs)@),
        ),
{
    let mut raw: Vec<String> = Vec::new();
    std::mem::swap(&mut raw, inputs);
    let table = match_inputs(&raw, candidates);
    assert forall|i: int| 0 <= i < table@.len() implies (#[trigger] table@[i])@.len()
        == candidates_of(*candidates).len() by {
        assert(rows(table@)[i].len() == candidates_of(*candidates).len());
    }
    let expanded = expand_inputs(raw, id, candidates, &table);
    assert(tells_matches(rows(table@), texts(old(inputs)@), candidates_of(*candidates)));
    *inputs = expanded;
}

/// A list with several items added, but for those that are there already.
pub open spec fn with_items(list: Seq<Seq<char>>, names: Seq<OutputName>) -> Seq<Seq<char>>
    decreases names.len(),
{
    if names.len() == 0 {
        list
    } else {
        with_item(with_items(list, names.drop_last()), output_text(names.last()))
    }
}

/// The outputs of all sources and transforms.
pub open spec fn available_outputs(
    sources: Seq<(Seq<char>, SourceOuter)>,
    transforms: Seq<(Seq<char>, TransformOuter<String>)>,
    namespace: LogNamespace,
) -> Seq<OutputName> {
    gather(
        sources.len(),
        |i: int| source_output_names(sources[i].0, sources[i].1.inner.outputs_in(namespace)),
    ) + gather(
        transforms.len(),
        |i: int|
            transform_output_names(transforms[i].0, transforms[i].1.inner.outputs_in(namespace)),
    )
}

/// The texts of the outputs that patterns are held against, each once.
pub open spec fn candidate_texts(config: ConfigBuilder) -> Seq<Seq<char>> {
    with_items(
        Seq::empty(),
        available_outputs(
            config.sources@,
            config.transforms@,
            chosen_namespace(None, config.schema.log_namespace),
        ),
    )
}

/// Adding names in two steps is adding them in one.
proof fn with_items_add(list: Seq<Seq<char>>, first: Seq<OutputName>, second: Seq<OutputName>)
    ensures
        with_items(with_items(list, first), second) == with_items(list, first + second),
    decreases second.len(),
{
    if second.len() == 0 {
        assert(first + second =~= first);
    } else {
        with_items_add(list, first, second.drop_last());
        assert((first + second).drop_last() =~= first + second.drop_last());
        assert((first + second).last() == second.last());
    }
}

/// Adds the texts of outputs to the candidates.
fn add_candidates(candidates: &mut IndexSet<String>, ids: &Vec<OutputId>)
    ensures
        candidates_of(*final(candidates)) == with_items(
            candidates_of(*old(candidates)),
            output_names(ids@),
        ),
{
    let ghost names = output_names(ids@);
    let ghost before = candidates_of(*candidates);
    let mut i: usize = 0;
    assert(names.take(0) =~= Seq::empty());
    while i < ids.len()
        invariant
            i <= ids.len(),
            names == output_names(ids@),
            candidates_of(*candidates) == with_items(before, names.take(i as int)),
        decreases ids.len() - i,
    {
        candidates_insert(candidates, ids[i].to_text());
        assert(names.take(i + 1).drop_last() =~= names.take(i as int));
        assert(names.take(i + 1).last() == ids@[i as int]@);
        i = i + 1;
    }
    assert(names.take(i as int) =~= names);
}

/// Collects the texts of the outputs that patterns are held against.
fn collect_candidates(config: &ConfigBuilder) -> (candidates: IndexSet<String>)
    ensures
        candidates_of(candidates) == candidate_texts(*config),
{
    let namespace = config.schema.log_namespace();
    let ghost sources = config.sources@;
    let ghost transforms = config.transforms@;
    let ghost f = |i: int|
        source_output_names(sources[i].0, sources[i].1.inner.outputs_in(namespace));
    let ghost g = |i: int|
        transform_output_names(transforms[i].0, transforms[i].1.inner.outputs_in(namespace));
    let mut candidates = candidates_new();
    let len: usize = config.sources.len();
    let mut i: usize = 0;
    while i < len
        invariant
            i <= len,
            len == sources.len(),
            sources == config.sources@,
            f == (|i: int|
                source_output_names(sources[i].0, sources[i].1.inner.outputs_in(namespace))),
            candidates_of(candidates) == with_items(Seq::empty(), gather(i as nat, f)),
        decreases len - i,
    {
        let key = ComponentKey::new(config.sources.key_at(i));
        let ids = get_source_output_ids(&config.sources.value_at(i).inner, &key, namespace);
        add_candidates(&mut candidates, &ids);
        proof {
            assert(f(i as int) == output_names(ids@));
            with_items_add(Seq::empty(), gather(i as nat, f), f(i as int));
        }
        i = i + 1;
    }
    let ghost first = gather(i as nat, f);
    assert(first + gather(0, g) =~= first);
    let len: usize = config.transforms.len();
    let mut i: usize = 0;
    while i < len
        invariant
            i <= len,
            len == transforms.len(),
            transforms == config.transforms@,
            g == (|i: int|
                transform_output_names(
                    transforms[i].0,
                    transforms[i].1.inner.outputs_in(namespace),
                )),
            candidates_of(candidates) == with_items(Seq::empty(), first + gather(i as nat, g)),
        decreases len - i,
    {
        let key = ComponentKey::new(config.transforms.key_at(i));
        let ids = get_transform_output_ids(&config.transforms.value_at(i).inner, &key, namespace);
        add_candidates(&mut candidates, &ids);
        proof {
            assert(g(i as int) == output_names(ids@));
            with_items_add(Seq::empty(), first + gather(i as nat, g), g(i as int));
            assert(first + gather(i as nat, g) + g(i as int) =~= first + gather((i + 1) as nat, g));
        }
        i = i + 1;
    }
    candidates
}

/// Whether transforms differ just by what has become of their inputs.
pub open spec fn transforms_expanded(
    before: Seq<(Seq<char>, TransformOuter<String>)>,
    after: Seq<(Seq<char>, TransformOuter<String>)>,
    candidates: Seq<Seq<char>>,
) -> bool {
    &&& after.len() == before.len()
    &&& forall|i: int|
        0 <= i < before.len() ==> {
            &&& (#[trigger] after[i]).0 == before[i].0
            &&& after[i].1.inner == before[i].1.inner
            &&& after[i].1.graph == before[i].1.graph
            &&& expands_to(
                texts(before[i].1.inputs@),
                before[i].0,
                candidates,
                texts(after[i].1.inputs@),
            )
        }
}

/// Whether sinks differ just by what has become of their inputs.
pub open spec fn sinks_expanded(
    before: Seq<(Seq<char>, SinkOuter<String>)>,
    after: Seq<(Seq<char>, SinkOuter<String>)>,
    candidates: Seq<Seq<char>>,
) -> bool {
    &&& after.len() == before.len()
    &&& forall|i: int|
        0 <= i < before.len() ==> {
            &&& (#[trigger] after[i]).0 == before[i].0
            &&& after[i].1 == (SinkOuter { inputs: after[i].1.inputs, ..before[i].1 })
            &&& expands_to(
                texts(before[i].1.inputs@),
                before[i].0,
                candidates,
                texts(after[i].1.inputs@),
            )
        }
}

/// Whether a configuration has had its inputs replaced by what they stand for,
/// and is otherwise as it was.
pub open spec fn globs_expanded(before: ConfigBuilder, after: ConfigBuilder) -> bool {
    &&& transforms_expanded(before.transforms@, after.transforms@, candidate_texts(before))
    &&& sinks_expanded(before.sinks@, after.sinks@, candidate_texts(before))
    &&& after == (ConfigBuilder { transforms: after.transforms, sinks: after.sinks, ..before })
}

fn expand_transforms(
    transforms: ComponentMap<TransformOuter<String>>,
    candidates: &IndexSet<String>,
) -> (expanded: ComponentMap<TransformOuter<String>>)
    ensures
        transforms_expanded(transforms@, expanded@, candidates_of(*candidates)),
{
    let ghost all = transforms@;
    let ghost outputs = candidates_of(*candidates);
    let mut expanded: ComponentMap<TransformOuter<String>> = ComponentMap::new();
    let entries = transforms.into_entries();
    let ghost given = entries@;
    for entry in iter: entries
        invariant
            iter.seq() == given,
            entry_models(given) == all,
            distinct_keys(all),
            outputs == candidates_of(*candidates),
            transforms_expanded(all.take(iter.index()), expanded@, outputs),
    {
        let ghost index = iter.index();
        let ghost held = expanded@;
        let (key, transform) = entry;
        assert(all[index] == (key@, transform));
        let mut inputs = transform.inputs;
        expand_globs_inner(&mut inputs, key.as_str(), candidates);
        assert forall|i: int| 0 <= i < expanded@.len() implies (#[trigger] expanded@[i]).0 != key@ by {
            assert(expanded@[i].0 == all.take(index)[i].0);
            assert(all[i].0 != all[index].0);
        }
        expanded.add(
            key.as_str(),
            TransformOuter { inputs, graph: transform.graph, inner: transform.inner },
        );
        assert forall|i: int| 0 <= i < index implies expanded@[i] == held[i] && all.take(
            index + 1,
        )[i] == all.take(index)[i] by {}
    }
    assert(all.take(given.len() as int) =~= all);
    expanded
}

fn expand_sinks(sinks: ComponentMap<SinkOuter<String>>, candidates: &IndexSet<String>) -> (expanded:
    ComponentMap<SinkOuter<String>>)
    ensures
        sinks_expanded(sinks@, expanded@, candidates_of(*candidates)),
{
    let ghost all = sinks@;
    let ghost outputs = candidates_of(*candidates);
    let mut expanded: ComponentMap<SinkOuter<String>> = ComponentMap::new();
    let entries = sinks.into_entries();
    let ghost given = entries@;
    for entry in iter: entries
        invariant
            iter.seq() == given,
            entry_models(given) == all,
            distinct_keys(all),
            outputs == candidates_of(*candidates),
            sinks_expanded(all.take(iter.index()), expanded@, outputs),
    {
        let ghost index = iter.index();
        let ghost held = expanded@;
        let (key, sink) = entry;
        assert(all[index] == (key@, sink));
        let mut sink = sink;
        expand_globs_inner(&mut sink.inputs, key.as_str(), candidates);
        assert forall|i: int| 0 <= i < expanded@.len() implies (#[trigger] expanded@[i]).0 != key@ by {
            assert(expanded@[i].0 == all.take(index)[i].0);
            assert(all[i].0 != all[index].0);
        }
        expanded.add(key.as_str(), sink);
        assert forall|i: int| 0 <= i < index implies expanded@[i] == held[i] && all.take(
            index + 1,
        )[i] == all.take(index)[i] by {}
    }
    assert(all.take(given.len() as int) =~= all);
    expanded
}

/// Replaces the inputs of all transforms and sinks by what they stand for.
pub fn expand_globs(config: &mut ConfigBuilder)
    ensures
        globs_expanded(*old(config), *final(config)),
{
    let candidates = collect_candidates(config);
    let mut transforms: ComponentMap<TransformOuter<String>> = ComponentMap::new();
    std::mem::swap(&mut transforms, &mut config.transforms);
    config.transforms = expand_transforms(transforms, &candidates);
    let mut sinks: ComponentMap<SinkOuter<String>> = ComponentMap::new();
    std::mem::swap(&mut sinks, &mut config.sinks);
    config.sinks = expand_sinks(sinks, &candidates);
}

/// Patterns are held against each output once.
pub proof fn candidates_occur_once(list: Seq<Seq<char>>, names: Seq<OutputName>)
    requires
        list.no_duplicates(),
    ensures
        with_items(list, names).no_duplicates(),
    decreases names.len(),
{
    if names.len() > 0 {
        candidates_occur_once(list, names.drop_last());
        let before = with_items(list, names.drop_last());
        let item = output_text(names.last());
        if !before.contains(item) {
            let after = before.push(item);
            assert forall|i: int, j: int|
                0 <= i < after.len() && 0 <= j < after.len() && i != j implies after[i] != after[j] by {
                if i < before.len() {
                    assert(before.contains(before[i]));
                }
                if j < before.len() {
                    assert(before.contains(before[j]));
                }
            }
        }
    }
}

/// What is selected are outputs, none of them the component's own.
proof fn selected_from(id: Seq<char>, candidates: Seq<Seq<char>>, row: Seq<bool>, n: nat)
    requires
        n <= candidates.len(),
    ensures
        forall|k: int|
            0 <= k < gather(n, selection(id, candidates, row)).len() ==> candidates.contains(
                #[trigger] gather(n, selection(id, candidates, row))[k],
            ) && gather(n, selection(id, candidates, row))[k] != id,
    decreases n,
{
    if n > 0 {
        selected_from(id, candidates, row, (n - 1) as nat);
        let f = selection(id, candidates, row);
        let before = gather((n - 1) as nat, f);
        assert forall|k: int| 0 <= k < gather(n, f).len() implies candidates.contains(
            #[trigger] gather(n, f)[k],
        ) && gather(n, f)[k] != id by {
            if k < before.len() {
                assert(gather(n, f)[k] == before[k]);
            } else {
                assert(gather(n, f)[k] == candidates[n - 1]);
            }
        }
    }
}

/// Every input after the replacement is an input from before it or an output of
/// another component.
pub proof fn expanded_inputs_are_inputs_or_outputs(
    inputs: Seq<Seq<char>>,
    id: Seq<char>,
    candidates: Seq<Seq<char>>,
    expanded: Seq<Seq<char>>,
)
    requires
        expands_to(inputs, id, candidates, expanded),
    ensures
        forall|k: int|
            0 <= k < expanded.len() ==> inputs.contains(#[trigger] expanded[k]) || (
            candidates.contains(expanded[k]) && expanded[k] != id),
{
    let table = choose|table: Seq<Seq<bool>>| #[trigger]
        tells_matches(table, inputs, candidates) && expanded == expanded_inputs(
            inputs,
            id,
            candidates,
            table,
        );
    let f = |i: int| expanded_input(inputs[i], id, candidates, table[i]);
    assert forall|i: int, k: int| 0 <= i < inputs.len() && 0 <= k < f(i).len() implies inputs.contains(
        #[trigger] f(i)[k],
    ) || (candidates.contains(f(i)[k]) && f(i)[k] != id) by {
        selected_from(id, candidates, table[i], candidates.len());
        assert(inputs.contains(inputs[i]));
    }
    gather_all(
        inputs.len(),
        f,
        |input: Seq<char>| inputs.contains(input) || (candidates.contains(input) && input != id),
    );
}

/// A component with inputs has inputs after the replacement, and no fewer.
pub proof fn expansion_drops_no_input(
    inputs: Seq<Seq<char>>,
    id: Seq<char>,
    candidates: Seq<Seq<char>>,
    expanded: Seq<Seq<char>>,
)
    requires
        expands_to(inputs, id, candidates, expanded),
    ensures
        expanded.len() >= inputs.len(),
{
    let table = choose|table: Seq<Seq<bool>>| #[trigger]
        tells_matches(table, inputs, candidates) && expanded == expanded_inputs(
            inputs,
            id,
            candidates,
            table,
        );
    let f = |i: int| expanded_input(inputs[i], id, candidates, table[i]);
    gathered_length(inputs.len(), f);
}

proof fn gathered_length(n: nat, f: spec_fn(int) -> Seq<Seq<char>>)
    requires
        forall|i: int| 0 <= i < n ==> (#[trigger] f(i)).len() >= 1,
    ensures
        gather(n, f).len() >= n,
    decreases n,
{
    if n > 0 {
        gathered_length((n - 1) as nat, f);
        assert(f(n - 1).len() >= 1);
    }
}

/// What a row selects of the first outputs, where it tells the one output that
/// is equal to the input.
proof fn selected_plain(
    input: Seq<char>,
    id: Seq<char>,
    candidates: Seq<Seq<char>>,
    row: Seq<bool>,
    n: nat,
)
    requires
        candidates.no_duplicates(),
        n <= candidates.len(),
        forall|j: int| 0 <= j < candidates.len() ==> #[trigger] row[j] == (input == candidates[j]),
    ensures
        ({
            let found = gather(n, selection(id, candidates, row));
            if candidates.take(n as int).contains(input) && input != id {
                found == seq![input]
            } else {
                found.len() == 0
            }
        }),
    decreases n,
{
    if n > 0 {
        let m = (n - 1) as nat;
        selected_plain(input, id, candidates, row, m);
        let before = candidates.take(m as int);
        let after = candidates.take(n as int);
        assert(row[m as int] == (input == candidates[m as int]));
        assert(after[m as int] == candidates[m as int]);
        if before.contains(input) {
            let k = choose|k: int| 0 <= k < before.len() && before[k] == input;
            assert(after[k] == input);
            assert(candidates[k] != candidates[m as int]);
        }
        if after.contains(input) {
            let k = choose|k: int| 0 <= k < after.len() && after[k] == input;
            if k < m {
                assert(before[k] == input);
            }
        }
        let f = selection(id, candidates, row);
        assert(gather(n, f) =~= gather(m, f) + f(m as int));
        if candidates[m as int] == input && input != id {
            assert(gather(n, f) =~= seq![input]);
        } else if gather(m, f).len() == 0 {
            assert(gather(n, f).len() == 0);
        } else {
            assert(gather(n, f) =~= gather(m, f));
        }
    }
}

/// Inputs that are no patterns stay as they are.
pub proof fn plain_inputs_stay(
    inputs: Seq<Seq<char>>,
    id: Seq<char>,
    candidates: Seq<Seq<char>>,
    expanded: Seq<Seq<char>>,
)
    requires
        expands_to(inputs, id, candidates, expanded),
        candidates.no_duplicates(),
        forall|i: int|
            0 <= i < inputs.len() ==> plain(#[trigger] inputs[i]) && portable(inputs[i]),
        forall|j: int| 0 <= j < candidates.len() ==> portable(#[trigger] candidates[j]),
    ensures
        expanded == inputs,
{
    let table = choose|table: Seq<Seq<bool>>| #[trigger]
        tells_matches(table, inputs, candidates) && expanded == expanded_inputs(
            inputs,
            id,
            candidates,
            table,
        );
    let f = |i: int| expanded_input(inputs[i], id, candidates, table[i]);
    assert forall|i: int| 0 <= i < inputs.len() implies #[trigger] f(i) == seq![inputs[i]] by {
        assert forall|j: int| 0 <= j < candidates.len() implies #[trigger] table[i][j] == (inputs[i]
            == candidates[j]) by {
            assert(plain(inputs[i]) && portable(inputs[i]) && portable(candidates[j]));
        }
        selected_plain(inputs[i], id, candidates, table[i], candidates.len());
    }
    gathered_singles(inputs.len(), f, inputs);
    assert(inputs.take(inputs.len() as int) =~= inputs);
}

proof fn gathered_singles(n: nat, f: spec_fn(int) -> Seq<Seq<char>>, items: Seq<Seq<char>>)
    requires
        n <= items.len(),
        forall|i: int| 0 <= i < n ==> #[trigger] f(i) == seq![items[i]],
    ensures
        gather(n, f) == items.take(n as int),
    decreases n,
{
    if n > 0 {
        gathered_singles((n - 1) as nat, f, items);
        assert(f(n - 1) == seq![items[n - 1]]);
        assert(gather(n, f) =~= items.take(n as int));
    } else {
        assert(gather(n, f) =~= items.take(0));
    }
}

/// Whether a text is that of an output of a source or a transform, in the namespace
/// that the configuration chooses: the name of the component, or, for an output
/// with a name, both names with a dot between them.
pub open spec fn can_be_meant(config: ConfigBuilder, text: Seq<char>) -> bool {
    ||| exists|i: int, o: int| #[trigger] source_output_reads(config, i, o, text)
    ||| exists|i: int, o: int| #[trigger] transform_output_reads(config, i, o, text)
}

/// Whether a text is that of an output of a source.
pub open spec fn source_output_reads(config: ConfigBuilder, i: int, o: int, text: Seq<char>) -> bool {
    let (name, source) = config.sources@[i];
    let outputs = if config.schema.log_namespace == Some(true) {
        source.inner.vector_outputs@
    } else {
        source.inner.legacy_outputs@
    };
    &&& 0 <= i < config.sources@.len()
    &&& 0 <= o < outputs.len()
    &&& text == match outputs[o].port {
        None => name,
        Some(port) => name + "."@ + port@,
    }
}

/// Whether a text is that of an output of a transform.
pub open spec fn transform_output_reads(config: ConfigBuilder, i: int, o: int, text: Seq<char>) -> bool {
    let (name, transform) = config.transforms@[i];
    let outputs = if config.schema.log_namespace == Some(true) {
        transform.inner.vector_outputs@
    } else {
        transform.inner.legacy_outputs@
    };
    &&& 0 <= i < config.transforms@.len()
    &&& 0 <= o < outputs.len()
    &&& text == match outputs[o].port {
        None => name,
        Some(port) => name + "."@ + port@,
    }
}

/// Added items are there, and so is what was there before.
proof fn items_are_there(list: Seq<Seq<char>>, names: Seq<OutputName>, text: Seq<char>)
    ensures
        with_items(list, names).contains(text) <==> list.contains(text) || exists|k: int|
            0 <= k < names.len() && output_text(#[trigger] names[k]) == text,
    decreases names.len(),
{
    if names.len() > 0 {
        let less = names.drop_last();
        let last = names.len() - 1;
        let before = with_items(list, less);
        items_are_there(list, less, text);
        let item = output_text(names[last]);
        let all = with_items(list, names);
        assert(all == with_item(before, item));
        if !before.contains(item) {
            assert(all == before.push(item));
            if all.contains(text) {
                let k = choose|k: int| 0 <= k < all.len() && all[k] == text;
                if k < before.len() {
                    assert(before[k] == text);
                }
            }
            if before.contains(text) {
                let k = choose|k: int| 0 <= k < before.len() && before[k] == text;
                assert(all[k] == text);
            }
            assert(all[before.len() as int] == item);
        }
        if exists|k: int| 0 <= k < less.len() && output_text(#[trigger] less[k]) == text {
            let k = choose|k: int| 0 <= k < less.len() && output_text(#[trigger] less[k]) == text;
            assert(names[k] == less[k]);
        }
        if exists|k: int| 0 <= k < names.len() && output_text(#[trigger] names[k]) == text {
            let k = choose|k: int| 0 <= k < names.len() && output_text(#[trigger] names[k]) == text;
            if k < last {
                assert(less[k] == names[k]);
            }
        }
    }
}

/// Patterns are held against the texts of all outputs of sources and transforms,
/// and against no others.
pub proof fn candidates_can_be_meant(config: ConfigBuilder, text: Seq<char>)
    ensures
        candidate_texts(config).contains(text) <==> can_be_meant(config, text),
{
    let namespace = chosen_namespace(None, config.schema.log_namespace);
    let f = |i: int|
        source_output_names(config.sources@[i].0, config.sources@[i].1.inner.outputs_in(namespace));
    let g = |i: int|
        transform_output_names(
            config.transforms@[i].0,
            config.transforms@[i].1.inner.outputs_in(namespace),
        );
    let first = gather(config.sources@.len(), f);
    let second = gather(config.transforms@.len(), g);
    let names = first + second;
    assert(names == available_outputs(config.sources@, config.transforms@, namespace));
    items_are_there(Seq::empty(), names, text);
    if candidate_texts(config).contains(text) {
        let k = choose|k: int| 0 <= k < names.len() && output_text(#[trigger] names[k]) == text;
        let name = names[k];
        gathered(config.sources@.len(), f, name);
        gathered(config.transforms@.len(), g, name);
        if k < first.len() {
            assert(first[k] == name);
            let i = choose|i: int| 0 <= i < config.sources@.len() && (#[trigger] f(i)).contains(name);
            let list = f(i);
            let o = choose|o: int| 0 <= o < list.len() && list[o] == name;
            assert(source_output_reads(config, i, o, text));
        } else {
            assert(second[k - first.len()] == name);
            let i = choose|i: int|
                0 <= i < config.transforms@.len() && (#[trigger] g(i)).contains(name);
            let list = g(i);
            let o = choose|o: int| 0 <= o < list.len() && list[o] == name;
            assert(transform_output_reads(config, i, o, text));
        }
    }
    if exists|i: int, o: int| #[trigger] source_output_reads(config, i, o, text) {
        let (i, o) = choose|i: int, o: int| #[trigger] source_output_reads(config, i, o, text);
        let name = f(i)[o];
        assert(f(i).contains(name));
        gathered(config.sources@.len(), f, name);
        let k = choose|k: int| 0 <= k < first.len() && first[k] == name;
        assert(names[k] == name);
        assert(output_text(names[k]) == text);
    }
    if exists|i: int, o: int| #[trigger] transform_output_reads(config, i, o, text) {
        let (i, o) = choose|i: int, o: int| #[trigger] transform_output_reads(config, i, o, text);
        let name = g(i)[o];
        assert(g(i).contains(name));
        gathered(config.transforms@.len(), g, name);
        let k = choose|k: int| 0 <= k < second.len() && second[k] == name;
        assert(names[first.len() + k] == name);
        assert(output_text(names[first.len() + k]) == text);
    }
}

/// Whether an input means an output: where it is a pattern, whether it matches the
/// text of the output, and else whether it is that text. Without `?`, `*` and `[`
/// only the text itself will do.
pub open spec fn means(input: Seq<char>, text: Seq<char>) -> bool {
    if !input.contains('?') && !input.contains('*') && !input.contains('[') {
        input == text
    } else if valid_pattern(input) {
        pattern_matches(input, text)
    } else {
        input == text
    }
}

/// Whether inputs have been replaced by what they mean among these texts, but for a
/// component's own name: by all texts that they mean, and, where they mean none, by
/// themselves.
pub open spec fn replaced_by_meaning(
    inputs: Seq<String>,
    own: Seq<char>,
    texts: spec_fn(Seq<char>) -> bool,
    replaced: Seq<String>,
) -> bool {
    &&& forall|k: int, text: Seq<char>|
        #![trigger inputs[k], texts(text)]
        0 <= k < inputs.len() && texts(text) && text != own && means(inputs[k]@, text) ==> exists|
            m: int,
        |
            0 <= m < replaced.len() && #[trigger] replaced[m]@ == text
    &&& forall|k: int|
        0 <= k < inputs.len() && (forall|text: Seq<char>| #[trigger]
            texts(text) && text != own ==> !means(inputs[k]@, text)) ==> exists|m: int|
            0 <= m < replaced.len() && #[trigger] replaced[m]@ == (#[trigger] inputs[k])@
    &&& forall|m: int|
        0 <= m < replaced.len() ==> exists|k: int|
            0 <= k < inputs.len() && {
                ||| texts((#[trigger] replaced[m])@) && replaced[m]@ != own && means(
                    (#[trigger] inputs[k])@,
                    replaced[m]@,
                )
                ||| replaced[m]@ == inputs[k]@ && forall|text: Seq<char>| #[trigger]
                    texts(text) && text != own ==> !means(inputs[k]@, text)
            }
}

/// What a row of a table selects are the texts that it says match, but for the
/// component's own.
proof fn selects(id: Seq<char>, candidates: Seq<Seq<char>>, row: Seq<bool>, text: Seq<char>)
    ensures
        selected(id, candidates, row).contains(text) <==> text != id && exists|j: int|
            0 <= j < candidates.len() && #[trigger] candidates[j] == text && row[j],
{
    let f = selection(id, candidates, row);
    gathered(candidates.len(), f, text);
    assert forall|j: int| 0 <= j < candidates.len() implies ((#[trigger] f(j)).contains(text)
        <==> candidates[j] == text && row[j] && text != id) by {
        if row[j] && candidates[j] != id {
            assert(f(j) =~= seq![candidates[j]]);
            assert(seq![candidates[j]][0] == candidates[j]);
            if f(j).contains(text) {
                assert(text == candidates[j]);
            }
        }
    }
    if text != id && exists|j: int| 0 <= j < candidates.len() && #[trigger] candidates[j] == text && row[j] {
        let j = choose|j: int| 0 <= j < candidates.len() && #[trigger] candidates[j] == text && row[j];
        assert(f(j).contains(text));
    }
    if selected(id, candidates, row).contains(text) {
        let j = choose|j: int| 0 <= j < candidates.len() && (#[trigger] f(j)).contains(text);
        assert(candidates[j] == text && row[j]);
    }
}

/// Inputs that have been replaced have been replaced by what they mean.
proof fn replaced_by_what_is_meant(
    config: ConfigBuilder,
    inputs: Seq<String>,
    own: Seq<char>,
    replaced: Seq<String>,
)
    requires
        expands_to(texts(inputs), own, candidate_texts(config), texts(replaced)),
        forall|k: int| 0 <= k < inputs.len() ==> !(#[trigger] inputs[k])@.contains('\\'),
        forall|text: Seq<char>| #[trigger] can_be_meant(config, text) ==> !text.contains('\\'),
    ensures
        replaced_by_meaning(inputs, own, |text: Seq<char>| can_be_meant(config, text), replaced),
{
    let candidates = candidate_texts(config);
    let names = texts(inputs);
    let after = texts(replaced);
    let known = |text: Seq<char>| can_be_meant(config, text);
    let table = choose|table: Seq<Seq<bool>>| #[trigger]
        tells_matches(table, names, candidates) && after == expanded_inputs(
            names,
            own,
            candidates,
            table,
        );
    let f = |i: int| expanded_input(names[i], own, candidates, table[i]);
    assert(after == gather(names.len(), f));
    assert forall|text: Seq<char>| #[trigger] known(text) <==> candidates.contains(text) by {
        candidates_can_be_meant(config, text);
    }
    assert forall|k: int, text: Seq<char>|
        #![trigger inputs[k], known(text)]
        #![trigger selected(own, candidates, table[k]).contains(text)]
        0 <= k < inputs.len() implies (selected(own, candidates, table[k]).contains(text) <==> known(
        text,
    ) && text != own && means(inputs[k]@, text)) by {
        selects(own, candidates, table[k], text);
        assert(names[k] == inputs[k]@);
        assert(portable(names[k]));
        if candidates.contains(text) {
            let j = choose|j: int| 0 <= j < candidates.len() && candidates[j] == text;
            assert(known(text));
            assert(portable(candidates[j]));
            assert(table[k][j] == input_matches(names[k], candidates[j]));
        }
        if selected(own, candidates, table[k]).contains(text) {
            let j = choose|j: int|
                0 <= j < candidates.len() && #[trigger] candidates[j] == text && table[k][j];
            assert(candidates.contains(text));
            assert(table[k][j] == input_matches(names[k], candidates[j]));
        }
    }
    assert forall|k: int| 0 <= k < inputs.len() implies (selected(
        own,
        candidates,
        #[trigger] table[k],
    ).len() == 0 <==> forall|text: Seq<char>| #[trigger]
        known(text) && text != own ==> !means(inputs[k]@, text)) by {
        let found = selected(own, candidates, table[k]);
        if found.len() > 0 {
            assert(found.contains(found[0]));
            assert(known(found[0]) && found[0] != own && means(inputs[k]@, found[0]));
        }
        if found.len() == 0 {
            assert forall|text: Seq<char>| #[trigger] known(text) && text != own implies !means(
                inputs[k]@,
                text,
            ) by {
                assert(!found.contains(text));
            }
        }
    }
    assert forall|k: int, text: Seq<char>|
        #![trigger inputs[k], known(text)]
        0 <= k < inputs.len() && known(text) && text != own && means(inputs[k]@, text) implies exists|
        m: int,
    |
        0 <= m < replaced.len() && #[trigger] replaced[m]@ == text by {
        let found = selected(own, candidates, table[k]);
        assert(found.contains(text));
        assert(found.len() > 0);
        assert(f(k).contains(text));
        gathered(names.len(), f, text);
        let m = choose|m: int| 0 <= m < after.len() && after[m] == text;
        assert(replaced[m]@ == text);
    }
    assert forall|k: int|
        0 <= k < inputs.len() && (forall|text: Seq<char>| #[trigger]
            known(text) && text != own ==> !means(inputs[k]@, text)) implies exists|m: int|
        0 <= m < replaced.len() && #[trigger] replaced[m]@ == (#[trigger] inputs[k])@ by {
        assert(selected(own, candidates, table[k]).len() == 0);
        assert(f(k) == seq![names[k]]);
        assert(f(k)[0] == names[k]);
        assert(f(k).contains(names[k]));
        gathered(names.len(), f, names[k]);
        let m = choose|m: int| 0 <= m < after.len() && after[m] == names[k];
        assert(replaced[m]@ == inputs[k]@);
    }
    assert forall|m: int| 0 <= m < replaced.len() implies exists|k: int|
        0 <= k < inputs.len() && {
            ||| known((#[trigger] replaced[m])@) && replaced[m]@ != own && means(
                (#[trigger] inputs[k])@,
                replaced[m]@,
            )
            ||| replaced[m]@ == inputs[k]@ && forall|text: Seq<char>| #[trigger]
                known(text) && text != own ==> !means(inputs[k]@, text)
        } by {
        let text = replaced[m]@;
        assert(after[m] == text);
        gathered(names.len(), f, text);
        let k = choose|k: int| 0 <= k < names.len() && (#[trigger] f(k)).contains(text);
        let found = selected(own, candidates, table[k]);
        assert(inputs[k]@ == names[k]);
        if found.len() == 0 {
            assert(f(k) == seq![names[k]]);
            assert(text == names[k]);
        } else {
            assert(found.contains(text));
        }
    }
}

/// Replacing patterns puts, for each input of a transform or a sink, all outputs
/// that it means, but for the component's own, and leaves an input that means none.
/// Nothing else changes. Texts with a backslash are left out of this.
pub proof fn patterns_stand_for_all_they_match(before: ConfigBuilder, after: ConfigBuilder)
    requires
        globs_expanded(before, after),
        forall|text: Seq<char>| #[trigger] can_be_meant(before, text) ==> !text.contains('\\'),
        forall|i: int, k: int|
            0 <= i < before.transforms@.len() && 0 <= k < before.transforms@[i].1.inputs@.len()
                ==> !(#[trigger] before.transforms@[i].1.inputs@[k])@.contains('\\'),
        forall|i: int, k: int|
            0 <= i < before.sinks@.len() && 0 <= k < before.sinks@[i].1.inputs@.len()
                ==> !(#[trigger] before.sinks@[i].1.inputs@[k])@.contains('\\'),
    ensures
        after.transforms@.len() == before.transforms@.len(),
        after.sinks@.len() == before.sinks@.len(),
        forall|i: int|
            0 <= i < before.transforms@.len() ==> {
                &&& (#[trigger] after.transforms@[i]).0 == before.transforms@[i].0
                &&& after.transforms@[i].1.inner == before.transforms@[i].1.inner
                &&& after.transforms@[i].1.graph == before.transforms@[i].1.graph
                &&& replaced_by_meaning(
                    before.transforms@[i].1.inputs@,
                    before.transforms@[i].0,
                    |text: Seq<char>| can_be_meant(before, text),
                    after.transforms@[i].1.inputs@,
                )
            },
        forall|i: int|
            0 <= i < before.sinks@.len() ==> {
                &&& (#[trigger] after.sinks@[i]).0 == before.sinks@[i].0
                &&& after.sinks@[i].1.inner == before.sinks@[i].1.inner
                &&& after.sinks@[i].1.buffer == before.sinks@[i].1.buffer
                &&& after.sinks@[i].1.healthcheck == before.sinks@[i].1.healthcheck
                &&& after.sinks@[i].1.healthcheck_uri == before.sinks@[i].1.healthcheck_uri
                &&& after.sinks@[i].1.proxy == before.sinks@[i].1.proxy
                &&& after.sinks@[i].1.graph == before.sinks@[i].1.graph
                &&& replaced_by_meaning(
                    before.sinks@[i].1.inputs@,
                    before.sinks@[i].0,
                    |text: Seq<char>| can_be_meant(before, text),
                    after.sinks@[i].1.inputs@,
                )
            },
        after.sources == before.sources,
        after.enrichment_tables == before.enrichment_tables,
        after.tests == before.tests,
        after.global == before.global,
        after.schema == before.schema,
        after.healthchecks == before.healthchecks,
        after.provider == before.provider,
        after.secret == before.secret,
        after.graceful_shutdown_duration == before.graceful_shutdown_duration,
        after.allow_empty == before.allow_empty,
{
    assert forall|i: int| 0 <= i < before.transforms@.len() implies replaced_by_meaning(
        before.transforms@[i].1.inputs@,
        before.transforms@[i].0,
        |text: Seq<char>| can_be_meant(before, text),
        (#[trigger] after.transforms@[i]).1.inputs@,
    ) by {
        replaced_by_what_is_meant(
            before,
            before.transforms@[i].1.inputs@,
            before.transforms@[i].0,
            after.transforms@[i].1.inputs@,
        );
    }
    assert forall|i: int| 0 <= i < before.sinks@.len() implies replaced_by_meaning(
        before.sinks@[i].1.inputs@,
        before.sinks@[i].0,
        |text: Seq<char>| can_be_meant(before, text),
        (#[trigger] after.sinks@[i]).1.inputs@,
    ) by {
        replaced_by_what_is_meant(
            before,
            before.sinks@[i].1.inputs@,
            before.sinks@[i].0,
            after.sinks@[i].1.inputs@,
        );
    }
}

} // verus!
