//! Sources that are to wait until their events have been delivered.
//!
//! A sink with acknowledgements makes every source wait whose events reach it,
//! directly or through transforms.
use vstd::prelude::*;

use crate::component_map::{distinct_keys, entry_models, ComponentMap};
use crate::config::sink::SinkOuter;
use crate::config::source::SourceOuter;
use crate::config::transform::TransformOuter;
use crate::config::Config;
use crate::id::{output_names, OutputId, OutputName};
use crate::text::same_text;

verus! {

/// Whether one of the inputs is an output of the given component.
pub open spec fn fed_by(inputs: Seq<OutputName>, key: Seq<char>) -> bool {
    exists|j: int| 0 <= j < inputs.len() && (#[trigger] inputs[j]).0 == key
}

/// Whether a sink with acknowledgements is fed by the given component.
pub open spec fn feeds_sink(sinks: Seq<(Seq<char>, SinkOuter<OutputId>)>, key: Seq<char>) -> bool {
    exists|i: int|
        0 <= i < sinks.len() && (#[trigger] sinks[i]).1.inner.acknowledgements.is_enabled() && fed_by(
            output_names(sinks[i].1.inputs@),
            key,
        )
}

/// Whether events of the given component reach a sink with acknowledgements
/// through this many transforms.
pub open spec fn reaches_sink(
    sinks: Seq<(Seq<char>, SinkOuter<OutputId>)>,
    transforms: Seq<(Seq<char>, TransformOuter<OutputId>)>,
    key: Seq<char>,
    steps: nat,
) -> bool
    decreases steps,
{
    if steps == 0 {
        feeds_sink(sinks, key)
    } else {
        exists|i: int|
            0 <= i < transforms.len() && fed_by(
                output_names((#[trigger] transforms[i]).1.inputs@),
                key,
            ) && reaches_sink(sinks, transforms, transforms[i].0, (steps - 1) as nat)
    }
}

/// Whether events of the given component reach a sink with acknowledgements.
pub open spec fn acknowledged(
    sinks: Seq<(Seq<char>, SinkOuter<OutputId>)>,
    transforms: Seq<(Seq<char>, TransformOuter<OutputId>)>,
    key: Seq<char>,
) -> bool {
    exists|steps: nat| reaches_sink(sinks, transforms, key, steps)
}

/// The source, made to wait for deliveries where its events reach a sink with
/// acknowledgements.
pub open spec fn waiting_source(
    sinks: Seq<(Seq<char>, SinkOuter<OutputId>)>,
    transforms: Seq<(Seq<char>, TransformOuter<OutputId>)>,
    source: (Seq<char>, SourceOuter),
) -> (Seq<char>, SourceOuter) {
    (
        source.0,
        SourceOuter {
            sink_acknowledgements: source.1.sink_acknowledgements || acknowledged(
                sinks,
                transforms,
                source.0,
            ),
            ..source.1
        },
    )
}

/// The sources, with those made to wait whose events reach a sink with
/// acknowledgements.
pub open spec fn waiting_sources(
    sinks: Seq<(Seq<char>, SinkOuter<OutputId>)>,
    transforms: Seq<(Seq<char>, TransformOuter<OutputId>)>,
    sources: Seq<(Seq<char>, SourceOuter)>,
) -> Seq<(Seq<char>, SourceOuter)> {
    Seq::new(sources.len(), |i: int| waiting_source(sinks, transforms, sources[i]))
}

/// Whether the given component feeds a sink with acknowledgements or one of the
/// marked transforms.
spec fn feeds_marked(
    sinks: Seq<(Seq<char>, SinkOuter<OutputId>)>,
    transforms: Seq<(Seq<char>, TransformOuter<OutputId>)>,
    marked: Seq<bool>,
    key: Seq<char>,
) -> bool {
    feeds_sink(sinks, key) || exists|i: int|
        0 <= i < transforms.len() && #[trigger] marked[i] && fed_by(
            output_names(transforms[i].1.inputs@),
            key,
        )
}

/// Whether all marked transforms have events that reach a sink with
/// acknowledgements.
spec fn rightly_marked(
    sinks: Seq<(Seq<char>, SinkOuter<OutputId>)>,
    transforms: Seq<(Seq<char>, TransformOuter<OutputId>)>,
    marked: Seq<bool>,
) -> bool {
    &&& marked.len() == transforms.len()
    &&& forall|i: int|
        0 <= i < transforms.len() && #[trigger] marked[i] ==> acknowledged(
            sinks,
            transforms,
            transforms[i].0,
        )
}

/// How many transforms are not marked.
spec fn unmarked(marked: Seq<bool>) -> nat
    decreases marked.len(),
{
    if marked.len() == 0 {
        0
    } else {
        unmarked(marked.drop_last()) + if marked.last() {
            0nat
        } else {
            1
        }
    }
}

proof fn marking_counts(marked: Seq<bool>, i: int)
    requires
        0 <= i < marked.len(),
        !marked[i],
    ensures
        unmarked(marked.update(i, true)) + 1 == unmarked(marked),
    decreases marked.len(),
{
    let after = marked.update(i, true);
    if i == marked.len() - 1 {
        assert(after.drop_last() =~= marked.drop_last());
    } else {
        assert(after.drop_last() =~= marked.drop_last().update(i, true));
        marking_counts(marked.drop_last(), i);
    }
}

/// What feeds a marked transform has events that reach a sink too.
proof fn marked_reach(
    sinks: Seq<(Seq<char>, SinkOuter<OutputId>)>,
    transforms: Seq<(Seq<char>, TransformOuter<OutputId>)>,
    marked: Seq<bool>,
    key: Seq<char>,
)
    requires
        rightly_marked(sinks, transforms, marked),
        feeds_marked(sinks, transforms, marked, key),
    ensures
        acknowledged(sinks, transforms, key),
{
    if feeds_sink(sinks, key) {
        assert(reaches_sink(sinks, transforms, key, 0));
    } else {
        let i = choose|i: int|
            0 <= i < transforms.len() && #[trigger] marked[i] && fed_by(
                output_names(transforms[i].1.inputs@),
                key,
            );
        let steps = choose|steps: nat| reaches_sink(sinks, transforms, transforms[i].0, steps);
        assert(fed_by(output_names(transforms[i].1.inputs@), key));
        assert(reaches_sink(sinks, transforms, key, steps + 1));
    }
}

/// Where no further transform is to be marked, what has events that reach a
/// sink feeds a sink or a marked transform.
proof fn reached_are_marked(
    sinks: Seq<(Seq<char>, SinkOuter<OutputId>)>,
    transforms: Seq<(Seq<char>, TransformOuter<OutputId>)>,
    marked: Seq<bool>,
    key: Seq<char>,
    steps: nat,
)
    requires
        marked.len() == transforms.len(),
        forall|i: int|
            0 <= i < transforms.len() && feeds_marked(
                sinks,
                transforms,
                marked,
                (#[trigger] transforms[i]).0,
            ) ==> marked[i],
        reaches_sink(sinks, transforms, key, steps),
    ensures
        feeds_marked(sinks, transforms, marked, key),
    decreases steps,
{
    if steps > 0 {
        let i = choose|i: int|
            0 <= i < transforms.len() && fed_by(
                output_names((#[trigger] transforms[i]).1.inputs@),
                key,
            ) && reaches_sink(sinks, transforms, transforms[i].0, (steps - 1) as nat);
        reached_are_marked(sinks, transforms, marked, transforms[i].0, (steps - 1) as nat);
        assert(marked[i]);
    }
}

/// Decides whether one of the inputs is an output of the given component.
fn is_fed_by(inputs: &Vec<OutputId>, key: &str) -> (fed: bool)
    ensures
        fed == fed_by(output_names(inputs@), key@),
{
    let mut j: usize = 0;
    while j < inputs.len()
        invariant
            j <= inputs.len(),
            forall|k: int| 0 <= k < j ==> (#[trigger] output_names(inputs@)[k]).0 != key@,
        decreases inputs.len() - j,
    {
        assert(output_names(inputs@)[j as int] == inputs@[j as int]@);
        if same_text(inputs[j].component.id(), key) {
            return true;
        }
        j = j + 1;
    }
    false
}

/// Decides whether a component feeds a sink with acknowledgements or a marked
/// transform.
fn feeds_any(
    sinks: &ComponentMap<SinkOuter<OutputId>>,
    transforms: &ComponentMap<TransformOuter<OutputId>>,
    marked: &Vec<bool>,
    key: &str,
) -> (feeds: bool)
    requires
        marked@.len() == transforms@.len(),
    ensures
        feeds == feeds_marked(sinks@, transforms@, marked@, key@),
{
    let len: usize = sinks.len();
    let mut i: usize = 0;
    while i < len
        invariant
            i <= len,
            len == sinks@.len(),
            forall|k: int|
                0 <= k < i ==> !((#[trigger] sinks@[k]).1.inner.acknowledgements.is_enabled()
                    && fed_by(output_names(sinks@[k].1.inputs@), key@)),
        decreases len - i,
    {
        let sink = sinks.value_at(i);
        if sink.inner.acknowledgements.enabled() && is_fed_by(&sink.inputs, key) {
            return true;
        }
        i = i + 1;
    }
    assert(!feeds_sink(sinks@, key@));
    let mut i: usize = 0;
    while i < marked.len()
        invariant
            i <= marked.len(),
            marked@.len() == transforms@.len(),
            forall|k: int|
                0 <= k < i ==> !(#[trigger] marked@[k] && fed_by(
                    output_names(transforms@[k].1.inputs@),
                    key@,
                )),
        decreases marked.len() - i,
    {
        if marked[i] && is_fed_by(&transforms.value_at(i).inputs, key) {
            assert(marked@[i as int]);
            return true;
        }
        i = i + 1;
    }
    false
}

/// Finds a transform that is to be marked and is not.
fn find_unmarked(
    sinks: &ComponentMap<SinkOuter<OutputId>>,
    transforms: &ComponentMap<TransformOuter<OutputId>>,
    marked: &Vec<bool>,
) -> (found: Option<usize>)
    requires
        marked@.len() == transforms@.len(),
    ensures
        match found {
            Some(i) => i < marked@.len() && !marked@[i as int] && feeds_marked(
                sinks@,
                transforms@,
                marked@,
                transforms@[i as int].0,
            ),
            None => forall|i: int|
                0 <= i < transforms@.len() && feeds_marked(
                    sinks@,
                    transforms@,
                    marked@,
                    (#[trigger] transforms@[i]).0,
                ) ==> marked@[i],
        },
{
    let mut i: usize = 0;
    while i < marked.len()
        invariant
            i <= marked.len(),
            marked@.len() == transforms@.len(),
            forall|k: int|
                0 <= k < i && feeds_marked(
                    sinks@,
                    transforms@,
                    marked@,
                    (#[trigger] transforms@[k]).0,
                ) ==> marked@[k],
        decreases marked.len() - i,
    {
        if !marked[i] && feeds_any(sinks, transforms, marked, transforms.key_at(i)) {
            return Some(i);
        }
        i = i + 1;
    }
    None
}

/// Marks the transforms whose events reach a sink with acknowledgements.
fn mark_transforms(
    sinks: &ComponentMap<SinkOuter<OutputId>>,
    transforms: &ComponentMap<TransformOuter<OutputId>>,
) -> (marked: Vec<bool>)
    ensures
        rightly_marked(sinks@, transforms@, marked@),
        forall|i: int|
            0 <= i < transforms@.len() && feeds_marked(
                sinks@,
                transforms@,
                marked@,
                (#[trigger] transforms@[i]).0,
            ) ==> marked@[i],
{
    let mut marked: Vec<bool> = Vec::new();
    let len: usize = transforms.len();
    let mut i: usize = 0;
    while i < len
        invariant
            i <= len,
            marked@.len() == i,
            forall|k: int| 0 <= k < i ==> !#[trigger] marked@[k],
        decreases len - i,
    {
        marked.push(false);
        i = i + 1;
    }
    loop
        invariant
            rightly_marked(sinks@, transforms@, marked@),
        ensures
            rightly_marked(sinks@, transforms@, marked@),
            forall|i: int|
                0 <= i < transforms@.len() && feeds_marked(
                    sinks@,
                    transforms@,
                    marked@,
                    (#[trigger] transforms@[i]).0,
                ) ==> marked@[i],
        decreases unmarked(marked@),
    {
        match find_unmarked(sinks, transforms, &marked) {
            None => {
                break;
            },
            Some(i) => {
                proof {
                    marking_counts(marked@, i as int);
                    marked_reach(sinks@, transforms@, marked@, transforms@[i as int].0);
                }
                marked.set(i, true);
            },
        }
    }
    marked
}

impl Config {
    /// Makes every source wait for deliveries whose events reach a sink with
    /// acknowledgements.
    pub fn propagate_acknowledgements(&mut self)
        ensures
            final(self).sources@ == waiting_sources(
                old(self).sinks@,
                old(self).transforms@,
                old(self).sources@,
            ),
            *final(self) == (Config { sources: final(self).sources, ..*old(self) }),
    {
        let marked = mark_transforms(&self.sinks, &self.transforms);
        let ghost sinks = self.sinks@;
        let ghost transforms = self.transforms@;
        let ghost all = self.sources@;
        let ghost wanted = waiting_sources(sinks, transforms, all);
        let mut sources: ComponentMap<SourceOuter> = ComponentMap::new();
        std::mem::swap(&mut sources, &mut self.sources);
        let entries = sources.into_entries();
        let ghost given = entries@;
        let mut updated: ComponentMap<SourceOuter> = ComponentMap::new();
        for entry in iter: entries
            invariant
                iter.seq() == given,
                entry_models(given) == all,
                distinct_keys(all),
                sinks == self.sinks@,
                transforms == self.transforms@,
                rightly_marked(sinks, transforms, marked@),
                forall|i: int|
                    0 <= i < transforms.len() && feeds_marked(
                        sinks,
                        transforms,
                        marked@,
                        (#[trigger] transforms[i]).0,
                    ) ==> marked@[i],
                wanted == waiting_sources(sinks, transforms, all),
                updated@ == wanted.take(iter.index()),
        {
            let ghost index = iter.index();
            let (key, source) = entry;
            assert(all[index] == (key@, source));
            let waits = feeds_any(&self.sinks, &self.transforms, &marked, key.as_str());
            proof {
                if waits {
                    marked_reach(sinks, transforms, marked@, key@);
                }
                if acknowledged(sinks, transforms, key@) {
                    let steps = choose|steps: nat| reaches_sink(sinks, transforms, key@, steps);
                    reached_are_marked(sinks, transforms, marked@, key@, steps);
                }
                assert forall|j: int| 0 <= j < updated@.len() implies (#[trigger] updated@[j]).0
                    != key@ by {
                    assert(updated@[j] == wanted[j]);
                    assert(all[j].0 != all[index].0);
                }
            }
            let mut source = source;
            source.sink_acknowledgements = source.sink_acknowledgements || waits;
            updated.add(key.as_str(), source);
            assert(updated@ =~= wanted.take(index + 1));
        }
        assert(wanted.take(given.len() as int) =~= wanted);
        self.sources = updated;
    }
}

/// Whether one of the inputs is an output of the component with this name.
pub open spec fn takes_from(inputs: Seq<OutputId>, name: Seq<char>) -> bool {
    exists|k: int| 0 <= k < inputs.len() && (#[trigger] inputs[k]).component@ == name
}

/// Whether events of a component reach a sink with acknowledgements by way of these
/// transforms: each takes from the one before, the first from the component, and
/// the sink from the last.
pub open spec fn way_to_acknowledgement(
    sinks: Seq<(Seq<char>, SinkOuter<OutputId>)>,
    transforms: Seq<(Seq<char>, TransformOuter<OutputId>)>,
    name: Seq<char>,
    way: Seq<int>,
) -> bool {
    &&& forall|k: int| 0 <= k < way.len() ==> 0 <= #[trigger] way[k] < transforms.len()
    &&& forall|k: int|
        0 <= k < way.len() ==> takes_from(
            transforms[#[trigger] way[k]].1.inputs@,
            if k == 0 {
                name
            } else {
                transforms[way[k - 1]].0
            },
        )
    &&& exists|s: int|
        0 <= s < sinks.len() && (#[trigger] sinks[s]).1.inner.acknowledgements.enabled == Some(true)
            && takes_from(
            sinks[s].1.inputs@,
            if way.len() == 0 {
                name
            } else {
                transforms[way.last()].0
            },
        )
}

/// A component feeds inputs just where they take from it.
proof fn fed_takes_from(inputs: Seq<OutputId>, name: Seq<char>)
    ensures
        fed_by(output_names(inputs), name) <==> takes_from(inputs, name),
{
    let names = output_names(inputs);
    if fed_by(names, name) {
        let j = choose|j: int| 0 <= j < names.len() && (#[trigger] names[j]).0 == name;
        assert(inputs[j].component@ == name);
    }
    if takes_from(inputs, name) {
        let k = choose|k: int| 0 <= k < inputs.len() && (#[trigger] inputs[k]).component@ == name;
        assert(names[k].0 == name);
    }
}

/// Events reach a sink through so many transforms just where there is a way of that
/// length.
proof fn ways_reach(
    sinks: Seq<(Seq<char>, SinkOuter<OutputId>)>,
    transforms: Seq<(Seq<char>, TransformOuter<OutputId>)>,
    name: Seq<char>,
    steps: nat,
)
    ensures
        reaches_sink(sinks, transforms, name, steps) <==> exists|way: Seq<int>|
            way.len() == steps && #[trigger] way_to_acknowledgement(sinks, transforms, name, way),
    decreases steps,
{
    if steps == 0 {
        if feeds_sink(sinks, name) {
            let i = choose|i: int|
                0 <= i < sinks.len() && (#[trigger] sinks[i]).1.inner.acknowledgements.is_enabled()
                    && fed_by(output_names(sinks[i].1.inputs@), name);
            fed_takes_from(sinks[i].1.inputs@, name);
            let way = Seq::<int>::empty();
            assert(sinks[i].1.inner.acknowledgements.enabled == Some(true));
            assert(way_to_acknowledgement(sinks, transforms, name, way));
        }
        if exists|way: Seq<int>|
            way.len() == steps && #[trigger] way_to_acknowledgement(sinks, transforms, name, way) {
            let way = choose|way: Seq<int>|
                way.len() == steps && #[trigger] way_to_acknowledgement(
                    sinks,
                    transforms,
                    name,
                    way,
                );
            let s = choose|s: int|
                0 <= s < sinks.len() && (#[trigger] sinks[s]).1.inner.acknowledgements.enabled
                    == Some(true) && takes_from(sinks[s].1.inputs@, name);
            fed_takes_from(sinks[s].1.inputs@, name);
            assert(sinks[s].1.inner.acknowledgements.is_enabled());
        }
    } else {
        let less = (steps - 1) as nat;
        if reaches_sink(sinks, transforms, name, steps) {
            let i = choose|i: int|
                0 <= i < transforms.len() && fed_by(
                    output_names((#[trigger] transforms[i]).1.inputs@),
                    name,
                ) && reaches_sink(sinks, transforms, transforms[i].0, less);
            fed_takes_from(transforms[i].1.inputs@, name);
            ways_reach(sinks, transforms, transforms[i].0, less);
            let rest = choose|way: Seq<int>|
                way.len() == less && #[trigger] way_to_acknowledgement(
                    sinks,
                    transforms,
                    transforms[i].0,
                    way,
                );
            let way = seq![i] + rest;
            assert forall|k: int| 0 <= k < way.len() implies 0 <= #[trigger] way[k]
                < transforms.len() && takes_from(
                transforms[way[k]].1.inputs@,
                if k == 0 {
                    name
                } else {
                    transforms[way[k - 1]].0
                },
            ) by {
                if k > 0 {
                    assert(way[k] == rest[k - 1]);
                    if k > 1 {
                        assert(way[k - 1] == rest[k - 2]);
                    }
                }
            }
            if rest.len() > 0 {
                assert(way.last() == rest.last());
            }
            assert(way_to_acknowledgement(sinks, transforms, name, way));
        }
        if exists|way: Seq<int>|
            way.len() == steps && #[trigger] way_to_acknowledgement(sinks, transforms, name, way) {
            let way = choose|way: Seq<int>|
                way.len() == steps && #[trigger] way_to_acknowledgement(
                    sinks,
                    transforms,
                    name,
                    way,
                );
            let i = way[0];
            let rest = way.skip(1);
            fed_takes_from(transforms[i].1.inputs@, name);
            assert forall|k: int| 0 <= k < rest.len() implies 0 <= #[trigger] rest[k]
                < transforms.len() && takes_from(
                transforms[rest[k]].1.inputs@,
                if k == 0 {
                    transforms[i].0
                } else {
                    transforms[rest[k - 1]].0
                },
            ) by {
                assert(rest[k] == way[k + 1]);
                if k > 0 {
                    assert(rest[k - 1] == way[k]);
                }
            }
            if rest.len() > 0 {
                assert(way.last() == rest.last());
            }
            assert(way_to_acknowledgement(sinks, transforms, transforms[i].0, rest));
            ways_reach(sinks, transforms, transforms[i].0, less);
            assert(transforms[i].1.inputs@ == transforms[i].1.inputs@);
        }
    }
}

/// A source is made to wait for deliveries just where it waits already or there is
/// a way, through any number of transforms, from it to a sink whose acknowledgements
/// are switched on. Nothing else about it changes.
pub proof fn sources_wait_for_sinks_that_acknowledge(
    sinks: Seq<(Seq<char>, SinkOuter<OutputId>)>,
    transforms: Seq<(Seq<char>, TransformOuter<OutputId>)>,
    sources: Seq<(Seq<char>, SourceOuter)>,
)
    ensures
        waiting_sources(sinks, transforms, sources).len() == sources.len(),
        forall|i: int|
            0 <= i < sources.len() ==> {
                let waiting = #[trigger] waiting_sources(sinks, transforms, sources)[i];
                &&& waiting.0 == sources[i].0
                &&& waiting.1.inner == sources[i].1.inner
                &&& waiting.1.proxy == sources[i].1.proxy
                &&& waiting.1.graph == sources[i].1.graph
                &&& waiting.1.sink_acknowledgements <==> sources[i].1.sink_acknowledgements
                    || exists|way: Seq<int>| #[trigger]
                    way_to_acknowledgement(sinks, transforms, sources[i].0, way)
            },
{
    assert forall|i: int| 0 <= i < sources.len() implies ((
    #[trigger] waiting_sources(sinks, transforms, sources)[i]).1.sink_acknowledgements
        <==> sources[i].1.sink_acknowledgements || exists|way: Seq<int>| #[trigger]
        way_to_acknowledgement(sinks, transforms, sources[i].0, way)) by {
        let name = sources[i].0;
        if acknowledged(sinks, transforms, name) {
            let steps = choose|steps: nat| reaches_sink(sinks, transforms, name, steps);
            ways_reach(sinks, transforms, name, steps);
        }
        if exists|way: Seq<int>| #[trigger] way_to_acknowledgement(sinks, transforms, name, way) {
            let way = choose|way: Seq<int>| #[trigger]
                way_to_acknowledgement(sinks, transforms, name, way);
            ways_reach(sinks, transforms, name, way.len());
            assert(reaches_sink(sinks, transforms, name, way.len()));
        }
    }
}

/// Carrying acknowledgements over makes just those sources wait from which there is
/// a way to a sink whose acknowledgements are switched on, and changes nothing else.
pub proof fn acknowledgements_are_carried_over(config: &mut Config)
    requires
        call_ensures(Config::propagate_acknowledgements, (config,), ()),
    ensures
        final(config).sources@.len() == old(config).sources@.len(),
        forall|i: int|
            0 <= i < old(config).sources@.len() ==> {
                let waiting = #[trigger] final(config).sources@[i];
                &&& waiting.0 == old(config).sources@[i].0
                &&& waiting.1.inner == old(config).sources@[i].1.inner
                &&& waiting.1.proxy == old(config).sources@[i].1.proxy
                &&& waiting.1.graph == old(config).sources@[i].1.graph
                &&& waiting.1.sink_acknowledgements
                    <==> old(config).sources@[i].1.sink_acknowledgements || exists|way: Seq<int>|
                 #[trigger]
                    way_to_acknowledgement(
                        old(config).sinks@,
                        old(config).transforms@,
                        old(config).sources@[i].0,
                        way,
                    )
            },
        final(config).sinks == old(config).sinks,
        final(config).transforms == old(config).transforms,
        final(config).enrichment_tables == old(config).enrichment_tables,
        final(config).tests == old(config).tests,
        final(config).global == old(config).global,
        final(config).schema == old(config).schema,
        final(config).healthchecks == old(config).healthchecks,
        final(config).secret == old(config).secret,
        final(config).graceful_shutdown_duration == old(config).graceful_shutdown_duration,
{
    sources_wait_for_sinks_that_acknowledge(
        old(config).sinks@,
        old(config).transforms@,
        old(config).sources@,
    );
}

} // verus!
