//! Sending the events of a transform downstream.
use std::sync::Arc;
use vstd::prelude::*;

use crate::config::io::{clone_definitions, TransformOutput};
use crate::event::array::{holds_at, kind_of, size_of, Batch, EventArray};
use crate::event::metadata::{EventMetadata, MetadataModel};
use crate::event::metric::Metric;
use crate::event::{models, Event, EventModel};
use crate::id::{clone_port, port_text, same_port, ComponentKey, OutputId, OutputName};
use crate::schema::{
    definition_for, first_definition_counts, first_for, one_output, Definition, Definitions,
};
use crate::transform::outputs::{
    batches, flat, flat_push, has_default, port_names, OutputBuffer, OutputsModel,
    TransformOutputsBuf,
};
use crate::transform::{passed, update_runtime_schema_definition, EventMutRef};

verus! {

/// The name under which the metrics of a component count its default output.
pub const DEFAULT_OUTPUT: &'static str = "output";

/// One output of a running transform.
#[derive(Debug)]
pub struct OutputState {
    /// The number of the fanout channel that the output's events go to.
    pub fanout: usize,
    /// The name under which the output's events are counted.
    pub events_sent: String,
    /// What log entries are expected to look like, by the output that they
    /// came through last.
    pub log_schema_definitions: Definitions,
    /// What identifies the output.
    pub output_id: Arc<OutputId>,
}

/// The place of the last output with the given port.
pub open spec fn last_with_port(
    outputs: Seq<TransformOutput>,
    port: Option<Seq<char>>,
) -> Option<int>
    decreases outputs.len(),
{
    if outputs.len() == 0 {
        None
    } else if port_text(outputs.last().port) == port {
        Some(outputs.len() - 1)
    } else {
        last_with_port(outputs.drop_last(), port)
    }
}

/// Where there is a last output with a port, it is in range and has the port.
pub proof fn last_with_port_range(outputs: Seq<TransformOutput>, port: Option<Seq<char>>)
    ensures
        match last_with_port(outputs, port) {
            Some(i) => 0 <= i < outputs.len() && port_text(outputs[i].port) == port,
            None => forall|i: int|
                0 <= i < outputs.len() ==> port_text((#[trigger] outputs[i]).port) != port,
        },
    decreases outputs.len(),
{
    if outputs.len() > 0 && port_text(outputs.last().port) != port {
        last_with_port_range(outputs.drop_last(), port);
        assert forall|i: int|
            0 <= i < outputs.len() && last_with_port(outputs, port) is None implies port_text(
            (#[trigger] outputs[i]).port,
        ) != port by {
            if i < outputs.len() - 1 {
                assert(outputs.drop_last()[i] == outputs[i]);
            }
        }
    }
}

/// The name under which the events of an output are counted.
pub open spec fn count_name(port: Option<Seq<char>>) -> Seq<char> {
    match port {
        Some(name) => name,
        None => DEFAULT_OUTPUT@,
    }
}

/// Whether `state` is what becomes of the output at place `i`.
pub open spec fn state_of(
    state: OutputState,
    outputs: Seq<TransformOutput>,
    component: Seq<char>,
    i: int,
) -> bool {
    &&& state.fanout == i
    &&& state.events_sent@ == count_name(port_text(outputs[i].port))
    &&& state.log_schema_definitions@ == outputs[i].log_schema_definitions@
    &&& state.output_id@ == (component, port_text(outputs[i].port))
}

/// Whether no two outputs have the same port.
pub open spec fn distinct_ports(states: Seq<OutputState>) -> bool {
    forall|i: int, j: int|
        0 <= i < j < states.len() ==> (#[trigger] states[i]).output_id@.1 != (
        #[trigger] states[j]).output_id@.1
}

/// Whether `states` are the outputs of a transform: for each port, what
/// becomes of the last output with it, and no other port.
pub open spec fn states_of(
    states: Seq<OutputState>,
    outputs: Seq<TransformOutput>,
    component: Seq<char>,
) -> bool {
    &&& distinct_ports(states)
    &&& forall|k: int|
        0 <= k < states.len() ==> last_with_port(
            outputs,
            (#[trigger] states[k]).output_id@.1,
        ) is Some && state_of(
            states[k],
            outputs,
            component,
            last_with_port(outputs, states[k].output_id@.1)->0,
        )
    &&& forall|i: int|
        0 <= i < outputs.len() ==> exists|k: int|
            0 <= k < states.len() && (#[trigger] states[k]).output_id@.1 == port_text(
                (#[trigger] outputs[i]).port,
            )
}

/// The model of an event on its way through an output.
pub open spec fn passed_model(
    event: EventModel,
    output_id: OutputName,
    definitions: Seq<(OutputId, Arc<Definition>)>,
) -> EventModel {
    let current = event.metadata.schema_definition;
    EventModel {
        metadata: MetadataModel {
            schema_definition: if event.data is Log {
                match event.metadata.upstream_id {
                    Some(parent) => match definition_for(definitions, parent) {
                        Some(definition) => definition@,
                        None => current,
                    },
                    None => if definitions.len() > 0 {
                        definitions[0].1@
                    } else {
                        current
                    },
                }
            } else {
                current
            },
            upstream_id: Some(output_id),
            ..event.metadata
        },
        ..event
    }
}

/// A list of events on their way through an output.
pub open spec fn all_passed(
    events: Seq<EventModel>,
    output_id: OutputName,
    definitions: Seq<(OutputId, Arc<Definition>)>,
) -> Seq<EventModel> {
    Seq::new(events.len(), |i: int| passed_model(events[i], output_id, definitions))
}

/// Events on their way downstream: one or more batches for one channel.
#[derive(Debug)]
pub struct Shipment {
    /// The number of the channel.
    pub fanout: usize,
    /// The name under which the events are to be counted once they are sent.
    pub events_sent: String,
    /// The batches, in the order in which they are to be sent.
    pub arrays: Vec<EventArray>,
    /// How many events there are.
    pub count: u128,
}

impl Shipment {
    /// Whether this is what is to be sent of the given events through the
    /// given output.
    pub open spec fn carries(&self, output: OutputState, events: Seq<EventModel>) -> bool {
        &&& self.fanout == output.fanout
        &&& self.events_sent@ == output.events_sent@
        &&& self.count == events.len()
        &&& models(flat(self.arrays@)) == all_passed(
            events,
            output.output_id@,
            output.log_schema_definitions@,
        )
    }

    /// Whether the batches to be sent through the given output are the given
    /// ones, one for one.
    pub open spec fn keeps(&self, output: OutputState, arrays: Seq<EventArray>) -> bool {
        batches(self.arrays@) == Seq::new(
            arrays.len(),
            |i: int| passed_batch(arrays[i]@, output),
        )
    }
}

/// A batch whose events have left through an output.
pub open spec fn passed_batch(batch: Batch, output: OutputState) -> Batch {
    Batch {
        kind: batch.kind,
        events: Seq::new(
            batch.events.len(),
            |i: int| passed(batch.events[i], output.output_id, output.log_schema_definitions@),
        ),
    }
}

/// Prepares an event for leaving through an output.
fn pass_event(event: Event, output: &OutputState) -> (made: Event)
    ensures
        made == passed(event, output.output_id, output.log_schema_definitions@),
{
    let mut event = event;
    let reference = match &mut event {
        Event::Log(log) => EventMutRef::Log(log),
        Event::Metric(metric) => EventMutRef::Metric(metric),
        Event::Trace(trace) => EventMutRef::Trace(trace),
    };
    update_runtime_schema_definition(reference, &output.output_id, &output.log_schema_definitions);
    event
}

/// Prepares the events of one batch for leaving through an output.
fn pass_array(array: EventArray, output: &OutputState) -> (passed_array: EventArray)
    ensures
        passed_array@ == passed_batch(array@, *output),
{
    let ghost wanted = passed_batch(array@, *output);
    let ghost given = array.events();
    let mut made = array.empty_like();
    assert(made@.events =~= wanted.events.take(0));
    assert(forall|i: int| 0 <= i < given.len() ==> kind_of(#[trigger] given[i]) == array@.kind);
    for event in iter: array.into_events()
        invariant
            iter.seq() == given,
            wanted.kind == made@.kind,
            wanted.events.len() == given.len(),
            forall|i: int|
                0 <= i < given.len() ==> #[trigger] wanted.events[i] == passed(
                    given[i],
                    output.output_id,
                    output.log_schema_definitions@,
                ),
            forall|i: int| 0 <= i < given.len() ==> kind_of(#[trigger] given[i]) == wanted.kind,
            made@.events == wanted.events.take(iter.index()),
    {
        let ghost index = iter.index();
        assert(given[index] == event);
        made.push(pass_event(event, output));
        assert(made@.events =~= wanted.events.take(index + 1));
    }
    assert(wanted.events.take(given.len() as int) =~= wanted.events);
    made
}

/// Takes all events out of a buffer and prepares them for being sent through
/// an output.
pub fn send_single_buffer(buf: &mut OutputBuffer, output: &OutputState) -> (shipment: Shipment)
    ensures
        shipment.carries(*output, old(buf)@),
        shipment.keeps(*output, old(buf).0@),
        final(buf).0@ == Seq::<EventArray>::empty(),
        final(buf)@ == Seq::<EventModel>::empty(),
{
    let ghost events = buf.events();
    let ghost all = buf.0@;
    let count: u128 = buf.total();
    let mut taken: Vec<EventArray> = Vec::new();
    taken.append(&mut buf.0);
    assert(taken@ =~= all);
    let mut arrays: Vec<EventArray> = Vec::new();
    for array in iter: taken
        invariant
            iter.seq() == all,
            arrays@.len() == iter.index(),
            forall|i: int|
                0 <= i < arrays@.len() ==> (#[trigger] arrays@[i])@ == passed_batch(all[i]@, *output),
            models(flat(arrays@)) == all_passed(
                models(flat(all.take(iter.index()))),
                output.output_id@,
                output.log_schema_definitions@,
            ),
    {
        let ghost before = arrays@;
        let ghost seen = all.take(iter.index());
        let made = pass_array(array, output);
        arrays.push(made);
        proof {
            assert(all.take(iter.index() + 1) =~= seen.push(array));
            flat_push(seen, array);
            flat_push(before, made);
            assert(models(flat(before)).len() == models(flat(seen)).len());
            assert(flat(before).len() == flat(seen).len());
            assert(models(flat(arrays@)) =~= all_passed(
                models(flat(all.take(iter.index() + 1))),
                output.output_id@,
                output.log_schema_definitions@,
            )) by {
                assert forall|i: int| 0 <= i < flat(arrays@).len() implies flat(arrays@)[i]@
                    == passed_model(
                    (flat(seen) + array.events())[i]@,
                    output.output_id@,
                    output.log_schema_definitions@,
                ) by {
                    let n = flat(seen).len();
                    if i < n {
                        assert(models(flat(before))[i] == flat(before)[i]@);
                        assert(all_passed(
                            models(flat(seen)),
                            output.output_id@,
                            output.log_schema_definitions@,
                        )[i] == passed_model(
                            flat(seen)[i]@,
                            output.output_id@,
                            output.log_schema_definitions@,
                        ));
                    } else {
                        assert(made.events()[i - n] == passed(
                            array.events()[i - n],
                            output.output_id,
                            output.log_schema_definitions@,
                        ));
                    }
                }
            }
        }
    }
    assert(all.take(all.len() as int) =~= all);
    assert(buf.0@ =~= Seq::<EventArray>::empty());
    assert(buf@ =~= Seq::<EventModel>::empty());
    assert(batches(arrays@) =~= Seq::new(all.len(), |i: int| passed_batch(all[i]@, *output)));
    Shipment {
        fanout: output.fanout,
        events_sent: output.events_sent.clone(),
        arrays,
        count,
    }
}

/// The outputs of a running transform.
///
/// [`TransformOutputsBuf`] collects the events; this type turns them into what
/// is to be sent.
#[derive(Debug)]
pub struct TransformOutputs {
    outputs_spec: Vec<TransformOutput>,
    outputs: Vec<OutputState>,
}

/// A copy of a list of outputs.
pub fn clone_transform_outputs(outputs: &Vec<TransformOutput>) -> (copy: Vec<TransformOutput>)
    ensures
        copy@.len() == outputs@.len(),
        forall|i: int|
            0 <= i < outputs@.len() ==> (#[trigger] copy@[i]).port == outputs@[i].port
                && copy@[i].data_type == outputs@[i].data_type && copy@[i].log_schema_definitions@
                == outputs@[i].log_schema_definitions@,
{
    let mut copy: Vec<TransformOutput> = Vec::new();
    let mut i: usize = 0;
    while i < outputs.len()
        invariant
            i <= outputs.len(),
            copy@.len() == i,
            forall|j: int|
                0 <= j < i ==> (#[trigger] copy@[j]).port == outputs@[j].port && copy@[j].data_type
                    == outputs@[j].data_type && copy@[j].log_schema_definitions@
                    == outputs@[j].log_schema_definitions@,
        decreases outputs.len() - i,
    {
        copy.push(outputs[i].clone());
        i = i + 1;
    }
    copy
}

/// The place of the output with the given port, where there is one.
fn find_port(states: &Vec<OutputState>, port: &Option<String>) -> (index: Option<usize>)
    ensures
        match index {
            Some(k) => k < states@.len() && states@[k as int].output_id@.1 == port_text(*port),
            None => forall|k: int|
                0 <= k < states@.len() ==> (#[trigger] states@[k]).output_id@.1 != port_text(*port),
        },
{
    let mut k: usize = 0;
    while k < states.len()
        invariant
            k <= states.len(),
            forall|j: int|
                0 <= j < k ==> (#[trigger] states@[j]).output_id@.1 != port_text(*port),
        decreases states.len() - k,
    {
        if same_port(&states[k].output_id.port, port) {
            return Some(k);
        }
        k = k + 1;
    }
    None
}

/// The events that are held for one output.
pub open spec fn held_for(held: OutputsModel, port: Option<Seq<char>>) -> Seq<EventModel> {
    match port {
        Some(name) => held.named[name],
        None => held.primary->0,
    }
}

/// The batches that are held for one output.
pub open spec fn arrays_for(buf: TransformOutputsBuf, port: Option<Seq<char>>) -> Seq<EventArray> {
    match port {
        Some(name) => buf.named_arrays()[name],
        None => buf.primary_arrays()->0,
    }
}

/// What is held once the events of one output have been taken out.
pub open spec fn emptied(held: OutputsModel, port: Option<Seq<char>>) -> OutputsModel {
    match port {
        Some(name) => OutputsModel { named: held.named.insert(name, Seq::empty()), ..held },
        None => OutputsModel { primary: Some(Seq::empty()), ..held },
    }
}

/// What is held once the events of the first outputs in an order have been
/// taken out.
pub open spec fn emptied_in_order(
    held: OutputsModel,
    order: Seq<Option<Seq<char>>>,
    steps: nat,
) -> OutputsModel
    decreases steps,
{
    if steps == 0 {
        held
    } else {
        emptied(emptied_in_order(held, order, (steps - 1) as nat), order[steps - 1])
    }
}

/// What is held for an output does not change before its turn, and is gone
/// after it.
proof fn emptied_at(
    held: OutputsModel,
    order: Seq<Option<Seq<char>>>,
    steps: nat,
    port: Option<Seq<char>>,
)
    requires
        steps <= order.len(),
    ensures
        held_for(emptied_in_order(held, order, steps), port) == if order.take(
            steps as int,
        ).contains(port) {
            Seq::<EventModel>::empty()
        } else {
            held_for(held, port)
        },
    decreases steps,
{
    if steps == 0 {
        assert(order.take(0) =~= Seq::empty());
    } else {
        let before = order.take(steps - 1);
        let after = order.take(steps as int);
        emptied_at(held, order, (steps - 1) as nat, port);
        assert(after =~= before.push(order[steps - 1]));
        if before.contains(port) {
            let i = choose|i: int| 0 <= i < before.len() && before[i] == port;
            assert(after[i] == port);
        }
        if order[steps - 1] == port {
            assert(after[steps - 1] == port);
        } else if after.contains(port) {
            let i = choose|i: int| 0 <= i < after.len() && after[i] == port;
            assert(before[i] == port);
        }
    }
}

/// Where the outputs have their turns one after the other, each sends just the
/// events that were held for it at the start, and at the end none are left.
pub proof fn all_events_are_sent_once(held: OutputsModel, order: Seq<Option<Seq<char>>>)
    requires
        order.no_duplicates(),
        held.primary is Some ==> order.contains(None),
        forall|name: Seq<char>| #[trigger]
            held.named.contains_key(name) ==> order.contains(Some(name)),
    ensures
        forall|i: int|
            0 <= i < order.len() ==> held_for(
                emptied_in_order(held, order, i as nat),
                #[trigger] order[i],
            ) == held_for(held, order[i]),
        held.primary is Some ==> emptied_in_order(held, order, order.len()).primary->0.len() == 0,
        forall|name: Seq<char>| #[trigger]
            held.named.contains_key(name) ==> emptied_in_order(
                held,
                order,
                order.len(),
            ).named[name].len() == 0,
{
    assert forall|i: int| 0 <= i < order.len() implies held_for(
        emptied_in_order(held, order, i as nat),
        #[trigger] order[i],
    ) == held_for(held, order[i]) by {
        emptied_at(held, order, i as nat, order[i]);
        if order.take(i).contains(order[i]) {
            let j = choose|j: int| 0 <= j < i && order.take(i)[j] == order[i];
            assert(order[j] == order[i]);
        }
    }
    assert(order.take(order.len() as int) =~= order);
    emptied_at(held, order, order.len(), None);
    assert forall|name: Seq<char>| #[trigger] held.named.contains_key(name) implies emptied_in_order(
        held,
        order,
        order.len(),
    ).named[name].len() == 0 by {
        emptied_at(held, order, order.len(), Some(name));
    }
}

/// Whether outputs as they run and outputs as they were declared have the same
/// ports.
pub open spec fn same_ports(states: Seq<OutputState>, outputs: Seq<TransformOutput>) -> bool {
    &&& forall|k: int|
        0 <= k < states.len() ==> exists|i: int|
            0 <= i < outputs.len() && port_text((#[trigger] outputs[i]).port) == (
            #[trigger] states[k]).output_id@.1
    &&& forall|i: int|
        0 <= i < outputs.len() ==> exists|k: int|
            0 <= k < states.len() && (#[trigger] states[k]).output_id@.1 == port_text(
                (#[trigger] outputs[i]).port,
            )
}

impl TransformOutputs {
    #[verifier::type_invariant]
    spec fn ports_match(self) -> bool {
        same_ports(self.outputs@, self.outputs_spec@)
    }

    /// The outputs as they were declared.
    pub closed spec fn spec_outputs(&self) -> Seq<TransformOutput> {
        self.outputs_spec@
    }

    /// The outputs as they run.
    pub closed spec fn states(&self) -> Seq<OutputState> {
        self.outputs@
    }

    /// The outputs of a transform, and which channel serves which port.
    ///
    /// The `i`-th declared output has the `i`-th channel. Where several outputs
    /// have the same port, the last of them is the one that runs.
    pub fn new(outputs_in: Vec<TransformOutput>, component_key: &ComponentKey) -> (made: (
        Self,
        Vec<(Option<String>, usize)>,
    ))
        ensures
            made.0.spec_outputs() == outputs_in@,
            states_of(made.0.states(), outputs_in@, component_key@),
            made.1@.len() == made.0.states().len(),
            forall|k: int|
                0 <= k < made.1@.len() ==> port_text((#[trigger] made.1@[k]).0)
                    == made.0.states()[k].output_id@.1 && made.1@[k].1 == made.0.states()[k].fanout,
    {
        let mut outputs: Vec<OutputState> = Vec::new();
        let mut controls: Vec<(Option<String>, usize)> = Vec::new();
        let mut i: usize = 0;
        while i < outputs_in.len()
            invariant
                i <= outputs_in.len(),
                states_of(outputs@, outputs_in@.take(i as int), component_key@),
                controls@.len() == outputs@.len(),
                forall|k: int|
                    0 <= k < controls@.len() ==> port_text((#[trigger] controls@[k]).0)
                        == outputs@[k].output_id@.1 && controls@[k].1 == outputs@[k].fanout,
            decreases outputs_in.len() - i,
        {
            let ghost seen = outputs_in@.take(i as int);
            let ghost all = outputs_in@.take(i + 1);
            let ghost before = outputs@;
            let output = &outputs_in[i];
            let events_sent = match &output.port {
                Some(name) => name.clone(),
                None => DEFAULT_OUTPUT.to_owned(),
            };
            let state = OutputState {
                fanout: i,
                events_sent,
                log_schema_definitions: clone_definitions(&output.log_schema_definitions),
                output_id: Arc::new(OutputId::new(component_key, &output.port)),
            };
            proof {
                assert(all.drop_last() =~= seen);
                assert(all.last() == outputs_in@[i as int]);
                assert(state_of(state, all, component_key@, i as int));
                assert forall|k: int| 0 <= k < before.len() implies {
                    &&& (#[trigger] before[k]).output_id@.1 != port_text(output.port)
                        ==> last_with_port(all, before[k].output_id@.1) == last_with_port(
                        seen,
                        before[k].output_id@.1,
                    )
                    &&& last_with_port(seen, before[k].output_id@.1) matches Some(j)
                        && 0 <= j < seen.len() && all[j] == seen[j]
                } by {
                    last_with_port_range(seen, before[k].output_id@.1);
                }
            }
            match find_port(&outputs, &output.port) {
                Some(k) => {
                    outputs.set(k, state);
                    controls.set(k, (clone_port(&output.port), i));
                    proof {
                        assert forall|a: int, b: int| 0 <= a < b < outputs@.len() implies (
                        #[trigger] outputs@[a]).output_id@.1 != (#[trigger] outputs@[b]).output_id@.1
                            by {
                            assert(before[a].output_id@.1 != before[b].output_id@.1);
                        }
                        assert forall|a: int| 0 <= a < outputs@.len() implies last_with_port(
                            all,
                            (#[trigger] outputs@[a]).output_id@.1,
                        ) is Some && state_of(
                            outputs@[a],
                            all,
                            component_key@,
                            last_with_port(all, outputs@[a].output_id@.1)->0,
                        ) by {
                            if a != k {
                                assert(outputs@[a] == before[a]);
                                if a < k {
                                    assert(before[a].output_id@.1 != before[k as int].output_id@.1);
                                } else {
                                    assert(before[k as int].output_id@.1 != before[a].output_id@.1);
                                }
                            }
                        }
                        assert forall|j: int| 0 <= j < all.len() implies exists|a: int|
                            0 <= a < outputs@.len() && (#[trigger] outputs@[a]).output_id@.1
                                == port_text((#[trigger] all[j]).port) by {
                            if j < seen.len() {
                                assert(all[j] == seen[j]);
                                let a = choose|a: int|
                                    0 <= a < before.len() && (#[trigger] before[a]).output_id@.1
                                        == port_text(seen[j].port);
                                assert(outputs@[a].output_id@.1 == port_text(all[j].port));
                            } else {
                                assert(outputs@[k as int].output_id@.1 == port_text(all[j].port));
                            }
                        }
                    }
                },
                None => {
                    outputs.push(state);
                    controls.push((clone_port(&output.port), i));
                    proof {
                        assert forall|a: int, b: int| 0 <= a < b < outputs@.len() implies (
                        #[trigger] outputs@[a]).output_id@.1 != (#[trigger] outputs@[b]).output_id@.1
                            by {
                            assert(outputs@[a] == before[a]);
                            if b < before.len() {
                                assert(before[a].output_id@.1 != before[b].output_id@.1);
                            }
                        }
                        assert forall|a: int| 0 <= a < outputs@.len() implies last_with_port(
                            all,
                            (#[trigger] outputs@[a]).output_id@.1,
                        ) is Some && state_of(
                            outputs@[a],
                            all,
                            component_key@,
                            last_with_port(all, outputs@[a].output_id@.1)->0,
                        ) by {
                            if a < before.len() {
                                assert(outputs@[a] == before[a]);
                            }
                        }
                        assert forall|j: int| 0 <= j < all.len() implies exists|a: int|
                            0 <= a < outputs@.len() && (#[trigger] outputs@[a]).output_id@.1
                                == port_text((#[trigger] all[j]).port) by {
                            if j < seen.len() {
                                assert(all[j] == seen[j]);
                                let a = choose|a: int|
                                    0 <= a < before.len() && (#[trigger] before[a]).output_id@.1
                                        == port_text(seen[j].port);
                                assert(outputs@[a] == before[a]);
                            } else {
                                assert(outputs@[before.len() as int].output_id@.1 == port_text(
                                    all[j].port,
                                ));
                            }
                        }
                    }
                },
            }
            i = i + 1;
        }
        proof {
            assert(outputs_in@.take(i as int) =~= outputs_in@);
            assert forall|k: int| 0 <= k < outputs@.len() implies exists|j: int|
                0 <= j < outputs_in@.len() && port_text((#[trigger] outputs_in@[j]).port) == (
                #[trigger] outputs@[k]).output_id@.1 by {
                last_with_port_range(outputs_in@, outputs@[k].output_id@.1);
            }
        }
        (TransformOutputs { outputs_spec: outputs_in, outputs }, controls)
    }

    /// Whether there is an output for each buffer, and a buffer for the
    /// default output, where that is one of the outputs.
    pub open spec fn serves(&self, buf: TransformOutputsBuf) -> bool {
        &&& self.has_port(None) ==> buf@.primary is Some
        &&& forall|name: Seq<char>| #[trigger]
            buf@.named.contains_key(name) ==> self.has_port(Some(name))
    }

    /// Whether one of the outputs has the given port.
    pub open spec fn has_port(&self, port: Option<Seq<char>>) -> bool {
        exists|k: int| 0 <= k < self.states().len() && (#[trigger] self.states()[k]).output_id@.1 == port
    }

    /// The ports in the order in which their events are sent: the default
    /// output, where there is one, and then the named ones.
    pub open spec fn send_order(&self, buf: TransformOutputsBuf) -> Seq<Option<Seq<char>>> {
        (if self.has_port(None) {
            seq![None]
        } else {
            Seq::empty()
        }) + Seq::new(buf.names().len(), |i: int| Some(buf.names()[i]))
    }

    /// Takes the events of one output out of the buffers and prepares them for
    /// being sent.
    ///
    /// The steps count up from zero, and the outputs come in their sending
    /// order. After the last output there is nothing more to send.
    pub fn send(&self, buf: &mut TransformOutputsBuf, step: usize) -> (shipment: Option<Shipment>)
        requires
            self.serves(*old(buf)),
        ensures
            shipment is Some <==> step < self.send_order(*old(buf)).len(),
            shipment is None ==> *final(buf) == *old(buf),
            final(buf).names() == old(buf).names(),
            shipment matches Some(shipment) ==> {
                let port = self.send_order(*old(buf))[step as int];
                &&& exists|k: int|
                    0 <= k < self.states().len() && (#[trigger] self.states()[k]).output_id@.1 == port
                        && shipment.carries(self.states()[k], held_for(old(buf)@, port))
                        && shipment.keeps(self.states()[k], arrays_for(*old(buf), port))
                &&& final(buf)@ == emptied(old(buf)@, port)
                &&& arrays_for(*final(buf), port) == Seq::<EventArray>::empty()
                &&& port is Some ==> final(buf).primary_arrays() == old(buf).primary_arrays()
                &&& forall|name: Seq<char>|
                    port != Some(name) && #[trigger] old(buf).named_arrays().contains_key(name)
                        ==> final(buf).named_arrays()[name] == old(buf).named_arrays()[name]
            },
    {
        let count: usize = buf.named_count();
        let ghost order = self.send_order(*buf);
        let offset: usize = match find_port(&self.outputs, &None) {
            Some(k) => {
                assert(self.states()[k as int].output_id@.1 == None::<Seq<char>>);
                assert(self.has_port(None));
                if step == 0 {
                    let mut buffer = buf.take_primary();
                    let ghost held = buffer@;
                    assert(order[0] == None::<Seq<char>>);
                    let shipment = send_single_buffer(&mut buffer, &self.outputs[k]);
                    assert(shipment.carries(self.states()[k as int], held));
                    buf.replace_primary(buffer);
                    return Some(shipment);
                }
                1
            },
            None => {
                assert(!self.has_port(None)) by {
                    if self.has_port(None) {
                        let k = choose|k: int|
                            0 <= k < self.states().len() && (
                            #[trigger] self.states()[k]).output_id@.1 == None::<Seq<char>>;
                        assert(self.outputs@[k].output_id@.1 != None::<Seq<char>>);
                    }
                }
                0
            },
        };
        let index: usize = step - offset;
        if index >= count {
            return None;
        }
        let name = Some(buf.name_at(index).to_owned());
        let ghost port = Some(buf.names()[index as int]);
        assert(order[step as int] == port);
        assert(buf.names().contains(buf.names()[index as int]));
        assert(buf@.named.contains_key(buf.names()[index as int]));
        match find_port(&self.outputs, &name) {
            Some(k) => {
                let mut buffer = buf.take_named_at(index);
                let ghost held = buffer@;
                let shipment = send_single_buffer(&mut buffer, &self.outputs[k]);
                assert(shipment.carries(self.states()[k as int], held));
                assert(self.states()[k as int].output_id@.1 == port);
                Some(shipment)
            },
            None => {
                proof {
                    assert(self.has_port(port));
                    let k = choose|k: int|
                        0 <= k < self.states().len() && (#[trigger] self.states()[k]).output_id@.1
                            == port;
                    assert(self.outputs@[k].output_id@.1 != port);
                }
                None
            },
        }
    }

    /// Empty buffers for all outputs.
    pub fn new_buf_with_capacity(&self, capacity: usize) -> (buf: TransformOutputsBuf)
        ensures
            self.serves(buf),
            buf@.primary is Some <==> has_default(self.spec_outputs()),
            buf@.primary is Some ==> buf@.primary->0.len() == 0,
            buf@.named.dom() == port_names(self.spec_outputs()),
            forall|name: Seq<char>| #[trigger]
                buf@.named.contains_key(name) ==> buf@.named[name].len() == 0,
    {
        let copy = clone_transform_outputs(&self.outputs_spec);
        proof {
            let a = copy@;
            let b = self.outputs_spec@;
            assert(has_default(a) <==> has_default(b)) by {
                if has_default(a) {
                    let i = choose|i: int| 0 <= i < a.len() && (#[trigger] a[i]).port is None;
                    assert(b[i].port is None);
                }
                if has_default(b) {
                    let i = choose|i: int| 0 <= i < b.len() && (#[trigger] b[i]).port is None;
                    assert(a[i].port is None);
                }
            }
            assert forall|name: Seq<char>| port_names(a).contains(name) == port_names(b).contains(
                name,
            ) by {
                if port_names(a).contains(name) {
                    let i = choose|i: int|
                        0 <= i < a.len() && (#[trigger] a[i]).port is Some && a[i].port->0@ == name;
                    assert(b[i].port is Some && b[i].port->0@ == name);
                }
                if port_names(b).contains(name) {
                    let i = choose|i: int|
                        0 <= i < b.len() && (#[trigger] b[i]).port is Some && b[i].port->0@ == name;
                    assert(a[i].port is Some && a[i].port->0@ == name);
                }
            }
            assert(port_names(a) =~= port_names(b));
            use_type_invariant(self);
            if self.has_port(None) {
                let k = choose|k: int|
                    0 <= k < self.states().len() && (#[trigger] self.states()[k]).output_id@.1
                        == None::<Seq<char>>;
                let i = choose|i: int|
                    0 <= i < b.len() && port_text((#[trigger] b[i]).port)
                        == self.states()[k].output_id@.1;
                assert(b[i].port is None);
            }
            assert forall|name: Seq<char>| port_names(b).contains(name) implies self.has_port(
                Some(name),
            ) by {
                let i = choose|i: int|
                    0 <= i < b.len() && (#[trigger] b[i]).port is Some && b[i].port->0@ == name;
                let k = choose|k: int|
                    0 <= k < self.states().len() && (#[trigger] self.states()[k]).output_id@.1
                        == port_text(b[i].port);
                assert(self.states()[k].output_id@.1 == Some(name));
            }
        }
        let buf = TransformOutputsBuf::new_with_capacity(copy, capacity);
        assert forall|name: Seq<char>| #[trigger] buf@.named.contains_key(name) implies self.has_port(
            Some(name),
        ) by {
            assert(port_names(self.spec_outputs()).contains(name));
        }
        buf
    }
}

/// Whether metadata are what others become when an event leaves through an
/// output of a transform.
///
/// They name the output. Of an entry they say what is known of those that came
/// through the same output before, or, where it came through none, of the first.
pub open spec fn relabelled(
    entry: bool,
    before: EventMetadata,
    after: EventMetadata,
    output: OutputState,
) -> bool {
    let known = output.log_schema_definitions@;
    &&& after.upstream_id == Some(output.output_id)
    &&& after.source_id == before.source_id
    &&& after.source_type == before.source_type
    &&& after.finalizers == before.finalizers
    &&& !entry ==> after.schema_definition == before.schema_definition
    &&& entry && before.upstream_id is None && known.len() > 0 ==> after.schema_definition
        == known[0].1
    &&& entry && before.upstream_id is None && known.len() == 0 ==> after.schema_definition
        == before.schema_definition
    &&& entry && before.upstream_id is Some ==> {
        let upstream = *before.upstream_id->0;
        &&& forall|i: int| #[trigger]
            first_for(known, upstream, i) ==> after.schema_definition == known[i].1
        &&& (forall|i: int| 0 <= i < known.len() ==> !one_output((#[trigger] known[i]).0, upstream))
            ==> after.schema_definition == before.schema_definition
    }
}

/// Whether an event is what another becomes when it leaves through an output of
/// a transform: only its metadata change.
pub open spec fn goes_out_as(before: Event, after: Event, output: OutputState) -> bool {
    match (before, after) {
        (Event::Log(log), Event::Log(sent)) => sent.fields == log.fields && relabelled(
            true,
            log.metadata,
            sent.metadata,
            output,
        ),
        (Event::Metric(metric), Event::Metric(sent)) => sent == (Metric {
            metadata: sent.metadata,
            ..metric
        }) && relabelled(false, metric.metadata, sent.metadata, output),
        (Event::Trace(trace), Event::Trace(sent)) => sent.log.fields == trace.log.fields
            && relabelled(false, trace.log.metadata, sent.log.metadata, output),
        _ => false,
    }
}

/// An event that is passed on goes out through the output.
proof fn passed_goes_out(event: Event, output: OutputState)
    ensures
        goes_out_as(event, passed(event, output.output_id, output.log_schema_definitions@), output),
{
    let before = event.metadata_value();
    if before.upstream_id is Some {
        first_definition_counts(output.log_schema_definitions@, &*before.upstream_id->0);
    }
}

/// What is taken out of a buffer to be sent is what it held, batch by batch and
/// event by event, each event labelled with the output.
pub proof fn buffers_are_sent_as_they_are(
    buf: &mut OutputBuffer,
    output: &OutputState,
    shipment: Shipment,
    batch: int,
    place: int,
    event: Event,
)
    requires
        call_ensures(send_single_buffer, (buf, output), shipment),
    ensures
        shipment.fanout == output.fanout,
        shipment.events_sent@ == output.events_sent@,
        shipment.arrays@.len() == old(buf).0@.len(),
        final(buf).0@.len() == 0,
        0 <= batch < old(buf).0@.len() ==> size_of(shipment.arrays@[batch]) == size_of(
            old(buf).0@[batch],
        ),
        0 <= batch < old(buf).0@.len() && 0 <= place < size_of(old(buf).0@[batch]) && holds_at(
            old(buf).0@[batch],
            place,
            event,
        ) ==> exists|sent: Event| #[trigger]
            holds_at(shipment.arrays@[batch], place, sent) && goes_out_as(event, sent, *output),
{
    let held = old(buf).0@;
    let gone = Seq::new(held.len(), |i: int| passed_batch(held[i]@, *output));
    assert(batches(shipment.arrays@) == gone);
    assert(batches(shipment.arrays@).len() == gone.len());
    if 0 <= batch < held.len() {
        assert(batches(shipment.arrays@)[batch] == gone[batch]);
        assert(shipment.arrays@[batch]@ == passed_batch(held[batch]@, *output));
        assert(shipment.arrays@[batch].events().len() == held[batch].events().len());
        if 0 <= place < size_of(held[batch]) && holds_at(held[batch], place, event) {
            let sent = passed(event, output.output_id, output.log_schema_definitions@);
            assert(held[batch].events()[place] == event);
            assert(shipment.arrays@[batch].events()[place] == sent);
            passed_goes_out(event, *output);
            assert(holds_at(shipment.arrays@[batch], place, sent));
        }
    }
}

/// Whether a declared output is the last one with its port.
pub open spec fn last_of_port(outputs: Seq<TransformOutput>, place: int) -> bool {
    &&& 0 <= place < outputs.len()
    &&& forall|j: int|
        place < j < outputs.len() ==> match ((#[trigger] outputs[j]).port, outputs[place].port) {
            (Some(port), Some(other)) => port@ != other@,
            (None, None) => false,
            _ => true,
        }
}

/// The last output with a port is found.
proof fn last_is_found(outputs: Seq<TransformOutput>, place: int)
    ensures
        0 <= place < outputs.len() ==> (last_of_port(outputs, place) <==> last_with_port(
            outputs,
            port_text(outputs[place].port),
        ) == Some(place)),
    decreases outputs.len(),
{
    if 0 <= place < outputs.len() {
        let rest = outputs.drop_last();
        last_is_found(rest, place);
        let port = port_text(outputs[place].port);
        last_with_port_range(outputs, port);
        if place < rest.len() {
            let last = outputs.last();
            assert(outputs[place] == rest[place]);
            assert(last_of_port(outputs, place) <==> last_of_port(rest, place) && port_text(last.port)
                != port) by {
                if last_of_port(outputs, place) {
                    assert(outputs[rest.len() as int] == last);
                    assert forall|j: int|
                        place < j < rest.len() implies match ((#[trigger] rest[j]).port, rest[place].port) {
                        (Some(port), Some(other)) => port@ != other@,
                        (None, None) => false,
                        _ => true,
                    } by {
                        assert(rest[j] == outputs[j]);
                    }
                }
                if last_of_port(rest, place) && port_text(last.port) != port {
                    assert forall|j: int|
                        place < j < outputs.len() implies match (
                        (#[trigger] outputs[j]).port,
                        outputs[place].port,
                    ) {
                        (Some(port), Some(other)) => port@ != other@,
                        (None, None) => false,
                        _ => true,
                    } by {
                        if j < rest.len() {
                            assert(rest[j] == outputs[j]);
                        }
                    }
                }
            }
        }
    }
}

/// Each declared output that is the last with its port runs, on the channel of
/// its place, and nothing else does.
pub proof fn outputs_run_on_their_channels(
    outputs: Vec<TransformOutput>,
    key: &ComponentKey,
    made: (TransformOutputs, Vec<(Option<String>, usize)>),
)
    requires
        call_ensures(TransformOutputs::new, (outputs, key), made),
    ensures
        forall|i: int| #[trigger]
            last_of_port(outputs@, i) ==> exists|k: int|
                0 <= k < made.1@.len() && (#[trigger] made.1@[k]).1 == i && port_text(made.1@[k].0)
                    == port_text(outputs@[i].port),
        forall|k: int|
            0 <= k < made.1@.len() ==> last_of_port(outputs@, (#[trigger] made.1@[k]).1 as int)
                && port_text(made.1@[k].0) == port_text(outputs@[made.1@[k].1 as int].port),
        forall|k: int, l: int|
            0 <= k < l < made.1@.len() ==> (#[trigger] made.1@[k]).1 != (#[trigger] made.1@[l]).1,
{
    let states = made.0.states();
    assert forall|k: int| 0 <= k < made.1@.len() implies last_of_port(
        outputs@,
        (#[trigger] made.1@[k]).1 as int,
    ) && port_text(made.1@[k].0) == port_text(outputs@[made.1@[k].1 as int].port) by {
        let port = states[k].output_id@.1;
        last_with_port_range(outputs@, port);
        last_is_found(outputs@, last_with_port(outputs@, port)->0);
    }
    assert forall|i: int| #[trigger] last_of_port(outputs@, i) implies exists|k: int|
        0 <= k < made.1@.len() && (#[trigger] made.1@[k]).1 == i && port_text(made.1@[k].0)
            == port_text(outputs@[i].port) by {
        last_is_found(outputs@, i);
        let port = port_text(outputs@[i].port);
        let k = choose|k: int|
            0 <= k < states.len() && (#[trigger] states[k]).output_id@.1 == port_text(
                outputs@[i].port,
            );
        assert(states[k].output_id@.1 == port);
        assert(made.1@[k].1 == i);
    }
    assert forall|k: int, l: int| 0 <= k < l < made.1@.len() implies (#[trigger] made.1@[k]).1 != (
    #[trigger] made.1@[l]).1 by {
        assert(states[k].output_id@.1 != states[l].output_id@.1);
    }
}

/// What is sent in one step goes to the channel of the last declared output with
/// its port, and is counted under the port, or as `output` where there is none.
pub proof fn steps_send_through_declared_outputs(
    outputs: Vec<TransformOutput>,
    key: &ComponentKey,
    made: (TransformOutputs, Vec<(Option<String>, usize)>),
    buf: &mut TransformOutputsBuf,
    step: usize,
    shipment: Option<Shipment>,
)
    requires
        call_ensures(TransformOutputs::new, (outputs, key), made),
        made.0.serves(*old(buf)),
        call_ensures(TransformOutputs::send, (&made.0, buf, step), shipment),
        shipment is Some,
    ensures
        last_of_port(outputs@, shipment->0.fanout as int),
        match outputs@[shipment->0.fanout as int].port {
            Some(port) => shipment->0.events_sent@ == port@,
            None => shipment->0.events_sent@ == "output"@,
        },
{
    let states = made.0.states();
    let port = made.0.send_order(*old(buf))[step as int];
    let k = choose|k: int|
        0 <= k < states.len() && (#[trigger] states[k]).output_id@.1 == port && shipment->0.carries(
            states[k],
            held_for(old(buf)@, port),
        ) && shipment->0.keeps(states[k], arrays_for(*old(buf), port));
    last_with_port_range(outputs@, port);
    last_is_found(outputs@, last_with_port(outputs@, port)->0);
    assert(state_of(states[k], outputs@, key@, last_with_port(outputs@, port)->0));
}

} // verus!
