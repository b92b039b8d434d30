//! What happens to events between their sources and their sinks.
//!
//! A transform takes one event at a time. A [`FunctionTransform`] writes what
//! comes of it to one output; a [`SyncTransform`] may write to several named
//! outputs. Any function transform is a sync transform that only uses the
//! default output.
pub mod outputs;
pub mod sending;

use std::sync::Arc;
use vstd::prelude::*;

use crate::event::array::EventArray;
use crate::event::log_event::{LogEvent, TraceEvent};
use crate::event::metadata::EventMetadata;
use crate::event::metric::Metric;
use crate::event::{models, Event, EventModel};
use crate::id::{OutputId, OutputName};
use crate::schema::{definition_for, find_definition, share, Definition, Definitions};
use crate::transform::outputs::{OutputBuffer, OutputsModel, TransformOutputsBuf};

verus! {

/// The runtime form of a transform, by the way in which it is run.
pub enum Transform<F, S, T> {
    /// Takes one event at a time and writes to one output.
    Function(F),
    /// Takes one event at a time and writes to several outputs.
    Synchronous(S),
    /// Owns the whole stream of events.
    Task(T),
}

impl<F, S, T> Transform<F, S, T> {
    /// A transform that writes to one output.
    pub fn function(v: F) -> (transform: Self)
        ensures
            transform == Transform::<F, S, T>::Function(v),
    {
        Transform::Function(v)
    }

    /// A transform that writes to several outputs.
    pub fn synchronous(v: S) -> (transform: Self)
        ensures
            transform == Transform::<F, S, T>::Synchronous(v),
    {
        Transform::Synchronous(v)
    }

    /// A transform that owns the whole stream of events.
    pub fn task(v: T) -> (transform: Self)
        ensures
            transform == Transform::<F, S, T>::Task(v),
    {
        Transform::Task(v)
    }

    /// Takes the task out of a transform that is one.
    pub fn into_task(self) -> (task: T)
        requires
            self is Task,
        ensures
            self == Transform::<F, S, T>::Task(task),
    {
        match self {
            Transform::Task(task) => task,
            _ => vstd::pervasive::unreached(),
        }
    }
}

/// A task over single events, to be run over batches.
#[derive(Debug)]
pub struct WrapEventTask<T>(pub T);

impl<T> WrapEventTask<T> {
    /// The events of a batch, as the task takes them.
    pub fn unpack(events: EventArray) -> (unpacked: Vec<Event>)
        ensures
            unpacked@ == events.events(),
    {
        events.into_events()
    }

    /// A batch with an event that the task gives.
    pub fn pack(event: Event) -> (events: EventArray)
        ensures
            events.events() == seq![event],
    {
        EventArray::from_event(event)
    }
}

impl<F, S, T> Transform<F, S, WrapEventTask<T>> {
    /// A transform that owns the whole stream of events and takes them one by
    /// one.
    pub fn event_task(v: T) -> (transform: Self)
        ensures
            transform == Transform::<F, S, WrapEventTask<T>>::Task(WrapEventTask(v)),
    {
        Transform::Task(WrapEventTask(v))
    }
}

/// A transform that writes what comes of an event to one output.
pub trait FunctionTransform: Sized {
    /// Whether a transform in state `before` that is given `event` may be left
    /// in state `after`, and turn what the output holds from `output` to
    /// `result`.
    spec fn effect(
        before: Self,
        event: EventModel,
        output: Seq<EventModel>,
        after: Self,
        result: Seq<EventModel>,
    ) -> bool;

    /// Transforms one event.
    fn transform(&mut self, output: &mut OutputBuffer, event: Event)
        ensures
            Self::effect(*old(self), event@, old(output)@, *final(self), final(output)@),
    ;
}

/// Whether there are the same outputs before and after, whatever they hold.
pub open spec fn same_outputs(before: OutputsModel, after: OutputsModel) -> bool {
    &&& after.primary is Some <==> before.primary is Some
    &&& after.named.dom() == before.named.dom()
}

/// A transform that may write what comes of an event to several outputs.
pub trait SyncTransform: Sized {
    /// Whether the outputs that the transform writes to are all there.
    spec fn has_outputs(&self, output: OutputsModel) -> bool;

    /// Whether a transform in state `before` that is given `event` may be left
    /// in state `after`, and turn what the outputs hold from `output` to
    /// `result`.
    spec fn outcome(
        before: Self,
        event: EventModel,
        output: OutputsModel,
        after: Self,
        result: OutputsModel,
    ) -> bool;

    /// Transforms one event.
    fn transform(&mut self, event: Event, output: &mut TransformOutputsBuf)
        requires
            old(self).has_outputs(old(output)@),
        ensures
            Self::outcome(*old(self), event@, old(output)@, *final(self), final(output)@),
            final(self).has_outputs(final(output)@),
            same_outputs(old(output)@, final(output)@),
    ;

    /// Transforms the events of a batch, one after the other.
    fn transform_all(&mut self, events: EventArray, output: &mut TransformOutputsBuf)
        requires
            old(self).has_outputs(old(output)@),
        ensures
            outcome_of_all(
                (|before: Self, event: EventModel, held: OutputsModel, after: Self, result: OutputsModel|
                    Self::outcome(before, event, held, after, result)),
                *old(self),
                models(events.events()),
                old(output)@,
                *final(self),
                final(output)@,
            ),
            final(self).has_outputs(final(output)@),
            same_outputs(old(output)@, final(output)@),
    {
        let ghost outcomes: Outcome<Self> =
            |before: Self, event: EventModel, held: OutputsModel, after: Self, result: OutputsModel|
            Self::outcome(before, event, held, after, result);
        let ghost start = *self;
        let ghost first = output@;
        let list = events.into_events();
        let ghost all = models(list@);
        for event in iter: list
            invariant
                all == models(iter.seq()),
                self.has_outputs(output@),
                same_outputs(first, output@),
                outcomes == (|before: Self, event: EventModel, held: OutputsModel, after: Self, result: OutputsModel|
                    Self::outcome(before, event, held, after, result)),
                outcome_of_all(
                    outcomes,
                    start,
                    all.take(iter.index()),
                    first,
                    *self,
                    output@,
                ),
        {
            let ghost before = *self;
            let ghost held = output@;
            self.transform(event, output);
            proof {
                let seen = all.take(iter.index() + 1);
                assert(seen.drop_last() =~= all.take(iter.index()));
                assert(seen.last() == event@);
                assert(outcome_of_all(outcomes, start, seen.drop_last(), first, before, held));
                assert(outcomes(before, seen.last(), held, *self, output@));
            }
        }
        assert(all.take(all.len() as int) =~= all);
    }
}

/// What one event may do to a transform and to what its outputs hold: the
/// state before, the event, the outputs before, the state after, the outputs
/// after.
pub type Outcome<T> = spec_fn(T, EventModel, OutputsModel, T, OutputsModel) -> bool;

/// Whether a transform in state `before` that is given `events`, one after the
/// other, may be left in state `after`, and turn what the outputs hold from
/// `output` to `result`.
pub open spec fn outcome_of_all<T>(
    outcome: Outcome<T>,
    before: T,
    events: Seq<EventModel>,
    output: OutputsModel,
    after: T,
    result: OutputsModel,
) -> bool
    decreases events.len(),
{
    if events.len() == 0 {
        after == before && result == output
    } else {
        exists|state: T, held: OutputsModel|
            outcome_of_all(outcome, before, events.drop_last(), output, state, held)
                && #[trigger] outcome(state, events.last(), held, after, result)
    }
}

impl<T: FunctionTransform> SyncTransform for T {
    open spec fn has_outputs(&self, output: OutputsModel) -> bool {
        output.primary is Some
    }

    open spec fn outcome(
        before: T,
        event: EventModel,
        output: OutputsModel,
        after: T,
        result: OutputsModel,
    ) -> bool {
        &&& result.named == output.named
        &&& result.primary is Some
        &&& T::effect(before, event, output.primary->0, after, result.primary->0)
    }

    fn transform(&mut self, event: Event, output: &mut TransformOutputsBuf) {
        let mut buffer = output.take_primary();
        FunctionTransform::transform(self, &mut buffer, event);
        output.replace_primary(buffer);
    }
}

/// A reference to an event inside a batch, to change the event.
pub enum EventMutRef<'a> {
    /// A log entry.
    Log(&'a mut LogEvent),
    /// A measurement.
    Metric(&'a mut Metric),
    /// A trace span.
    Trace(&'a mut TraceEvent),
}

/// What the schema definition of an event becomes on its way through an
/// output.
///
/// A log entry gets the definition for the output that it came through last.
/// Where it came through none, all definitions are alike, and it gets the
/// first. Any other event keeps its definition.
pub open spec fn runtime_definition(
    log: bool,
    upstream: Option<OutputName>,
    current: Arc<Definition>,
    definitions: Seq<(OutputId, Arc<Definition>)>,
) -> Arc<Definition> {
    if !log {
        current
    } else {
        match upstream {
            Some(parent) => match definition_for(definitions, parent) {
                Some(definition) => definition,
                None => current,
            },
            None => if definitions.len() > 0 {
                definitions[0].1
            } else {
                current
            },
        }
    }
}

/// What the metadata of an event become on its way through an output.
pub open spec fn runtime_metadata(
    log: bool,
    metadata: EventMetadata,
    output_id: Arc<OutputId>,
    definitions: Seq<(OutputId, Arc<Definition>)>,
) -> EventMetadata {
    EventMetadata {
        schema_definition: runtime_definition(
            log,
            metadata@.upstream_id,
            metadata.schema_definition,
            definitions,
        ),
        upstream_id: Some(output_id),
        ..metadata
    }
}

/// An event on its way through an output.
pub open spec fn passed(
    event: Event,
    output_id: Arc<OutputId>,
    definitions: Seq<(OutputId, Arc<Definition>)>,
) -> Event {
    event.replacing_metadata(
        runtime_metadata(event is Log, event.metadata_value(), output_id, definitions),
    )
}

/// Prepares an event for leaving through an output: says what a log entry now
/// looks like, and names the output as the one that the event came through
/// last.
pub fn update_runtime_schema_definition(
    event: EventMutRef<'_>,
    output_id: &Arc<OutputId>,
    log_schema_definitions: &Definitions,
)
    ensures
        match event {
            EventMutRef::Log(log) => Event::Log(*final(log)) == passed(
                Event::Log(*log),
                *output_id,
                log_schema_definitions@,
            ),
            EventMutRef::Metric(metric) => Event::Metric(*final(metric)) == passed(
                Event::Metric(*metric),
                *output_id,
                log_schema_definitions@,
            ),
            EventMutRef::Trace(trace) => Event::Trace(*final(trace)) == passed(
                Event::Trace(*trace),
                *output_id,
                log_schema_definitions@,
            ),
        },
{
    match event {
        EventMutRef::Log(log) => {
            let definition = match &log.metadata.upstream_id {
                Some(parent) => find_definition(log_schema_definitions, parent),
                None => if log_schema_definitions.len() > 0 {
                    Some(share(&log_schema_definitions[0].1))
                } else {
                    None
                },
            };
            if let Some(definition) = &definition {
                log.metadata.set_schema_definition(definition);
            }
            log.metadata.set_upstream_id(share(output_id));
        },
        EventMutRef::Metric(metric) => {
            metric.metadata.set_upstream_id(share(output_id));
        },
        EventMutRef::Trace(trace) => {
            trace.log.metadata.set_upstream_id(share(output_id));
        },
    }
}

} // verus!
