//! The events that flow through a pipeline.
//!
//! An [`Event`] is a log entry, a measurement or a trace span. Each carries its
//! data and, apart from it, its metadata: where it came from, what it is
//! expected to look like, and whom to tell what became of it.
pub mod array;
pub mod finalization;
pub mod json;
pub mod log_event;
pub mod metadata;
pub mod metric;
pub mod proto;
pub mod target;
pub mod time;
pub mod value;

use std::sync::Arc;
use vstd::prelude::*;

use crate::event::log_event::{LogEvent, TraceEvent};
use crate::event::metadata::{
    no_metadata, BatchNotifier, EventFinalizer, EventFinalizers, EventMetadata, MetadataModel,
};
use crate::event::metric::{metrics_equal, Metric, MetricModel};
use crate::event::value::{Value, ValueModel};
use crate::id::{ComponentKey, OutputId};

verus! {

/// The field that marks a log entry as a piece of a larger one.
pub const PARTIAL: &'static str = "_partial";

/// Where the information that a source adds to a log entry is put.
#[derive(Debug, Clone, Copy, PartialEq, Eq, Structural)]
pub enum LogNamespace {
    /// Among the fields of the entry.
    Legacy,
    /// Apart from the fields of the entry.
    Vector,
}

/// The data of an event, without its metadata.
pub ghost enum EventData {
    Log(ValueModel),
    Metric(MetricModel),
    Trace(ValueModel),
}

/// Whether two events have the same data.
pub open spec fn data_equal(a: EventData, b: EventData) -> bool {
    match (a, b) {
        (EventData::Log(x), EventData::Log(y)) => x == y,
        (EventData::Metric(x), EventData::Metric(y)) => metrics_equal(x, y),
        (EventData::Trace(x), EventData::Trace(y)) => x == y,
        _ => false,
    }
}

/// What an [`Event`] stands for: its data and its metadata.
pub ghost struct EventModel {
    pub data: EventData,
    pub metadata: MetadataModel,
}

/// One event of a pipeline.
#[derive(Debug)]
pub enum Event {
    /// A log entry.
    Log(LogEvent),
    /// A measurement.
    Metric(Metric),
    /// A span of a distributed trace.
    Trace(TraceEvent),
}

impl View for Event {
    type V = EventModel;

    open spec fn view(&self) -> EventModel {
        EventModel { data: self.data(), metadata: self.metadata_value()@ }
    }
}

impl Event {
    /// The data of the event.
    pub open spec fn data(self) -> EventData {
        match self {
            Event::Log(log) => EventData::Log(log.fields@),
            Event::Metric(metric) => EventData::Metric(metric.data()),
            Event::Trace(trace) => EventData::Trace(trace.log.fields@),
        }
    }

    /// The metadata of the event.
    pub open spec fn metadata_value(self) -> EventMetadata {
        match self {
            Event::Log(log) => log.metadata,
            Event::Metric(metric) => metric.metadata,
            Event::Trace(trace) => trace.log.metadata,
        }
    }

    /// The same event with other metadata.
    pub open spec fn replacing_metadata(self, metadata: EventMetadata) -> Event {
        match self {
            Event::Log(log) => Event::Log(LogEvent { metadata, ..log }),
            Event::Metric(metric) => Event::Metric(Metric { metadata, ..metric }),
            Event::Trace(trace) => Event::Trace(
                TraceEvent { log: LogEvent { metadata, ..trace.log } },
            ),
        }
    }

    /// The log entry that the event is.
    pub fn as_log(&self) -> (log: &LogEvent)
        requires
            self is Log,
        ensures
            *self == Event::Log(*log),
    {
        match self {
            Event::Log(log) => log,
            _ => vstd::pervasive::unreached(),
        }
    }

    /// The log entry that the event is, to be changed.
    pub fn as_mut_log(&mut self) -> (log: &mut LogEvent)
        requires
            *old(self) is Log,
        ensures
            *old(self) == Event::Log(*log),
            *final(self) == Event::Log(*final(log)),
    {
        match self {
            Event::Log(log) => log,
            _ => vstd::pervasive::unreached(),
        }
    }

    /// Takes the log entry out of the event.
    pub fn into_log(self) -> (log: LogEvent)
        requires
            self is Log,
        ensures
            self == Event::Log(log),
    {
        match self {
            Event::Log(log) => log,
            _ => vstd::pervasive::unreached(),
        }
    }

    /// Takes the log entry out of the event, where the event is one.
    pub fn try_into_log(self) -> (log: Option<LogEvent>)
        ensures
            match log {
                Some(log) => self == Event::Log(log),
                None => !(self is Log),
            },
    {
        match self {
            Event::Log(log) => Some(log),
            _ => None,
        }
    }

    /// The log entry that the event is, where the event is one.
    pub fn maybe_as_log(&self) -> (log: Option<&LogEvent>)
        ensures
            match log {
                Some(log) => *self == Event::Log(*log),
                None => !(self is Log),
            },
    {
        match self {
            Event::Log(log) => Some(log),
            _ => None,
        }
    }

    /// The measurement that the event is.
    pub fn as_metric(&self) -> (metric: &Metric)
        requires
            self is Metric,
        ensures
            *self == Event::Metric(*metric),
    {
        match self {
            Event::Metric(metric) => metric,
            _ => vstd::pervasive::unreached(),
        }
    }

    /// The measurement that the event is, to be changed.
    pub fn as_mut_metric(&mut self) -> (metric: &mut Metric)
        requires
            *old(self) is Metric,
        ensures
            *old(self) == Event::Metric(*metric),
            *final(self) == Event::Metric(*final(metric)),
    {
        match self {
            Event::Metric(metric) => metric,
            _ => vstd::pervasive::unreached(),
        }
    }

    /// Takes the measurement out of the event.
    pub fn into_metric(self) -> (metric: Metric)
        requires
            self is Metric,
        ensures
            self == Event::Metric(metric),
    {
        match self {
            Event::Metric(metric) => metric,
            _ => vstd::pervasive::unreached(),
        }
    }

    /// Takes the measurement out of the event, where the event is one.
    pub fn try_into_metric(self) -> (metric: Option<Metric>)
        ensures
            match metric {
                Some(metric) => self == Event::Metric(metric),
                None => !(self is Metric),
            },
    {
        match self {
            Event::Metric(metric) => Some(metric),
            _ => None,
        }
    }

    /// The trace span that the event is.
    pub fn as_trace(&self) -> (trace: &TraceEvent)
        requires
            self is Trace,
        ensures
            *self == Event::Trace(*trace),
    {
        match self {
            Event::Trace(trace) => trace,
            _ => vstd::pervasive::unreached(),
        }
    }

    /// The trace span that the event is, to be changed.
    pub fn as_mut_trace(&mut self) -> (trace: &mut TraceEvent)
        requires
            *old(self) is Trace,
        ensures
            *old(self) == Event::Trace(*trace),
            *final(self) == Event::Trace(*final(trace)),
    {
        match self {
            Event::Trace(trace) => trace,
            _ => vstd::pervasive::unreached(),
        }
    }

    /// Takes the trace span out of the event.
    pub fn into_trace(self) -> (trace: TraceEvent)
        requires
            self is Trace,
        ensures
            self == Event::Trace(trace),
    {
        match self {
            Event::Trace(trace) => trace,
            _ => vstd::pervasive::unreached(),
        }
    }

    /// Takes the trace span out of the event, where the event is one.
    pub fn try_into_trace(self) -> (trace: Option<TraceEvent>)
        ensures
            match trace {
                Some(trace) => self == Event::Trace(trace),
                None => !(self is Trace),
            },
    {
        match self {
            Event::Trace(trace) => Some(trace),
            _ => None,
        }
    }

    /// What travels with the event.
    pub fn metadata(&self) -> (metadata: &EventMetadata)
        ensures
            *metadata == self.metadata_value(),
    {
        match self {
            Event::Log(log) => &log.metadata,
            Event::Metric(metric) => &metric.metadata,
            Event::Trace(trace) => &trace.log.metadata,
        }
    }

    /// The metadata of the event, to be changed.
    pub fn metadata_mut(&mut self) -> (metadata: &mut EventMetadata)
        ensures
            *metadata == old(self).metadata_value(),
            *final(self) == old(self).replacing_metadata(*final(metadata)),
    {
        match self {
            Event::Log(log) => &mut log.metadata,
            Event::Metric(metric) => &mut metric.metadata,
            Event::Trace(trace) => &mut trace.log.metadata,
        }
    }

    /// Gives up the event but for its metadata.
    pub fn into_metadata(self) -> (metadata: EventMetadata)
        ensures
            metadata == self.metadata_value(),
    {
        match self {
            Event::Log(log) => log.metadata,
            Event::Metric(metric) => metric.metadata,
            Event::Trace(trace) => trace.log.metadata,
        }
    }

    /// Attaches a batch to the event: the batch is to be told what became of it.
    pub fn with_batch_notifier(self, batch: &BatchNotifier) -> (event: Self)
        ensures
            event.data() == self.data(),
            event@.metadata == (MetadataModel {
                finalizers: self@.metadata.finalizers.push(EventFinalizer { notifier: *batch }),
                ..self@.metadata
            }),
    {
        let mut event = self;
        event.add_batch_notifier(*batch);
        event
    }

    /// Attaches a batch to the event, where one is given.
    pub fn with_batch_notifier_option(self, batch: &Option<BatchNotifier>) -> (event: Self)
        ensures
            event.data() == self.data(),
            event@.metadata == (match *batch {
                Some(batch) => MetadataModel {
                    finalizers: self@.metadata.finalizers.push(EventFinalizer { notifier: batch }),
                    ..self@.metadata
                },
                None => self@.metadata,
            }),
    {
        match batch {
            Some(batch) => self.with_batch_notifier(batch),
            None => self,
        }
    }

    /// Attaches a batch to the event: the batch is to be told what became of it.
    pub fn add_batch_notifier(&mut self, batch: BatchNotifier)
        ensures
            final(self).data() == old(self).data(),
            final(self)@.metadata == (MetadataModel {
                finalizers: old(self)@.metadata.finalizers.push(EventFinalizer { notifier: batch }),
                ..old(self)@.metadata
            }),
    {
        let finalizer = EventFinalizer::new(batch);
        self.metadata_mut().add_finalizer(finalizer);
    }

    /// Takes the duties to report out of the event.
    pub fn take_finalizers(&mut self) -> (finalizers: EventFinalizers)
        ensures
            finalizers@ == old(self)@.metadata.finalizers,
            final(self).data() == old(self).data(),
            final(self)@.metadata == (MetadataModel {
                finalizers: Seq::empty(),
                ..old(self)@.metadata
            }),
    {
        self.metadata_mut().take_finalizers()
    }

    /// The source that made the event.
    pub fn source_id(&self) -> (id: Option<&Arc<ComponentKey>>)
        ensures
            id == (match self.metadata_value().source_id {
                Some(source) => Some(&source),
                None => None,
            }),
    {
        self.metadata().source_id()
    }

    /// Names the source that made the event.
    pub fn set_source_id(&mut self, source_id: Arc<ComponentKey>)
        ensures
            *final(self) == old(self).replacing_metadata(
                EventMetadata { source_id: Some(source_id), ..old(self).metadata_value() },
            ),
    {
        self.metadata_mut().set_source_id(source_id);
    }

    /// Names the output that the event came through last.
    pub fn set_upstream_id(&mut self, upstream_id: Arc<OutputId>)
        ensures
            *final(self) == old(self).replacing_metadata(
                EventMetadata { upstream_id: Some(upstream_id), ..old(self).metadata_value() },
            ),
    {
        self.metadata_mut().set_upstream_id(upstream_id);
    }

    /// Names the type of the source that made the event.
    pub fn set_source_type(&mut self, source_type: &str)
        ensures
            final(self).data() == old(self).data(),
            final(self)@.metadata == (MetadataModel {
                source_type: Some(source_type@),
                ..old(self)@.metadata
            }),
    {
        self.metadata_mut().set_source_type(source_type);
    }

    /// The event, with its source named.
    pub fn with_source_id(self, source_id: Arc<ComponentKey>) -> (event: Self)
        ensures
            event == self.replacing_metadata(
                EventMetadata { source_id: Some(source_id), ..self.metadata_value() },
            ),
    {
        let mut event = self;
        event.set_source_id(source_id);
        event
    }

    /// The event, with the type of its source named.
    pub fn with_source_type(self, source_type: &str) -> (event: Self)
        ensures
            event.data() == self.data(),
            event@.metadata == (MetadataModel {
                source_type: Some(source_type@),
                ..self@.metadata
            }),
    {
        let mut event = self;
        event.set_source_type(source_type);
        event
    }

    /// The event, with the output that it came through last named.
    pub fn with_upstream_id(self, upstream_id: Arc<OutputId>) -> (event: Self)
        ensures
            event == self.replacing_metadata(
                EventMetadata { upstream_id: Some(upstream_id), ..self.metadata_value() },
            ),
    {
        let mut event = self;
        event.set_upstream_id(upstream_id);
        event
    }

    /// The log event with the given JSON data.
    ///
    /// Any data becomes an event in the `Vector` namespace. The `Legacy`
    /// namespace takes objects only, and refuses anything else with a message.
    pub fn from_json_value(value: Value, log_namespace: LogNamespace) -> (event: Result<
        Self,
        String,
    >)
        ensures
            event is Ok <==> (log_namespace == LogNamespace::Vector || value is Object),
            event is Ok ==> event->Ok_0@ == (EventModel {
                data: EventData::Log(value@),
                metadata: no_metadata(),
            }),
            event is Err ==> event->Err_0@
                == "Attempted to convert non-Object JSON into an Event."@,
    {
        match log_namespace {
            LogNamespace::Vector => Ok(Event::Log(LogEvent::from_value(value))),
            LogNamespace::Legacy => match value {
                Value::Object(fields) => Ok(
                    Event::Log(LogEvent::from_value(Value::Object(fields))),
                ),
                _ => Err("Attempted to convert non-Object JSON into an Event.".to_owned()),
            },
        }
    }

    /// Whether two events have the same data, whatever their metadata.
    pub fn event_data_eq(&self, other: &Event) -> (same: bool)
        ensures
            same == data_equal(self.data(), other.data()),
    {
        match (self, other) {
            (Event::Log(a), Event::Log(b)) => a.event_data_eq(b),
            (Event::Metric(a), Event::Metric(b)) => a.event_data_eq(b),
            (Event::Trace(a), Event::Trace(b)) => a.event_data_eq(b),
            _ => false,
        }
    }

    /// Whether two events have the same data and the same metadata.
    pub fn same(&self, other: &Event) -> (same: bool)
        ensures
            same == (data_equal(self.data(), other.data()) && self@.metadata == other@.metadata),
    {
        self.event_data_eq(other) && self.metadata().same(other.metadata())
    }

    /// How many events this is.
    pub fn event_count(&self) -> (count: usize)
        ensures
            count == 1,
    {
        1
    }
}

impl Clone for Event {
    fn clone(&self) -> (copy: Self)
        ensures
            copy@ == self@,
    {
        match self {
            Event::Log(log) => Event::Log(log.clone()),
            Event::Metric(metric) => Event::Metric(metric.clone()),
            Event::Trace(trace) => Event::Trace(trace.clone()),
        }
    }
}

impl From<LogEvent> for Event {
    fn from(log: LogEvent) -> (event: Self) {
        Event::Log(log)
    }
}

impl vstd::std_specs::convert::FromSpecImpl<LogEvent> for Event {
    open spec fn obeys_from_spec() -> bool {
        true
    }

    open spec fn from_spec(log: LogEvent) -> Event {
        Event::Log(log)
    }
}

impl From<Metric> for Event {
    fn from(metric: Metric) -> (event: Self) {
        Event::Metric(metric)
    }
}

impl vstd::std_specs::convert::FromSpecImpl<Metric> for Event {
    open spec fn obeys_from_spec() -> bool {
        true
    }

    open spec fn from_spec(metric: Metric) -> Event {
        Event::Metric(metric)
    }
}

impl From<TraceEvent> for Event {
    fn from(trace: TraceEvent) -> (event: Self) {
        Event::Trace(trace)
    }
}

impl vstd::std_specs::convert::FromSpecImpl<TraceEvent> for Event {
    open spec fn obeys_from_spec() -> bool {
        true
    }

    open spec fn from_spec(trace: TraceEvent) -> Event {
        Event::Trace(trace)
    }
}

/// What may be a log entry that can be changed.
pub trait MaybeAsLogMut {
    /// The log entry that this is, where it is one.
    fn maybe_as_log_mut(&mut self) -> Option<&mut LogEvent>;
}

impl MaybeAsLogMut for Event {
    fn maybe_as_log_mut(&mut self) -> (log: Option<&mut LogEvent>)
        ensures
            log is Some <==> *old(self) is Log,
            log matches Some(log) ==> *old(self) == Event::Log(*log) && *final(self) == Event::Log(
                *final(log),
            ),
            log is None ==> *final(self) == *old(self),
    {
        match self {
            Event::Log(log) => Some(log),
            _ => None,
        }
    }
}

/// What a list of events stands for.
pub open spec fn models(events: Seq<Event>) -> Seq<EventModel> {
    Seq::new(events.len(), |i: int| events[i]@)
}

/// Events have the same data where they are of one type and their data are the
/// same, whatever travels with them.
pub proof fn events_are_compared_by_data(a: &Event, b: &Event, same: bool)
    requires
        call_ensures(Event::event_data_eq, (a, b), same),
    ensures
        match (*a, *b) {
            (Event::Log(log), Event::Log(other)) => same <==> log.fields@ == other.fields@,
            (Event::Trace(trace), Event::Trace(other)) => same <==> trace.log.fields@
                == other.log.fields@,
            (Event::Metric(metric), Event::Metric(other)) => same ==> metric.name@ == other.name@
                && metric.timestamp == other.timestamp && metric.kind == other.kind,
            _ => !same,
        },
{
}

/// What travels with an event is asked for and changed without a change to its
/// data.
pub proof fn data_stay_when_events_are_marked(
    a: &mut Event,
    source: Arc<ComponentKey>,
    b: &mut Event,
    upstream: Arc<OutputId>,
    c: &mut Event,
    batch: BatchNotifier,
)
    requires
        call_ensures(Event::set_source_id, (a, source), ()),
        call_ensures(Event::set_upstream_id, (b, upstream), ()),
        call_ensures(Event::add_batch_notifier, (c, batch), ()),
    ensures
        match (*old(a), *final(a)) {
            (Event::Log(log), Event::Log(marked)) => marked == (LogEvent {
                metadata: EventMetadata { source_id: Some(source), ..log.metadata },
                ..log
            }),
            (Event::Metric(metric), Event::Metric(marked)) => marked == (Metric {
                metadata: EventMetadata { source_id: Some(source), ..metric.metadata },
                ..metric
            }),
            (Event::Trace(trace), Event::Trace(marked)) => marked.log == (LogEvent {
                metadata: EventMetadata { source_id: Some(source), ..trace.log.metadata },
                ..trace.log
            }),
            _ => false,
        },
        match (*old(b), *final(b)) {
            (Event::Log(log), Event::Log(marked)) => marked == (LogEvent {
                metadata: EventMetadata { upstream_id: Some(upstream), ..log.metadata },
                ..log
            }),
            (Event::Metric(metric), Event::Metric(marked)) => marked == (Metric {
                metadata: EventMetadata { upstream_id: Some(upstream), ..metric.metadata },
                ..metric
            }),
            (Event::Trace(trace), Event::Trace(marked)) => marked.log == (LogEvent {
                metadata: EventMetadata { upstream_id: Some(upstream), ..trace.log.metadata },
                ..trace.log
            }),
            _ => false,
        },
        match (*old(c), *final(c)) {
            (Event::Log(log), Event::Log(marked)) => marked.fields@ == log.fields@
                && marked.metadata.finalizers.finalizers@ == log.metadata.finalizers.finalizers@.push(
                EventFinalizer { notifier: batch },
            ),
            (Event::Metric(metric), Event::Metric(marked)) => marked.value@ == metric.value@
                && marked.name@ == metric.name@ && marked.kind == metric.kind && marked.timestamp
                == metric.timestamp && marked.metadata.finalizers.finalizers@
                == metric.metadata.finalizers.finalizers@.push(EventFinalizer { notifier: batch }),
            (Event::Trace(trace), Event::Trace(marked)) => marked.log.fields@ == trace.log.fields@
                && marked.log.metadata.finalizers.finalizers@
                == trace.log.metadata.finalizers.finalizers@.push(EventFinalizer { notifier: batch }),
            _ => false,
        },
{
    assert(final(c)@.metadata.finalizers == old(c)@.metadata.finalizers.push(
        EventFinalizer { notifier: batch },
    ));
    assert(final(c)@.metadata.finalizers == final(c).metadata_value().finalizers@);
    assert(old(c)@.metadata.finalizers == old(c).metadata_value().finalizers@);
}

/// Duties are handed over by the event that carried them, and its data stay.
pub proof fn events_hand_over_their_duties(event: &mut Event, taken: EventFinalizers)
    requires
        call_ensures(Event::take_finalizers, (event,), taken),
    ensures
        match (*old(event), *final(event)) {
            (Event::Log(log), Event::Log(left)) => taken.finalizers@
                == log.metadata.finalizers.finalizers@ && left.metadata.finalizers.finalizers@.len() == 0
                && left.fields@ == log.fields@,
            (Event::Metric(metric), Event::Metric(left)) => taken.finalizers@
                == metric.metadata.finalizers.finalizers@
                && left.metadata.finalizers.finalizers@.len() == 0 && left.value@ == metric.value@
                && left.name@ == metric.name@,
            (Event::Trace(trace), Event::Trace(left)) => taken.finalizers@
                == trace.log.metadata.finalizers.finalizers@
                && left.log.metadata.finalizers.finalizers@.len() == 0 && left.log.fields@
                == trace.log.fields@,
            _ => false,
        },
{
    assert(final(event)@.metadata.finalizers == final(event).metadata_value().finalizers@);
    assert(final(event)@.metadata.finalizers.len() == 0);
    assert(old(event)@.metadata.finalizers == old(event).metadata_value().finalizers@);
}

/// Any data make an entry in the Vector namespace, and named fields alone in the
/// legacy one. The entry has these data and nothing that travels with it.
pub proof fn entries_are_made_of_data(
    value: Value,
    namespace: LogNamespace,
    event: Result<Event, String>,
)
    requires
        call_ensures(Event::from_json_value, (value, namespace), event),
    ensures
        event is Ok <==> namespace is Vector || value is Object,
        event matches Ok(made) ==> made matches Event::Log(log) && log.fields@ == value@
            && log.metadata.source_id is None && log.metadata.upstream_id is None
            && log.metadata.source_type is None && log.metadata.finalizers.finalizers@.len() == 0,
{
    if event is Ok {
        let made = event->Ok_0;
        assert(made@.metadata.finalizers == made.metadata_value().finalizers@);
        assert(made@.metadata == no_metadata());
        assert(made@.data == made.data());
    }
}

/// Two events are the same where their data and what travels with them are.
pub proof fn events_are_compared_with_what_travels_with_them(
    a: &Event,
    b: &Event,
    same: bool,
    same_data: bool,
)
    requires
        call_ensures(Event::same, (a, b), same),
        call_ensures(Event::event_data_eq, (a, b), same_data),
    ensures
        same ==> same_data,
        same ==> match (*a, *b) {
            (Event::Log(log), Event::Log(other)) => log.metadata@ == other.metadata@,
            (Event::Metric(metric), Event::Metric(other)) => metric.metadata@ == other.metadata@,
            (Event::Trace(trace), Event::Trace(other)) => trace.log.metadata@ == other.log.metadata@,
            _ => false,
        },
        same_data && a.metadata_value()@ == b.metadata_value()@ ==> same,
{
}

/// What travels with an event is what the entry, the measurement or the span
/// that it is has with it.
pub proof fn metadata_are_those_of_the_event(event: &Event, metadata: &EventMetadata)
    requires
        call_ensures(Event::metadata, (event,), metadata),
    ensures
        match *event {
            Event::Log(log) => *metadata == log.metadata,
            Event::Metric(metric) => *metadata == metric.metadata,
            Event::Trace(trace) => *metadata == trace.log.metadata,
        },
{
}

} // verus!
