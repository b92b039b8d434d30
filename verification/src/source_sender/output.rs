//! One output of a source.
use std::sync::Arc;
use vstd::prelude::*;

use crate::config::source::Duration;
use crate::event::array::{
    chunked, chunks_are_well_formed, chunks_end_late, chunks_hold_all_events, chunks_of,
    events_into_arrays, holds_at, same_type, size_before, size_of, stands_at, unchunked,
    unchunked_by_size, EventArray, EventRef,
};
use crate::event::metadata::EventMetadata;
use crate::event::metric::{Float64, Metric};
use crate::event::value::{field_of, Value, ValueModel};
use crate::event::Event;
use crate::id::{port_text, OutputId};
use crate::schema::{share, Definition};
use crate::source_sender::{SendError, CHUNK_SIZE};

verus! {

/// What is to be told of events that were not sent.
#[derive(Debug, Clone, Copy, PartialEq, Eq, Structural)]
pub enum Unsent {
    /// Sending this many events timed out.
    TimedOut(usize),
    /// Sending was broken off with this many events left.
    Dropped(usize),
}

/// Counts the events of a batch that have not been sent yet.
///
/// Sending can be broken off at any time. The count says how many events are
/// lost then.
#[derive(Debug, Clone, Copy, PartialEq, Eq, Structural)]
pub struct UnsentEventCount {
    /// The events that are left.
    pub count: usize,
}

impl UnsentEventCount {
    /// None of this many events has been sent.
    pub fn new(count: usize) -> (unsent: Self)
        ensures
            unsent.count == count,
    {
        UnsentEventCount { count }
    }

    /// This many events have been sent.
    pub fn decr(&mut self, count: usize)
        ensures
            final(self).count == if old(self).count >= count {
                old(self).count - count
            } else {
                0
            },
    {
        self.count = self.count.saturating_sub(count);
    }

    /// The events that are left are told of elsewhere.
    pub fn discard(&mut self)
        ensures
            final(self).count == 0,
    {
        self.count = 0;
    }

    /// Sending timed out: tells of the events that are left.
    pub fn timed_out(&mut self) -> (told: Unsent)
        ensures
            told == Unsent::TimedOut(old(self).count),
            final(self).count == 0,
    {
        let told = Unsent::TimedOut(self.count);
        self.count = 0;
        told
    }

    /// Sending is over: tells of the events that are left, if there are any.
    pub fn finish(self) -> (told: Option<Unsent>)
        ensures
            told == if self.count > 0 {
                Some(Unsent::Dropped(self.count))
            } else {
                None::<Unsent>
            },
    {
        if self.count > 0 {
            Some(Unsent::Dropped(self.count))
        } else {
            None
        }
    }

    /// Takes in what came of sending some of the events as part of a batch.
    ///
    /// Where the channel is closed, the sender of the batch tells of it.
    pub fn settle_batch(&mut self, count: usize, outcome: Result<(), SendError>) -> (told: Option<
        Unsent,
    >)
        ensures
            match outcome {
                Ok(_) => told is None && final(self).count == if old(self).count >= count {
                    old(self).count - count
                } else {
                    0
                },
                Err(SendError::Timeout) => told == Some(Unsent::TimedOut(old(self).count))
                    && final(self).count == 0,
                Err(SendError::Closed) => told is None && final(self).count == 0,
            },
    {
        match outcome {
            Ok(_) => {
                self.decr(count);
                None
            },
            Err(SendError::Timeout) => Some(self.timed_out()),
            Err(SendError::Closed) => {
                self.discard();
                None
            },
        }
    }

    /// Takes in what came of sending all the events at once.
    ///
    /// Where the channel is closed, the events stay counted, and are told of
    /// when sending is over.
    pub fn settle_event(&mut self, outcome: Result<(), SendError>) -> (told: Option<Unsent>)
        ensures
            match outcome {
                Ok(_) => told is None && final(self).count == 0,
                Err(SendError::Timeout) => told == Some(Unsent::TimedOut(old(self).count))
                    && final(self).count == 0,
                Err(SendError::Closed) => told is None && final(self).count == old(self).count,
            },
    {
        match outcome {
            Ok(_) => {
                let count: usize = self.count;
                self.decr(count);
                None
            },
            Err(SendError::Timeout) => Some(self.timed_out()),
            Err(SendError::Closed) => None,
        }
    }
}

/// The channel that an output sends into.
#[derive(Debug)]
pub struct ChannelSpec {
    /// How many events the channel holds before it makes senders wait.
    pub max_events: usize,
    /// The name of the output in metrics.
    pub output: String,
    /// How fast the measured use of the channel forgets, in seconds.
    pub ewma_half_life_seconds: Option<Float64>,
}

/// One output of a source.
#[derive(Debug)]
pub struct Output {
    /// Whether it is measured how old events are when they are sent.
    pub lag_time: bool,
    /// The name under which the output's events are counted.
    pub events_sent: String,
    /// What the events look like, where that is known.
    pub log_definition: Option<Arc<Definition>>,
    /// What identifies the output.
    pub id: Arc<OutputId>,
    /// How long sending may take.
    pub timeout: Option<Duration>,
}

/// What the metadata of an event become when it is sent through an output.
pub open spec fn sent_metadata(
    metadata: EventMetadata,
    id: Arc<OutputId>,
    definition: Option<Arc<Definition>>,
) -> EventMetadata {
    EventMetadata {
        schema_definition: match definition {
            Some(known) => known,
            None => metadata.schema_definition,
        },
        upstream_id: Some(id),
        ..metadata
    }
}

/// An event as it is sent through an output.
pub open spec fn sent_event(
    event: Event,
    id: Arc<OutputId>,
    definition: Option<Arc<Definition>>,
) -> Event {
    event.replacing_metadata(sent_metadata(event.metadata_value(), id, definition))
}

/// Events as they are sent through an output.
pub open spec fn sent_events(
    events: Seq<Event>,
    id: Arc<OutputId>,
    definition: Option<Arc<Definition>>,
) -> Seq<Event> {
    Seq::new(events.len(), |i: int| sent_event(events[i], id, definition))
}

/// The time that an event gives for itself, in milliseconds: that of a
/// measurement, or what the field for it holds, where that is a point in time.
pub open spec fn event_time(event: Event, timestamp_key: Option<Seq<char>>) -> Option<int> {
    match (event, timestamp_key) {
        (Event::Metric(metric), _) => match metric.timestamp {
            Some(time) => Some(time.milliseconds()),
            None => None,
        },
        (Event::Log(log), Some(key)) => time_field(field_of(log.fields@, key)),
        (Event::Trace(trace), Some(key)) => time_field(field_of(trace.log.fields@, key)),
        _ => None,
    }
}

/// The milliseconds of the point in time that a field holds.
pub open spec fn time_field(value: Option<ValueModel>) -> Option<int> {
    match value {
        Some(ValueModel::Timestamp(time)) => Some(time.milliseconds()),
        _ => None,
    }
}

/// The milliseconds of a point in time.
pub fn get_timestamp_millis(value: &Value) -> (millis: Option<i64>)
    ensures
        match (time_field(Some(value@)), millis) {
            (Some(expected), Some(found)) => found == expected,
            (None, None) => true,
            _ => false,
        },
{
    match value {
        Value::Timestamp(time) => Some(time.timestamp_millis()),
        _ => None,
    }
}

impl Output {
    /// An output and the channel that it sends into.
    pub fn new_with_buffer(
        n: usize,
        output: String,
        lag_time: bool,
        log_definition: Option<Arc<Definition>>,
        output_id: OutputId,
        timeout: Option<Duration>,
        ewma_half_life_seconds: Option<Float64>,
    ) -> (made: (Self, ChannelSpec))
        requires
            n > 0,
        ensures
            made.0.lag_time == lag_time,
            made.0.events_sent == output,
            made.0.log_definition == log_definition,
            *made.0.id == output_id,
            made.0.timeout == timeout,
            made.1 == (ChannelSpec { max_events: n, output, ewma_half_life_seconds }),
    {
        (
            Output {
                lag_time,
                events_sent: output.clone(),
                log_definition,
                id: Arc::new(output_id),
                timeout,
            },
            ChannelSpec { max_events: n, output, ewma_half_life_seconds },
        )
    }

    /// Marks an event with the output that it leaves through, and says what it
    /// looks like, where that is known.
    fn mark(&self, event: &mut Event)
        ensures
            *final(event) == sent_event(*old(event), self.id, self.log_definition),
    {
        let metadata = event.metadata_mut();
        if let Some(definition) = &self.log_definition {
            metadata.set_schema_definition(definition);
        }
        metadata.set_upstream_id(share(&self.id));
    }

    /// Makes a batch ready to be sent: marks each event with the output, and
    /// says what it looks like, where that is known.
    pub fn prepare(&self, events: EventArray) -> (prepared: EventArray)
        ensures
            prepared.events() == sent_events(events.events(), self.id, self.log_definition),
    {
        let ghost given = events.events();
        let ghost wanted = sent_events(given, self.id, self.log_definition);
        let mut prepared = events.empty_like();
        assert forall|i: int| 0 <= i < given.len() implies prepared.accepts(#[trigger] given[i]) by {
            assert(events.accepts(given[i]));
        }
        assert(prepared.events() =~= wanted.take(0));
        let list = events.into_events();
        for event in iter: list
            invariant
                iter.seq() == given,
                wanted == sent_events(given, self.id, self.log_definition),
                forall|i: int| 0 <= i < given.len() ==> prepared.accepts(#[trigger] given[i]),
                prepared.events() == wanted.take(iter.index()),
        {
            let ghost index = iter.index();
            assert(prepared.accepts(given[index]));
            let mut event = event;
            self.mark(&mut event);
            prepared.push(event);
            assert(prepared.events() =~= wanted.take(index + 1));
        }
        assert(wanted.take(given.len() as int) =~= wanted);
        prepared
    }

    /// How old an event is at the given time, in milliseconds, where that is to
    /// be measured and the event says when it was made.
    pub fn lag_millis(&self, event: &EventRef<'_>, reference: i64, timestamp_key: &Option<String>) -> (lag: Option<
        i128,
    >)
        ensures
            match (self.lag_time, event_time(event.event(), port_text(*timestamp_key))) {
                (true, Some(timestamp)) => lag is Some && lag->0 == reference - timestamp,
                _ => lag is None,
            },
    {
        if !self.lag_time {
            return None;
        }
        let timestamp: Option<i64> = match event {
            EventRef::Metric(metric) => match metric.timestamp {
                Some(time) => Some(time.timestamp_millis()),
                None => None,
            },
            EventRef::Log(log) => match timestamp_key {
                None => None,
                Some(key) => match log.get(key.as_str()) {
                    Some(value) => get_timestamp_millis(value),
                    None => None,
                },
            },
            EventRef::Trace(trace) => match timestamp_key {
                None => None,
                Some(key) => match trace.log.get(key.as_str()) {
                    Some(value) => get_timestamp_millis(value),
                    None => None,
                },
            },
        };
        match timestamp {
            Some(time) => Some(reference as i128 - time as i128),
            None => None,
        }
    }

    /// Makes one batch, as it is, ready to be sent.
    pub fn send_event(&self, events: EventArray) -> (pending: Pending)
        ensures
            chunks_of(pending.arrays@) == seq![
                sent_events(events.events(), self.id, self.log_definition),
            ],
            pending.unsent.count == events.events().len(),
            pending.timeout == self.timeout,
    {
        let unsent = UnsentEventCount::new(events.len());
        let prepared = self.prepare(events);
        let mut arrays: Vec<EventArray> = Vec::new();
        arrays.push(prepared);
        assert(chunks_of(arrays@) =~= seq![
            sent_events(events.events(), self.id, self.log_definition),
        ]);
        Pending { arrays, unsent, timeout: self.timeout }
    }

    /// Makes events ready to be sent, in batches of one type and a limited
    /// length.
    pub fn send_batch(&self, events: Vec<Event>) -> (pending: Pending)
        ensures
            chunks_of(pending.arrays@) == sent_chunks(
                chunked(events@, CHUNK_SIZE as nat),
                self.id,
                self.log_definition,
            ),
            pending.unsent.count == events@.len(),
            pending.timeout == self.timeout,
    {
        let unsent = UnsentEventCount::new(events.len());
        let chunks = events_into_arrays(events, Some(CHUNK_SIZE));
        let ghost all = chunks@;
        let ghost wanted = sent_chunks(chunks_of(all), self.id, self.log_definition);
        let mut arrays: Vec<EventArray> = Vec::new();
        assert(chunks_of(arrays@) =~= wanted.take(0));
        for chunk in iter: chunks
            invariant
                iter.seq() == all,
                wanted == sent_chunks(chunks_of(all), self.id, self.log_definition),
                chunks_of(arrays@) == wanted.take(iter.index()),
        {
            let ghost index = iter.index();
            let ghost held = chunks_of(arrays@);
            assert(chunks_of(all)[index] == chunk.events());
            arrays.push(self.prepare(chunk));
            assert(chunks_of(arrays@) =~= held.push(wanted[index]));
            assert(chunks_of(arrays@) =~= wanted.take(index + 1));
        }
        assert(wanted.take(all.len() as int) =~= wanted);
        Pending { arrays, unsent, timeout: self.timeout }
    }
}

/// Batches as they are sent through an output.
pub open spec fn sent_chunks(
    chunks: Seq<Seq<Event>>,
    id: Arc<OutputId>,
    definition: Option<Arc<Definition>>,
) -> Seq<Seq<Event>> {
    Seq::new(chunks.len(), |i: int| sent_events(chunks[i], id, definition))
}

/// Batches that are ready to be sent, one after the other.
#[derive(Debug)]
pub struct Pending {
    /// The batches.
    pub arrays: Vec<EventArray>,
    /// The events that have not been sent yet.
    pub unsent: UnsentEventCount,
    /// How long sending a batch may take.
    pub timeout: Option<Duration>,
}

/// What is sent of events in batches is what is sent of them one by one, in
/// order.
pub proof fn batches_send_all_events(
    events: Seq<Event>,
    id: Arc<OutputId>,
    definition: Option<Arc<Definition>>,
)
    ensures
        unchunked(sent_chunks(chunked(events, CHUNK_SIZE as nat), id, definition)) == sent_events(
            events,
            id,
            definition,
        ),
{
    chunks_hold_all_events(events, CHUNK_SIZE as nat);
    sent_chunks_unchunked(chunked(events, CHUNK_SIZE as nat), id, definition);
}

proof fn sent_chunks_unchunked(
    chunks: Seq<Seq<Event>>,
    id: Arc<OutputId>,
    definition: Option<Arc<Definition>>,
)
    ensures
        unchunked(sent_chunks(chunks, id, definition)) == sent_events(
            unchunked(chunks),
            id,
            definition,
        ),
    decreases chunks.len(),
{
    let sent = sent_chunks(chunks, id, definition);
    if chunks.len() == 0 {
        assert(unchunked(sent) =~= sent_events(unchunked(chunks), id, definition));
    } else {
        sent_chunks_unchunked(chunks.drop_last(), id, definition);
        assert(sent.drop_last() =~= sent_chunks(chunks.drop_last(), id, definition));
        assert(sent_events(unchunked(chunks), id, definition) =~= sent_events(
            unchunked(chunks.drop_last()),
            id,
            definition,
        ) + sent_events(chunks.last(), id, definition));
    }
}

/// No batch that is sent is empty or too long, and all its events are of one
/// type.
pub proof fn sent_batches_are_well_formed(
    events: Seq<Event>,
    id: Arc<OutputId>,
    definition: Option<Arc<Definition>>,
)
    ensures
        forall|i: int|
            0 <= i < sent_chunks(chunked(events, CHUNK_SIZE as nat), id, definition).len() ==> {
                let batch = #[trigger] sent_chunks(
                    chunked(events, CHUNK_SIZE as nat),
                    id,
                    definition,
                )[i];
                &&& 0 < batch.len() <= CHUNK_SIZE
                &&& forall|j: int| 0 <= j < batch.len() ==> same_type(batch[0], #[trigger] batch[j])
            },
{
    let chunks = chunked(events, CHUNK_SIZE as nat);
    chunks_are_well_formed(events, CHUNK_SIZE as nat);
    let sent = sent_chunks(chunks, id, definition);
    assert forall|i: int| 0 <= i < sent.len() implies {
        let batch = #[trigger] sent[i];
        &&& 0 < batch.len() <= CHUNK_SIZE
        &&& forall|j: int| 0 <= j < batch.len() ==> same_type(batch[0], #[trigger] batch[j])
    } by {
        let batch = sent[i];
        assert(0 < chunks[i].len() <= CHUNK_SIZE);
        assert forall|j: int| 0 <= j < batch.len() implies same_type(batch[0], #[trigger] batch[j]) by {
            assert(same_type(chunks[i][0], chunks[i][j]));
        }
    }
}

/// The events that are left of a batch after the first batches have been sent.
pub open spec fn left_after(total: nat, chunks: Seq<Seq<Event>>, sent: nat) -> int
    decreases sent,
{
    if sent == 0 {
        total as int
    } else {
        left_after(total, chunks, (sent - 1) as nat) - chunks[sent - 1].len()
    }
}

/// Of the events of a batch, just those are left that have not been sent, and
/// none is once all batches have been.
pub proof fn unsent_events_are_those_left(events: Seq<Event>, max: nat, sent: nat)
    requires
        sent <= chunked(events, max).len(),
    ensures
        left_after(events.len(), chunked(events, max), sent) == events.len() - unchunked(
            chunked(events, max).take(sent as int),
        ).len(),
        sent == chunked(events, max).len() ==> left_after(
            events.len(),
            chunked(events, max),
            sent,
        ) == 0,
    decreases sent,
{
    let chunks = chunked(events, max);
    chunks_hold_all_events(events, max);
    if sent > 0 {
        unsent_events_are_those_left(events, max, (sent - 1) as nat);
        assert(chunks.take(sent as int).drop_last() =~= chunks.take(sent - 1));
        assert(chunks.take(sent as int).last() == chunks[sent - 1]);
    }
    if sent == chunks.len() {
        assert(chunks.take(sent as int) =~= chunks);
    }
}

/// Whether metadata are what others become when an event leaves through an
/// output: they name the output, and say what the event looks like where that is
/// known.
pub open spec fn marked(before: EventMetadata, after: EventMetadata, output: Output) -> bool {
    &&& after.upstream_id == Some(output.id)
    &&& output.log_definition is Some ==> after.schema_definition == output.log_definition->0
    &&& output.log_definition is None ==> after.schema_definition == before.schema_definition
    &&& after.source_id == before.source_id
    &&& after.source_type == before.source_type
    &&& after.finalizers == before.finalizers
}

/// Whether an event is what another becomes when it leaves through an output:
/// only its metadata change.
pub open spec fn leaves_as(before: Event, after: Event, output: Output) -> bool {
    match (before, after) {
        (Event::Log(log), Event::Log(sent)) => sent.fields == log.fields && marked(
            log.metadata,
            sent.metadata,
            output,
        ),
        (Event::Metric(metric), Event::Metric(sent)) => sent == (Metric {
            metadata: sent.metadata,
            ..metric
        }) && marked(metric.metadata, sent.metadata, output),
        (Event::Trace(trace), Event::Trace(sent)) => sent.log.fields == trace.log.fields && marked(
            trace.log.metadata,
            sent.log.metadata,
            output,
        ),
        _ => false,
    }
}

/// An event that is sent leaves through the output.
proof fn sent_leaves(event: Event, output: Output)
    ensures
        leaves_as(event, sent_event(event, output.id, output.log_definition), output),
{
}

/// Whether a batch holds at a place what an event becomes when it leaves through
/// an output.
pub open spec fn holds_sent(array: EventArray, place: int, event: Event, output: Output) -> bool {
    exists|sent: Event| #[trigger]
        holds_at(array, place, sent) && leaves_as(event, sent, output)
}

/// A batch leaves through an output event by event, each marked with the output.
pub proof fn events_are_marked(
    output: &Output,
    events: EventArray,
    prepared: EventArray,
    place: int,
    event: Event,
)
    requires
        call_ensures(Output::prepare, (output, events), prepared),
    ensures
        size_of(prepared) == size_of(events),
        0 <= place < size_of(events) && holds_at(events, place, event) ==> holds_sent(
            prepared,
            place,
            event,
            *output,
        ),
{
    let sent = sent_events(events.events(), output.id, output.log_definition);
    assert(prepared.events().len() == sent.len());
    if 0 <= place < size_of(events) && holds_at(events, place, event) {
        assert(events.events()[place] == event);
        assert(prepared.events()[place] == sent[place]);
        sent_leaves(event, *output);
        assert(holds_at(prepared, place, sent[place]));
    }
}

/// Whether batches hold events in order, without loss, as they leave through an
/// output.
pub open spec fn sends_all(arrays: Seq<EventArray>, events: Seq<Event>, output: Output) -> bool {
    &&& size_before(arrays, arrays.len() as int) == events.len()
    &&& forall|i: int, j: int|
        0 <= i < arrays.len() && 0 <= j < size_of(arrays[i]) ==> #[trigger] holds_sent(
            arrays[i],
            j,
            events[size_before(arrays, i) + j],
            output,
        )
}

/// Chunks that are sent hold all events.
pub proof fn chunks_send_all(output: &Output, events: Seq<Event>, arrays: Seq<EventArray>)
    requires
        chunks_of(arrays) == sent_chunks(
            chunked(events, CHUNK_SIZE as nat),
            output.id,
            output.log_definition,
        ),
    ensures
        sends_all(arrays, events, *output),
{
    let sent = sent_events(events, output.id, output.log_definition);
    batches_send_all_events(events, output.id, output.log_definition);
    unchunked_by_size(arrays, arrays.len() as int);
    assert(arrays.take(arrays.len() as int) =~= arrays);
    assert(unchunked(chunks_of(arrays)) == sent);
    assert forall|i: int, j: int|
        0 <= i < arrays.len() && 0 <= j < size_of(arrays[i]) implies #[trigger] holds_sent(
        arrays[i],
        j,
        events[size_before(arrays, i) + j],
        *output,
    ) by {
        let place = size_before(arrays, i) + j;
        assert(stands_at(unchunked(chunks_of(arrays)), place, arrays[i].events()[j]));
        sent_leaves(events[place], *output);
        assert(holds_at(arrays[i], j, sent[place]));
    }
}

/// What is to be sent of events holds them all in order, each marked with the
/// output, and none has been sent yet.
pub proof fn batches_leave_in_order(output: &Output, events: Vec<Event>, pending: Pending)
    requires
        call_ensures(Output::send_batch, (output, events), pending),
    ensures
        sends_all(pending.arrays@, events@, *output),
        pending.unsent.count == events@.len(),
        pending.timeout == output.timeout,
{
    chunks_send_all(output, events@, pending.arrays@);
}

/// Events are sent together for as long as they are of one type, but never more
/// than a thousand of them, and no batch is empty.
pub proof fn batches_leave_full(output: &Output, events: Vec<Event>, pending: Pending)
    requires
        call_ensures(Output::send_batch, (output, events), pending),
    ensures
        forall|i: int|
            0 <= i < pending.arrays@.len() ==> 0 < size_of(#[trigger] pending.arrays@[i]) <= 1000,
        forall|i: int|
            #![trigger pending.arrays@[i]]
            0 <= i < pending.arrays@.len() - 1 && size_of(pending.arrays@[i]) < 1000 ==> match (
                pending.arrays@[i],
                pending.arrays@[i + 1],
            ) {
                (EventArray::Logs(_), EventArray::Logs(_)) => false,
                (EventArray::Metrics(_), EventArray::Metrics(_)) => false,
                (EventArray::Traces(_), EventArray::Traces(_)) => false,
                _ => true,
            },
{
    let arrays = pending.arrays@;
    let chunks = chunked(events@, CHUNK_SIZE as nat);
    chunks_are_well_formed(events@, CHUNK_SIZE as nat);
    chunks_end_late(events@, CHUNK_SIZE as nat);
    let leaving = sent_chunks(chunks, output.id, output.log_definition);
    assert(chunks_of(arrays).len() == leaving.len());
    assert forall|i: int| 0 <= i < arrays.len() implies {
        let sent = sent_events(chunks[i], output.id, output.log_definition);
        0 < size_of(#[trigger] arrays[i]) <= 1000 && arrays[i].events() == sent && size_of(
            arrays[i],
        ) == chunks[i].len()
    } by {
        assert(chunks_of(arrays)[i] == arrays[i].events());
        assert(leaving[i].len() == chunks[i].len());
    }
    assert forall|i: int|
        #![trigger arrays[i]]
        0 <= i < arrays.len() - 1 && size_of(arrays[i]) < 1000 implies match (
        arrays[i],
        arrays[i + 1],
    ) {
        (EventArray::Logs(_), EventArray::Logs(_)) => false,
        (EventArray::Metrics(_), EventArray::Metrics(_)) => false,
        (EventArray::Traces(_), EventArray::Traces(_)) => false,
        _ => true,
    } by {
        let last = chunks[i].last();
        let first = chunks[i + 1][0];
        assert(size_of(arrays[i + 1]) > 0);
        assert(!same_type(last, first));
        sent_leaves(last, *output);
        sent_leaves(first, *output);
        assert(arrays[i].events().last() == sent_event(last, output.id, output.log_definition));
        assert(arrays[i + 1].events()[0] == sent_event(first, output.id, output.log_definition));
    }
}

/// Where it is to be measured how old measurements are, the milliseconds between
/// the two times are told.
pub proof fn measurements_tell_their_age(
    output: &Output,
    metric: &Metric,
    reference: i64,
    timestamp_key: &Option<String>,
    lag: Option<i128>,
)
    requires
        call_ensures(
            Output::lag_millis,
            (output, &EventRef::Metric(metric), reference, timestamp_key),
            lag,
        ),
    ensures
        lag is Some <==> output.lag_time && metric.timestamp is Some,
        lag is Some ==> lag->0 == reference - (metric.timestamp->0.seconds() * 1000
            + metric.timestamp->0.nanoseconds() / 1_000_000),
{
}

/// How old entries and spans are goes by the point in time that their field for
/// it holds, and by nothing else.
pub proof fn entries_tell_their_age(
    output: &Output,
    event: &EventRef<'_>,
    reference: i64,
    timestamp_key: &Option<String>,
    lag: Option<i128>,
    fields: Map<Seq<char>, ValueModel>,
)
    requires
        call_ensures(Output::lag_millis, (output, event, reference, timestamp_key), lag),
        match *event {
            EventRef::Log(log) => log.fields@ == ValueModel::Object(fields),
            EventRef::Trace(trace) => trace.log.fields@ == ValueModel::Object(fields),
            EventRef::Metric(_) => false,
        },
    ensures
        lag is Some <==> output.lag_time && timestamp_key is Some && fields.dom().contains(
            timestamp_key->0@,
        ) && fields[timestamp_key->0@] is Timestamp,
        lag is Some ==> lag->0 == reference - (fields[timestamp_key->0@]->Timestamp_0.seconds() * 1000
            + fields[timestamp_key->0@]->Timestamp_0.nanoseconds() / 1_000_000),
{
}

/// Of the events of a batch, those that are sent are no longer counted, and
/// those that are left when sending times out are told of once.
pub proof fn unsent_events_are_told_of_once(
    unsent: &mut UnsentEventCount,
    count: usize,
    outcome: Result<(), SendError>,
    told: Option<Unsent>,
    later: Option<Unsent>,
)
    requires
        count <= old(unsent).count,
        call_ensures(UnsentEventCount::settle_batch, (unsent, count, outcome), told),
        call_ensures(UnsentEventCount::finish, (*final(unsent),), later),
    ensures
        outcome is Ok ==> told is None && final(unsent).count == old(unsent).count - count,
        outcome == Err::<(), SendError>(SendError::Timeout) ==> told == Some(
            Unsent::TimedOut(old(unsent).count),
        ),
        outcome == Err::<(), SendError>(SendError::Closed) ==> told is None,
        outcome is Err ==> later is None,
        outcome is Ok && old(unsent).count > count ==> later == Some(
            Unsent::Dropped((old(unsent).count - count) as usize),
        ),
        outcome is Ok && old(unsent).count == count ==> later is None,
{
}

/// Events that are sent at once are counted until they are, and told of at the
/// end where the channel was closed.
pub proof fn events_sent_at_once_are_told_of_at_the_end(
    unsent: &mut UnsentEventCount,
    outcome: Result<(), SendError>,
    told: Option<Unsent>,
    later: Option<Unsent>,
)
    requires
        old(unsent).count > 0,
        call_ensures(UnsentEventCount::settle_event, (unsent, outcome), told),
        call_ensures(UnsentEventCount::finish, (*final(unsent),), later),
    ensures
        outcome is Ok ==> told is None && later is None,
        outcome == Err::<(), SendError>(SendError::Timeout) ==> told == Some(
            Unsent::TimedOut(old(unsent).count),
        ) && later is None,
        outcome == Err::<(), SendError>(SendError::Closed) ==> told is None && later == Some(
            Unsent::Dropped(old(unsent).count),
        ),
{
}

/// Only points in time have milliseconds.
pub proof fn only_times_have_milliseconds(value: &Value, millis: Option<i64>)
    requires
        call_ensures(get_timestamp_millis, (value,), millis),
    ensures
        millis is Some <==> value is Timestamp,
        value matches Value::Timestamp(time) ==> millis->0 == time.seconds() * 1000
            + time.nanoseconds() / 1_000_000,
{
}

/// One batch that is sent as it is stays one batch, with each event marked.
pub proof fn single_batches_stay_whole(
    output: &Output,
    events: EventArray,
    pending: Pending,
    place: int,
    event: Event,
)
    requires
        call_ensures(Output::send_event, (output, events), pending),
    ensures
        pending.arrays@.len() == 1,
        size_of(pending.arrays@[0]) == size_of(events),
        pending.unsent.count == size_of(events),
        pending.timeout == output.timeout,
        0 <= place < size_of(events) && holds_at(events, place, event) ==> holds_sent(
            pending.arrays@[0],
            place,
            event,
            *output,
        ),
{
    let sent = sent_events(events.events(), output.id, output.log_definition);
    let chunks = chunks_of(pending.arrays@);
    assert(chunks == seq![sent]);
    assert(chunks.len() == 1);
    assert(chunks[0] == pending.arrays@[0].events());
    assert(pending.arrays@[0].events().len() == sent.len());
    if 0 <= place < size_of(events) && holds_at(events, place, event) {
        assert(events.events()[place] == event);
        assert(pending.arrays@[0].events()[place] == sent[place]);
        sent_leaves(event, *output);
        assert(holds_at(pending.arrays@[0], place, sent[place]));
    }
}

} // verus!
