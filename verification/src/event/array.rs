//! Batches of events of one type.
use vstd::prelude::*;

use crate::event::log_event::{LogEvent, TraceEvent};
use crate::event::metric::Metric;
use crate::event::{models, Event};

verus! {

/// A batch of events, all of one type.
#[derive(Debug)]
pub enum EventArray {
    /// Log entries.
    Logs(Vec<LogEvent>),
    /// Measurements.
    Metrics(Vec<Metric>),
    /// Trace spans.
    Traces(Vec<TraceEvent>),
}

/// The type of the events in a batch.
pub ghost enum BatchKind {
    Logs,
    Metrics,
    Traces,
}

/// What an [`EventArray`] stands for: the type of its events, and the events.
pub ghost struct Batch {
    pub kind: BatchKind,
    pub events: Seq<Event>,
}

/// The type of the batches that an event belongs into.
pub open spec fn kind_of(event: Event) -> BatchKind {
    match event {
        Event::Log(_) => BatchKind::Logs,
        Event::Metric(_) => BatchKind::Metrics,
        Event::Trace(_) => BatchKind::Traces,
    }
}

impl View for EventArray {
    type V = Batch;

    open spec fn view(&self) -> Batch {
        Batch {
            kind: match *self {
                EventArray::Logs(_) => BatchKind::Logs,
                EventArray::Metrics(_) => BatchKind::Metrics,
                EventArray::Traces(_) => BatchKind::Traces,
            },
            events: self.events(),
        }
    }
}

impl EventArray {
    /// The events of the batch, in order.
    pub open spec fn events(self) -> Seq<Event> {
        match self {
            EventArray::Logs(logs) => Seq::new(logs@.len(), |i: int| Event::Log(logs@[i])),
            EventArray::Metrics(metrics) => Seq::new(
                metrics@.len(),
                |i: int| Event::Metric(metrics@[i]),
            ),
            EventArray::Traces(traces) => Seq::new(traces@.len(), |i: int| Event::Trace(traces@[i])),
        }
    }

    /// Whether an event has the type of the batch.
    pub open spec fn accepts(self, event: Event) -> bool {
        match self {
            EventArray::Logs(_) => event is Log,
            EventArray::Metrics(_) => event is Metric,
            EventArray::Traces(_) => event is Trace,
        }
    }

    /// The number of events in the batch.
    pub fn len(&self) -> (len: usize)
        ensures
            len == self.events().len(),
    {
        match self {
            EventArray::Logs(logs) => logs.len(),
            EventArray::Metrics(metrics) => metrics.len(),
            EventArray::Traces(traces) => traces.len(),
        }
    }

    /// The batch that holds one event.
    pub fn from_event(event: Event) -> (array: Self)
        ensures
            array@ == (Batch { kind: kind_of(event), events: seq![event] }),
    {
        let array = match event {
            Event::Log(log) => {
                let mut logs: Vec<LogEvent> = Vec::new();
                logs.push(log);
                EventArray::Logs(logs)
            },
            Event::Metric(metric) => {
                let mut metrics: Vec<Metric> = Vec::new();
                metrics.push(metric);
                EventArray::Metrics(metrics)
            },
            Event::Trace(trace) => {
                let mut traces: Vec<TraceEvent> = Vec::new();
                traces.push(trace);
                EventArray::Traces(traces)
            },
        };
        assert(array.events() =~= seq![event]);
        array
    }

    /// A batch of the same type that holds no event.
    pub fn empty_like(&self) -> (array: Self)
        ensures
            array@ == (Batch { kind: self@.kind, events: Seq::empty() }),
    {
        let array = match self {
            EventArray::Logs(_) => EventArray::Logs(Vec::new()),
            EventArray::Metrics(_) => EventArray::Metrics(Vec::new()),
            EventArray::Traces(_) => EventArray::Traces(Vec::new()),
        };
        assert(array.events() =~= Seq::<Event>::empty());
        array
    }

    /// Adds an event of the batch's own type.
    pub fn push(&mut self, event: Event)
        requires
            old(self).accepts(event),
        ensures
            final(self)@ == (Batch { kind: old(self)@.kind, events: old(self)@.events.push(event) }),
    {
        let ghost before = self.events();
        match (event, &mut *self) {
            (Event::Log(log), EventArray::Logs(logs)) => {
                logs.push(log);
            },
            (Event::Metric(metric), EventArray::Metrics(metrics)) => {
                metrics.push(metric);
            },
            (Event::Trace(trace), EventArray::Traces(traces)) => {
                traces.push(trace);
            },
            _ => {
                proof {
                    assert(false);
                }
            },
        }
        assert(self.events() =~= before.push(event));
    }

    /// Decides whether an event has the type of the batch.
    pub fn takes(&self, event: &Event) -> (takes: bool)
        ensures
            takes == self.accepts(*event),
    {
        match (self, event) {
            (EventArray::Logs(_), Event::Log(_)) => true,
            (EventArray::Metrics(_), Event::Metric(_)) => true,
            (EventArray::Traces(_), Event::Trace(_)) => true,
            _ => false,
        }
    }

    /// The first event of the batch.
    pub fn first(&self) -> (first: Option<EventRef<'_>>)
        ensures
            match first {
                Some(event) => self.events().len() > 0 && event.event() == self.events()[0],
                None => self.events().len() == 0,
            },
    {
        match self {
            EventArray::Logs(logs) => if logs.len() > 0 {
                Some(EventRef::Log(&logs[0]))
            } else {
                None
            },
            EventArray::Metrics(metrics) => if metrics.len() > 0 {
                Some(EventRef::Metric(&metrics[0]))
            } else {
                None
            },
            EventArray::Traces(traces) => if traces.len() > 0 {
                Some(EventRef::Trace(&traces[0]))
            } else {
                None
            },
        }
    }

    /// The event at a place in the batch.
    pub fn event_at(&self, index: usize) -> (event: EventRef<'_>)
        requires
            index < self.events().len(),
        ensures
            event.event() == self.events()[index as int],
    {
        match self {
            EventArray::Logs(logs) => EventRef::Log(&logs[index]),
            EventArray::Metrics(metrics) => EventRef::Metric(&metrics[index]),
            EventArray::Traces(traces) => EventRef::Trace(&traces[index]),
        }
    }

    /// Moves the events of the batch behind those of `events`.
    pub fn append_to(self, events: &mut Vec<Event>)
        ensures
            final(events)@ == old(events)@ + self.events(),
    {
        let ghost before = events@;
        let ghost all = self.events();
        match self {
            EventArray::Logs(logs) => {
                for log in iter: logs
                    invariant
                        all == Seq::new(iter.seq().len(), |i: int| Event::Log(iter.seq()[i])),
                        events@ == before + all.take(iter.index()),
                {
                    events.push(Event::Log(log));
                    assert(all.take(iter.index() + 1) =~= all.take(iter.index()).push(Event::Log(log)));
                    assert(events@ =~= before + all.take(iter.index() + 1));
                }
            },
            EventArray::Metrics(metrics) => {
                for metric in iter: metrics
                    invariant
                        all == Seq::new(iter.seq().len(), |i: int| Event::Metric(iter.seq()[i])),
                        events@ == before + all.take(iter.index()),
                {
                    events.push(Event::Metric(metric));
                    assert(all.take(iter.index() + 1) =~= all.take(iter.index()).push(
                        Event::Metric(metric),
                    ));
                    assert(events@ =~= before + all.take(iter.index() + 1));
                }
            },
            EventArray::Traces(traces) => {
                for trace in iter: traces
                    invariant
                        all == Seq::new(iter.seq().len(), |i: int| Event::Trace(iter.seq()[i])),
                        events@ == before + all.take(iter.index()),
                {
                    events.push(Event::Trace(trace));
                    assert(all.take(iter.index() + 1) =~= all.take(iter.index()).push(
                        Event::Trace(trace),
                    ));
                    assert(events@ =~= before + all.take(iter.index() + 1));
                }
            },
        }
        assert(all.take(all.len() as int) =~= all);
    }

    /// The events of the batch, one by one.
    pub fn into_events(self) -> (events: Vec<Event>)
        ensures
            events@ == self.events(),
    {
        let mut events: Vec<Event> = Vec::new();
        self.append_to(&mut events);
        assert(events@ =~= self.events());
        events
    }
}

impl Clone for EventArray {
    fn clone(&self) -> (copy: Self)
        ensures
            copy@.kind == self@.kind,
            models(copy.events()) == models(self.events()),
    {
        let mut copy = self.empty_like();
        let len: usize = self.len();
        let mut i: usize = 0;
        assert(models(copy.events()) =~= models(self.events()).take(0));
        while i < len
            invariant
                i <= len,
                len == self.events().len(),
                copy@.kind == self@.kind,
                models(copy.events()) == models(self.events()).take(i as int),
            decreases len - i,
        {
            let ghost held = models(copy.events());
            let event = match self.event_at(i) {
                EventRef::Log(log) => Event::Log(log.clone()),
                EventRef::Metric(metric) => Event::Metric(metric.clone()),
                EventRef::Trace(trace) => Event::Trace(trace.clone()),
            };
            assert(event@ == self.events()[i as int]@);
            assert(kind_of(self.events()[i as int]) == self@.kind);
            copy.push(event);
            assert(models(copy.events()) =~= held.push(event@));
            assert(models(copy.events()) =~= models(self.events()).take(i + 1));
            i = i + 1;
        }
        assert(models(self.events()).take(len as int) =~= models(self.events()));
        copy
    }
}

/// Whether two events are of the same type.
pub open spec fn same_type(a: Event, b: Event) -> bool {
    match (a, b) {
        (Event::Log(_), Event::Log(_)) => true,
        (Event::Metric(_), Event::Metric(_)) => true,
        (Event::Trace(_), Event::Trace(_)) => true,
        _ => false,
    }
}

/// Events in batches: a batch takes events for as long as they are of one type
/// and it has room.
pub open spec fn chunked(events: Seq<Event>, max: nat) -> Seq<Seq<Event>>
    decreases events.len(),
{
    if events.len() == 0 {
        Seq::empty()
    } else {
        let before = chunked(events.drop_last(), max);
        let event = events.last();
        if before.len() > 0 && before.last().len() < max && before.last().len() > 0 && same_type(
            before.last().last(),
            event,
        ) {
            before.drop_last().push(before.last().push(event))
        } else {
            before.push(seq![event])
        }
    }
}

/// The events of several batches, in order.
pub open spec fn unchunked(chunks: Seq<Seq<Event>>) -> Seq<Event>
    decreases chunks.len(),
{
    if chunks.len() == 0 {
        Seq::empty()
    } else {
        unchunked(chunks.drop_last()) + chunks.last()
    }
}

/// What the batches of a list hold.
pub open spec fn chunks_of(arrays: Seq<EventArray>) -> Seq<Seq<Event>> {
    Seq::new(arrays.len(), |i: int| arrays[i].events())
}

/// Batches hold all events, in order.
pub proof fn chunks_hold_all_events(events: Seq<Event>, max: nat)
    ensures
        unchunked(chunked(events, max)) == events,
    decreases events.len(),
{
    if events.len() == 0 {
        assert(unchunked(chunked(events, max)) =~= events);
    } else {
        chunks_hold_all_events(events.drop_last(), max);
        let before = chunked(events.drop_last(), max);
        let after = chunked(events, max);
        let event = events.last();
        assert(events =~= events.drop_last().push(event));
        if after.len() == before.len() && after != before.push(seq![event]) {
            assert(after.drop_last() =~= before.drop_last());
            assert(unchunked(before) == unchunked(before.drop_last()) + before.last());
            assert(unchunked(after) =~= unchunked(before).push(event));
        } else {
            assert(after.drop_last() =~= before);
            assert(unchunked(after) =~= unchunked(before) + seq![event]);
        }
    }
}

/// No batch is empty or holds more events than it may, and all its events are
/// of one type.
pub proof fn chunks_are_well_formed(events: Seq<Event>, max: nat)
    requires
        max > 0,
    ensures
        forall|i: int|
            0 <= i < chunked(events, max).len() ==> {
                &&& 0 < (#[trigger] chunked(events, max)[i]).len() <= max
                &&& forall|j: int|
                    0 <= j < chunked(events, max)[i].len() ==> same_type(
                        chunked(events, max)[i][0],
                        #[trigger] chunked(events, max)[i][j],
                    )
            },
    decreases events.len(),
{
    if events.len() > 0 {
        chunks_are_well_formed(events.drop_last(), max);
        let before = chunked(events.drop_last(), max);
        let after = chunked(events, max);
        assert forall|i: int| 0 <= i < after.len() implies {
            &&& 0 < (#[trigger] after[i]).len() <= max
            &&& forall|j: int| 0 <= j < after[i].len() ==> same_type(after[i][0], #[trigger] after[i][j])
        } by {
            if i < before.len() - 1 {
                assert(after[i] == before[i]);
            } else if i == before.len() - 1 {
                assert(before[i] == before.last());
                assert(0 < before[i].len());
                assert(same_type(before[i][0], before[i][before[i].len() - 1]));
                assert forall|j: int| 0 <= j < after[i].len() implies same_type(
                    after[i][0],
                    #[trigger] after[i][j],
                ) by {
                    if j < before[i].len() {
                        assert(after[i][j] == before[i][j]);
                    }
                }
            }
        }
    }
}

/// Puts events into batches of one type, and of a limited length where a limit
/// is given.
pub fn events_into_arrays(events: Vec<Event>, max_events: Option<usize>) -> (arrays: Vec<EventArray>)
    ensures
        chunks_of(arrays@) == chunked(
            events@,
            match max_events {
                Some(max) => max as nat,
                None => usize::MAX as nat,
            },
        ),
{
    let max: usize = match max_events {
        Some(max) => max,
        None => usize::MAX,
    };
    let ghost all = events@;
    let mut arrays: Vec<EventArray> = Vec::new();
    let mut current: Option<EventArray> = None;
    assert(chunks_of(arrays@) =~= chunked(all.take(0), max as nat));
    for event in iter: events
        invariant
            iter.seq() == all,
            match current {
                None => iter.index() == 0 && arrays@.len() == 0,
                Some(array) => array.events().len() > 0 && chunks_of(arrays@).push(array.events())
                    == chunked(all.take(iter.index()), max as nat),
            },
    {
        let ghost index = iter.index();
        let ghost before = chunks_of(arrays@);
        let ghost next = all.take(index + 1);
        assert(next.drop_last() =~= all.take(index));
        assert(next.last() == event);
        current = match current {
            None => {
                let array = EventArray::from_event(event);
                proof {
                    assert(chunked(next.drop_last(), max as nat).len() == 0);
                    assert(before.len() == 0);
                    assert(before.push(array.events()) =~= chunked(next, max as nat));
                }
                Some(array)
            },
            Some(array) => {
                let ghost held = before.push(array.events());
                assert(held.last() == array.events());
                assert(held.drop_last() =~= before);
                assert(array.accepts(event) == same_type(array.events().last(), event));
                if array.takes(&event) && array.len() < max {
                    let mut array = array;
                    array.push(event);
                    Some(array)
                } else {
                    let ghost done = array.events();
                    arrays.push(array);
                    let fresh = EventArray::from_event(event);
                    assert(chunks_of(arrays@) =~= before.push(done));
                    Some(fresh)
                }
            },
        };
    }
    assert(all.take(all.len() as int) =~= all);
    match current {
        None => {
            assert(chunks_of(arrays@) =~= chunked(all, max as nat));
        },
        Some(array) => {
            let ghost before = chunks_of(arrays@);
            let ghost done = array.events();
            arrays.push(array);
            assert(chunks_of(arrays@) =~= before.push(done));
        },
    }
    arrays
}

/// A reference to an event inside a batch.
#[derive(Debug)]
pub enum EventRef<'a> {
    /// A log entry.
    Log(&'a LogEvent),
    /// A measurement.
    Metric(&'a Metric),
    /// A trace span.
    Trace(&'a TraceEvent),
}

impl EventRef<'_> {
    /// The event that is referred to.
    pub open spec fn event(self) -> Event {
        match self {
            EventRef::Log(log) => Event::Log(*log),
            EventRef::Metric(metric) => Event::Metric(*metric),
            EventRef::Trace(trace) => Event::Trace(*trace),
        }
    }

    /// Whether the event that is referred to has the data of `other`.
    pub fn event_data_eq(&self, other: &Event) -> (same: bool)
        ensures
            same == crate::event::data_equal(self.event().data(), other.data()),
    {
        match (self, other) {
            (EventRef::Log(a), Event::Log(b)) => a.event_data_eq(b),
            (EventRef::Metric(a), Event::Metric(b)) => a.event_data_eq(b),
            (EventRef::Trace(a), Event::Trace(b)) => a.event_data_eq(b),
            _ => false,
        }
    }
}

/// A batch ends only where it has no room left or the next event is of another
/// type.
pub proof fn chunks_end_late(events: Seq<Event>, max: nat)
    ensures
        forall|i: int|
            #![trigger chunked(events, max)[i]]
            0 <= i < chunked(events, max).len() - 1 ==> chunked(events, max)[i].len() >= max
                || !same_type(chunked(events, max)[i].last(), chunked(events, max)[i + 1][0]),
        forall|i: int| 0 <= i < chunked(events, max).len() ==> (#[trigger] chunked(events, max)[i]).len() > 0,
    decreases events.len(),
{
    if events.len() > 0 {
        let before = chunked(events.drop_last(), max);
        let all = chunked(events, max);
        chunks_end_late(events.drop_last(), max);
        assert forall|i: int|
            0 <= i < all.len() implies (#[trigger] all[i]).len() > 0 by {
            if i < before.len() {
                assert(before[i].len() > 0);
            }
        }
        assert forall|i: int|
            #![trigger all[i]]
            0 <= i < all.len() - 1 implies all[i].len() >= max || !same_type(
            all[i].last(),
            all[i + 1][0],
        ) by {
            assert(all[i] == before[i]);
            assert(before[i].len() > 0);
            if i + 1 < before.len() {
                assert(before[i + 1].len() > 0);
                assert(all[i + 1][0] == before[i + 1][0]);
            }
        }
    }
}

/// How many events a batch holds.
pub open spec fn size_of(array: EventArray) -> nat {
    match array {
        EventArray::Logs(logs) => logs@.len(),
        EventArray::Metrics(metrics) => metrics@.len(),
        EventArray::Traces(traces) => traces@.len(),
    }
}

/// Whether a batch holds an event at a place.
pub open spec fn holds_at(array: EventArray, place: int, event: Event) -> bool {
    match (array, event) {
        (EventArray::Logs(logs), Event::Log(log)) => logs@[place] == log,
        (EventArray::Metrics(metrics), Event::Metric(metric)) => metrics@[place] == metric,
        (EventArray::Traces(traces), Event::Trace(trace)) => traces@[place] == trace,
        _ => false,
    }
}

/// How many events the first batches of a list hold.
pub open spec fn size_before(arrays: Seq<EventArray>, count: int) -> int
    decreases count,
{
    if count <= 0 {
        0
    } else {
        size_before(arrays, count - 1) + size_of(arrays[count - 1])
    }
}

/// Whether an event stands at a place in a list.
pub open spec fn stands_at(events: Seq<Event>, place: int, event: Event) -> bool {
    0 <= place < events.len() && events[place] == event
}

/// The place of an event among those of all batches goes by the batches before
/// its own.
pub proof fn unchunked_by_size(arrays: Seq<EventArray>, count: int)
    requires
        0 <= count <= arrays.len(),
    ensures
        unchunked(chunks_of(arrays.take(count))).len() == size_before(arrays, count),
        forall|i: int, j: int|
            0 <= i < count && 0 <= j < size_of(arrays[i]) ==> #[trigger] stands_at(
                unchunked(chunks_of(arrays.take(count))),
                size_before(arrays, i) + j,
                arrays[i].events()[j],
            ),
    decreases count,
{
    let chunks = chunks_of(arrays.take(count));
    if count > 0 {
        unchunked_by_size(arrays, count - 1);
        let before = chunks_of(arrays.take(count - 1));
        assert(chunks.drop_last() =~= before);
        assert(chunks.last() == arrays[count - 1].events());
        assert(chunks.last().len() == size_of(arrays[count - 1]));
        assert(unchunked(chunks) == unchunked(before) + chunks.last());
        assert forall|i: int, j: int|
            0 <= i < count && 0 <= j < size_of(arrays[i]) implies #[trigger] stands_at(
            unchunked(chunks_of(arrays.take(count))),
            size_before(arrays, i) + j,
            arrays[i].events()[j],
        ) by {
            if i < count - 1 {
                assert(stands_at(
                    unchunked(before),
                    size_before(arrays, i) + j,
                    arrays[i].events()[j],
                ));
            }
        }
    }
}

/// What the batches of a list hold where together they hold all events.
proof fn batches_follow_each_other(events: Seq<Event>, max: nat, arrays: Seq<EventArray>)
    requires
        chunks_of(arrays) == chunked(events, max),
    ensures
        size_before(arrays, arrays.len() as int) == events.len(),
        forall|i: int, j: int|
            0 <= i < arrays.len() && 0 <= j < size_of(arrays[i]) ==> #[trigger] holds_at(
                arrays[i],
                j,
                events[size_before(arrays, i) + j],
            ),
{
    chunks_hold_all_events(events, max);
    unchunked_by_size(arrays, arrays.len() as int);
    assert(arrays.take(arrays.len() as int) =~= arrays);
    assert forall|i: int, j: int|
        0 <= i < arrays.len() && 0 <= j < size_of(arrays[i]) implies #[trigger] holds_at(
        arrays[i],
        j,
        events[size_before(arrays, i) + j],
    ) by {
        assert(stands_at(
            unchunked(chunks_of(arrays)),
            size_before(arrays, i) + j,
            arrays[i].events()[j],
        ));
    }
}

/// Batches are as long as their room and the types of the events let them be.
proof fn batches_are_full(events: Seq<Event>, max: nat, arrays: Seq<EventArray>)
    requires
        chunks_of(arrays) == chunked(events, max),
        max > 0,
    ensures
        forall|i: int| 0 <= i < arrays.len() ==> 0 < size_of(#[trigger] arrays[i]) <= max,
        forall|i: int|
            #![trigger arrays[i]]
            0 <= i < arrays.len() - 1 && size_of(arrays[i]) < max ==> match (arrays[i], arrays[i
                + 1]) {
                (EventArray::Logs(_), EventArray::Logs(_)) => false,
                (EventArray::Metrics(_), EventArray::Metrics(_)) => false,
                (EventArray::Traces(_), EventArray::Traces(_)) => false,
                _ => true,
            },
{
    let chunks = chunked(events, max);
    chunks_are_well_formed(events, max);
    chunks_end_late(events, max);
    assert forall|i: int| 0 <= i < arrays.len() implies 0 < size_of(#[trigger] arrays[i]) <= max by {
        assert(chunks_of(arrays)[i] == arrays[i].events());
        assert(chunks[i].len() == size_of(arrays[i]));
    }
    assert forall|i: int|
        #![trigger arrays[i]]
        0 <= i < arrays.len() - 1 && size_of(arrays[i]) < max implies match (arrays[i], arrays[i
        + 1]) {
        (EventArray::Logs(_), EventArray::Logs(_)) => false,
        (EventArray::Metrics(_), EventArray::Metrics(_)) => false,
        (EventArray::Traces(_), EventArray::Traces(_)) => false,
        _ => true,
    } by {
        assert(size_of(arrays[i + 1]) > 0);
        assert(chunks_of(arrays)[i] == arrays[i].events());
        assert(chunks_of(arrays)[i + 1] == arrays[i + 1].events());
        assert(!same_type(chunks[i].last(), chunks[i + 1][0]));
    }
}

/// Events are put into batches in order, without loss and each at its place.
/// Each batch takes as many events of one type as follow each other and as it
/// has room for.
pub proof fn batches_hold_events_in_order(
    events: Vec<Event>,
    max_events: Option<usize>,
    arrays: Vec<EventArray>,
)
    requires
        call_ensures(events_into_arrays, (events, max_events), arrays),
        max_events != Some(0usize),
    ensures
        size_before(arrays@, arrays@.len() as int) == events@.len(),
        forall|i: int, j: int|
            0 <= i < arrays@.len() && 0 <= j < size_of(arrays@[i]) ==> #[trigger] holds_at(
                arrays@[i],
                j,
                events@[size_before(arrays@, i) + j],
            ),
        forall|i: int|
            0 <= i < arrays@.len() ==> size_of(#[trigger] arrays@[i]) > 0 && (max_events is Some
                ==> size_of(arrays@[i]) <= max_events->0),
        forall|i: int|
            #![trigger arrays@[i]]
            0 <= i < arrays@.len() - 1 && size_of(arrays@[i]) < usize::MAX && (max_events is None
                || size_of(arrays@[i]) < max_events->0) ==> match (arrays@[i], arrays@[i + 1]) {
                (EventArray::Logs(_), EventArray::Logs(_)) => false,
                (EventArray::Metrics(_), EventArray::Metrics(_)) => false,
                (EventArray::Traces(_), EventArray::Traces(_)) => false,
                _ => true,
            },
{
    let max = match max_events {
        Some(max) => max as nat,
        None => usize::MAX as nat,
    };
    batches_follow_each_other(events@, max, arrays@);
    batches_are_full(events@, max, arrays@);
}

/// A batch of one event has the type of the event, an empty one that of its
/// model, and either takes just events of its own type.
pub proof fn batches_are_of_one_type(
    event: Event,
    one: EventArray,
    model: &EventArray,
    empty: EventArray,
    other: &Event,
    taken: bool,
)
    requires
        call_ensures(EventArray::from_event, (event,), one),
        call_ensures(EventArray::empty_like, (model,), empty),
        call_ensures(EventArray::takes, (model, other), taken),
    ensures
        size_of(one) == 1,
        holds_at(one, 0, event),
        size_of(empty) == 0,
        empty is Logs <==> model is Logs,
        empty is Metrics <==> model is Metrics,
        empty is Traces <==> model is Traces,
        taken <==> match (*model, *other) {
            (EventArray::Logs(_), Event::Log(_)) => true,
            (EventArray::Metrics(_), Event::Metric(_)) => true,
            (EventArray::Traces(_), Event::Trace(_)) => true,
            _ => false,
        },
{
    assert(one.events() == seq![event]);
    assert(one.events().len() == 1);
    assert(one.events()[0] == event);
    assert(empty.events().len() == 0);
    assert(one@.kind == kind_of(event));
}

/// Taken out of a batch one by one, events come in the order in which they stand
/// in it.
pub proof fn batches_are_unpacked_in_order(array: EventArray, events: Vec<Event>, len: usize, i: int)
    requires
        call_ensures(EventArray::into_events, (array,), events),
        call_ensures(EventArray::len, (&array,), len),
    ensures
        len == size_of(array),
        events@.len() == size_of(array),
        0 <= i < size_of(array) ==> holds_at(array, i, events@[i]),
{
}

/// An event goes behind those that a batch holds.
pub proof fn events_go_to_the_end_of_a_batch(array: &mut EventArray, event: Event, i: int)
    requires
        match (*old(array), event) {
            (EventArray::Logs(_), Event::Log(_)) => true,
            (EventArray::Metrics(_), Event::Metric(_)) => true,
            (EventArray::Traces(_), Event::Trace(_)) => true,
            _ => false,
        },
        call_ensures(EventArray::push, (array, event), ()),
    ensures
        size_of(*final(array)) == size_of(*old(array)) + 1,
        holds_at(*final(array), size_of(*old(array)) as int, event),
        0 <= i < size_of(*old(array)) ==> holds_at(*final(array), i, old(array).events()[i]),
{
    let before = old(array).events();
    let after = final(array).events();
    assert(final(array)@.events == after && old(array)@.events == before);
    assert(after == before.push(event));
    assert(after.len() == before.len() + 1);
    assert(after[before.len() as int] == event);
    if 0 <= i < before.len() {
        assert(after[i] == before[i]);
    }
}

} // verus!
