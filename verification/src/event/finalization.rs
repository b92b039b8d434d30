//! Reporting what became of events.
use vstd::prelude::*;

use crate::event::array::EventArray;
use crate::event::metadata::{
    BatchNotifier, EventFinalizer, EventFinalizers, EventStatus, MetadataModel,
};
use crate::event::{models, Event, EventModel};
use crate::text::gather;

verus! {

/// What is reported to a batch.
#[derive(Debug, Clone, Copy, PartialEq, Eq, Structural)]
pub struct StatusReport {
    /// The batch.
    pub notifier: BatchNotifier,
    /// What became of one of its events.
    pub status: EventStatus,
}

/// The reports that duties call for, all with the same status.
pub open spec fn reports_of(finalizers: Seq<EventFinalizer>, status: EventStatus) -> Seq<StatusReport> {
    Seq::new(
        finalizers.len(),
        |i: int| StatusReport { notifier: finalizers[i].notifier, status },
    )
}

/// The duties of several events, in order.
pub open spec fn all_finalizers(events: Seq<EventModel>) -> Seq<EventFinalizer> {
    gather(events.len(), |i: int| events[i].metadata.finalizers)
}

/// An event without duties.
pub open spec fn without_finalizers(event: EventModel) -> EventModel {
    EventModel {
        metadata: MetadataModel { finalizers: Seq::empty(), ..event.metadata },
        ..event
    }
}

/// Events without duties.
pub open spec fn all_without_finalizers(events: Seq<EventModel>) -> Seq<EventModel> {
    Seq::new(events.len(), |i: int| without_finalizers(events[i]))
}

impl EventFinalizers {
    /// Reports the same status to every batch.
    pub fn update_status(self, status: EventStatus) -> (reports: Vec<StatusReport>)
        ensures
            reports@ == reports_of(self@, status),
    {
        let mut reports: Vec<StatusReport> = Vec::new();
        let mut i: usize = 0;
        while i < self.finalizers.len()
            invariant
                i <= self.finalizers.len(),
                reports@ == reports_of(self@, status).take(i as int),
            decreases self.finalizers.len() - i,
        {
            reports.push(StatusReport { notifier: self.finalizers[i].notifier, status });
            assert(reports@ =~= reports_of(self@, status).take(i + 1));
            i = i + 1;
        }
        assert(reports_of(self@, status).take(i as int) =~= reports_of(self@, status));
        reports
    }
}

impl EventArray {
    /// Takes the duties to report out of all events of the batch.
    pub fn take_finalizers(self) -> (taken: (EventArray, EventFinalizers))
        ensures
            models(taken.0.events()) == all_without_finalizers(models(self.events())),
            taken.1@ == all_finalizers(models(self.events())),
    {
        let ghost given = self.events();
        let ghost all = models(given);
        let ghost f = |i: int| all[i].metadata.finalizers;
        let mut array = self.empty_like();
        let mut finalizers = EventFinalizers::new();
        assert(finalizers@ =~= gather(0, f));
        assert(models(array.events()) =~= all_without_finalizers(all).take(0));
        assert forall|i: int| 0 <= i < given.len() implies array.accepts(#[trigger] given[i]) by {
            assert(self.accepts(given[i]));
        }
        let events = self.into_events();
        for event in iter: events
            invariant
                iter.seq() == given,
                all == models(given),
                f == (|i: int| all[i].metadata.finalizers),
                forall|i: int| 0 <= i < given.len() ==> array.accepts(#[trigger] given[i]),
                models(array.events()) == all_without_finalizers(all).take(iter.index()),
                finalizers@ == gather(iter.index() as nat, f),
        {
            let ghost index = iter.index();
            let ghost held = array.events();
            assert(given[index] == event);
            let mut event = event;
            finalizers.merge(event.take_finalizers());
            assert(f(index) == all[index].metadata.finalizers);
            array.push(event);
            proof {
                assert(models(array.events()) =~= models(held).push(event@));
                assert(event@ == without_finalizers(all[index]));
                assert(models(array.events()) =~= all_without_finalizers(all).take(index + 1));
            }
        }
        assert(all_without_finalizers(all).take(given.len() as int) =~= all_without_finalizers(all));
        (array, finalizers)
    }
}

/// An event with one more batch to report to.
pub open spec fn with_notifier(event: EventModel, batch: BatchNotifier) -> EventModel {
    EventModel {
        metadata: MetadataModel {
            finalizers: event.metadata.finalizers.push(EventFinalizer { notifier: batch }),
            ..event.metadata
        },
        ..event
    }
}

/// Events, each with one more batch to report to.
pub open spec fn all_with_notifier(events: Seq<EventModel>, batch: BatchNotifier) -> Seq<EventModel> {
    Seq::new(events.len(), |i: int| with_notifier(events[i], batch))
}

impl EventArray {
    /// Attaches a batch to all events: the batch is to be told what became of
    /// each.
    pub fn add_batch_notifier(self, batch: BatchNotifier) -> (array: EventArray)
        ensures
            models(array.events()) == all_with_notifier(models(self.events()), batch),
    {
        let ghost given = self.events();
        let ghost wanted = all_with_notifier(models(given), batch);
        let mut array = self.empty_like();
        assert(models(array.events()) =~= wanted.take(0));
        assert forall|i: int| 0 <= i < given.len() implies array.accepts(#[trigger] given[i]) by {
            assert(self.accepts(given[i]));
        }
        let events = self.into_events();
        for event in iter: events
            invariant
                iter.seq() == given,
                wanted == all_with_notifier(models(given), batch),
                forall|i: int| 0 <= i < given.len() ==> array.accepts(#[trigger] given[i]),
                models(array.events()) == wanted.take(iter.index()),
        {
            let ghost index = iter.index();
            let ghost held = array.events();
            assert(given[index] == event);
            let mut event = event;
            event.add_batch_notifier(batch);
            array.push(event);
            proof {
                assert(models(array.events()) =~= models(held).push(event@));
                assert(event@ == wanted[index]);
                assert(models(array.events()) =~= wanted.take(index + 1));
            }
        }
        assert(wanted.take(given.len() as int) =~= wanted);
        array
    }
}

/// The duties that an event carries.
pub open spec fn duties(event: Event) -> Seq<EventFinalizer> {
    match event {
        Event::Log(log) => log.metadata.finalizers.finalizers@,
        Event::Metric(metric) => metric.metadata.finalizers.finalizers@,
        Event::Trace(trace) => trace.log.metadata.finalizers.finalizers@,
    }
}

/// How many duties the first events of a list carry.
pub open spec fn duties_before(events: Seq<Event>, count: int) -> int
    decreases count,
{
    if count <= 0 {
        0
    } else {
        duties_before(events, count - 1) + duties(events[count - 1]).len()
    }
}

/// Whether a list has a duty at a place.
pub open spec fn duty_at(finalizers: Seq<EventFinalizer>, place: int, duty: EventFinalizer) -> bool {
    0 <= place < finalizers.len() && finalizers[place] == duty
}

/// The duties of several events follow each other in the order of the events.
proof fn duties_follow(events: Seq<Event>, f: spec_fn(int) -> Seq<EventFinalizer>, count: int)
    requires
        0 <= count <= events.len(),
        forall|i: int| 0 <= i < events.len() ==> #[trigger] f(i) == duties(events[i]),
    ensures
        gather(count as nat, f).len() == duties_before(events, count),
        forall|i: int, j: int|
            0 <= i < count && 0 <= j < duties(events[i]).len() ==> #[trigger] duty_at(
                gather(count as nat, f),
                duties_before(events, i) + j,
                duties(events[i])[j],
            ),
    decreases count,
{
    if count > 0 {
        duties_follow(events, f, count - 1);
        let before = gather((count - 1) as nat, f);
        assert(gather(count as nat, f) == before + f(count - 1));
        assert forall|i: int, j: int|
            0 <= i < count && 0 <= j < duties(events[i]).len() implies #[trigger] duty_at(
            gather(count as nat, f),
            duties_before(events, i) + j,
            duties(events[i])[j],
        ) by {
            if i < count - 1 {
                assert(duty_at(before, duties_before(events, i) + j, duties(events[i])[j]));
            }
        }
    }
}

/// All duties of a list of events are gathered in order.
pub proof fn all_duties_follow(events: Seq<Event>)
    ensures
        all_finalizers(models(events)).len() == duties_before(events, events.len() as int),
        forall|i: int, j: int|
            0 <= i < events.len() && 0 <= j < duties(events[i]).len() ==> #[trigger] duty_at(
                all_finalizers(models(events)),
                duties_before(events, i) + j,
                duties(events[i])[j],
            ),
{
    let all = models(events);
    let f = |i: int| all[i].metadata.finalizers;
    assert forall|i: int| 0 <= i < events.len() implies #[trigger] f(i) == duties(events[i]) by {
        assert(all[i] == events[i]@);
    }
    duties_follow(events, f, events.len() as int);
    assert(all_finalizers(all) == gather(all.len(), f));
}

/// Each duty of each event of a batch is taken, in order, and none is left.
pub proof fn all_duties_are_taken(
    array: EventArray,
    taken: (EventArray, EventFinalizers),
    i: int,
    j: int,
)
    requires
        call_ensures(EventArray::take_finalizers, (array,), taken),
    ensures
        taken.1.finalizers@.len() == duties_before(array.events(), array.events().len() as int),
        taken.0.events().len() == array.events().len(),
        0 <= i < array.events().len() ==> duties(taken.0.events()[i]).len() == 0,
        0 <= i < array.events().len() && 0 <= j < duties(array.events()[i]).len() ==> duty_at(
            taken.1.finalizers@,
            duties_before(array.events(), i) + j,
            duties(array.events()[i])[j],
        ),
{
    let events = array.events();
    all_duties_follow(events);
    let left = models(taken.0.events());
    let bare = all_without_finalizers(models(events));
    assert(left == bare);
    assert(left.len() == taken.0.events().len());
    if 0 <= i < events.len() {
        assert(left[i] == taken.0.events()[i]@);
        assert(bare[i].metadata.finalizers.len() == 0);
    }
}

/// Each duty is reported on to its own batch, in order and with the status that
/// is given.
pub proof fn each_duty_is_reported_on(
    finalizers: EventFinalizers,
    status: EventStatus,
    reports: Vec<StatusReport>,
    i: int,
)
    requires
        call_ensures(EventFinalizers::update_status, (finalizers, status), reports),
    ensures
        reports@.len() == finalizers.finalizers@.len(),
        0 <= i < reports@.len() ==> reports@[i].status == status && reports@[i].notifier
            == finalizers.finalizers@[i].notifier,
{
}

/// A batch is attached to every event, behind the duties that are there.
pub proof fn batches_are_attached_to_all(
    array: EventArray,
    batch: BatchNotifier,
    attached: EventArray,
    i: int,
)
    requires
        call_ensures(EventArray::add_batch_notifier, (array, batch), attached),
    ensures
        attached.events().len() == array.events().len(),
        0 <= i < array.events().len() ==> duties(attached.events()[i]) == duties(
            array.events()[i],
        ).push(EventFinalizer { notifier: batch }),
{
    let left = models(attached.events());
    let right = all_with_notifier(models(array.events()), batch);
    assert(left == right);
    assert(left.len() == attached.events().len());
    if 0 <= i < array.events().len() {
        assert(left[i] == attached.events()[i]@);
        assert(models(array.events())[i] == array.events()[i]@);
        assert(right[i].metadata.finalizers == duties(array.events()[i]).push(
            EventFinalizer { notifier: batch },
        ));
    }
}

/// Whether an event is another but for its duties: its data, its origin and what
/// it looks like are the same.
pub open spec fn same_but_for_duties(a: Event, b: Event) -> bool {
    &&& match (a, b) {
        (Event::Log(log), Event::Log(other)) => log.fields@ == other.fields@,
        (Event::Metric(metric), Event::Metric(other)) => metric.name@ == other.name@
            && metric.timestamp == other.timestamp && metric.kind == other.kind && metric.value@
            == other.value@,
        (Event::Trace(trace), Event::Trace(other)) => trace.log.fields@ == other.log.fields@,
        _ => false,
    }
    &&& a@.metadata.source_id == b@.metadata.source_id
    &&& a@.metadata.upstream_id == b@.metadata.upstream_id
    &&& a@.metadata.source_type == b@.metadata.source_type
    &&& a@.metadata.schema_definition == b@.metadata.schema_definition
}

/// Taking the duties out of a batch, or adding one to each event, changes
/// nothing else of the events.
pub proof fn only_duties_change(
    array: EventArray,
    taken: (EventArray, EventFinalizers),
    batch: BatchNotifier,
    attached: EventArray,
    i: int,
)
    requires
        call_ensures(EventArray::take_finalizers, (array,), taken),
        call_ensures(EventArray::add_batch_notifier, (array, batch), attached),
    ensures
        0 <= i < array.events().len() ==> same_but_for_duties(taken.0.events()[i], array.events()[i]),
        0 <= i < array.events().len() ==> same_but_for_duties(
            attached.events()[i],
            array.events()[i],
        ),
{
    let given = models(array.events());
    let left = models(taken.0.events());
    let right = models(attached.events());
    assert(left == all_without_finalizers(given));
    assert(right == all_with_notifier(given, batch));
    assert(left.len() == taken.0.events().len() && right.len() == attached.events().len());
    if 0 <= i < array.events().len() {
        assert(given[i] == array.events()[i]@);
        assert(left[i] == taken.0.events()[i]@);
        assert(right[i] == attached.events()[i]@);
        assert(left[i] == without_finalizers(given[i]));
        assert(right[i] == with_notifier(given[i], batch));
        assert(taken.0.events()[i].data() == array.events()[i].data());
        assert(attached.events()[i].data() == array.events()[i].data());
    }
}

} // verus!
