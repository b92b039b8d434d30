//! A sink that writes events to the console, one to a line.
use vstd::prelude::*;

use crate::event::finalization::{duties, reports_of, StatusReport};
use crate::event::metadata::EventStatus;
use crate::event::Event;

verus! {

/// The sink: writes to `output`.
#[derive(Debug)]
pub struct WriterSink<T> {
    /// Where events are written to.
    pub output: T,
}

/// What came of writing an event.
#[derive(Debug, Clone, Copy, PartialEq, Eq, Structural)]
pub enum Attempt {
    /// The event could not be encoded.
    NotEncoded,
    /// The event could not be written.
    NotWritten,
    /// This many bytes were written.
    Written(usize),
}

/// What is to be counted as sent.
#[derive(Debug, Clone, Copy, PartialEq, Eq, Structural)]
pub struct Sent {
    /// How many events were sent.
    pub events: usize,
    /// The size of the events, by an estimate.
    pub event_bytes: usize,
    /// How many bytes were written.
    pub bytes: usize,
}

/// What comes of writing an event.
#[derive(Debug)]
pub struct Settled {
    /// What is reported to the batches that wait for the event.
    pub reports: Vec<StatusReport>,
    /// What is to be counted as sent.
    pub sent: Option<Sent>,
    /// Whether the sink goes on.
    pub goes_on: bool,
}

/// Takes in what came of writing an event. An event that could not be encoded
/// or written is reported as an error, and the sink stops.
pub fn settle(event: Event, event_byte_size: usize, attempt: Attempt) -> (settled: Settled)
    ensures
        match attempt {
            Attempt::Written(bytes) => {
                &&& settled.reports@ == reports_of(
                    event@.metadata.finalizers,
                    EventStatus::Delivered,
                )
                &&& settled.sent == Some(Sent { events: 1, event_bytes: event_byte_size, bytes })
                &&& settled.goes_on
            },
            _ => {
                &&& settled.reports@ == reports_of(
                    event@.metadata.finalizers,
                    EventStatus::Errored,
                )
                &&& settled.sent is None
                &&& !settled.goes_on
            },
        },
{
    let mut event = event;
    let finalizers = event.take_finalizers();
    match attempt {
        Attempt::Written(bytes) => Settled {
            reports: finalizers.update_status(EventStatus::Delivered),
            sent: Some(Sent { events: 1, event_bytes: event_byte_size, bytes }),
            goes_on: true,
        },
        _ => Settled {
            reports: finalizers.update_status(EventStatus::Errored),
            sent: None,
            goes_on: false,
        },
    }
}

/// An event that was written is reported as delivered to all that wait for it,
/// one that was not as failed, and only then does the sink stop.
pub proof fn only_written_events_are_delivered(
    event: Event,
    size: usize,
    attempt: Attempt,
    settled: Settled,
    i: int,
)
    requires
        call_ensures(settle, (event, size, attempt), settled),
    ensures
        settled.reports@.len() == duties(event).len(),
        0 <= i < duties(event).len() ==> settled.reports@[i].notifier == duties(event)[i].notifier && (
        settled.reports@[i].status is Delivered <==> attempt is Written) && (
        settled.reports@[i].status is Errored <==> !(attempt is Written)),
        settled.goes_on <==> attempt is Written,
        settled.sent is Some <==> attempt is Written,
        attempt is Written ==> settled.sent->0.events == 1 && settled.sent->0.event_bytes == size
            && settled.sent->0.bytes == attempt->Written_0,
{
    assert(event@.metadata.finalizers == duties(event));
}

} // verus!
