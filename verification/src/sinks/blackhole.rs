//! A sink that throws all events away.
//!
//! Deliveries are confirmed all the same, and events and bytes are counted.
use vstd::prelude::*;

use crate::config::global::AcknowledgementsConfig;
use crate::config::source::Duration;
use crate::event::array::EventArray;
use crate::event::finalization::{
    all_duties_follow, all_finalizers, duties, duties_before, duty_at, reports_of, StatusReport,
};
use crate::event::metadata::EventStatus;
use crate::event::models;

verus! {

/// The configuration of the sink.
#[derive(Debug, Clone, Copy, PartialEq, Eq, Structural)]
pub struct BlackholeConfig {
    /// How often the counts are logged; never, where it is under a second.
    pub print_interval_secs: Duration,
    /// How many events are taken in a second, where that is limited.
    pub rate: Option<usize>,
    /// Whether deliveries are to be confirmed.
    pub acknowledgements: AcknowledgementsConfig,
}

/// The sink.
#[derive(Debug, Clone, Copy, PartialEq, Eq, Structural)]
pub struct BlackholeSink {
    /// How many events have come, back at nought after the greatest number.
    pub total_events: usize,
    /// How many bytes have come, by an estimate, back at nought after the
    /// greatest number.
    pub total_raw_bytes: usize,
    /// The configuration.
    pub config: BlackholeConfig,
    /// Until when the sink waited last, in billionths of a second.
    pub last: Option<u128>,
}

/// What comes of a batch.
#[derive(Debug)]
pub struct Swallowed {
    /// What is reported to the batches that wait for the events.
    pub reports: Vec<StatusReport>,
    /// How many events there were.
    pub events: usize,
    /// How many bytes there were, by an estimate.
    pub bytes: usize,
}

/// A sum that starts again at nought after the greatest number.
pub open spec fn wrapped_sum(a: usize, b: usize) -> usize {
    if a + b > usize::MAX {
        (a + b - (usize::MAX + 1)) as usize
    } else {
        (a + b) as usize
    }
}

impl BlackholeSink {
    /// A sink that has seen nothing yet.
    pub fn new(config: BlackholeConfig) -> (sink: Self)
        ensures
            sink == (BlackholeSink { total_events: 0, total_raw_bytes: 0, config, last: None }),
    {
        BlackholeSink { total_events: 0, total_raw_bytes: 0, config, last: None }
    }

    /// Until when the sink waited last; now, where it has not waited yet.
    pub open spec fn waited_until(&self, now: u128) -> u128 {
        match self.last {
            Some(last) => last,
            None => now,
        }
    }

    /// Whether the counts are logged at intervals.
    pub fn prints(&self) -> (prints: bool)
        ensures
            prints == (self.config.print_interval_secs.secs > 0),
    {
        self.config.print_interval_secs.secs > 0
    }

    /// Until when to wait before a batch is taken, where the rate is limited:
    /// as long as the batch takes at that rate, from the end of the last wait
    /// on, or from now on where there was none.
    pub fn wait_until(&self, now: u128, takes: u128) -> (until: Option<u128>)
        requires
            self.config.rate is Some ==> self.waited_until(now) + takes <= u128::MAX,
        ensures
            until == match self.config.rate {
                Some(_) => Some((self.waited_until(now) + takes) as u128),
                None => None,
            },
    {
        match self.config.rate {
            None => None,
            Some(_) => match self.last {
                Some(last) => Some(last + takes),
                None => Some(now + takes),
            },
        }
    }

    /// Takes a batch: counts it and reports its events as delivered. `waited`
    /// is until when the sink waited for it.
    pub fn swallow(&mut self, events: EventArray, message_len: usize, waited: Option<u128>) -> (swallowed:
        Swallowed)
        ensures
            *final(self) == (BlackholeSink {
                total_events: wrapped_sum(old(self).total_events, events.events().len() as usize),
                total_raw_bytes: wrapped_sum(old(self).total_raw_bytes, message_len),
                last: if waited is Some {
                    waited
                } else {
                    old(self).last
                },
                ..*old(self)
            }),
            swallowed.reports@ == reports_of(
                all_finalizers(models(events.events())),
                EventStatus::Delivered,
            ),
            swallowed.events == events.events().len(),
            swallowed.bytes == message_len,
    {
        if waited.is_some() {
            self.last = waited;
        }
        let count: usize = events.len();
        self.total_events = self.total_events.wrapping_add(count);
        self.total_raw_bytes = self.total_raw_bytes.wrapping_add(message_len);
        let (_, finalizers) = events.take_finalizers();
        let reports = finalizers.update_status(EventStatus::Delivered);
        Swallowed { reports, events: count, bytes: message_len }
    }
}

/// All events of a batch are counted, and all that wait for one are told that it
/// was delivered.
pub proof fn swallowed_events_are_delivered(
    sink: &mut BlackholeSink,
    events: EventArray,
    length: usize,
    waited: Option<u128>,
    swallowed: Swallowed,
    i: int,
    j: int,
)
    requires
        call_ensures(BlackholeSink::swallow, (sink, events, length, waited), swallowed),
    ensures
        swallowed.events == events.events().len(),
        swallowed.bytes == length,
        old(sink).total_events + events.events().len() <= usize::MAX ==> final(sink).total_events
            == old(sink).total_events + events.events().len(),
        old(sink).total_events + events.events().len() > usize::MAX ==> final(sink).total_events
            == old(sink).total_events + events.events().len() - usize::MAX - 1,
        old(sink).total_raw_bytes + length <= usize::MAX ==> final(sink).total_raw_bytes
            == old(sink).total_raw_bytes + length,
        final(sink).config == old(sink).config,
        waited is Some ==> final(sink).last == waited,
        waited is None ==> final(sink).last == old(sink).last,
        swallowed.reports@.len() == duties_before(events.events(), events.events().len() as int),
        0 <= i < swallowed.reports@.len() ==> swallowed.reports@[i].status is Delivered,
        0 <= i < events.events().len() && 0 <= j < duties(events.events()[i]).len() ==> {
            let at = duties_before(events.events(), i) + j;
            &&& 0 <= at < swallowed.reports@.len()
            &&& swallowed.reports@[at].notifier == duties(events.events()[i])[j].notifier
        },
{
    let list = events.events();
    let all = all_finalizers(models(list));
    all_duties_follow(list);
    if 0 <= i < list.len() && 0 <= j < duties(list[i]).len() {
        assert(duty_at(all, duties_before(list, i) + j, duties(list[i])[j]));
    }
}

/// Without a limit nothing is waited for; with one, as long as a batch takes
/// from the end of the last wait on.
pub proof fn waits_follow_each_other(sink: &BlackholeSink, now: u128, takes: u128, until: Option<u128>)
    requires
        call_ensures(BlackholeSink::wait_until, (sink, now, takes), until),
        now + takes <= u128::MAX,
        sink.last is Some ==> sink.last->0 + takes <= u128::MAX,
    ensures
        until is Some <==> sink.config.rate is Some,
        until is Some && sink.last is Some ==> until->0 == sink.last->0 + takes,
        until is Some && sink.last is None ==> until->0 == now + takes,
{
}

} // verus!
