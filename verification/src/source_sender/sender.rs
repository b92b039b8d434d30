//! What a source sends its events with.
use vstd::prelude::*;

use crate::component_map::{keys, put, put_is_found, ComponentMap};
use crate::config::source::Duration;
use crate::event::array::{chunked, chunks_of, EventArray};
use crate::event::finalization::{
    all_duties_follow, all_finalizers, all_with_notifier, all_without_finalizers, duties,
    duties_before, duty_at, reports_of, StatusReport,
};
use crate::event::metadata::{BatchNotifier, EventStatus};
use crate::event::{models, Event};
use crate::id::{ComponentKey, OutputId};
use crate::source_sender::builder::Builder;
use crate::source_sender::output::{
    chunks_send_all, sends_all, sent_chunks, sent_events, ChannelSpec, Output, Pending,
};
use crate::source_sender::{CHUNK_SIZE, TEST_BUFFER_SIZE};
use crate::transform::sending::DEFAULT_OUTPUT;

verus! {

/// A batch on its way, with the time at which it was sent.
#[derive(Debug)]
pub struct SourceSenderItem {
    /// The batch.
    pub events: EventArray,
    /// When it was sent.
    pub send_reference: Duration,
}

impl SourceSenderItem {
    /// How many events there are.
    pub fn event_count(&self) -> (count: usize)
        ensures
            count == self.events.events().len(),
    {
        self.events.len()
    }

    /// How many events there are.
    pub fn len(&self) -> (len: usize)
        ensures
            len == self.events.events().len(),
    {
        self.events.len()
    }

    /// The events, one by one.
    pub fn into_events(self) -> (events: Vec<Event>)
        ensures
            events@ == self.events.events(),
    {
        self.events.into_events()
    }

    /// Attaches a batch to all events: the batch is to be told what became of
    /// each.
    pub fn add_batch_notifier(self, notifier: BatchNotifier) -> (item: SourceSenderItem)
        ensures
            models(item.events.events()) == all_with_notifier(models(self.events.events()), notifier),
            item.send_reference == self.send_reference,
    {
        SourceSenderItem {
            events: self.events.add_batch_notifier(notifier),
            send_reference: self.send_reference,
        }
    }

    /// Reports the same status for all events, as one that received them.
    pub fn finalize(self, status: EventStatus) -> (finalized: (SourceSenderItem, Vec<StatusReport>))
        ensures
            models(finalized.0.events.events()) == all_without_finalizers(
                models(self.events.events()),
            ),
            finalized.0.send_reference == self.send_reference,
            finalized.1@ == reports_of(all_finalizers(models(self.events.events())), status),
    {
        let (events, finalizers) = self.events.take_finalizers();
        let reports = finalizers.update_status(status);
        (SourceSenderItem { events, send_reference: self.send_reference }, reports)
    }
}

impl From<SourceSenderItem> for EventArray {
    fn from(item: SourceSenderItem) -> (events: Self) {
        item.events
    }
}

impl vstd::std_specs::convert::FromSpecImpl<SourceSenderItem> for EventArray {
    open spec fn obeys_from_spec() -> bool {
        true
    }

    open spec fn from_spec(item: SourceSenderItem) -> EventArray {
        item.events
    }
}

/// What a source sends its events with.
pub struct SourceSender {
    /// The default output. A source may have named outputs only.
    pub default_output: Option<Output>,
    /// The other outputs, by name.
    pub named_outputs: ComponentMap<Output>,
}

impl SourceSender {
    /// A builder without outputs.
    pub fn builder() -> (builder: Builder)
        ensures
            builder.is_fresh(),
    {
        Builder::default()
    }

    /// A sender with a default output, for tests.
    pub fn new_test_sender_with_options(n: usize, timeout: Option<Duration>) -> (made: (
        Self,
        ChannelSpec,
    ))
        requires
            n > 0,
        ensures
            made.0.default_output is Some,
            made.0.default_output->0.id@ == ("test"@, None::<Seq<char>>),
            made.0.default_output->0.timeout == timeout,
            made.0.default_output->0.lag_time,
            made.0.default_output->0.log_definition is None,
            made.0.default_output->0.events_sent@ == DEFAULT_OUTPUT@,
            made.0.named_outputs@.len() == 0,
            made.1.max_events == n,
            made.1.output@ == DEFAULT_OUTPUT@,
            made.1.ewma_half_life_seconds is None,
    {
        let output_id = OutputId { component: ComponentKey::new("test"), port: None };
        let (output, channel) = Output::new_with_buffer(
            n,
            DEFAULT_OUTPUT.to_owned(),
            true,
            None,
            output_id,
            timeout,
            None,
        );
        (SourceSender { default_output: Some(output), named_outputs: ComponentMap::new() }, channel)
    }

    /// A sender with a default output and a small channel, for tests.
    pub fn new_test() -> (made: (Self, ChannelSpec))
        ensures
            made.0.default_output is Some,
            made.0.default_output->0.id@ == ("test"@, None::<Seq<char>>),
            made.0.default_output->0.timeout is None,
            made.0.default_output->0.lag_time,
            made.0.default_output->0.log_definition is None,
            made.0.default_output->0.events_sent@ == DEFAULT_OUTPUT@,
            made.0.named_outputs@.len() == 0,
            made.1.max_events == TEST_BUFFER_SIZE,
            made.1.output@ == DEFAULT_OUTPUT@,
            made.1.ewma_half_life_seconds is None,
    {
        SourceSender::new_test_sender_with_options(TEST_BUFFER_SIZE, None)
    }

    /// A sender for tests whose receiver reports the given status for all
    /// events.
    pub fn new_test_finalize(status: EventStatus) -> (made: (Self, TestReceiver))
        ensures
            made.0.default_output is Some,
            made.0.default_output->0.id@ == ("test"@, None::<Seq<char>>),
            made.0.default_output->0.timeout is None,
            made.0.default_output->0.lag_time,
            made.0.default_output->0.log_definition is None,
            made.0.default_output->0.events_sent@ == DEFAULT_OUTPUT@,
            made.0.named_outputs@.len() == 0,
            made.1.channel.max_events == TEST_BUFFER_SIZE,
            made.1.channel.output@ == DEFAULT_OUTPUT@,
            made.1.channel.ewma_half_life_seconds is None,
            made.1.status == status,
            made.1.count == 0,
    {
        let (sender, channel) = SourceSender::new_test();
        (sender, TestReceiver { channel, status, count: 0 })
    }

    /// A sender for tests whose receiver says for each batch, by its number,
    /// whether it fails.
    pub fn new_test_errors() -> (made: (Self, TestReceiver))
        ensures
            made.0.default_output is Some,
            made.0.default_output->0.id@ == ("test"@, None::<Seq<char>>),
            made.0.default_output->0.timeout is None,
            made.0.default_output->0.lag_time,
            made.0.default_output->0.log_definition is None,
            made.0.default_output->0.events_sent@ == DEFAULT_OUTPUT@,
            made.0.named_outputs@.len() == 0,
            made.1.channel.max_events == TEST_BUFFER_SIZE,
            made.1.channel.output@ == DEFAULT_OUTPUT@,
            made.1.channel.ewma_half_life_seconds is None,
            made.1.status == EventStatus::Delivered,
            made.1.count == 0,
    {
        SourceSender::new_test_finalize(EventStatus::Delivered)
    }

    /// Adds a named output, for tests, whose receiver reports the given status
    /// for all events.
    pub fn add_outputs(&mut self, status: EventStatus, name: &str) -> (receiver: TestReceiver)
        ensures
            final(self).default_output == old(self).default_output,
            exists|output: Output|
                final(self).named_outputs@ == #[trigger] put(
                    old(self).named_outputs@,
                    name@,
                    output,
                ) && output.id@ == ("test"@, Some(name@)) && !output.lag_time
                    && output.log_definition is None && output.timeout is None
                    && output.events_sent@ == name@,
            keys(final(self).named_outputs@).contains(name@),
            receiver.channel.max_events == 100,
            receiver.channel.output@ == name@,
            receiver.channel.ewma_half_life_seconds is None,
            receiver.status == status,
            receiver.count == 0,
    {
        let output_id = OutputId {
            component: ComponentKey::new("test"),
            port: Some(name.to_owned()),
        };
        let (output, channel) = Output::new_with_buffer(
            100,
            name.to_owned(),
            false,
            None,
            output_id,
            None,
            None,
        );
        let ghost before = self.named_outputs@;
        self.named_outputs.insert(name, output);
        proof {
            put_is_found(before, name@, output);
        }
        TestReceiver { channel, status, count: 0 }
    }

    /// Makes one batch, as it is, ready to be sent through the default output.
    pub fn send_event(&self, events: EventArray) -> (pending: Pending)
        requires
            self.default_output is Some,
        ensures
            chunks_of(pending.arrays@) == seq![
                sent_events(
                    events.events(),
                    self.default_output->0.id,
                    self.default_output->0.log_definition,
                ),
            ],
            pending.unsent.count == events.events().len(),
            pending.timeout == self.default_output->0.timeout,
    {
        match &self.default_output {
            Some(output) => output.send_event(events),
            None => vstd::pervasive::unreached(),
        }
    }

    /// Makes events ready to be sent through the default output, in batches.
    pub fn send_batch(&self, events: Vec<Event>) -> (pending: Pending)
        requires
            self.default_output is Some,
        ensures
            chunks_of(pending.arrays@) == sent_chunks(
                chunked(events@, CHUNK_SIZE as nat),
                self.default_output->0.id,
                self.default_output->0.log_definition,
            ),
            pending.unsent.count == events@.len(),
            pending.timeout == self.default_output->0.timeout,
    {
        match &self.default_output {
            Some(output) => output.send_batch(events),
            None => vstd::pervasive::unreached(),
        }
    }

    /// Makes events ready to be sent through a named output, in batches.
    pub fn send_batch_named(&self, name: &str, events: Vec<Event>) -> (pending: Pending)
        requires
            keys(self.named_outputs@).contains(name@),
        ensures
            exists|output: Output| #[trigger]
                self.named_outputs@.contains((name@, output)) && chunks_of(pending.arrays@)
                    == sent_chunks(
                    chunked(events@, CHUNK_SIZE as nat),
                    output.id,
                    output.log_definition,
                ) && pending.unsent.count == events@.len() && pending.timeout == output.timeout,
    {
        match self.named_outputs.get(name) {
            Some(output) => output.send_batch(events),
            None => {
                proof {
                    let entries = self.named_outputs@;
                    let i = choose|i: int| 0 <= i < keys(entries).len() && keys(entries)[i] == name@;
                    assert(entries[i].0 == name@);
                }
                vstd::pervasive::unreached()
            },
        }
    }
}

/// The receiving end of a sender for tests.
///
/// A test has no sink that would report what became of events, so the receiver
/// does.
#[derive(Debug)]
pub struct TestReceiver {
    /// The channel that is received from.
    pub channel: ChannelSpec,
    /// The status that is reported.
    pub status: EventStatus,
    /// How many batches have been given a status by their number.
    pub count: usize,
}

impl TestReceiver {
    /// Takes a batch, and reports the same status for all its events.
    pub fn receive(&self, item: SourceSenderItem) -> (received: (Vec<Event>, Vec<StatusReport>))
        ensures
            models(received.0@) == all_without_finalizers(models(item.events.events())),
            received.1@ == reports_of(all_finalizers(models(item.events.events())), self.status),
    {
        let (item, reports) = item.finalize(self.status);
        (item.into_events(), reports)
    }

    /// Takes a batch, and reports for all its events that they failed or that
    /// they were delivered, by the number of the batch.
    pub fn receive_or_fail(&mut self, item: SourceSenderItem, error_at: impl Fn(usize) -> bool) -> (received:
        (Vec<Event>, Vec<StatusReport>))
        requires
            call_requires(error_at, (old(self).count,)),
            old(self).count < usize::MAX,
        ensures
            models(received.0@) == all_without_finalizers(models(item.events.events())),
            exists|error: bool| #[trigger]
                call_ensures(error_at, (old(self).count,), error) && received.1@ == reports_of(
                    all_finalizers(models(item.events.events())),
                    if error {
                        EventStatus::Errored
                    } else {
                        EventStatus::Delivered
                    },
                ),
            *final(self) == (TestReceiver { count: (old(self).count + 1) as usize, ..*old(self) }),
    {
        let error = error_at(self.count);
        let status = if error {
            EventStatus::Errored
        } else {
            EventStatus::Delivered
        };
        self.count = self.count + 1;
        let (item, reports) = item.finalize(status);
        (item.into_events(), reports)
    }
}

/// Events that are sent without a name leave through the default output.
pub proof fn events_leave_through_the_default_output(
    sender: &SourceSender,
    events: Vec<Event>,
    pending: Pending,
)
    requires
        sender.default_output is Some,
        call_ensures(SourceSender::send_batch, (sender, events), pending),
    ensures
        sends_all(pending.arrays@, events@, sender.default_output->0),
        pending.unsent.count == events@.len(),
        pending.timeout == sender.default_output->0.timeout,
{
    chunks_send_all(&sender.default_output->0, events@, pending.arrays@);
}

/// Events that are sent with a name leave through the output that has it.
pub proof fn events_leave_through_the_named_output(
    sender: &SourceSender,
    name: &str,
    events: Vec<Event>,
    pending: Pending,
)
    requires
        keys(sender.named_outputs@).contains(name@),
        call_ensures(SourceSender::send_batch_named, (sender, name, events), pending),
    ensures
        exists|i: int|
            0 <= i < sender.named_outputs@.len() && (#[trigger] sender.named_outputs@[i]).0 == name@
                && sends_all(pending.arrays@, events@, sender.named_outputs@[i].1)
                && pending.timeout == sender.named_outputs@[i].1.timeout,
        pending.unsent.count == events@.len(),
{
    let output = choose|output: Output| #[trigger]
        sender.named_outputs@.contains((name@, output)) && chunks_of(pending.arrays@)
            == sent_chunks(
            chunked(events@, CHUNK_SIZE as nat),
            output.id,
            output.log_definition,
        ) && pending.unsent.count == events@.len() && pending.timeout == output.timeout;
    chunks_send_all(&output, events@, pending.arrays@);
    let i = choose|i: int|
        0 <= i < sender.named_outputs@.len() && sender.named_outputs@[i] == (name@, output);
    assert(sender.named_outputs@[i].0 == name@);
}

/// A receiver for tests reports what became of every event that it takes, and
/// hands the events on without their duties.
pub proof fn receivers_report_on_all_events(
    receiver: &TestReceiver,
    item: SourceSenderItem,
    received: (Vec<Event>, Vec<StatusReport>),
    i: int,
    j: int,
)
    requires
        call_ensures(TestReceiver::receive, (receiver, item), received),
    ensures
        received.0@.len() == item.events.events().len(),
        received.1@.len() == duties_before(
            item.events.events(),
            item.events.events().len() as int,
        ),
        0 <= i < received.0@.len() ==> duties(received.0@[i]).len() == 0,
        0 <= i < received.1@.len() ==> received.1@[i].status == receiver.status,
        0 <= i < received.0@.len() && 0 <= j < duties(item.events.events()[i]).len() ==> {
            let at = duties_before(item.events.events(), i) + j;
            &&& 0 <= at < received.1@.len()
            &&& received.1@[at].notifier == duties(item.events.events()[i])[j].notifier
        },
{
    let list = item.events.events();
    let all = all_finalizers(models(list));
    all_duties_follow(list);
    let left = models(received.0@);
    let bare = all_without_finalizers(models(list));
    assert(left == bare);
    assert(left.len() == received.0@.len());
    if 0 <= i < list.len() {
        assert(left[i] == received.0@[i]@);
        assert(bare[i].metadata.finalizers.len() == 0);
        if 0 <= j < duties(list[i]).len() {
            assert(duty_at(all, duties_before(list, i) + j, duties(list[i])[j]));
        }
    }
}

} // verus!
