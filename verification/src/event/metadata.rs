//! What travels with an event without being part of its data.
use std::sync::Arc;
use vstd::prelude::*;

use crate::id::{same_port, ComponentKey, OutputId, OutputName};
use crate::schema::{share, Definition};
use crate::text::{same_texts, texts};

verus! {

/// What became of an event.
#[derive(Debug, Clone, Copy, PartialEq, Eq, Structural)]
pub enum EventStatus {
    /// It was sent to its destination.
    Delivered,
    /// Sending it failed, and may be tried again.
    Errored,
    /// The destination refused it for good.
    Rejected,
    /// It was left out on purpose.
    Dropped,
}

/// A handle on a batch of events whose delivery a source waits for.
#[derive(Debug, Clone, Copy, PartialEq, Eq, Structural)]
pub struct BatchNotifier {
    /// The number of the batch.
    pub batch: u64,
}

/// The duty to report to a batch what became of one event.
#[derive(Debug, Clone, Copy, PartialEq, Eq, Structural)]
pub struct EventFinalizer {
    /// The batch to report to.
    pub notifier: BatchNotifier,
}

impl EventFinalizer {
    /// The duty to report to `notifier`.
    pub fn new(notifier: BatchNotifier) -> (finalizer: Self)
        ensures
            finalizer.notifier == notifier,
    {
        EventFinalizer { notifier }
    }
}

/// The duties to report that an event carries, in the order of their arrival.
#[derive(Debug)]
pub struct EventFinalizers {
    /// The single duties.
    pub finalizers: Vec<EventFinalizer>,
}

impl View for EventFinalizers {
    type V = Seq<EventFinalizer>;

    open spec fn view(&self) -> Seq<EventFinalizer> {
        self.finalizers@
    }
}

impl EventFinalizers {
    /// No duty to report.
    pub fn new() -> (finalizers: Self)
        ensures
            finalizers@ == Seq::<EventFinalizer>::empty(),
    {
        EventFinalizers { finalizers: Vec::new() }
    }

    /// Adds one more duty.
    pub fn add(&mut self, finalizer: EventFinalizer)
        ensures
            final(self)@ == old(self)@.push(finalizer),
    {
        self.finalizers.push(finalizer);
    }

    /// Takes over the duties of `other`, behind those that are there.
    pub fn merge(&mut self, other: EventFinalizers)
        ensures
            final(self)@ == old(self)@ + other@,
    {
        let mut other = other;
        self.finalizers.append(&mut other.finalizers);
    }
}

impl EventFinalizers {
    /// Decides whether these are the same duties, in the same order.
    pub fn same(&self, other: &EventFinalizers) -> (same: bool)
        ensures
            same == (self@ == other@),
    {
        if self.finalizers.len() != other.finalizers.len() {
            return false;
        }
        let mut i: usize = 0;
        while i < self.finalizers.len()
            invariant
                i <= self.finalizers@.len(),
                self.finalizers@.len() == other.finalizers@.len(),
                forall|j: int| 0 <= j < i ==> self.finalizers@[j] == other.finalizers@[j],
            decreases self.finalizers@.len() - i,
        {
            if self.finalizers[i] != other.finalizers[i] {
                return false;
            }
            i = i + 1;
        }
        assert(self@ =~= other@);
        true
    }
}

/// What an [`EventMetadata`] stands for.
pub ghost struct MetadataModel {
    pub source_id: Option<Seq<char>>,
    pub upstream_id: Option<OutputName>,
    pub source_type: Option<Seq<char>>,
    pub schema_definition: DefinitionModel,
    pub finalizers: Seq<EventFinalizer>,
}

/// What a [`Definition`] stands for: its fields, and whether it is open.
pub type DefinitionModel = (Seq<Seq<char>>, bool);

impl View for Definition {
    type V = DefinitionModel;

    open spec fn view(&self) -> DefinitionModel {
        (texts(self.fields@), self.open)
    }
}

/// Information about an event that is not part of what a user sees of it.
#[derive(Debug)]
pub struct EventMetadata {
    /// The source that made the event.
    pub source_id: Option<Arc<ComponentKey>>,
    /// The output that the event came through last.
    pub upstream_id: Option<Arc<OutputId>>,
    /// The type of the source that made the event, such as `kafka`.
    pub source_type: Option<String>,
    /// What the event is expected to look like.
    pub schema_definition: Arc<Definition>,
    /// Whom to tell what became of the event.
    pub finalizers: EventFinalizers,
}

impl View for EventMetadata {
    type V = MetadataModel;

    open spec fn view(&self) -> MetadataModel {
        MetadataModel {
            source_id: match self.source_id {
                Some(id) => Some(id@),
                None => None,
            },
            upstream_id: match self.upstream_id {
                Some(id) => Some(id@),
                None => None,
            },
            source_type: match self.source_type {
                Some(name) => Some(name@),
                None => None,
            },
            schema_definition: self.schema_definition@,
            finalizers: self.finalizers@,
        }
    }
}

impl Default for EventMetadata {
    /// Metadata that says nothing: no origin, any shape, nobody to tell.
    fn default() -> (metadata: Self)
        ensures
            metadata@ == no_metadata(),
            metadata.source_id is None,
            metadata.upstream_id is None,
    {
        let metadata = EventMetadata {
            source_id: None,
            upstream_id: None,
            source_type: None,
            schema_definition: Arc::new(Definition::any()),
            finalizers: EventFinalizers::new(),
        };
        assert(metadata.schema_definition@.0 =~= Seq::<Seq<char>>::empty());
        metadata
    }
}

/// The metadata of an event of which nothing is known.
pub open spec fn no_metadata() -> MetadataModel {
    MetadataModel {
        source_id: None,
        upstream_id: None,
        source_type: None,
        schema_definition: (Seq::empty(), true),
        finalizers: Seq::empty(),
    }
}

impl Clone for EventMetadata {
    fn clone(&self) -> (copy: Self)
        ensures
            copy@ == self@,
            copy.source_id == self.source_id,
            copy.upstream_id == self.upstream_id,
            copy.source_type == self.source_type,
            copy.schema_definition == self.schema_definition,
    {
        let source_id = match &self.source_id {
            Some(id) => Some(share(id)),
            None => None,
        };
        let upstream_id = match &self.upstream_id {
            Some(id) => Some(share(id)),
            None => None,
        };
        let source_type = match &self.source_type {
            Some(name) => Some(name.clone()),
            None => None,
        };
        let mut finalizers = EventFinalizers::new();
        let mut i: usize = 0;
        while i < self.finalizers.finalizers.len()
            invariant
                i <= self.finalizers.finalizers.len(),
                finalizers@ == self.finalizers@.take(i as int),
            decreases self.finalizers.finalizers.len() - i,
        {
            finalizers.add(self.finalizers.finalizers[i]);
            assert(finalizers@ =~= self.finalizers@.take(i + 1));
            i = i + 1;
        }
        assert(self.finalizers@.take(i as int) =~= self.finalizers@);
        EventMetadata {
            source_id,
            upstream_id,
            source_type,
            schema_definition: share(&self.schema_definition),
            finalizers,
        }
    }
}

impl EventMetadata {
    /// The source that made the event.
    pub fn source_id(&self) -> (id: Option<&Arc<ComponentKey>>)
        ensures
            id == (match self.source_id {
                Some(source) => Some(&source),
                None => None,
            }),
    {
        match &self.source_id {
            Some(id) => Some(id),
            None => None,
        }
    }

    /// Names the source that made the event.
    pub fn set_source_id(&mut self, source_id: Arc<ComponentKey>)
        ensures
            *final(self) == (EventMetadata { source_id: Some(source_id), ..*old(self) }),
    {
        self.source_id = Some(source_id);
    }

    /// Names the output that the event came through last.
    pub fn set_upstream_id(&mut self, upstream_id: Arc<OutputId>)
        ensures
            *final(self) == (EventMetadata { upstream_id: Some(upstream_id), ..*old(self) }),
    {
        self.upstream_id = Some(upstream_id);
    }

    /// Names the type of the source that made the event.
    pub fn set_source_type(&mut self, source_type: &str)
        ensures
            final(self)@ == (MetadataModel { source_type: Some(source_type@), ..old(self)@ }),
            final(self).source_id == old(self).source_id,
            final(self).upstream_id == old(self).upstream_id,
            final(self).schema_definition == old(self).schema_definition,
    {
        self.source_type = Some(source_type.to_owned());
    }

    /// Says what the event is expected to look like.
    pub fn set_schema_definition(&mut self, definition: &Arc<Definition>)
        ensures
            *final(self) == (EventMetadata { schema_definition: *definition, ..*old(self) }),
    {
        self.schema_definition = share(definition);
    }

    /// Adds one more party to tell what became of the event.
    pub fn add_finalizer(&mut self, finalizer: EventFinalizer)
        ensures
            final(self)@ == (MetadataModel {
                finalizers: old(self)@.finalizers.push(finalizer),
                ..old(self)@
            }),
            final(self).source_id == old(self).source_id,
            final(self).upstream_id == old(self).upstream_id,
            final(self).source_type == old(self).source_type,
            final(self).schema_definition == old(self).schema_definition,
    {
        self.finalizers.add(finalizer);
    }

    /// Decides whether two pieces of metadata say the same.
    pub fn same(&self, other: &EventMetadata) -> (same: bool)
        ensures
            same == (self@ == other@),
    {
        let sources = match (&self.source_id, &other.source_id) {
            (Some(a), Some(b)) => a.same(b),
            (None, None) => true,
            _ => false,
        };
        let upstreams = match (&self.upstream_id, &other.upstream_id) {
            (Some(a), Some(b)) => a.same(b),
            (None, None) => true,
            _ => false,
        };
        sources && upstreams && same_port(&self.source_type, &other.source_type)
            && self.schema_definition.open == other.schema_definition.open && same_texts(
            &self.schema_definition.fields,
            &other.schema_definition.fields,
        ) && self.finalizers.same(&other.finalizers)
    }

    /// Takes the duties to report out of the metadata.
    pub fn take_finalizers(&mut self) -> (finalizers: EventFinalizers)
        ensures
            finalizers@ == old(self)@.finalizers,
            final(self)@ == (MetadataModel { finalizers: Seq::empty(), ..old(self)@ }),
    {
        let mut finalizers = EventFinalizers::new();
        std::mem::swap(&mut finalizers, &mut self.finalizers);
        finalizers
    }
}

/// Metadata say the same where all their parts do.
pub proof fn metadata_are_compared_part_by_part(a: &EventMetadata, b: &EventMetadata, same: bool)
    requires
        call_ensures(EventMetadata::same, (a, b), same),
    ensures
        same ==> {
            &&& a.source_id is Some <==> b.source_id is Some
            &&& a.source_id is Some ==> a.source_id->0@ == b.source_id->0@
            &&& a.upstream_id is Some <==> b.upstream_id is Some
            &&& a.upstream_id is Some ==> a.upstream_id->0.component@ == b.upstream_id->0.component@
            &&& a.upstream_id is Some ==> (a.upstream_id->0.port is Some
                <==> b.upstream_id->0.port is Some)
            &&& a.upstream_id is Some && a.upstream_id->0.port is Some ==> a.upstream_id->0.port->0@
                == b.upstream_id->0.port->0@
            &&& a.source_type is Some <==> b.source_type is Some
            &&& a.source_type is Some ==> a.source_type->0@ == b.source_type->0@
            &&& a.schema_definition.open == b.schema_definition.open
            &&& a.schema_definition.fields@.len() == b.schema_definition.fields@.len()
            &&& forall|i: int|
                0 <= i < a.schema_definition.fields@.len() ==> (
                #[trigger] a.schema_definition.fields@[i])@ == b.schema_definition.fields@[i]@
            &&& a.finalizers.finalizers@ == b.finalizers.finalizers@
        },
        a.source_id == b.source_id && a.upstream_id == b.upstream_id && a.source_type == b.source_type
            && a.schema_definition == b.schema_definition && a.finalizers.finalizers@
            == b.finalizers.finalizers@ ==> same,
{
    if same {
        let left = texts(a.schema_definition.fields@);
        let right = texts(b.schema_definition.fields@);
        assert(a.schema_definition@.0 == left && b.schema_definition@.0 == right);
        assert(left == right);
        assert(left.len() == right.len());
        assert forall|i: int| 0 <= i < a.schema_definition.fields@.len() implies (
        #[trigger] a.schema_definition.fields@[i])@ == b.schema_definition.fields@[i]@ by {
            assert(left[i] == right[i]);
        }
    }
}

/// Naming a source or an output, or saying what an event looks like, changes
/// that and nothing else.
pub proof fn marks_change_one_part(
    a: &mut EventMetadata,
    source: Arc<ComponentKey>,
    b: &mut EventMetadata,
    upstream: Arc<OutputId>,
    c: &mut EventMetadata,
    definition: &Arc<Definition>,
)
    requires
        call_ensures(EventMetadata::set_source_id, (a, source), ()),
        call_ensures(EventMetadata::set_upstream_id, (b, upstream), ()),
        call_ensures(EventMetadata::set_schema_definition, (c, definition), ()),
    ensures
        final(a).source_id == Some(source),
        final(a).upstream_id == old(a).upstream_id,
        final(a).source_type == old(a).source_type,
        final(a).schema_definition == old(a).schema_definition,
        final(a).finalizers == old(a).finalizers,
        final(b).upstream_id == Some(upstream),
        final(b).source_id == old(b).source_id,
        final(b).source_type == old(b).source_type,
        final(b).schema_definition == old(b).schema_definition,
        final(b).finalizers == old(b).finalizers,
        final(c).schema_definition == *definition,
        final(c).source_id == old(c).source_id,
        final(c).upstream_id == old(c).upstream_id,
        final(c).source_type == old(c).source_type,
        final(c).finalizers == old(c).finalizers,
{
}

/// Duties are kept in the order of their arrival, and all are handed over when
/// they are taken.
pub proof fn duties_are_kept_and_handed_over(
    a: &mut EventMetadata,
    finalizer: EventFinalizer,
    b: &mut EventMetadata,
    taken: EventFinalizers,
)
    requires
        call_ensures(EventMetadata::add_finalizer, (a, finalizer), ()),
        call_ensures(EventMetadata::take_finalizers, (b,), taken),
    ensures
        final(a).finalizers.finalizers@ == old(a).finalizers.finalizers@.push(finalizer),
        taken.finalizers@ == old(b).finalizers.finalizers@,
        final(b).finalizers.finalizers@.len() == 0,
{
    assert(final(a)@.finalizers == old(a)@.finalizers.push(finalizer));
    assert(final(b)@.finalizers.len() == 0);
}

} // verus!
