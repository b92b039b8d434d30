//! Log entries and trace spans.
use vstd::prelude::*;

use crate::event::metadata::{no_metadata, EventMetadata};
use crate::event::value::{field_of, fields_model, Value, ValueModel};

verus! {

/// A structured log entry: its data, most often named fields, and its metadata.
#[derive(Debug)]
pub struct LogEvent {
    /// The data of the entry.
    pub fields: Value,
    /// What travels with the entry.
    pub metadata: EventMetadata,
}

impl Default for LogEvent {
    /// An entry without fields.
    fn default() -> (log: Self)
        ensures
            log.fields@ == ValueModel::Object(Map::empty()),
            log.metadata@ == no_metadata(),
    {
        let fields: Vec<(String, Value)> = Vec::new();
        assert(fields_model(fields@) =~= Map::<Seq<char>, ValueModel>::empty());
        LogEvent { fields: Value::Object(fields), metadata: EventMetadata::default() }
    }
}

impl Clone for LogEvent {
    fn clone(&self) -> (copy: Self)
        ensures
            copy.fields@ == self.fields@,
            copy.metadata@ == self.metadata@,
    {
        LogEvent { fields: self.fields.duplicate(), metadata: self.metadata.clone() }
    }
}

impl LogEvent {
    /// An entry with the given data and without metadata.
    pub fn from_value(fields: Value) -> (log: Self)
        ensures
            log.fields == fields,
            log.metadata@ == no_metadata(),
    {
        LogEvent { fields, metadata: EventMetadata::default() }
    }

    /// What travels with the entry.
    pub fn metadata(&self) -> (metadata: &EventMetadata)
        ensures
            *metadata == self.metadata,
    {
        &self.metadata
    }

    /// The metadata of the entry, to be changed.
    pub fn metadata_mut(&mut self) -> (metadata: &mut EventMetadata)
        ensures
            *metadata == old(self).metadata,
            *final(self) == (LogEvent { metadata: *final(metadata), ..*old(self) }),
    {
        &mut self.metadata
    }

    /// Looks up a field by its name, where the data is an object with such a
    /// field.
    pub fn get(&self, name: &str) -> (value: Option<&Value>)
        ensures
            match (field_of(self.fields@, name@), value) {
                (Some(model), Some(found)) => found@ == model,
                (None, None) => true,
                _ => false,
            },
    {
        self.fields.get(name)
    }

    /// Whether two entries have the same data, whatever their metadata.
    pub fn event_data_eq(&self, other: &LogEvent) -> (same: bool)
        ensures
            same == (self.fields@ == other.fields@),
    {
        self.fields.same(&other.fields)
    }
}

/// A span of a distributed trace, stored like a log entry.
#[derive(Debug)]
pub struct TraceEvent {
    /// The span as a log entry.
    pub log: LogEvent,
}

impl Clone for TraceEvent {
    fn clone(&self) -> (copy: Self)
        ensures
            copy.log.fields@ == self.log.fields@,
            copy.log.metadata@ == self.log.metadata@,
    {
        TraceEvent { log: self.log.clone() }
    }
}

impl TraceEvent {
    /// The span that the given entry describes.
    pub fn from_log(log: LogEvent) -> (trace: Self)
        ensures
            trace.log == log,
    {
        TraceEvent { log }
    }

    /// Whether two spans have the same data, whatever their metadata.
    pub fn event_data_eq(&self, other: &TraceEvent) -> (same: bool)
        ensures
            same == (self.log.fields@ == other.log.fields@),
    {
        self.log.event_data_eq(&other.log)
    }
}

} // verus!
