//! What components take in and give out.
use std::sync::Arc;
use vstd::prelude::*;

use crate::id::clone_port;
use crate::schema::{share, Definition, Definitions};

verus! {

/// The types of events that a stream may hold.
#[derive(Debug, Clone, Copy, PartialEq, Eq, Structural)]
pub struct DataType {
    /// Log entries.
    pub log: bool,
    /// Measurements.
    pub metric: bool,
    /// Trace spans.
    pub trace: bool,
}

impl DataType {
    /// All types of events.
    pub open spec fn all() -> DataType {
        DataType { log: true, metric: true, trace: true }
    }

    /// Whether two streams may hold events of the same type.
    pub open spec fn meets(self, other: DataType) -> bool {
        (self.log && other.log) || (self.metric && other.metric) || (self.trace && other.trace)
    }

    /// All types of events.
    pub fn all_bits() -> (types: Self)
        ensures
            types == DataType::all(),
    {
        DataType { log: true, metric: true, trace: true }
    }

    /// Decides whether two streams may hold events of the same type.
    pub fn intersects(&self, other: &DataType) -> (meets: bool)
        ensures
            meets == self.meets(*other),
    {
        (self.log && other.log) || (self.metric && other.metric) || (self.trace && other.trace)
    }
}

/// What a component takes in.
#[derive(Debug, Clone, Copy, PartialEq, Eq, Structural)]
pub struct Input {
    /// The types of events that are taken.
    pub data_type: DataType,
}

impl Input {
    /// Takes events of every type.
    pub fn all() -> (input: Self)
        ensures
            input.data_type == DataType::all(),
    {
        Input { data_type: DataType::all_bits() }
    }
}

/// One output of a source.
#[derive(Debug)]
pub struct SourceOutput {
    /// The name of the output; `None` is the default output.
    pub port: Option<String>,
    /// The types of events that come out.
    pub data_type: DataType,
    /// What the events are expected to look like.
    pub schema_definition: Option<Arc<Definition>>,
}

impl Clone for SourceOutput {
    fn clone(&self) -> (copy: Self)
        ensures
            copy == *self,
    {
        let schema_definition = match &self.schema_definition {
            Some(definition) => Some(share(definition)),
            None => None,
        };
        SourceOutput { port: clone_port(&self.port), data_type: self.data_type, schema_definition }
    }
}

/// One output of a transform.
#[derive(Debug)]
pub struct TransformOutput {
    /// The name of the output; `None` is the default output.
    pub port: Option<String>,
    /// The types of events that come out.
    pub data_type: DataType,
    /// What the events are expected to look like, by the upstream output that
    /// they come from.
    pub log_schema_definitions: Definitions,
}

/// A copy of a list of definitions.
pub fn clone_definitions(definitions: &Definitions) -> (copy: Definitions)
    ensures
        copy@ == definitions@,
{
    let mut copy: Definitions = Vec::new();
    let mut i: usize = 0;
    while i < definitions.len()
        invariant
            i <= definitions.len(),
            copy@ == definitions@.take(i as int),
        decreases definitions.len() - i,
    {
        copy.push((definitions[i].0.clone(), share(&definitions[i].1)));
        assert(copy@ =~= definitions@.take(i + 1));
        i = i + 1;
    }
    assert(definitions@.take(i as int) =~= definitions@);
    copy
}

impl TransformOutput {
    /// A default output.
    pub fn new(data_type: DataType, log_schema_definitions: Definitions) -> (output: Self)
        ensures
            output.port is None,
            output.data_type == data_type,
            output.log_schema_definitions == log_schema_definitions,
    {
        TransformOutput { port: None, data_type, log_schema_definitions }
    }

    /// The same output under a name.
    pub fn with_port(self, name: &str) -> (output: Self)
        ensures
            output.port is Some,
            output.port->0@ == name@,
            output.data_type == self.data_type,
            output.log_schema_definitions == self.log_schema_definitions,
    {
        TransformOutput {
            port: Some(name.to_owned()),
            data_type: self.data_type,
            log_schema_definitions: self.log_schema_definitions,
        }
    }
}

impl Clone for TransformOutput {
    fn clone(&self) -> (copy: Self)
        ensures
            copy.port == self.port,
            copy.data_type == self.data_type,
            copy.log_schema_definitions@ == self.log_schema_definitions@,
    {
        TransformOutput {
            port: clone_port(&self.port),
            data_type: self.data_type,
            log_schema_definitions: clone_definitions(&self.log_schema_definitions),
        }
    }
}

/// Two streams may hold events of the same type just where both may hold log
/// entries, both measurements or both trace spans.
pub proof fn shared_types_meet(a: &DataType, b: &DataType, met: bool)
    requires
        call_ensures(DataType::intersects, (a, b), met),
    ensures
        a.log && b.log ==> met,
        a.metric && b.metric ==> met,
        a.trace && b.trace ==> met,
        met ==> (a.log && b.log) || (a.metric && b.metric) || (a.trace && b.trace),
{
}

/// A stream that may hold any events at all shares a type with itself, and it
/// does not matter which of two streams comes first.
pub proof fn streams_meet_themselves(a: &DataType, b: &DataType, own: bool, there: bool, back: bool)
    requires
        call_ensures(DataType::intersects, (a, a), own),
        call_ensures(DataType::intersects, (a, b), there),
        call_ensures(DataType::intersects, (b, a), back),
    ensures
        own <==> a.log || a.metric || a.trace,
        there == back,
{
}

/// All types of events are log entries, measurements and trace spans.
pub proof fn all_types_are_three(types: DataType, input: Input)
    requires
        call_ensures(DataType::all_bits, (), types),
        call_ensures(Input::all, (), input),
    ensures
        types.log && types.metric && types.trace,
        input.data_type.log && input.data_type.metric && input.data_type.trace,
{
}

} // verus!
