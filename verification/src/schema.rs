//! Descriptions of the shape of events.
use std::sync::Arc;
use vstd::prelude::*;

use crate::id::{OutputId, OutputName};

verus! {

/// What an event of a stream is expected to look like.
///
/// A definition travels with an event and is attached or replaced as a whole.
#[derive(Debug)]
pub struct Definition {
    /// The names of the fields that every event has.
    pub fields: Vec<String>,
    /// Whether an event may have other fields too.
    pub open: bool,
}

impl Definition {
    /// The definition that every event meets.
    pub fn any() -> (definition: Self)
        ensures
            definition.fields@.len() == 0,
            definition.open,
    {
        Definition { fields: Vec::new(), open: true }
    }
}

impl Clone for Definition {
    fn clone(&self) -> (copy: Self)
        ensures
            copy.fields@ == self.fields@,
            copy.open == self.open,
    {
        let mut fields: Vec<String> = Vec::new();
        let mut i: usize = 0;
        while i < self.fields.len()
            invariant
                i <= self.fields.len(),
                fields@ == self.fields@.take(i as int),
            decreases self.fields.len() - i,
        {
            fields.push(self.fields[i].clone());
            assert(fields@ =~= self.fields@.take(i + 1));
            i = i + 1;
        }
        assert(self.fields@.take(i as int) =~= self.fields@);
        Definition { fields, open: self.open }
    }
}

/// `Arc::clone`: another pointer to the same value.
#[verifier::external_body]
pub(crate) fn share<T>(pointer: &Arc<T>) -> (shared: Arc<T>)
    ensures
        shared == *pointer,
{
    Arc::clone(pointer)
}

/// The definitions of the events that reach an output, by the upstream output
/// that the events come from.
pub type Definitions = Vec<(OutputId, Arc<Definition>)>;

/// The definition for the given upstream output, if any.
pub open spec fn definition_for(
    definitions: Seq<(OutputId, Arc<Definition>)>,
    upstream: OutputName,
) -> Option<Arc<Definition>>
    decreases definitions.len(),
{
    if definitions.len() == 0 {
        None
    } else if definitions[0].0@ == upstream {
        Some(definitions[0].1)
    } else {
        definition_for(definitions.skip(1), upstream)
    }
}

/// Looks up the definition for the given upstream output.
pub fn find_definition(definitions: &Definitions, upstream: &OutputId) -> (definition: Option<
    Arc<Definition>,
>)
    ensures
        definition == definition_for(definitions@, upstream@),
{
    let mut i: usize = 0;
    assert(definitions@.skip(0) =~= definitions@);
    while i < definitions.len()
        invariant
            i <= definitions.len(),
            definition_for(definitions@, upstream@) == definition_for(
                definitions@.skip(i as int),
                upstream@,
            ),
        decreases definitions.len() - i,
    {
        assert(definitions@.skip(i as int).skip(1) =~= definitions@.skip(i + 1));
        if definitions[i].0.same(upstream) {
            return Some(share(&definitions[i].1));
        }
        i = i + 1;
    }
    None
}

/// Whether two identifiers name one output: they have the same component and the
/// same port, or no port both.
pub open spec fn one_output(a: OutputId, b: OutputId) -> bool {
    &&& a.component@ == b.component@
    &&& match (a.port, b.port) {
        (Some(port), Some(other)) => port@ == other@,
        (None, None) => true,
        _ => false,
    }
}

/// Whether the entry at a place is the first for an output.
pub open spec fn first_for(
    definitions: Seq<(OutputId, Arc<Definition>)>,
    upstream: OutputId,
    place: int,
) -> bool {
    &&& 0 <= place < definitions.len()
    &&& one_output(definitions[place].0, upstream)
    &&& forall|j: int| 0 <= j < place ==> !one_output((#[trigger] definitions[j]).0, upstream)
}

/// The first entry for an output says what its events look like.
pub proof fn first_definition_counts(
    definitions: Seq<(OutputId, Arc<Definition>)>,
    upstream: &OutputId,
)
    ensures
        forall|i: int| #[trigger]
            first_for(definitions, *upstream, i) ==> definition_for(definitions, upstream@) == Some(
                definitions[i].1,
            ),
        (forall|i: int|
            0 <= i < definitions.len() ==> !one_output((#[trigger] definitions[i]).0, *upstream))
            ==> definition_for(definitions, upstream@) is None,
    decreases definitions.len(),
{
    if definitions.len() > 0 {
        let rest = definitions.skip(1);
        first_definition_counts(rest, upstream);
        assert(one_output(definitions[0].0, *upstream) <==> definitions[0].0@ == upstream@);
        assert forall|i: int| #[trigger]
            first_for(definitions, *upstream, i) implies definition_for(definitions, upstream@) == Some(
            definitions[i].1,
        ) by {
            if i > 0 {
                assert(!one_output(definitions[0].0, *upstream));
                assert forall|j: int| 0 <= j < i - 1 implies !one_output(
                    (#[trigger] rest[j]).0,
                    *upstream,
                ) by {
                    assert(rest[j] == definitions[j + 1]);
                }
                assert(first_for(rest, *upstream, i - 1));
            }
        }
        if forall|i: int|
            0 <= i < definitions.len() ==> !one_output((#[trigger] definitions[i]).0, *upstream) {
            assert forall|i: int| 0 <= i < rest.len() implies !one_output(
                (#[trigger] rest[i]).0,
                *upstream,
            ) by {
                assert(rest[i] == definitions[i + 1]);
            }
        }
    }
}

/// What is looked up for an output is the first entry for it, and nothing where
/// there is none.
pub proof fn definitions_are_looked_up_by_output(
    definitions: &Definitions,
    upstream: &OutputId,
    found: Option<Arc<Definition>>,
)
    requires
        call_ensures(find_definition, (definitions, upstream), found),
    ensures
        forall|i: int| #[trigger]
            first_for(definitions@, *upstream, i) ==> found == Some(definitions@[i].1),
        (forall|i: int|
            0 <= i < definitions@.len() ==> !one_output((#[trigger] definitions@[i]).0, *upstream))
            ==> found is None,
{
    first_definition_counts(definitions@, upstream);
}

} // verus!
