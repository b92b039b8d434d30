//! The configuration of enrichment tables.
use std::sync::Arc;
use vstd::prelude::*;

use crate::config::sink::SinkConfig;
use crate::config::source::SourceConfig;
use crate::id::ComponentKey;

verus! {

/// The source that reads an enrichment table.
#[derive(Debug)]
pub struct TableSource {
    /// The name of the source.
    pub key: ComponentKey,
    /// The source itself.
    pub config: Arc<SourceConfig>,
}

/// An enrichment table of a pipeline, with inputs named by `T`.
///
/// A table may come with a source that reads it, under a name of its own, and
/// with a sink that writes to it, under the name of the table.
#[derive(Debug)]
pub struct EnrichmentTableOuter<T> {
    /// The outputs that feed the table.
    pub inputs: Vec<T>,
    /// The settings for drawing the pipeline, as JSON.
    pub graph: String,
    /// The source that reads the table, if any.
    pub source: Option<TableSource>,
    /// The sink that writes to the table, if any.
    pub sink: Option<Arc<SinkConfig>>,
    /// The settings of the table, as JSON.
    pub settings: String,
}

/// The names of the components that come with a table of the given name.
pub open spec fn derived_keys<T>(table: EnrichmentTableOuter<T>, name: Seq<char>) -> Set<Seq<char>> {
    Set::new(
        |key: Seq<char>|
            (table.source is Some && table.source->0.key@ == key) || (table.sink is Some && key == name),
    )
}

impl<T> EnrichmentTableOuter<T> {
    /// The same table with other inputs.
    pub fn with_inputs<U>(self, inputs: Vec<U>) -> (table: EnrichmentTableOuter<U>)
        ensures
            table == (EnrichmentTableOuter::<U> {
                inputs,
                graph: self.graph,
                source: self.source,
                sink: self.sink,
                settings: self.settings,
            }),
    {
        EnrichmentTableOuter {
            inputs,
            graph: self.graph,
            source: self.source,
            sink: self.sink,
            settings: self.settings,
        }
    }
}

} // verus!
