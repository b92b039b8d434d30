//! The configuration of a pipeline.
//!
//! A [`ConfigBuilder`] collects what configuration files say, with inputs as
//! they are written there. Compiling it gives a [`Config`], in which every
//! input is an output of another component.
pub mod acknowledgements;
pub mod builder;
pub mod compiler;
pub mod cycles;
pub mod diff;
pub mod disk;
pub mod global;
pub mod globs;
pub mod graph;
pub mod io;
pub mod json;
pub mod loading;
pub mod paths;
pub mod resource;
pub mod sink;
pub mod source;
pub mod table;
pub mod transform;
pub mod unit_tests;
pub mod validation;
pub mod vars;
pub mod watcher;

use vstd::prelude::*;

use crate::component_map::ComponentMap;
use crate::config::global::{GlobalOptions, SchemaOptions};
use crate::config::sink::SinkOuter;
use crate::config::source::{Duration, SourceOuter};
use crate::config::table::EnrichmentTableOuter;
use crate::config::transform::TransformOuter;
use crate::id::OutputId;

verus! {

/// What is done about sinks that cannot be reached.
#[derive(Debug, Clone, Copy, PartialEq, Eq, Structural)]
pub struct HealthcheckOptions {
    /// Whether sinks are checked at all.
    pub enabled: bool,
    /// Whether a sink that cannot be reached stops the pipeline from starting.
    pub require_healthy: bool,
}

/// A test that comes with a configuration, with outputs named by `T`.
#[derive(Debug)]
pub struct TestDefinition<T> {
    /// The name of the test.
    pub name: String,
    /// The outputs whose events are looked at.
    pub extract_from: Vec<T>,
    /// The outputs that must give no event.
    pub no_outputs_from: Vec<T>,
}

/// What configuration files say.
pub struct ConfigBuilder {
    /// Settings that all components share.
    pub global: GlobalOptions,
    /// How events are described.
    pub schema: SchemaOptions,
    /// What is done about sinks that cannot be reached.
    pub healthchecks: HealthcheckOptions,
    /// The enrichment tables.
    pub enrichment_tables: ComponentMap<EnrichmentTableOuter<String>>,
    /// The sources.
    pub sources: ComponentMap<SourceOuter>,
    /// The sinks.
    pub sinks: ComponentMap<SinkOuter<String>>,
    /// The transforms.
    pub transforms: ComponentMap<TransformOuter<String>>,
    /// The tests.
    pub tests: Vec<TestDefinition<String>>,
    /// The type of the provider from which the rest is to be had, if any.
    pub provider: Option<String>,
    /// The stores of secrets, each with its settings as JSON.
    pub secret: ComponentMap<String>,
    /// How long a shutdown may take.
    pub graceful_shutdown_duration: Option<Duration>,
    /// Whether a pipeline without sources or sinks is accepted.
    pub allow_empty: bool,
}

/// A validated configuration.
pub struct Config {
    /// Settings that all components share.
    pub global: GlobalOptions,
    /// How events are described.
    pub schema: SchemaOptions,
    /// What is done about sinks that cannot be reached.
    pub healthchecks: HealthcheckOptions,
    /// The enrichment tables.
    pub enrichment_tables: ComponentMap<EnrichmentTableOuter<OutputId>>,
    /// The sources.
    pub sources: ComponentMap<SourceOuter>,
    /// The sinks.
    pub sinks: ComponentMap<SinkOuter<OutputId>>,
    /// The transforms.
    pub transforms: ComponentMap<TransformOuter<OutputId>>,
    /// The tests.
    pub tests: Vec<TestDefinition<OutputId>>,
    /// The stores of secrets, each with its settings as JSON.
    pub secret: ComponentMap<String>,
    /// How long a shutdown may take.
    pub graceful_shutdown_duration: Option<Duration>,
}

impl Default for Config {
    /// A configuration without components.
    fn default() -> (config: Self)
        ensures
            config.sources@.len() == 0,
            config.transforms@.len() == 0,
            config.sinks@.len() == 0,
            config.enrichment_tables@.len() == 0,
            config.tests@.len() == 0,
            config.secret@.len() == 0,
            config.schema.log_namespace is None,
            config.healthchecks.enabled && !config.healthchecks.require_healthy,
            config.graceful_shutdown_duration is None,
            config.global.data_dir is None,
            config.global.acknowledgements.enabled is None,
            config.global.wildcard_matching is None,
            config.global.buffer_utilization_ewma_half_life_seconds is None,
            config.global.latency_ewma_alpha is None,
    {
        Config {
            global: GlobalOptions::default(),
            schema: SchemaOptions::unset(),
            healthchecks: HealthcheckOptions { enabled: true, require_healthy: false },
            enrichment_tables: ComponentMap::new(),
            sources: ComponentMap::new(),
            sinks: ComponentMap::new(),
            transforms: ComponentMap::new(),
            tests: Vec::new(),
            secret: ComponentMap::new(),
            graceful_shutdown_duration: None,
        }
    }
}

impl Config {
    /// An empty collection of what configuration files say.
    pub fn builder() -> (builder: ConfigBuilder)
        ensures
            builder.is_fresh(),
    {
        ConfigBuilder::default()
    }
}

impl Default for ConfigBuilder {
    /// Nothing is said.
    fn default() -> (builder: Self)
        ensures
            builder.is_fresh(),
    {
        ConfigBuilder {
            global: GlobalOptions::default(),
            schema: SchemaOptions::unset(),
            healthchecks: HealthcheckOptions { enabled: true, require_healthy: false },
            enrichment_tables: ComponentMap::new(),
            sources: ComponentMap::new(),
            sinks: ComponentMap::new(),
            transforms: ComponentMap::new(),
            tests: Vec::new(),
            provider: None,
            secret: ComponentMap::new(),
            graceful_shutdown_duration: None,
            allow_empty: false,
        }
    }
}

impl ConfigBuilder {
    /// Whether nothing has been said yet.
    pub open spec fn is_fresh(&self) -> bool {
        &&& self.sources@.len() == 0
        &&& self.transforms@.len() == 0
        &&& self.sinks@.len() == 0
        &&& self.enrichment_tables@.len() == 0
        &&& self.tests@.len() == 0
        &&& self.secret@.len() == 0
        &&& self.provider is None
        &&& self.healthchecks.enabled && !self.healthchecks.require_healthy
        &&& self.schema.log_namespace is None
        &&& self.graceful_shutdown_duration is None
        &&& !self.allow_empty
        &&& self.global.data_dir is None
        &&& self.global.acknowledgements.enabled is None
        &&& self.global.wildcard_matching is None
        &&& self.global.buffer_utilization_ewma_half_life_seconds is None
        &&& self.global.latency_ewma_alpha is None
    }
}

/// A new builder says nothing: it has no components, no provider and no
/// settings, and an empty pipeline is not accepted.
pub proof fn builders_start_with_nothing(builder: ConfigBuilder)
    requires
        call_ensures(Config::builder, (), builder),
    ensures
        builder.sources@.len() == 0,
        builder.transforms@.len() == 0,
        builder.sinks@.len() == 0,
        builder.enrichment_tables@.len() == 0,
        builder.tests@.len() == 0,
        builder.secret@.len() == 0,
        builder.provider is None,
        builder.healthchecks.enabled,
        !builder.healthchecks.require_healthy,
        builder.schema.log_namespace is None,
        builder.graceful_shutdown_duration is None,
        !builder.allow_empty,
        builder.global.data_dir is None,
        builder.global.acknowledgements.enabled is None,
        builder.global.wildcard_matching is None,
        builder.global.buffer_utilization_ewma_half_life_seconds is None,
        builder.global.latency_ewma_alpha is None,
{
}

} // verus!
