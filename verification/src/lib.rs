//! A pipeline for logs, metrics and traces: events, how they flow from sources
//! through transforms to sinks, and how pipelines are configured.
pub mod component_map;
pub mod config;
pub mod configurable;
pub mod event;
pub mod id;
pub mod schema;
pub mod sinks;
pub mod source_sender;
pub mod sources;
pub mod text;
pub mod transform;
pub mod transforms;
