//! The sinks themselves.
pub mod blackhole;
pub mod console;
