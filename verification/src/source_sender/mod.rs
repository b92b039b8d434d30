//! How the events of a source get into the pipeline.
//!
//! A source hands its events to a [`SourceSender`](sender::SourceSender). There
//! they are put into batches, marked with the output that they leave through,
//! and sent into the channel of that output. What could not be sent is counted.
pub mod builder;
pub mod output;
pub mod sender;

use vstd::prelude::*;

verus! {

/// The most events that are sent together.
pub const CHUNK_SIZE: usize = 1000;

/// How many events the channel of a sender for tests holds.
pub const TEST_BUFFER_SIZE: usize = 100;

/// The name of the metric on how old events are when they are sent.
pub const LAG_TIME_NAME: &'static str = "source_lag_time_seconds";

/// The prefix of the metrics on how full the channel of an output is.
pub const UTILIZATION_METRIC_PREFIX: &'static str = "source_buffer";

/// Why events could not be sent.
#[derive(Debug, Clone, Copy, PartialEq, Eq, Structural)]
pub enum SendError {
    /// It took too long.
    Timeout,
    /// The channel is closed.
    Closed,
}

} // verus!
