//! Measurements as they are sent over the wire.
use vstd::prelude::*;

use crate::event::metric::{Bucket, Float64, Quantile, Sample, StatisticKind};

verus! {

/// How a distribution is to be summed up, on the wire.
#[derive(Debug, Clone, Copy, PartialEq, Eq, Structural)]
pub enum ProtoStatisticKind {
    /// By counting into buckets.
    Histogram,
    /// By quantiles.
    Summary,
}

/// One sample of a distribution, on the wire.
#[derive(Debug, Clone, Copy, PartialEq, Eq, Structural)]
pub struct DistributionSample {
    /// The measured value.
    pub value: Float64,
    /// How often it was measured.
    pub rate: u32,
}

/// One bucket of a histogram, on the wire, with a short count.
#[derive(Debug, Clone, Copy, PartialEq, Eq, Structural)]
pub struct HistogramBucket {
    /// The greatest value that falls into the bucket.
    pub upper_limit: Float64,
    /// How many values fell into it.
    pub count: u32,
}

/// One bucket of a histogram, on the wire.
#[derive(Debug, Clone, Copy, PartialEq, Eq, Structural)]
pub struct HistogramBucket3 {
    /// The greatest value that falls into the bucket.
    pub upper_limit: Float64,
    /// How many values fell into it.
    pub count: u64,
}

/// One quantile of a summary, on the wire.
#[derive(Debug, Clone, Copy, PartialEq, Eq, Structural)]
pub struct SummaryQuantile {
    /// The share of values that are no greater.
    pub quantile: Float64,
    /// The value.
    pub value: Float64,
}

impl From<ProtoStatisticKind> for StatisticKind {
    fn from(kind: ProtoStatisticKind) -> (statistic: Self) {
        match kind {
            ProtoStatisticKind::Histogram => StatisticKind::Histogram,
            ProtoStatisticKind::Summary => StatisticKind::Summary,
        }
    }
}

impl vstd::std_specs::convert::FromSpecImpl<ProtoStatisticKind> for StatisticKind {
    open spec fn obeys_from_spec() -> bool {
        true
    }

    open spec fn from_spec(kind: ProtoStatisticKind) -> StatisticKind {
        match kind {
            ProtoStatisticKind::Histogram => StatisticKind::Histogram,
            ProtoStatisticKind::Summary => StatisticKind::Summary,
        }
    }
}

/// A sample as it is sent.
pub open spec fn sent_sample(sample: Sample) -> DistributionSample {
    DistributionSample { value: sample.value, rate: sample.rate }
}

/// A sample as it is received.
pub open spec fn received_sample(sample: DistributionSample) -> Sample {
    Sample { value: sample.value, rate: sample.rate }
}

impl From<Sample> for DistributionSample {
    fn from(sample: Sample) -> (sent: Self) {
        DistributionSample { value: sample.value, rate: sample.rate }
    }
}

impl vstd::std_specs::convert::FromSpecImpl<Sample> for DistributionSample {
    open spec fn obeys_from_spec() -> bool {
        true
    }

    open spec fn from_spec(sample: Sample) -> DistributionSample {
        sent_sample(sample)
    }
}

impl From<DistributionSample> for Sample {
    fn from(sample: DistributionSample) -> (received: Self) {
        Sample { value: sample.value, rate: sample.rate }
    }
}

impl vstd::std_specs::convert::FromSpecImpl<DistributionSample> for Sample {
    open spec fn obeys_from_spec() -> bool {
        true
    }

    open spec fn from_spec(sample: DistributionSample) -> Sample {
        received_sample(sample)
    }
}

impl From<HistogramBucket> for Bucket {
    fn from(bucket: HistogramBucket) -> (received: Self) {
        Bucket { upper_limit: bucket.upper_limit, count: bucket.count as u64 }
    }
}

impl vstd::std_specs::convert::FromSpecImpl<HistogramBucket> for Bucket {
    open spec fn obeys_from_spec() -> bool {
        true
    }

    open spec fn from_spec(bucket: HistogramBucket) -> Bucket {
        Bucket { upper_limit: bucket.upper_limit, count: bucket.count as u64 }
    }
}

/// A bucket as it is sent.
pub open spec fn sent_bucket(bucket: Bucket) -> HistogramBucket3 {
    HistogramBucket3 { upper_limit: bucket.upper_limit, count: bucket.count }
}

/// A bucket as it is received.
pub open spec fn received_bucket(bucket: HistogramBucket3) -> Bucket {
    Bucket { upper_limit: bucket.upper_limit, count: bucket.count }
}

impl From<Bucket> for HistogramBucket3 {
    fn from(bucket: Bucket) -> (sent: Self) {
        HistogramBucket3 { upper_limit: bucket.upper_limit, count: bucket.count }
    }
}

impl vstd::std_specs::convert::FromSpecImpl<Bucket> for HistogramBucket3 {
    open spec fn obeys_from_spec() -> bool {
        true
    }

    open spec fn from_spec(bucket: Bucket) -> HistogramBucket3 {
        sent_bucket(bucket)
    }
}

impl From<HistogramBucket3> for Bucket {
    fn from(bucket: HistogramBucket3) -> (received: Self) {
        Bucket { upper_limit: bucket.upper_limit, count: bucket.count }
    }
}

impl vstd::std_specs::convert::FromSpecImpl<HistogramBucket3> for Bucket {
    open spec fn obeys_from_spec() -> bool {
        true
    }

    open spec fn from_spec(bucket: HistogramBucket3) -> Bucket {
        received_bucket(bucket)
    }
}

/// A quantile as it is sent.
pub open spec fn sent_quantile(quantile: Quantile) -> SummaryQuantile {
    SummaryQuantile { quantile: quantile.quantile, value: quantile.value }
}

/// A quantile as it is received.
pub open spec fn received_quantile(quantile: SummaryQuantile) -> Quantile {
    Quantile { quantile: quantile.quantile, value: quantile.value }
}

impl From<Quantile> for SummaryQuantile {
    fn from(quantile: Quantile) -> (sent: Self) {
        SummaryQuantile { quantile: quantile.quantile, value: quantile.value }
    }
}

impl vstd::std_specs::convert::FromSpecImpl<Quantile> for SummaryQuantile {
    open spec fn obeys_from_spec() -> bool {
        true
    }

    open spec fn from_spec(quantile: Quantile) -> SummaryQuantile {
        sent_quantile(quantile)
    }
}

impl From<SummaryQuantile> for Quantile {
    fn from(quantile: SummaryQuantile) -> (received: Self) {
        Quantile { quantile: quantile.quantile, value: quantile.value }
    }
}

impl vstd::std_specs::convert::FromSpecImpl<SummaryQuantile> for Quantile {
    open spec fn obeys_from_spec() -> bool {
        true
    }

    open spec fn from_spec(quantile: SummaryQuantile) -> Quantile {
        received_quantile(quantile)
    }
}

/// Samples, buckets and quantiles are received as they were sent.
pub proof fn received_as_sent(sample: Sample, bucket: Bucket, quantile: Quantile)
    ensures
        received_sample(sent_sample(sample)) == sample,
        received_bucket(sent_bucket(bucket)) == bucket,
        received_quantile(sent_quantile(quantile)) == quantile,
{
}

/// What is sent and what is received have the same numbers, each in its place.
pub proof fn numbers_stay_in_their_places(
    sample: Sample,
    sent_sample: DistributionSample,
    bucket: Bucket,
    sent_bucket: HistogramBucket3,
    quantile: Quantile,
    sent_quantile: SummaryQuantile,
)
    requires
        call_ensures(<DistributionSample as From<Sample>>::from, (sample,), sent_sample),
        call_ensures(<HistogramBucket3 as From<Bucket>>::from, (bucket,), sent_bucket),
        call_ensures(<SummaryQuantile as From<Quantile>>::from, (quantile,), sent_quantile),
    ensures
        sent_sample.value == sample.value,
        sent_sample.rate == sample.rate,
        sent_bucket.upper_limit == bucket.upper_limit,
        sent_bucket.count == bucket.count,
        sent_quantile.quantile == quantile.quantile,
        sent_quantile.value == quantile.value,
{
}

/// A bucket with a short count is received with the same limit and count, and a
/// kind of summing up as what it is.
pub proof fn short_counts_and_kinds_are_received(
    short: HistogramBucket,
    bucket: Bucket,
    kind: ProtoStatisticKind,
    statistic: StatisticKind,
)
    requires
        call_ensures(<Bucket as From<HistogramBucket>>::from, (short,), bucket),
        call_ensures(<StatisticKind as From<ProtoStatisticKind>>::from, (kind,), statistic),
    ensures
        bucket.upper_limit == short.upper_limit,
        bucket.count == short.count,
        statistic is Histogram <==> kind is Histogram,
        statistic is Summary <==> kind is Summary,
{
}

} // verus!
