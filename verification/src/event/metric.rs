//! Measurements.
use vstd::prelude::*;

use crate::event::metadata::EventMetadata;
use crate::event::time::Time;
use crate::text::{holds_text, texts};

verus! {

/// A double-precision number, by its IEEE 754 bit pattern.
#[derive(Debug, Clone, Copy, PartialEq, Eq, Structural)]
pub struct Float64 {
    /// The sign, the exponent and the fraction, from the highest bit down.
    pub bits: u64,
}

/// The bit patterns from here on, and up to the sign bit, are not numbers.
pub const NOT_A_NUMBER_ABOVE: u64 = 0x7FF0_0000_0000_0000;

/// The sign bit.
pub const SIGN: u64 = 0x8000_0000_0000_0000;

/// The bit pattern of one.
pub const ONE: u64 = 0x3FF0_0000_0000_0000;

impl Float64 {
    /// The number with the given bit pattern.
    pub fn from_bits(bits: u64) -> (number: Self)
        ensures
            number.bits == bits,
    {
        Float64 { bits }
    }

    /// The bit pattern without the sign.
    pub open spec fn magnitude(self) -> u64 {
        if self.bits >= SIGN {
            (self.bits - SIGN) as u64
        } else {
            self.bits
        }
    }

    /// Whether the pattern is not a number.
    pub open spec fn is_nan(self) -> bool {
        self.magnitude() > NOT_A_NUMBER_ABOVE
    }

    /// Numeric equality: what is not a number equals nothing, and the two
    /// zeros are equal.
    pub open spec fn equals(self, other: Float64) -> bool {
        &&& !self.is_nan()
        &&& !other.is_nan()
        &&& self.bits == other.bits || (self.magnitude() == 0 && other.magnitude() == 0)
    }

    /// Whether the number is greater than zero.
    pub open spec fn positive(self) -> bool {
        0 < self.bits <= NOT_A_NUMBER_ABOVE
    }

    /// Whether the number lies between zero and one, both left out.
    pub open spec fn fraction(self) -> bool {
        0 < self.bits < ONE
    }

    /// Decides whether the number is greater than zero.
    pub fn is_positive(&self) -> (positive: bool)
        ensures
            positive == self.positive(),
    {
        self.bits > 0 && self.bits <= NOT_A_NUMBER_ABOVE
    }

    /// Decides whether the number lies between zero and one, both left out.
    pub fn is_fraction(&self) -> (fraction: bool)
        ensures
            fraction == self.fraction(),
    {
        self.bits > 0 && self.bits < ONE
    }

    /// Decides numeric equality.
    pub fn same(&self, other: &Float64) -> (same: bool)
        ensures
            same == self.equals(*other),
    {
        let a: u64 = if self.bits >= SIGN { self.bits - SIGN } else { self.bits };
        let b: u64 = if other.bits >= SIGN { other.bits - SIGN } else { other.bits };
        a <= NOT_A_NUMBER_ABOVE && b <= NOT_A_NUMBER_ABOVE && (self.bits == other.bits || (a == 0 && b
            == 0))
    }
}

/// How a measurement relates to earlier ones.
#[derive(Debug, Clone, Copy, PartialEq, Eq, Structural)]
pub enum MetricKind {
    /// A change since the last report.
    Incremental,
    /// The value as it is now.
    Absolute,
}

/// How the samples of a distribution are to be summed up.
#[derive(Debug, Clone, Copy, PartialEq, Eq, Structural)]
pub enum StatisticKind {
    /// By counting into buckets.
    Histogram,
    /// By quantiles.
    Summary,
}

/// One measured value of a distribution.
#[derive(Debug, Clone, Copy, PartialEq, Eq, Structural)]
pub struct Sample {
    /// The measured value.
    pub value: Float64,
    /// How often it was measured.
    pub rate: u32,
}

/// One bucket of a histogram.
#[derive(Debug, Clone, Copy, PartialEq, Eq, Structural)]
pub struct Bucket {
    /// The greatest value that falls into the bucket.
    pub upper_limit: Float64,
    /// How many values fell into it.
    pub count: u64,
}

/// One quantile of a summary.
#[derive(Debug, Clone, Copy, PartialEq, Eq, Structural)]
pub struct Quantile {
    /// The share of values that are no greater.
    pub quantile: Float64,
    /// The value.
    pub value: Float64,
}

/// A measured value.
#[derive(Debug)]
pub enum MetricValue {
    /// A total that only grows.
    Counter { value: Float64 },
    /// A value that goes up and down.
    Gauge { value: Float64 },
    /// The distinct values that were seen, in any order.
    UniqueValues { values: Vec<String> },
    /// Single samples.
    Distribution { samples: Vec<Sample>, statistic: StatisticKind },
    /// Samples counted into buckets.
    AggregatedHistogram { buckets: Vec<Bucket>, count: u64, sum: Float64 },
    /// Quantiles of samples.
    AggregatedSummary { quantiles: Vec<Quantile>, count: u64, sum: Float64 },
}

/// What a [`MetricValue`] stands for.
pub ghost enum MetricValueModel {
    Counter(Float64),
    Gauge(Float64),
    UniqueValues(Set<Seq<char>>),
    Distribution(Seq<Sample>, StatisticKind),
    AggregatedHistogram(Seq<Bucket>, u64, Float64),
    AggregatedSummary(Seq<Quantile>, u64, Float64),
}

impl View for MetricValue {
    type V = MetricValueModel;

    open spec fn view(&self) -> MetricValueModel {
        match *self {
            MetricValue::Counter { value } => MetricValueModel::Counter(value),
            MetricValue::Gauge { value } => MetricValueModel::Gauge(value),
            MetricValue::UniqueValues { values } => MetricValueModel::UniqueValues(
                texts(values@).to_set(),
            ),
            MetricValue::Distribution { samples, statistic } => MetricValueModel::Distribution(
                samples@,
                statistic,
            ),
            MetricValue::AggregatedHistogram { buckets, count, sum } => {
                MetricValueModel::AggregatedHistogram(buckets@, count, sum)
            },
            MetricValue::AggregatedSummary { quantiles, count, sum } => {
                MetricValueModel::AggregatedSummary(quantiles@, count, sum)
            },
        }
    }
}

/// Whether two lists of samples measure the same.
pub open spec fn samples_equal(a: Seq<Sample>, b: Seq<Sample>) -> bool {
    a.len() == b.len() && forall|i: int|
        0 <= i < a.len() ==> (#[trigger] a[i]).value.equals(b[i].value) && a[i].rate == b[i].rate
}

/// Whether two lists of buckets count the same.
pub open spec fn buckets_equal(a: Seq<Bucket>, b: Seq<Bucket>) -> bool {
    a.len() == b.len() && forall|i: int|
        0 <= i < a.len() ==> (#[trigger] a[i]).upper_limit.equals(b[i].upper_limit) && a[i].count
            == b[i].count
}

/// Whether two lists of quantiles say the same.
pub open spec fn quantiles_equal(a: Seq<Quantile>, b: Seq<Quantile>) -> bool {
    a.len() == b.len() && forall|i: int|
        0 <= i < a.len() ==> (#[trigger] a[i]).quantile.equals(b[i].quantile) && a[i].value.equals(
            b[i].value,
        )
}

/// Whether two measured values are equal, number by number.
pub open spec fn values_equal(a: MetricValueModel, b: MetricValueModel) -> bool {
    match (a, b) {
        (MetricValueModel::Counter(x), MetricValueModel::Counter(y)) => x.equals(y),
        (MetricValueModel::Gauge(x), MetricValueModel::Gauge(y)) => x.equals(y),
        (MetricValueModel::UniqueValues(x), MetricValueModel::UniqueValues(y)) => x == y,
        (MetricValueModel::Distribution(x, s), MetricValueModel::Distribution(y, t)) => samples_equal(
            x,
            y,
        ) && s == t,
        (
            MetricValueModel::AggregatedHistogram(x, c, s),
            MetricValueModel::AggregatedHistogram(y, d, t),
        ) => buckets_equal(x, y) && c == d && s.equals(t),
        (
            MetricValueModel::AggregatedSummary(x, c, s),
            MetricValueModel::AggregatedSummary(y, d, t),
        ) => quantiles_equal(x, y) && c == d && s.equals(t),
        _ => false,
    }
}

fn same_samples(a: &Vec<Sample>, b: &Vec<Sample>) -> (same: bool)
    ensures
        same == samples_equal(a@, b@),
{
    if a.len() != b.len() {
        return false;
    }
    let mut i: usize = 0;
    while i < a.len()
        invariant
            i <= a.len(),
            a.len() == b.len(),
            forall|j: int|
                0 <= j < i ==> (#[trigger] a@[j]).value.equals(b@[j].value) && a@[j].rate == b@[j].rate,
        decreases a.len() - i,
    {
        if !a[i].value.same(&b[i].value) || a[i].rate != b[i].rate {
            return false;
        }
        i = i + 1;
    }
    true
}

fn same_buckets(a: &Vec<Bucket>, b: &Vec<Bucket>) -> (same: bool)
    ensures
        same == buckets_equal(a@, b@),
{
    if a.len() != b.len() {
        return false;
    }
    let mut i: usize = 0;
    while i < a.len()
        invariant
            i <= a.len(),
            a.len() == b.len(),
            forall|j: int|
                0 <= j < i ==> (#[trigger] a@[j]).upper_limit.equals(b@[j].upper_limit) && a@[j].count
                    == b@[j].count,
        decreases a.len() - i,
    {
        if !a[i].upper_limit.same(&b[i].upper_limit) || a[i].count != b[i].count {
            return false;
        }
        i = i + 1;
    }
    true
}

fn same_quantiles(a: &Vec<Quantile>, b: &Vec<Quantile>) -> (same: bool)
    ensures
        same == quantiles_equal(a@, b@),
{
    if a.len() != b.len() {
        return false;
    }
    let mut i: usize = 0;
    while i < a.len()
        invariant
            i <= a.len(),
            a.len() == b.len(),
            forall|j: int|
                0 <= j < i ==> (#[trigger] a@[j]).quantile.equals(b@[j].quantile) && a@[j].value.equals(
                    b@[j].value,
                ),
        decreases a.len() - i,
    {
        if !a[i].quantile.same(&b[i].quantile) || !a[i].value.same(&b[i].value) {
            return false;
        }
        i = i + 1;
    }
    true
}

/// Decides whether a list holds all texts of another.
fn holds_all(list: &Vec<String>, wanted: &Vec<String>) -> (all: bool)
    ensures
        all == texts(wanted@).to_set().subset_of(texts(list@).to_set()),
{
    let mut i: usize = 0;
    while i < wanted.len()
        invariant
            i <= wanted.len(),
            forall|j: int| 0 <= j < i ==> texts(list@).contains(#[trigger] texts(wanted@)[j]),
        decreases wanted.len() - i,
    {
        if !holds_text(list, wanted[i].as_str()) {
            assert(texts(wanted@)[i as int] == wanted@[i as int]@);
            assert(texts(wanted@).to_set().contains(wanted@[i as int]@));
            assert(!texts(list@).to_set().contains(wanted@[i as int]@));
            return false;
        }
        i = i + 1;
    }
    true
}

fn clone_texts(list: &Vec<String>) -> (copy: Vec<String>)
    ensures
        copy@ == list@,
{
    let mut copy: Vec<String> = Vec::new();
    let mut i: usize = 0;
    while i < list.len()
        invariant
            i <= list.len(),
            copy@ == list@.take(i as int),
        decreases list.len() - i,
    {
        copy.push(list[i].clone());
        assert(copy@ =~= list@.take(i + 1));
        i = i + 1;
    }
    assert(list@.take(i as int) =~= list@);
    copy
}

fn clone_copies<T: Copy>(list: &Vec<T>) -> (copy: Vec<T>)
    ensures
        copy@ == list@,
{
    let mut copy: Vec<T> = Vec::new();
    let mut i: usize = 0;
    while i < list.len()
        invariant
            i <= list.len(),
            copy@ == list@.take(i as int),
        decreases list.len() - i,
    {
        copy.push(list[i]);
        assert(copy@ =~= list@.take(i + 1));
        i = i + 1;
    }
    assert(list@.take(i as int) =~= list@);
    copy
}

impl MetricValue {
    /// Decides whether two measured values are equal, number by number.
    pub fn same(&self, other: &MetricValue) -> (same: bool)
        ensures
            same == values_equal(self@, other@),
    {
        match (self, other) {
            (MetricValue::Counter { value: a }, MetricValue::Counter { value: b }) => a.same(b),
            (MetricValue::Gauge { value: a }, MetricValue::Gauge { value: b }) => a.same(b),
            (MetricValue::UniqueValues { values: a }, MetricValue::UniqueValues { values: b }) => {
                let same = holds_all(a, b) && holds_all(b, a);
                assert(same ==> texts(a@).to_set() =~= texts(b@).to_set());
                same
            },
            (
                MetricValue::Distribution { samples: a, statistic: s },
                MetricValue::Distribution { samples: b, statistic: t },
            ) => same_samples(a, b) && *s == *t,
            (
                MetricValue::AggregatedHistogram { buckets: a, count: c, sum: s },
                MetricValue::AggregatedHistogram { buckets: b, count: d, sum: t },
            ) => same_buckets(a, b) && *c == *d && s.same(t),
            (
                MetricValue::AggregatedSummary { quantiles: a, count: c, sum: s },
                MetricValue::AggregatedSummary { quantiles: b, count: d, sum: t },
            ) => same_quantiles(a, b) && *c == *d && s.same(t),
            _ => false,
        }
    }
}

impl Clone for MetricValue {
    fn clone(&self) -> (copy: Self)
        ensures
            copy@ == self@,
    {
        match self {
            MetricValue::Counter { value } => MetricValue::Counter { value: *value },
            MetricValue::Gauge { value } => MetricValue::Gauge { value: *value },
            MetricValue::UniqueValues { values } => MetricValue::UniqueValues { values: clone_texts(values) },
            MetricValue::Distribution { samples, statistic } => MetricValue::Distribution {
                samples: clone_copies(samples),
                statistic: *statistic,
            },
            MetricValue::AggregatedHistogram { buckets, count, sum } => {
                MetricValue::AggregatedHistogram {
                    buckets: clone_copies(buckets),
                    count: *count,
                    sum: *sum,
                }
            },
            MetricValue::AggregatedSummary { quantiles, count, sum } => {
                MetricValue::AggregatedSummary {
                    quantiles: clone_copies(quantiles),
                    count: *count,
                    sum: *sum,
                }
            },
        }
    }
}

/// The data of a measurement, without its metadata.
pub ghost struct MetricModel {
    pub name: Seq<char>,
    pub timestamp: Option<Time>,
    pub kind: MetricKind,
    pub value: MetricValueModel,
}

/// Whether two measurements have the same data.
pub open spec fn metrics_equal(a: MetricModel, b: MetricModel) -> bool {
    &&& a.name == b.name
    &&& a.timestamp == b.timestamp
    &&& a.kind == b.kind
    &&& values_equal(a.value, b.value)
}

/// A measurement.
#[derive(Debug)]
pub struct Metric {
    /// What was measured.
    pub name: String,
    /// When it was measured.
    pub timestamp: Option<Time>,
    /// How the value relates to earlier ones.
    pub kind: MetricKind,
    /// The measured value.
    pub value: MetricValue,
    /// What travels with the measurement.
    pub metadata: EventMetadata,
}

impl Metric {
    /// The data of the measurement.
    pub open spec fn data(self) -> MetricModel {
        MetricModel {
            name: self.name@,
            timestamp: self.timestamp,
            kind: self.kind,
            value: self.value@,
        }
    }

    /// A measurement without a time and without metadata.
    pub fn new(name: &str, kind: MetricKind, value: MetricValue) -> (metric: Self)
        ensures
            metric.data() == (MetricModel { name: name@, timestamp: None, kind, value: value@ }),
            metric.metadata@ == crate::event::metadata::no_metadata(),
    {
        Metric {
            name: name.to_owned(),
            timestamp: None,
            kind,
            value,
            metadata: EventMetadata::default(),
        }
    }

    /// Decides whether two measurements have the same data.
    pub fn event_data_eq(&self, other: &Metric) -> (same: bool)
        ensures
            same == metrics_equal(self.data(), other.data()),
    {
        let times = match (self.timestamp, other.timestamp) {
            (Some(a), Some(b)) => a == b,
            (None, None) => true,
            _ => false,
        };
        self.name == other.name && times && self.kind == other.kind && self.value.same(&other.value)
    }
}

impl Clone for Metric {
    fn clone(&self) -> (copy: Self)
        ensures
            copy.data() == self.data(),
            copy.metadata@ == self.metadata@,
    {
        Metric {
            name: self.name.clone(),
            timestamp: self.timestamp,
            kind: self.kind,
            value: self.value.clone(),
            metadata: self.metadata.clone(),
        }
    }
}

/// Whether two bit patterns stand for one number: neither is out of the range of
/// numbers, and they are the same or both nought, be it with a sign or without.
pub open spec fn one_number(a: u64, b: u64) -> bool {
    &&& a <= 0x7FF0_0000_0000_0000 || 0x8000_0000_0000_0000 <= a <= 0xFFF0_0000_0000_0000
    &&& b <= 0x7FF0_0000_0000_0000 || 0x8000_0000_0000_0000 <= b <= 0xFFF0_0000_0000_0000
    &&& a == b || ((a == 0 || a == 0x8000_0000_0000_0000) && (b == 0 || b == 0x8000_0000_0000_0000))
}

/// Numbers are compared as numbers.
pub proof fn numbers_are_compared_as_numbers(a: &Float64, b: &Float64, same: bool)
    requires
        call_ensures(Float64::same, (a, b), same),
    ensures
        same <==> one_number(a.bits, b.bits),
{
}

/// A number is greater than nought where its pattern lies between that of nought
/// and that of what is infinite.
pub proof fn positive_numbers_are_above_nought(number: &Float64, positive: bool, fraction: bool)
    requires
        call_ensures(Float64::is_positive, (number,), positive),
        call_ensures(Float64::is_fraction, (number,), fraction),
    ensures
        positive <==> 0 < number.bits <= 0x7FF0_0000_0000_0000,
        fraction <==> 0 < number.bits < 0x3FF0_0000_0000_0000,
{
}

/// Whether a text is in a list.
pub open spec fn is_among(list: Seq<String>, text: Seq<char>) -> bool {
    exists|i: int| 0 <= i < list.len() && (#[trigger] list[i])@ == text
}

/// Whether all texts of one list are in another.
pub open spec fn among(list: Seq<String>, other: Seq<String>) -> bool {
    forall|i: int| 0 <= i < list.len() ==> is_among(other, (#[trigger] list[i])@)
}

/// Whether two measured values say the same: they are of one type, and all their
/// numbers are the same. The order counts but for unique values.
pub open spec fn say_the_same(a: MetricValue, b: MetricValue) -> bool {
    match (a, b) {
        (MetricValue::Counter { value }, MetricValue::Counter { value: other }) => one_number(
            value.bits,
            other.bits,
        ),
        (MetricValue::Gauge { value }, MetricValue::Gauge { value: other }) => one_number(
            value.bits,
            other.bits,
        ),
        (MetricValue::UniqueValues { values }, MetricValue::UniqueValues { values: others }) => among(
            values@,
            others@,
        ) && among(others@, values@),
        (
            MetricValue::Distribution { samples, statistic },
            MetricValue::Distribution { samples: others, statistic: other },
        ) => {
            &&& statistic == other
            &&& samples@.len() == others@.len()
            &&& forall|i: int|
                0 <= i < samples@.len() ==> one_number(
                    (#[trigger] samples@[i]).value.bits,
                    others@[i].value.bits,
                ) && samples@[i].rate == others@[i].rate
        },
        (
            MetricValue::AggregatedHistogram { buckets, count, sum },
            MetricValue::AggregatedHistogram { buckets: others, count: number, sum: other },
        ) => {
            &&& count == number
            &&& one_number(sum.bits, other.bits)
            &&& buckets@.len() == others@.len()
            &&& forall|i: int|
                0 <= i < buckets@.len() ==> one_number(
                    (#[trigger] buckets@[i]).upper_limit.bits,
                    others@[i].upper_limit.bits,
                ) && buckets@[i].count == others@[i].count
        },
        (
            MetricValue::AggregatedSummary { quantiles, count, sum },
            MetricValue::AggregatedSummary { quantiles: others, count: number, sum: other },
        ) => {
            &&& count == number
            &&& one_number(sum.bits, other.bits)
            &&& quantiles@.len() == others@.len()
            &&& forall|i: int|
                0 <= i < quantiles@.len() ==> one_number(
                    (#[trigger] quantiles@[i]).quantile.bits,
                    others@[i].quantile.bits,
                ) && one_number(quantiles@[i].value.bits, others@[i].value.bits)
        },
        _ => false,
    }
}

/// The texts of one list are among those of another just where all of them are
/// in it.
proof fn among_is_subset(list: Seq<String>, other: Seq<String>)
    ensures
        among(list, other) <==> texts(list).to_set().subset_of(texts(other).to_set()),
{
    let left = texts(list);
    let right = texts(other);
    if among(list, other) {
        assert forall|text: Seq<char>| left.to_set().contains(text) implies right.to_set().contains(
            text,
        ) by {
            let i = choose|i: int| 0 <= i < left.len() && left[i] == text;
            assert(list[i]@ == text);
            assert(is_among(other, text));
            let j = choose|j: int| 0 <= j < other.len() && (#[trigger] other[j])@ == text;
            assert(right[j] == text);
        }
    }
    if left.to_set().subset_of(right.to_set()) {
        assert forall|i: int| 0 <= i < list.len() implies is_among(other, (#[trigger] list[i])@) by {
            assert(left[i] == list[i]@);
            assert(left.to_set().contains(left[i]));
            assert(right.to_set().contains(left[i]));
            let j = choose|j: int| 0 <= j < right.len() && right[j] == left[i];
            assert(other[j]@ == list[i]@);
        }
    }
}

/// Values are equal just where they say the same.
proof fn equal_values_say_the_same(a: MetricValue, b: MetricValue)
    ensures
        values_equal(a@, b@) <==> say_the_same(a, b),
{
    match (a, b) {
        (MetricValue::UniqueValues { values }, MetricValue::UniqueValues { values: others }) => {
            among_is_subset(values@, others@);
            among_is_subset(others@, values@);
            let left = texts(values@).to_set();
            let right = texts(others@).to_set();
            assert(left == right <==> left.subset_of(right) && right.subset_of(left)) by {
                if left.subset_of(right) && right.subset_of(left) {
                    assert(left =~= right);
                }
            }
        },
        _ => {},
    }
}

/// Measured values are compared type by type and number by number.
pub proof fn values_are_compared_number_by_number(a: &MetricValue, b: &MetricValue, same: bool)
    requires
        call_ensures(MetricValue::same, (a, b), same),
    ensures
        same <==> say_the_same(*a, *b),
{
    equal_values_say_the_same(*a, *b);
}

/// Measurements have the same data where they have the same name, time and kind
/// and say the same, whatever travels with them.
pub proof fn measurements_are_compared_by_data(a: &Metric, b: &Metric, same: bool)
    requires
        call_ensures(Metric::event_data_eq, (a, b), same),
    ensures
        same <==> {
            &&& a.name@ == b.name@
            &&& a.timestamp == b.timestamp
            &&& a.kind == b.kind
            &&& say_the_same(a.value, b.value)
        },
{
    equal_values_say_the_same(a.value, b.value);
}

/// A new measurement has what it is made of, and neither a time nor anything
/// that travels with it.
pub proof fn measurements_are_made_of_what_is_given(
    name: &str,
    kind: MetricKind,
    value: MetricValue,
    metric: Metric,
)
    requires
        call_ensures(Metric::new, (name, kind, value), metric),
    ensures
        metric.name@ == name@,
        metric.kind == kind,
        metric.value@ == value@,
        metric.timestamp is None,
        metric.metadata.source_id is None,
        metric.metadata.upstream_id is None,
        metric.metadata.source_type is None,
        metric.metadata.schema_definition.fields@.len() == 0,
        metric.metadata.schema_definition.open,
        metric.metadata.finalizers.finalizers@.len() == 0,
{
    let definition = metric.metadata.schema_definition;
    assert(definition@.0 == texts(definition.fields@));
    assert(texts(definition.fields@).len() == 0);
}

} // verus!
