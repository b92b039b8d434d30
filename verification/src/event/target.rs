//! What a program sees of an event.
use vstd::prelude::*;

use crate::event::metric::{Metric, MetricKind, MetricModel, MetricValue, MetricValueModel};
use crate::event::value::{fields_model, push_field, Value, ValueModel};
use crate::event::EventData;

verus! {

/// The name of how a measurement relates to earlier ones.
pub open spec fn kind_name(kind: MetricKind) -> Seq<char> {
    match kind {
        MetricKind::Incremental => "incremental"@,
        MetricKind::Absolute => "absolute"@,
    }
}

/// The name of what was measured.
pub open spec fn measured_name(value: MetricValueModel) -> Seq<char> {
    match value {
        MetricValueModel::Counter(_) => "counter"@,
        MetricValueModel::Gauge(_) => "gauge"@,
        MetricValueModel::UniqueValues(_) => "set"@,
        MetricValueModel::Distribution(_, _) => "distribution"@,
        MetricValueModel::AggregatedHistogram(_, _, _) => "aggregated_histogram"@,
        MetricValueModel::AggregatedSummary(_, _, _) => "aggregated_summary"@,
    }
}

/// A text as data.
pub open spec fn text_value(text: Seq<char>) -> ValueModel {
    ValueModel::Bytes(vstd::utf8::encode_utf8(text))
}

/// What a program sees of a measurement: how it relates to earlier ones, its
/// name, its time and what was measured.
pub open spec fn metric_fields(metric: MetricModel) -> ValueModel {
    let fields = Map::<Seq<char>, ValueModel>::empty().insert(
        "kind"@,
        text_value(kind_name(metric.kind)),
    ).insert("name"@, text_value(metric.name)).insert(
        "type"@,
        text_value(measured_name(metric.value)),
    );
    ValueModel::Object(
        match metric.timestamp {
            Some(time) => fields.insert("timestamp"@, ValueModel::Timestamp(time)),
            None => fields,
        },
    )
}

/// What a program sees of an event.
pub open spec fn seen(data: EventData) -> ValueModel {
    match data {
        EventData::Log(fields) => fields,
        EventData::Metric(metric) => metric_fields(metric),
        EventData::Trace(fields) => fields,
    }
}

/// What a program sees of a measurement.
pub fn metric_to_value(metric: &Metric) -> (value: Value)
    ensures
        value@ == metric_fields(metric.data()),
{
    let kind = match metric.kind {
        MetricKind::Incremental => "incremental",
        MetricKind::Absolute => "absolute",
    };
    let measured = match &metric.value {
        MetricValue::Counter { .. } => "counter",
        MetricValue::Gauge { .. } => "gauge",
        MetricValue::UniqueValues { .. } => "set",
        MetricValue::Distribution { .. } => "distribution",
        MetricValue::AggregatedHistogram { .. } => "aggregated_histogram",
        MetricValue::AggregatedSummary { .. } => "aggregated_summary",
    };
    let mut fields: Vec<(String, Value)> = Vec::new();
    assert(fields_model(fields@) =~= Map::<Seq<char>, ValueModel>::empty());
    push_field(&mut fields, "kind", Value::text(kind));
    push_field(&mut fields, "name", Value::text(metric.name.as_str()));
    push_field(&mut fields, "type", Value::text(measured));
    if let Some(time) = metric.timestamp {
        push_field(&mut fields, "timestamp", Value::Timestamp(time));
    }
    Value::Object(fields)
}

/// What a program sees of a measurement are its kind, its name and its type by
/// their names, and its time where it has one.
pub proof fn measurements_show_kind_name_type_and_time(metric: &Metric, value: Value)
    requires
        call_ensures(metric_to_value, (metric,), value),
    ensures
        value@ is Object,
        ({
            let fields = value@->Object_0;
            &&& fields.contains_key("name"@) && fields["name"@] == ValueModel::Bytes(
                vstd::utf8::encode_utf8(metric.name@),
            )
            &&& fields.contains_key("kind"@) && fields["kind"@] == ValueModel::Bytes(
                vstd::utf8::encode_utf8(
                    match metric.kind {
                        MetricKind::Incremental => "incremental"@,
                        MetricKind::Absolute => "absolute"@,
                    },
                ),
            )
            &&& fields.contains_key("type"@) && fields["type"@] == ValueModel::Bytes(
                vstd::utf8::encode_utf8(
                    match metric.value {
                        MetricValue::Counter { .. } => "counter"@,
                        MetricValue::Gauge { .. } => "gauge"@,
                        MetricValue::UniqueValues { .. } => "set"@,
                        MetricValue::Distribution { .. } => "distribution"@,
                        MetricValue::AggregatedHistogram { .. } => "aggregated_histogram"@,
                        MetricValue::AggregatedSummary { .. } => "aggregated_summary"@,
                    },
                ),
            )
            &&& fields.contains_key("timestamp"@) <==> metric.timestamp is Some
            &&& metric.timestamp is Some ==> fields["timestamp"@] == ValueModel::Timestamp(
                metric.timestamp->0,
            )
            &&& forall|name: Seq<char>| #[trigger]
                fields.contains_key(name) ==> name == "name"@ || name == "kind"@ || name == "type"@
                    || name == "timestamp"@
        }),
{
    reveal_strlit("name");
    reveal_strlit("kind");
    reveal_strlit("type");
    reveal_strlit("timestamp");
    assert("name"@[0] == 'n' && "kind"@[0] == 'k' && "type"@[0] == 't' && "timestamp"@[0] == 't');
    assert("type"@[1] == 'y' && "timestamp"@[1] == 'i');
}

} // verus!
