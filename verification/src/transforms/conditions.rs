//! Conditions on events.
use vstd::prelude::*;

use crate::event::json::{json_string, string_to_json};
use crate::event::log_event::{LogEvent, TraceEvent};
use crate::event::metric::{MetricKind, MetricValueModel};
use crate::event::target::{metric_to_value, seen};
use crate::event::value::ValueModel;
use crate::event::{Event, EventData};
use crate::transforms::program::{
    compile_vrl, run_vrl, to_vrl, vrl_compiled, vrl_outcome, VrlProgram,
};
use crate::transforms::syntax::{ends, runs_to_an_end, steady};

verus! {

/// A condition written in the Vector Remap Language (VRL).
#[derive(Debug)]
pub struct VrlConfig {
    /// The program. Its last expression is the condition.
    pub source: String,
}

/// A condition as it is configured.
#[derive(Debug)]
pub enum ConditionConfig {
    /// The event is a log entry.
    IsLog,
    /// The event is a measurement.
    IsMetric,
    /// The event is a trace span.
    IsTrace,
    /// A program says whether the event meets the condition.
    Vrl(VrlConfig),
}

/// A condition as it is configured, at length or by a program alone.
#[derive(Debug)]
pub enum AnyCondition {
    /// By a program alone.
    Program(String),
    /// At length.
    Config(ConditionConfig),
}

/// A condition that can be put to events.
#[derive(Debug)]
pub enum Condition {
    /// The event is a log entry.
    IsLog,
    /// The event is a measurement.
    IsMetric,
    /// The event is a trace span.
    IsTrace,
    /// The program gives `true`.
    Vrl(VrlProgram),
}

/// A [`Condition`], with texts as sequences of characters.
pub ghost enum ConditionModel {
    IsLog,
    IsMetric,
    IsTrace,
    Vrl(Seq<char>),
}

impl View for Condition {
    type V = ConditionModel;

    open spec fn view(&self) -> ConditionModel {
        match *self {
            Condition::IsLog => ConditionModel::IsLog,
            Condition::IsMetric => ConditionModel::IsMetric,
            Condition::IsTrace => ConditionModel::IsTrace,
            Condition::Vrl(program) => ConditionModel::Vrl(program.source()),
        }
    }
}

impl Clone for Condition {
    fn clone(&self) -> (copy: Self)
        ensures
            copy@ == self@,
    {
        match self {
            Condition::IsLog => Condition::IsLog,
            Condition::IsMetric => Condition::IsMetric,
            Condition::IsTrace => Condition::IsTrace,
            Condition::Vrl(program) => Condition::Vrl(program.clone()),
        }
    }
}

impl View for AnyCondition {
    type V = ConditionModel;

    open spec fn view(&self) -> ConditionModel {
        match *self {
            AnyCondition::Program(source) => ConditionModel::Vrl(source@),
            AnyCondition::Config(ConditionConfig::IsLog) => ConditionModel::IsLog,
            AnyCondition::Config(ConditionConfig::IsMetric) => ConditionModel::IsMetric,
            AnyCondition::Config(ConditionConfig::IsTrace) => ConditionModel::IsTrace,
            AnyCondition::Config(ConditionConfig::Vrl(config)) => ConditionModel::Vrl(config.source@),
        }
    }
}

/// What becomes of a program for a condition, by what came of compiling it. An
/// error has a text, unless the compiler words it.
pub open spec fn vrl_condition(
    source: Seq<char>,
    compiled: Option<bool>,
) -> Result<ConditionModel, Option<Seq<char>>> {
    match compiled {
        Some(true) => Ok(ConditionModel::Vrl(source)),
        Some(false) => Err(Some("VRL conditions must return a boolean."@)),
        None => Err(None),
    }
}

/// What becomes of a condition when it is built.
pub open spec fn built_condition(condition: ConditionModel) -> Result<
    ConditionModel,
    Option<Seq<char>>,
> {
    match condition {
        ConditionModel::Vrl(source) => vrl_condition(
            source,
            vrl_compiled(source, usize::BITS),
        ),
        _ => Ok(condition),
    }
}

/// Whether an error reads as wanted. How the compiler words its errors is left
/// open.
pub open spec fn reads(error: String, wanted: Option<Seq<char>>) -> bool {
    wanted is Some ==> error@ == wanted->0
}

/// Whether a result is as wanted, with texts as sequences of characters.
pub open spec fn gives(
    result: Result<Condition, String>,
    wanted: Result<ConditionModel, Option<Seq<char>>>,
) -> bool {
    match (result, wanted) {
        (Ok(condition), Ok(model)) => condition@ == model,
        (Err(error), Err(text)) => reads(error, text),
        _ => false,
    }
}

/// Whether a program may be a condition, by whether its last expression always
/// gives a truth value.
pub fn check_program(boolean: bool) -> (result: Result<(), String>)
    ensures
        match result {
            Ok(_) => boolean,
            Err(error) => !boolean && error@ == "VRL conditions must return a boolean."@,
        },
{
    if boolean {
        Ok(())
    } else {
        Err("VRL conditions must return a boolean.".to_owned())
    }
}

/// Whether the program of a condition, if it has one, runs to an end on every
/// event.
pub open spec fn always_ends(condition: ConditionModel) -> bool {
    match condition {
        ConditionModel::Vrl(source) => runs_to_an_end(source),
        _ => true,
    }
}

/// Builds the condition of a program.
fn build_vrl(source: &String) -> (result: Result<Condition, String>)
    requires
        runs_to_an_end(source@),
    ensures
        gives(result, built_condition(ConditionModel::Vrl(source@))),
{
    match compile_vrl(source.as_str()) {
        Ok((program, boolean)) => match check_program(boolean) {
            Ok(_) => Ok(Condition::Vrl(program)),
            Err(error) => Err(error),
        },
        Err(diagnostics) => Err(diagnostics),
    }
}

impl AnyCondition {
    /// Decides whether the program of the condition, if it has one, runs to an
    /// end on every event.
    pub fn ends(&self) -> (found: bool)
        ensures
            found == always_ends(self@),
    {
        match self {
            AnyCondition::Program(source) => ends(source.as_str()),
            AnyCondition::Config(ConditionConfig::Vrl(config)) => ends(config.source.as_str()),
            _ => true,
        }
    }

    /// Builds the condition, so that it can be put to events.
    pub fn build(&self) -> (result: Result<Condition, String>)
        requires
            always_ends(self@),
        ensures
            gives(result, built_condition(self@)),
    {
        match self {
            AnyCondition::Program(source) => build_vrl(source),
            AnyCondition::Config(ConditionConfig::IsLog) => Ok(Condition::IsLog),
            AnyCondition::Config(ConditionConfig::IsMetric) => Ok(Condition::IsMetric),
            AnyCondition::Config(ConditionConfig::IsTrace) => Ok(Condition::IsTrace),
            AnyCondition::Config(ConditionConfig::Vrl(config)) => build_vrl(&config.source),
        }
    }
}

impl From<ConditionConfig> for AnyCondition {
    fn from(config: ConditionConfig) -> (condition: Self) {
        AnyCondition::Config(config)
    }
}

impl vstd::std_specs::convert::FromSpecImpl<ConditionConfig> for AnyCondition {
    open spec fn obeys_from_spec() -> bool {
        true
    }

    open spec fn from_spec(config: ConditionConfig) -> AnyCondition {
        AnyCondition::Config(config)
    }
}

/// Whether an event meets a condition. A program that fails does not.
pub open spec fn holds(condition: ConditionModel, event: EventData) -> bool {
    match condition {
        ConditionModel::IsLog => event is Log,
        ConditionModel::IsMetric => event is Metric,
        ConditionModel::IsTrace => event is Trace,
        ConditionModel::Vrl(source) => vrl_outcome(source, seen(event), usize::BITS) == Some(
            true,
        ),
    }
}

/// Whether the answer to a condition goes by the event alone.
pub open spec fn settled(condition: ConditionModel) -> bool {
    match condition {
        ConditionModel::Vrl(source) => steady(source),
        _ => true,
    }
}

/// Whether a condition, put to an event, may be answered so.
pub open spec fn may_answer(condition: ConditionModel, event: EventData, met: bool) -> bool {
    settled(condition) ==> met == holds(condition, event)
}

/// Whether a program that gave this is met.
pub fn is_met(outcome: Option<bool>) -> (met: bool)
    ensures
        met == (outcome == Some(true)),
{
    match outcome {
        Some(truth) => truth,
        None => false,
    }
}

impl Condition {
    /// Puts the condition to an event, and gives the event back.
    pub fn check(&self, event: Event) -> (checked: (bool, Event))
        ensures
            may_answer(self@, event.data(), checked.0),
            checked.1 == event,
    {
        if let Condition::Vrl(program) = self {
            proof {
                use_type_invariant(program);
            }
        }
        let met = match (self, &event) {
            (Condition::IsLog, Event::Log(_)) => true,
            (Condition::IsMetric, Event::Metric(_)) => true,
            (Condition::IsTrace, Event::Trace(_)) => true,
            (Condition::Vrl(program), Event::Log(log)) => is_met(
                run_vrl(program, to_vrl(&log.fields)),
            ),
            (Condition::Vrl(program), Event::Metric(metric)) => is_met(
                run_vrl(program, to_vrl(&metric_to_value(metric))),
            ),
            (Condition::Vrl(program), Event::Trace(trace)) => is_met(
                run_vrl(program, to_vrl(&trace.log.fields)),
            ),
            _ => false,
        };
        (met, event)
    }
}

/// A configured condition as JSON.
pub open spec fn condition_json(condition: AnyCondition) -> Seq<char> {
    match condition {
        AnyCondition::Program(source) => json_string(source@),
        AnyCondition::Config(ConditionConfig::IsLog) => "{\"type\":\"is_log\"}"@,
        AnyCondition::Config(ConditionConfig::IsMetric) => "{\"type\":\"is_metric\"}"@,
        AnyCondition::Config(ConditionConfig::IsTrace) => "{\"type\":\"is_trace\"}"@,
        AnyCondition::Config(ConditionConfig::Vrl(config)) => "{\"type\":\"vrl\",\"source\":"@
            + json_string(config.source@) + "}"@,
    }
}

impl AnyCondition {
    /// The condition as JSON.
    pub fn to_json(&self) -> (text: String)
        ensures
            text@ == condition_json(*self),
    {
        match self {
            AnyCondition::Program(source) => string_to_json(source.as_str()),
            AnyCondition::Config(ConditionConfig::IsLog) => "{\"type\":\"is_log\"}".to_owned(),
            AnyCondition::Config(ConditionConfig::IsMetric) => "{\"type\":\"is_metric\"}".to_owned(),
            AnyCondition::Config(ConditionConfig::IsTrace) => "{\"type\":\"is_trace\"}".to_owned(),
            AnyCondition::Config(ConditionConfig::Vrl(config)) => {
                let mut text = "{\"type\":\"vrl\",\"source\":".to_owned();
                text.append(string_to_json(config.source.as_str()).as_str());
                text.append("}");
                text
            },
        }
    }
}

/// Whether a program is shown this of an event: the fields of a log entry or of a
/// trace span as they are, and of a measurement its kind, its name, its type and,
/// where it has one, its time.
pub open spec fn shows(event: EventData, shown: ValueModel) -> bool {
    match event {
        EventData::Log(fields) => shown == fields,
        EventData::Trace(fields) => shown == fields,
        EventData::Metric(metric) => match shown {
            ValueModel::Object(fields) => {
                &&& forall|name: Seq<char>| #[trigger]
                    fields.contains_key(name) <==> (name == "kind"@ || name == "name"@ || name
                        == "type"@ || (name == "timestamp"@ && metric.timestamp is Some))
                &&& fields["kind"@] == ValueModel::Bytes(
                    vstd::utf8::encode_utf8(
                        match metric.kind {
                            MetricKind::Incremental => "incremental"@,
                            MetricKind::Absolute => "absolute"@,
                        },
                    ),
                )
                &&& fields["name"@] == ValueModel::Bytes(vstd::utf8::encode_utf8(metric.name))
                &&& fields["type"@] == ValueModel::Bytes(
                    vstd::utf8::encode_utf8(
                        match metric.value {
                            MetricValueModel::Counter(_) => "counter"@,
                            MetricValueModel::Gauge(_) => "gauge"@,
                            MetricValueModel::UniqueValues(_) => "set"@,
                            MetricValueModel::Distribution(_, _) => "distribution"@,
                            MetricValueModel::AggregatedHistogram(_, _, _) => {
                                "aggregated_histogram"@
                            },
                            MetricValueModel::AggregatedSummary(_, _, _) => "aggregated_summary"@,
                        },
                    ),
                )
                &&& metric.timestamp is Some ==> fields["timestamp"@] == ValueModel::Timestamp(
                    metric.timestamp->0,
                )
            },
            _ => false,
        },
    }
}

/// A program is shown one thing of an event: what it sees.
pub proof fn one_thing_is_shown(event: EventData, shown: ValueModel)
    ensures
        shows(event, shown) <==> shown == seen(event),
{
    if let EventData::Metric(metric) = event {
        reveal_strlit("kind");
        reveal_strlit("name");
        reveal_strlit("type");
        reveal_strlit("timestamp");
        assert("kind"@[0] != "name"@[0]);
        assert("kind"@[0] != "type"@[0]);
        assert("name"@[0] != "type"@[0]);
        assert("timestamp"@.len() != "kind"@.len());
        assert("timestamp"@.len() != "name"@.len());
        assert("timestamp"@.len() != "type"@.len());
        let made = seen(event)->Object_0;
        assert(shows(event, seen(event)));
        if shows(event, shown) {
            assert(shown->Object_0 =~= made);
        }
    }
}

/// A program whose outcome goes by the event is met by a log entry, a trace span
/// or a measurement alike just where it gives `true` on what it is shown of it:
/// the fields of the entry, those of the span, or what names the measurement.
pub proof fn programs_are_put_to_every_event(
    condition: &Condition,
    program: VrlProgram,
    event: Event,
    shown: ValueModel,
    checked: (bool, Event),
)
    requires
        *condition == Condition::Vrl(program),
        steady(program.source()),
        call_ensures(Condition::check, (condition, event), checked),
    ensures
        checked.1 == event,
        match event {
            Event::Log(log) => checked.0 <==> vrl_outcome(
                program.source(),
                log.fields@,
                usize::BITS,
            ) == Some(true),
            Event::Trace(trace) => checked.0 <==> vrl_outcome(
                program.source(),
                trace.log.fields@,
                usize::BITS,
            ) == Some(true),
            Event::Metric(metric) => shows(EventData::Metric(metric.data()), shown) ==> (checked.0
                <==> vrl_outcome(program.source(), shown, usize::BITS) == Some(true)),
        },
{
    one_thing_is_shown(event.data(), shown);
}

/// A log entry and a trace span with the same fields get the same answer from a
/// program whose outcome goes by the event.
pub proof fn logs_and_traces_are_answered_alike(
    condition: &Condition,
    program: VrlProgram,
    log: LogEvent,
    trace: TraceEvent,
    first: (bool, Event),
    second: (bool, Event),
)
    requires
        *condition == Condition::Vrl(program),
        steady(program.source()),
        log.fields@ == trace.log.fields@,
        call_ensures(Condition::check, (condition, Event::Log(log)), first),
        call_ensures(Condition::check, (condition, Event::Trace(trace)), second),
    ensures
        first.0 == second.0,
{
}

/// A condition on the type of an event is met by events of just that type, and
/// the event is given back as it was.
pub proof fn types_are_told_apart(condition: &Condition, event: Event, checked: (bool, Event))
    requires
        call_ensures(Condition::check, (condition, event), checked),
    ensures
        checked.1 == event,
        *condition is IsLog ==> (checked.0 <==> event is Log),
        *condition is IsMetric ==> (checked.0 <==> event is Metric),
        *condition is IsTrace ==> (checked.0 <==> event is Trace),
{
}

/// A condition is built of a program just where the program compiles and gives a
/// truth value, be the program given by itself or at length. Conditions on the
/// type of an event can always be built.
pub proof fn conditions_are_built_as_configured(
    condition: &AnyCondition,
    source: Seq<char>,
    result: Result<Condition, String>,
)
    requires
        call_ensures(AnyCondition::build, (condition,), result),
    ensures
        ({
            ||| *condition matches AnyCondition::Program(own) && own@ == source
            ||| *condition matches AnyCondition::Config(ConditionConfig::Vrl(own)) && own.source@
                == source
        }) ==> match vrl_compiled(source, usize::BITS) {
            Some(true) => result matches Ok(Condition::Vrl(program)) && program.source() == source,
            Some(false) => result matches Err(error) && error@
                == "VRL conditions must return a boolean."@,
            None => result is Err,
        },
        *condition matches AnyCondition::Config(ConditionConfig::IsLog) ==> result matches Ok(built)
            && built is IsLog,
        *condition matches AnyCondition::Config(ConditionConfig::IsMetric) ==> result matches Ok(
            built,
        ) && built is IsMetric,
        *condition matches AnyCondition::Config(ConditionConfig::IsTrace) ==> result matches Ok(
            built,
        ) && built is IsTrace,
{
}

/// A condition on the type of an event is written with the name of the type, and
/// a program as what it is.
pub proof fn conditions_are_written_by_type(condition: &AnyCondition, text: String)
    requires
        call_ensures(AnyCondition::to_json, (condition,), text),
    ensures
        match *condition {
            AnyCondition::Program(source) => text@ == json_string(source@),
            AnyCondition::Config(ConditionConfig::IsLog) => text@ == "{\"type\":\"is_log\"}"@,
            AnyCondition::Config(ConditionConfig::IsMetric) => text@ == "{\"type\":\"is_metric\"}"@,
            AnyCondition::Config(ConditionConfig::IsTrace) => text@ == "{\"type\":\"is_trace\"}"@,
            AnyCondition::Config(ConditionConfig::Vrl(config)) => text@
                == "{\"type\":\"vrl\",\"source\":"@ + json_string(config.source@) + "}"@,
        },
{
}

/// Only a program that gave `true` is met; one that gave `false` or failed is
/// not.
pub proof fn only_truth_meets(outcome: Option<bool>, met: bool)
    requires
        call_ensures(is_met, (outcome,), met),
    ensures
        met <==> outcome is Some && outcome->0,
{
}

} // verus!
