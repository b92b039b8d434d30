//! Keeping the events that meet a condition.
use vstd::prelude::*;

use crate::config::io::{clone_definitions, DataType, Input, TransformOutput};
use crate::event::value::ValueModel;
use crate::event::{Event, EventData, EventModel};
use crate::schema::Definitions;
use crate::transform::outputs::{OutputBuffer, OutputsModel};
use crate::transform::{outcome_of_all, FunctionTransform, Outcome, SyncTransform, Transform};
use crate::transforms::conditions::{
    always_ends, built_condition, condition_json, holds, may_answer, one_thing_is_shown, reads,
    settled, shows, AnyCondition, Condition, ConditionConfig, ConditionModel,
};
use crate::transforms::program::{vrl_compiled, vrl_outcome};
use crate::transforms::syntax::steady;

verus! {

/// The configuration of a filter.
#[derive(Debug)]
pub struct FilterConfig {
    /// The condition that events must meet to be kept.
    pub condition: AnyCondition,
}

impl From<AnyCondition> for FilterConfig {
    fn from(condition: AnyCondition) -> (config: Self) {
        FilterConfig { condition }
    }
}

impl vstd::std_specs::convert::FromSpecImpl<AnyCondition> for FilterConfig {
    open spec fn obeys_from_spec() -> bool {
        true
    }

    open spec fn from_spec(condition: AnyCondition) -> FilterConfig {
        FilterConfig { condition }
    }
}

/// The runtime form of a filter.
#[derive(Debug)]
pub struct Filter {
    /// The condition that events must meet to be kept.
    pub condition: Condition,
    /// How many events have been left out.
    pub events_dropped: u64,
}

impl Clone for Filter {
    fn clone(&self) -> (copy: Self)
        ensures
            copy.condition@ == self.condition@,
            copy.events_dropped == self.events_dropped,
    {
        Filter { condition: self.condition.clone(), events_dropped: self.events_dropped }
    }
}

/// A transform that is a filter, or none of the other kinds.
pub type FilterTransform = Transform<Filter, (), ()>;

impl FilterConfig {
    /// An example of a configuration.
    pub fn generate_config() -> (config: FilterConfig)
        ensures
            config.condition is Program,
            config.condition->Program_0@ == ".message == \"value\""@,
    {
        FilterConfig { condition: AnyCondition::Program(".message == \"value\"".to_owned()) }
    }

    /// Builds the filter.
    pub fn build(&self) -> (result: Result<FilterTransform, String>)
        requires
            always_ends(self.condition@),
        ensures
            match (result, built_condition(self.condition@)) {
                (Ok(Transform::Function(filter)), Ok(model)) => filter.condition@ == model
                    && filter.events_dropped == 0,
                (Err(error), Err(text)) => reads(error, text),
                _ => false,
            },
    {
        match self.condition.build() {
            Ok(condition) => Ok(Transform::function(Filter::new(condition))),
            Err(error) => Err(error),
        }
    }

    /// What a filter takes in: events of every type.
    pub fn input(&self) -> (input: Input)
        ensures
            input.data_type == DataType::all(),
    {
        Input::all()
    }

    /// The outputs of a filter: one, with events that look as they did before.
    pub fn outputs(&self, input_definitions: &Definitions) -> (outputs: Vec<TransformOutput>)
        ensures
            outputs@.len() == 1,
            outputs@[0].port is None,
            outputs@[0].data_type == DataType::all(),
            outputs@[0].log_schema_definitions@ == input_definitions@,
    {
        let mut outputs: Vec<TransformOutput> = Vec::new();
        outputs.push(
            TransformOutput::new(DataType::all_bits(), clone_definitions(input_definitions)),
        );
        outputs
    }

    /// Whether several workers may run a filter at once: yes, since no event
    /// depends on another.
    pub fn enable_concurrency(&self) -> (enabled: bool)
        ensures
            enabled,
    {
        true
    }

    /// The configuration as JSON.
    pub fn to_json(&self) -> (text: String)
        ensures
            text@ == "{\"condition\":"@ + condition_json(self.condition) + "}"@,
    {
        let mut text = "{\"condition\":".to_owned();
        text.append(self.condition.to_json().as_str());
        text.append("}");
        text
    }
}

/// The number of events left out after one more, back at nought after the
/// greatest.
pub open spec fn one_more(count: u64) -> u64 {
    if count == u64::MAX {
        0
    } else {
        (count + 1) as u64
    }
}

impl Filter {
    /// A filter with the given condition that has left nothing out.
    pub fn new(condition: Condition) -> (filter: Self)
        ensures
            filter.condition == condition,
            filter.events_dropped == 0,
    {
        Filter { condition, events_dropped: 0 }
    }

    /// Keeps an event, or leaves it out and counts it.
    pub fn settle(&mut self, kept: bool, output: &mut OutputBuffer, event: Event)
        ensures
            final(output)@ == if kept {
                old(output)@.push(event@)
            } else {
                old(output)@
            },
            *final(self) == (Filter {
                events_dropped: if kept {
                    old(self).events_dropped
                } else {
                    one_more(old(self).events_dropped)
                },
                ..*old(self)
            }),
    {
        if kept {
            output.push(event);
            assert(output@ =~= old(output)@.push(event@));
        } else {
            self.events_dropped = self.events_dropped.wrapping_add(1);
        }
    }
}

impl FunctionTransform for Filter {
    open spec fn effect(
        before: Filter,
        event: EventModel,
        output: Seq<EventModel>,
        after: Filter,
        result: Seq<EventModel>,
    ) -> bool {
        ||| may_answer(before.condition@, event.data, true) && result == output.push(event) && after
            == before
        ||| may_answer(before.condition@, event.data, false) && result == output && after == (
        Filter { events_dropped: one_more(before.events_dropped), ..before })
    }

    fn transform(&mut self, output: &mut OutputBuffer, event: Event) {
        let (kept, event) = self.condition.check(event);
        self.settle(kept, output, event);
    }
}

/// The events that meet a condition, in order.
pub open spec fn kept_events(events: Seq<EventModel>, condition: ConditionModel) -> Seq<EventModel> {
    events.filter(|event: EventModel| holds(condition, event.data))
}

/// A filter whose condition goes by the event alone keeps just the events that
/// meet it, unchanged and in order, and never changes its condition.
pub proof fn filter_keeps_what_meets_the_condition(
    before: Filter,
    events: Seq<EventModel>,
    output: OutputsModel,
    after: Filter,
    result: OutputsModel,
)
    requires
        settled(before.condition@),
        output.primary is Some,
        outcome_of_all(
            (|b: Filter, event: EventModel, held: OutputsModel, a: Filter, r: OutputsModel|
                <Filter as SyncTransform>::outcome(b, event, held, a, r)),
            before,
            events,
            output,
            after,
            result,
        ),
    ensures
        result.primary is Some,
        result.primary->0 == output.primary->0 + kept_events(events, before.condition@),
        result.named == output.named,
        after.condition == before.condition,
    decreases events.len(),
{
    let outcome: Outcome<Filter> =
        |b: Filter, event: EventModel, held: OutputsModel, a: Filter, r: OutputsModel|
        <Filter as SyncTransform>::outcome(b, event, held, a, r);
    let condition = before.condition@;
    reveal(Seq::filter);
    if events.len() == 0 {
        assert(result.primary->0 =~= output.primary->0 + kept_events(events, condition));
    } else {
        let (state, held) = choose|state: Filter, held: OutputsModel|
            outcome_of_all(outcome, before, events.drop_last(), output, state, held)
                && #[trigger] outcome(state, events.last(), held, after, result);
        filter_keeps_what_meets_the_condition(before, events.drop_last(), output, state, held);
        assert(result.primary->0 =~= output.primary->0 + kept_events(events, condition));
    }
}

/// An event that a filter is given is added to its output just where it is of
/// the type that the condition names, or where the program of the condition gives
/// `true` on what it is shown of the event, be it a log entry, a measurement or a
/// trace span. Any other is counted and leaves the output as it is.
pub proof fn event_is_kept_where_the_condition_holds(
    before: Filter,
    event: EventModel,
    shown: ValueModel,
    output: Seq<EventModel>,
    after: Filter,
    result: Seq<EventModel>,
)
    requires
        <Filter as FunctionTransform>::effect(before, event, output, after, result),
        shows(event.data, shown),
        before.condition matches Condition::Vrl(program) ==> steady(program.source()),
    ensures
        after.condition == before.condition,
        ({
            let met = match before.condition {
                Condition::IsLog => event.data is Log,
                Condition::IsMetric => event.data is Metric,
                Condition::IsTrace => event.data is Trace,
                Condition::Vrl(program) => vrl_outcome(program.source(), shown, usize::BITS)
                    == Some(true),
            };
            &&& result == if met {
                output.push(event)
            } else {
                output
            }
            &&& after.events_dropped == if met {
                before.events_dropped as int
            } else if before.events_dropped == u64::MAX {
                0
            } else {
                before.events_dropped + 1
            }
        }),
{
    one_thing_is_shown(event.data, shown);
}

/// Given a batch, a filter adds to its output just the events of the batch that
/// meet its condition, as they are and in their order. The other outputs stay.
pub proof fn batch_is_thinned_out_in_order(
    before: Filter,
    events: Seq<EventModel>,
    meets: spec_fn(EventModel) -> bool,
    shown: spec_fn(EventData) -> ValueModel,
    output: OutputsModel,
    after: Filter,
    result: OutputsModel,
)
    requires
        outcome_of_all(
            (|b: Filter, event: EventModel, held: OutputsModel, a: Filter, r: OutputsModel|
                <Filter as SyncTransform>::outcome(b, event, held, a, r)),
            before,
            events,
            output,
            after,
            result,
        ),
        output.primary is Some,
        before.condition matches Condition::Vrl(program) ==> steady(program.source()),
        forall|data: EventData| shows(data, #[trigger] shown(data)),
        forall|event: EventModel| #[trigger]
            meets(event) <==> match before.condition {
                Condition::IsLog => event.data is Log,
                Condition::IsMetric => event.data is Metric,
                Condition::IsTrace => event.data is Trace,
                Condition::Vrl(program) => vrl_outcome(
                    program.source(),
                    shown(event.data),
                    usize::BITS,
                ) == Some(true),
            },
    ensures
        result.primary is Some,
        result.primary->0 == output.primary->0 + events.filter(meets),
        result.named == output.named,
{
    filter_keeps_what_meets_the_condition(before, events, output, after, result);
    let condition = before.condition@;
    let holding = |event: EventModel| holds(condition, event.data);
    assert forall|event: EventModel| #[trigger] meets(event) == holding(event) by {
        one_thing_is_shown(event.data, shown(event.data));
    }
    assert(meets =~= holding);
}

/// A filter is built where its condition is, with that condition and nothing
/// left out yet.
pub proof fn filters_are_built_as_configured(
    config: &FilterConfig,
    result: Result<FilterTransform, String>,
)
    requires
        always_ends(config.condition@),
        call_ensures(FilterConfig::build, (config,), result),
    ensures
        match config.condition {
            AnyCondition::Program(source) => result is Ok <==> vrl_compiled(source@, usize::BITS)
                == Some(true),
            AnyCondition::Config(ConditionConfig::Vrl(own)) => result is Ok <==> vrl_compiled(
                own.source@,
                usize::BITS,
            ) == Some(true),
            _ => result is Ok,
        },
        result matches Ok(built) ==> built matches Transform::Function(filter)
            && filter.events_dropped == 0 && match config.condition {
            AnyCondition::Program(source) => filter.condition matches Condition::Vrl(program)
                && program.source() == source@,
            AnyCondition::Config(ConditionConfig::Vrl(own)) => filter.condition matches Condition::Vrl(
                program,
            ) && program.source() == own.source@,
            AnyCondition::Config(ConditionConfig::IsLog) => filter.condition is IsLog,
            AnyCondition::Config(ConditionConfig::IsMetric) => filter.condition is IsMetric,
            AnyCondition::Config(ConditionConfig::IsTrace) => filter.condition is IsTrace,
        },
{
}

/// A filter takes events of every type, and gives them out through one output
/// without a name.
pub proof fn filters_take_and_give_all_types(
    config: &FilterConfig,
    input: Input,
    definitions: &Definitions,
    outputs: Vec<TransformOutput>,
)
    requires
        call_ensures(FilterConfig::input, (config,), input),
        call_ensures(FilterConfig::outputs, (config, definitions), outputs),
    ensures
        input.data_type.log && input.data_type.metric && input.data_type.trace,
        outputs@.len() == 1,
        outputs@[0].port is None,
        outputs@[0].data_type.log && outputs@[0].data_type.metric && outputs@[0].data_type.trace,
        outputs@[0].log_schema_definitions@ == definitions@,
{
}

} // verus!
