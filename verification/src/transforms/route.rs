//! Splitting a stream of events by conditions.
//!
//! Every route has a condition and an output. An event goes, as a copy, to the
//! output of each route whose condition it meets. One that meets none goes to
//! an output of its own, unless that is switched off.
use vstd::prelude::*;

use crate::component_map::{keys, ComponentMap};
use crate::config::io::{clone_definitions, DataType, Input, TransformOutput};
use crate::config::validation::{finds, outcome};
use crate::event::json::{json_string, string_to_json};
use crate::event::value::ValueModel;
use crate::event::{Event, EventData, EventModel};
use crate::id::port_text;
use crate::schema::Definitions;
use crate::text::{join, joined, only_if, push_text, texts};
use crate::transform::outputs::{port_names, OutputsModel, TransformOutputsBuf};
use crate::transform::{SyncTransform, Transform};
use crate::transforms::conditions::{
    always_ends, built_condition, condition_json, holds, may_answer, one_thing_is_shown, reads,
    settled, shows, AnyCondition, Condition, ConditionConfig, ConditionModel, VrlConfig,
};
use crate::transforms::program::{vrl_compiled, vrl_outcome};
use crate::transforms::syntax::steady;

verus! {

/// The name of the output for events that no route takes.
pub const UNMATCHED_ROUTE: &'static str = "_unmatched";

/// A name that is kept for later use.
pub const DEFAULT_ROUTE: &'static str = "_default";

/// The configuration of a router.
pub struct RouteConfig {
    /// Whether events that no route takes go to an output of their own.
    pub reroute_unmatched: bool,
    /// The conditions of the routes, by the names of their outputs.
    pub route: ComponentMap<AnyCondition>,
}

/// The runtime form of a router.
#[derive(Debug)]
pub struct Route {
    /// The conditions of the routes, with the names of their outputs.
    pub conditions: Vec<(String, Condition)>,
    /// Whether events that no route takes go to an output of their own.
    pub reroute_unmatched: bool,
}

/// The name and the condition of a route.
pub type RouteModel = (Seq<char>, ConditionModel);

/// What a list of routes stands for.
pub open spec fn route_models(routes: Seq<(String, Condition)>) -> Seq<RouteModel> {
    Seq::new(routes.len(), |i: int| (routes[i].0@, routes[i].1@))
}

impl Clone for Route {
    fn clone(&self) -> (copy: Self)
        ensures
            route_models(copy.conditions@) == route_models(self.conditions@),
            copy.reroute_unmatched == self.reroute_unmatched,
    {
        let ghost wanted = route_models(self.conditions@);
        let mut conditions: Vec<(String, Condition)> = Vec::new();
        let mut i: usize = 0;
        assert(route_models(conditions@) =~= wanted.take(0));
        while i < self.conditions.len()
            invariant
                i <= self.conditions@.len(),
                wanted == route_models(self.conditions@),
                route_models(conditions@) == wanted.take(i as int),
            decreases self.conditions@.len() - i,
        {
            let ghost held = route_models(conditions@);
            let (name, condition) = &self.conditions[i];
            conditions.push((name.clone(), condition.clone()));
            assert(route_models(conditions@) =~= held.push(wanted[i as int]));
            assert(route_models(conditions@) =~= wanted.take(i + 1));
            i = i + 1;
        }
        assert(wanted.take(i as int) =~= wanted);
        Route { conditions, reroute_unmatched: self.reroute_unmatched }
    }
}

/// Whether a route is the first whose condition cannot be built.
pub open spec fn first_unbuilt(routes: Seq<(Seq<char>, AnyCondition)>, k: int) -> bool {
    &&& 0 <= k < routes.len()
    &&& built_condition(routes[k].1@) is Err
    &&& forall|j: int| 0 <= j < k ==> built_condition((#[trigger] routes[j]).1@) is Ok
}

/// The routes with their conditions built.
pub open spec fn built_routes(routes: Seq<(Seq<char>, AnyCondition)>) -> Seq<RouteModel> {
    Seq::new(routes.len(), |i: int| (routes[i].0, built_condition(routes[i].1@)->Ok_0))
}

/// Whether all conditions can be built.
pub open spec fn all_built(routes: Seq<(Seq<char>, AnyCondition)>) -> bool {
    forall|j: int| 0 <= j < routes.len() ==> built_condition((#[trigger] routes[j]).1@) is Ok
}

/// Whether the programs of all conditions run to an end on every event.
pub open spec fn all_end(routes: Seq<(Seq<char>, AnyCondition)>) -> bool {
    forall|j: int| 0 <= j < routes.len() ==> always_ends((#[trigger] routes[j]).1@)
}

impl Route {
    /// Builds a router: builds the conditions of all routes, in order, up to
    /// the first that cannot be built.
    pub fn new(config: &RouteConfig) -> (result: Result<Self, String>)
        requires
            all_end(config.route@),
        ensures
            match result {
                Ok(route) => {
                    &&& all_built(config.route@)
                    &&& route_models(route.conditions@) == built_routes(config.route@)
                    &&& route.reroute_unmatched == config.reroute_unmatched
                },
                Err(error) => exists|k: int| #[trigger]
                    first_unbuilt(config.route@, k) && reads(
                    error,
                    built_condition(config.route@[k].1@)->Err_0,
                ),
            },
    {
        let ghost routes = config.route@;
        let mut conditions: Vec<(String, Condition)> = Vec::new();
        let len: usize = config.route.len();
        let mut i: usize = 0;
        assert(route_models(conditions@) =~= built_routes(routes).take(0));
        while i < len
            invariant
                i <= len,
                len == routes.len(),
                routes == config.route@,
                all_end(routes),
                forall|j: int| 0 <= j < i ==> built_condition((#[trigger] routes[j]).1@) is Ok,
                route_models(conditions@) == built_routes(routes).take(i as int),
            decreases len - i,
        {
            let ghost held = route_models(conditions@);
            match config.route.value_at(i).build() {
                Ok(condition) => {
                    conditions.push((config.route.key_at(i).to_owned(), condition));
                    assert(route_models(conditions@) =~= held.push(built_routes(routes)[i as int]));
                    assert(route_models(conditions@) =~= built_routes(routes).take(i + 1));
                },
                Err(error) => {
                    assert(first_unbuilt(routes, i as int));
                    return Err(error);
                },
            }
            i = i + 1;
        }
        assert(built_routes(routes).take(i as int) =~= built_routes(routes));
        Ok(Route { conditions, reroute_unmatched: config.reroute_unmatched })
    }
}

/// What the named outputs hold once an event has been put to the first routes.
pub open spec fn routed(
    routes: Seq<RouteModel>,
    met: spec_fn(int) -> bool,
    n: nat,
    event: EventModel,
    named: Map<Seq<char>, Seq<EventModel>>,
) -> Map<Seq<char>, Seq<EventModel>>
    decreases n,
{
    if n == 0 {
        named
    } else {
        let before = routed(routes, met, (n - 1) as nat, event, named);
        let name = routes[n - 1].0;
        if met(n - 1) {
            before.insert(name, before[name].push(event))
        } else {
            before
        }
    }
}

/// What the named outputs hold once an event has gone where it belongs.
pub open spec fn routed_event(
    routes: Seq<RouteModel>,
    met: spec_fn(int) -> bool,
    reroute_unmatched: bool,
    event: EventModel,
    named: Map<Seq<char>, Seq<EventModel>>,
) -> Map<Seq<char>, Seq<EventModel>> {
    if reroute_unmatched && (forall|i: int| 0 <= i < routes.len() ==> !#[trigger] met(i)) {
        named.insert(UNMATCHED_ROUTE@, named[UNMATCHED_ROUTE@].push(event))
    } else {
        routed(routes, met, routes.len(), event, named)
    }
}

/// Whether all outputs that a router writes to are there.
pub open spec fn outputs_are_there(
    routes: Seq<RouteModel>,
    reroute_unmatched: bool,
    named: Map<Seq<char>, Seq<EventModel>>,
) -> bool {
    &&& forall|i: int| 0 <= i < routes.len() ==> named.contains_key((#[trigger] routes[i]).0)
    &&& reroute_unmatched ==> named.contains_key(UNMATCHED_ROUTE@)
}

/// Routing adds no output and takes none away.
proof fn routed_keeps_names(
    routes: Seq<RouteModel>,
    met: spec_fn(int) -> bool,
    n: nat,
    event: EventModel,
    named: Map<Seq<char>, Seq<EventModel>>,
)
    requires
        n <= routes.len(),
        forall|i: int| 0 <= i < routes.len() ==> named.contains_key((#[trigger] routes[i]).0),
    ensures
        routed(routes, met, n, event, named).dom() == named.dom(),
    decreases n,
{
    if n > 0 {
        routed_keeps_names(routes, met, (n - 1) as nat, event, named);
        assert(named.contains_key(routes[n - 1].0));
        assert(routed(routes, met, n, event, named).dom() =~= named.dom());
    }
}

/// Where no condition is met, no output gets anything.
proof fn routed_nowhere(
    routes: Seq<RouteModel>,
    met: spec_fn(int) -> bool,
    n: nat,
    event: EventModel,
    named: Map<Seq<char>, Seq<EventModel>>,
)
    requires
        forall|i: int| 0 <= i < n ==> !#[trigger] met(i),
    ensures
        routed(routes, met, n, event, named) == named,
    decreases n,
{
    if n > 0 {
        routed_nowhere(routes, met, (n - 1) as nat, event, named);
        assert(!met(n - 1));
    }
}

/// Sends an event where it belongs, by which of the conditions it meets.
pub fn send_to_routes(
    routes: &Vec<(String, Condition)>,
    results: &Vec<bool>,
    reroute_unmatched: bool,
    event: Event,
    output: &mut TransformOutputsBuf,
)
    requires
        results@.len() == routes@.len(),
        outputs_are_there(route_models(routes@), reroute_unmatched, old(output)@.named),
    ensures
        final(output)@.primary == old(output)@.primary,
        final(output)@.named == routed_event(
            route_models(routes@),
            |i: int| results@[i],
            reroute_unmatched,
            event@,
            old(output)@.named,
        ),
        final(output)@.named.dom() == old(output)@.named.dom(),
{
    let ghost models = route_models(routes@);
    let ghost met = |i: int| results@[i];
    let ghost before = output@;
    let mut check_failed: usize = 0;
    let mut i: usize = 0;
    while i < routes.len()
        invariant
            i <= routes.len(),
            results@.len() == routes@.len(),
            models == route_models(routes@),
            met == (|i: int| results@[i]),
            outputs_are_there(models, reroute_unmatched, before.named),
            check_failed <= i,
            check_failed == i <==> forall|j: int| 0 <= j < i ==> !#[trigger] met(j),
            output@.primary == before.primary,
            output@.named == routed(models, met, i as nat, event@, before.named),
        decreases routes.len() - i,
    {
        proof {
            routed_keeps_names(models, met, i as nat, event@, before.named);
            assert(before.named.contains_key(models[i as int].0));
            assert(output@.named.contains_key(models[i as int].0));
            assert(met(i as int) == results@[i as int]);
        }
        if results[i] {
            output.push(Some(routes[i].0.as_str()), event.clone());
        } else {
            check_failed = check_failed + 1;
        }
        i = i + 1;
    }
    proof {
        routed_keeps_names(models, met, models.len(), event@, before.named);
        if check_failed == routes@.len() {
            routed_nowhere(models, met, models.len(), event@, before.named);
        }
    }
    if reroute_unmatched && check_failed == routes.len() {
        output.push(Some(UNMATCHED_ROUTE), event);
        assert(output@.named.dom() =~= before.named.dom());
    }
}

impl SyncTransform for Route {
    open spec fn has_outputs(&self, output: OutputsModel) -> bool {
        outputs_are_there(route_models(self.conditions@), self.reroute_unmatched, output.named)
    }

    open spec fn outcome(
        before: Route,
        event: EventModel,
        output: OutputsModel,
        after: Route,
        result: OutputsModel,
    ) -> bool {
        &&& after == before
        &&& result.primary == output.primary
        &&& exists|results: Seq<bool>| #[trigger]
            answers(route_models(before.conditions@), event.data, results) && result.named
                == routed_event(
                route_models(before.conditions@),
                |i: int| results[i],
                before.reroute_unmatched,
                event,
                output.named,
            )
    }

    fn transform(&mut self, event: Event, output: &mut TransformOutputsBuf) {
        let ghost models = route_models(self.conditions@);
        let mut results: Vec<bool> = Vec::new();
        let mut i: usize = 0;
        while i < self.conditions.len()
            invariant
                i <= self.conditions.len(),
                models == route_models(self.conditions@),
                results@.len() == i,
                forall|j: int|
                    0 <= j < i ==> may_answer(
                        (#[trigger] models[j]).1,
                        event@.data,
                        results@[j],
                    ),
            decreases self.conditions.len() - i,
        {
            let (result, _) = self.conditions[i].1.check(event.clone());
            results.push(result);
            assert(models[i as int].1 == self.conditions@[i as int].1@);
            i = i + 1;
        }
        assert(answers(models, event@.data, results@));
        send_to_routes(&self.conditions, &results, self.reroute_unmatched, event, output);
    }
}

/// Whether these may be the answers to the conditions of the routes, put to an
/// event.
pub open spec fn answers(routes: Seq<RouteModel>, event: EventData, results: Seq<bool>) -> bool {
    &&& results.len() == routes.len()
    &&& forall|i: int|
        0 <= i < routes.len() ==> may_answer((#[trigger] routes[i]).1, event, results[i])
}

/// Where the conditions of all routes go by the event alone, there is one
/// answer to each: whether the event meets it.
pub proof fn settled_routes_go_by_the_event(
    routes: Seq<RouteModel>,
    event: EventData,
    results: Seq<bool>,
)
    requires
        forall|i: int| 0 <= i < routes.len() ==> settled((#[trigger] routes[i]).1),
        answers(routes, event, results),
    ensures
        results == Seq::new(routes.len(), |i: int| holds(routes[i].1, event)),
{
    assert forall|i: int| 0 <= i < routes.len() implies results[i] == holds(routes[i].1, event) by {
        assert(settled(routes[i].1));
    }
    assert(results =~= Seq::new(routes.len(), |i: int| holds(routes[i].1, event)));
}

/// Whether no two routes have the same name, and none has the name of the
/// output for events that no route takes.
pub open spec fn distinct_routes(routes: Seq<RouteModel>) -> bool {
    &&& forall|i: int, j: int|
        0 <= i < j < routes.len() ==> (#[trigger] routes[i]).0 != (#[trigger] routes[j]).0
    &&& forall|i: int| 0 <= i < routes.len() ==> (#[trigger] routes[i]).0 != UNMATCHED_ROUTE@
}

/// An event goes to the outputs of just the routes whose conditions it meets,
/// once to each, and to no other output but the one for events that no route
/// takes. That one gets it just where no condition is met and it is wanted.
pub proof fn event_goes_where_conditions_are_met(
    routes: Seq<RouteModel>,
    met: spec_fn(int) -> bool,
    reroute_unmatched: bool,
    event: EventModel,
    named: Map<Seq<char>, Seq<EventModel>>,
)
    requires
        distinct_routes(routes),
        outputs_are_there(routes, reroute_unmatched, named),
    ensures
        ({
            let result = routed_event(routes, met, reroute_unmatched, event, named);
            let unmatched = forall|i: int| 0 <= i < routes.len() ==> !#[trigger] met(i);
            &&& forall|i: int|
                0 <= i < routes.len() ==> result[(#[trigger] routes[i]).0] == if met(i) {
                    named[routes[i].0].push(event)
                } else {
                    named[routes[i].0]
                }
            &&& result[UNMATCHED_ROUTE@] == if reroute_unmatched && unmatched {
                named[UNMATCHED_ROUTE@].push(event)
            } else {
                named[UNMATCHED_ROUTE@]
            }
            &&& forall|name: Seq<char>|
                name != UNMATCHED_ROUTE@ && (forall|i: int|
                    0 <= i < routes.len() ==> (#[trigger] routes[i]).0 != name)
                    ==> #[trigger] result[name] == named[name]
        }),
{
    let result = routed_event(routes, met, reroute_unmatched, event, named);
    routed_at(routes, met, routes.len(), event, named);
    if forall|i: int| 0 <= i < routes.len() ==> !#[trigger] met(i) {
        routed_nowhere(routes, met, routes.len(), event, named);
        assert forall|i: int| 0 <= i < routes.len() implies result[(#[trigger] routes[i]).0]
            == if met(i) {
            named[routes[i].0].push(event)
        } else {
            named[routes[i].0]
        } by {
            assert(!met(i));
        }
    }
}

/// What each output holds once an event has been put to the first routes.
proof fn routed_at(
    routes: Seq<RouteModel>,
    met: spec_fn(int) -> bool,
    n: nat,
    event: EventModel,
    named: Map<Seq<char>, Seq<EventModel>>,
)
    requires
        distinct_routes(routes),
        n <= routes.len(),
    ensures
        forall|i: int|
            0 <= i < n ==> routed(routes, met, n, event, named)[(#[trigger] routes[i]).0] == if met(
                i,
            ) {
                named[routes[i].0].push(event)
            } else {
                named[routes[i].0]
            },
        forall|name: Seq<char>|
            (forall|i: int| 0 <= i < n ==> (#[trigger] routes[i]).0 != name) ==> #[trigger] routed(
                routes,
                met,
                n,
                event,
                named,
            )[name] == named[name],
    decreases n,
{
    if n > 0 {
        let m = (n - 1) as nat;
        routed_at(routes, met, m, event, named);
        let before = routed(routes, met, m, event, named);
        let after = routed(routes, met, n, event, named);
        let last = routes[n - 1].0;
        assert forall|i: int| 0 <= i < m implies (#[trigger] routes[i]).0 != last by {}
        assert(before[last] == named[last]);
        assert forall|i: int| 0 <= i < n implies after[(#[trigger] routes[i]).0] == if met(i) {
            named[routes[i].0].push(event)
        } else {
            named[routes[i].0]
        } by {
            if i < m {
                assert(routes[i].0 != last);
                assert(after[routes[i].0] == before[routes[i].0]);
            }
        }
        assert forall|name: Seq<char>|
            (forall|i: int| 0 <= i < n ==> (#[trigger] routes[i]).0 != name) implies #[trigger] after[name]
            == named[name] by {
            assert(routes[n - 1].0 != name);
            assert(after[name] == before[name]);
        }
    }
}

/// The messages on names of routes that are kept for other uses.
pub open spec fn reserved_errors(names: Seq<Seq<char>>) -> Seq<Seq<char>> {
    only_if(names.contains(UNMATCHED_ROUTE@), reserved_message(UNMATCHED_ROUTE@)) + only_if(
        names.contains(DEFAULT_ROUTE@),
        reserved_message(DEFAULT_ROUTE@),
    )
}

/// The message on a name that is kept for another use.
pub open spec fn reserved_message(name: Seq<char>) -> Seq<char> {
    "cannot have a named output with reserved name: `"@ + name + "`"@
}

fn reserved_text(name: &str) -> (message: String)
    ensures
        message@ == reserved_message(name@),
{
    let mut message = "cannot have a named output with reserved name: `".to_owned();
    message.append(name);
    message.append("`");
    message
}

/// The names of the outputs of a router.
pub open spec fn output_ports(config: RouteConfig) -> Seq<Seq<char>> {
    if config.reroute_unmatched {
        keys(config.route@).push(UNMATCHED_ROUTE@)
    } else {
        keys(config.route@)
    }
}

/// A router finds all outputs that it writes to among those that its
/// configuration declares.
pub proof fn declared_outputs_are_there(
    config: RouteConfig,
    route: Route,
    outputs: Seq<TransformOutput>,
    named: Map<Seq<char>, Seq<EventModel>>,
)
    requires
        route_models(route.conditions@) == built_routes(config.route@),
        route.reroute_unmatched == config.reroute_unmatched,
        outputs.len() == output_ports(config).len(),
        forall|i: int|
            0 <= i < outputs.len() ==> port_text((#[trigger] outputs[i]).port) == Some(
                output_ports(config)[i],
            ),
        named.dom() == port_names(outputs),
    ensures
        outputs_are_there(route_models(route.conditions@), route.reroute_unmatched, named),
{
    let routes = route_models(route.conditions@);
    assert forall|i: int| 0 <= i < routes.len() implies named.contains_key((#[trigger] routes[i]).0) by {
        assert(port_text(outputs[i].port) == Some(output_ports(config)[i]));
        assert(output_ports(config)[i] == config.route@[i].0);
        assert(port_names(outputs).contains(routes[i].0));
    }
    if route.reroute_unmatched {
        let last = outputs.len() - 1;
        assert(port_text(outputs[last].port) == Some(UNMATCHED_ROUTE@));
        assert(port_names(outputs).contains(UNMATCHED_ROUTE@));
    }
}

/// A transform that is a router, or none of the other kinds.
pub type RouteTransform = Transform<(), Route, ()>;

/// The routes as JSON.
pub open spec fn routes_json(routes: Seq<(Seq<char>, AnyCondition)>) -> Seq<Seq<char>> {
    Seq::new(
        routes.len(),
        |i: int| json_string(routes[i].0) + ":"@ + condition_json(routes[i].1),
    )
}

impl RouteConfig {
    /// An example of a configuration.
    pub fn generate_config() -> (config: RouteConfig)
        ensures
            config.reroute_unmatched,
            config.route@.len() == 2,
            config.route@[0].0 == "foo-exists"@,
            config.route@[0].1@ == ConditionModel::Vrl("exists(.foo)"@),
            config.route@[1].0 == "foo-does-not-exist"@,
            config.route@[1].1@ == ConditionModel::Vrl("!exists(.foo)"@),
    {
        RouteConfig { reroute_unmatched: true, route: route_examples() }
    }

    /// Decides whether the programs of all conditions run to an end on every
    /// event.
    pub fn ends(&self) -> (found: bool)
        ensures
            found == all_end(self.route@),
    {
        let ghost routes = self.route@;
        let len: usize = self.route.len();
        let mut i: usize = 0;
        while i < len
            invariant
                i <= len,
                len == routes.len(),
                routes == self.route@,
                forall|j: int| 0 <= j < i ==> always_ends((#[trigger] routes[j]).1@),
            decreases len - i,
        {
            if !self.route.value_at(i).ends() {
                assert(!always_ends(routes[i as int].1@));
                return false;
            }
            i = i + 1;
        }
        true
    }

    /// Builds the router.
    pub fn build(&self) -> (result: Result<RouteTransform, String>)
        requires
            all_end(self.route@),
        ensures
            match result {
                Ok(Transform::Synchronous(route)) => {
                    &&& all_built(self.route@)
                    &&& route_models(route.conditions@) == built_routes(self.route@)
                    &&& route.reroute_unmatched == self.reroute_unmatched
                },
                Ok(_) => false,
                Err(error) => exists|k: int| #[trigger]
                    first_unbuilt(self.route@, k) && reads(
                    error,
                    built_condition(self.route@[k].1@)->Err_0,
                ),
            },
    {
        match Route::new(self) {
            Ok(route) => Ok(Transform::synchronous(route)),
            Err(error) => Err(error),
        }
    }

    /// What a router takes in: events of every type.
    pub fn input(&self) -> (input: Input)
        ensures
            input.data_type == DataType::all(),
    {
        Input::all()
    }

    /// Checks that no route has a name that is kept for another use.
    pub fn validate(&self) -> (result: Result<(), Vec<String>>)
        ensures
            finds(result, reserved_errors(keys(self.route@))),
    {
        let mut errors: Vec<String> = Vec::new();
        assert(texts(errors@) =~= Seq::empty());
        if self.route.contains_key(UNMATCHED_ROUTE) {
            push_text(&mut errors, reserved_text(UNMATCHED_ROUTE));
        }
        if self.route.contains_key(DEFAULT_ROUTE) {
            push_text(&mut errors, reserved_text(DEFAULT_ROUTE));
        }
        assert(texts(errors@) =~= reserved_errors(keys(self.route@)));
        outcome(errors)
    }

    /// The outputs of a router: one for each route, and one for events that no
    /// route takes, where it is wanted. All events look as they did before.
    pub fn outputs(&self, input_definitions: &Definitions) -> (outputs: Vec<TransformOutput>)
        ensures
            outputs@.len() == output_ports(*self).len(),
            forall|i: int|
                0 <= i < outputs@.len() ==> {
                    &&& port_text((#[trigger] outputs@[i]).port) == Some(output_ports(*self)[i])
                    &&& outputs@[i].data_type == DataType::all()
                    &&& outputs@[i].log_schema_definitions@ == input_definitions@
                },
    {
        let ghost ports = output_ports(*self);
        let mut outputs: Vec<TransformOutput> = Vec::new();
        let len: usize = self.route.len();
        let mut i: usize = 0;
        while i < len
            invariant
                i <= len,
                len == self.route@.len(),
                ports == output_ports(*self),
                outputs@.len() == i,
                forall|j: int|
                    0 <= j < i ==> {
                        &&& port_text((#[trigger] outputs@[j]).port) == Some(ports[j])
                        &&& outputs@[j].data_type == DataType::all()
                        &&& outputs@[j].log_schema_definitions@ == input_definitions@
                    },
            decreases len - i,
        {
            let output = TransformOutput::new(
                DataType::all_bits(),
                clone_definitions(input_definitions),
            ).with_port(self.route.key_at(i));
            assert(ports[i as int] == self.route@[i as int].0);
            outputs.push(output);
            i = i + 1;
        }
        if self.reroute_unmatched {
            let output = TransformOutput::new(
                DataType::all_bits(),
                clone_definitions(input_definitions),
            ).with_port(UNMATCHED_ROUTE);
            outputs.push(output);
        }
        outputs
    }

    /// Whether several workers may run a router at once: yes, since no event
    /// depends on another.
    pub fn enable_concurrency(&self) -> (enabled: bool)
        ensures
            enabled,
    {
        true
    }

    /// The configuration as JSON.
    pub fn to_json(&self) -> (text: String)
        ensures
            text@ == "{\"reroute_unmatched\":"@ + (if self.reroute_unmatched {
                "true"@
            } else {
                "false"@
            }) + ",\"route\":{"@ + joined(routes_json(self.route@), ","@) + "}}"@,
    {
        let ghost wanted = routes_json(self.route@);
        let mut parts: Vec<String> = Vec::new();
        let len: usize = self.route.len();
        let mut i: usize = 0;
        assert(texts(parts@) =~= wanted.take(0));
        while i < len
            invariant
                i <= len,
                len == self.route@.len(),
                wanted == routes_json(self.route@),
                texts(parts@) == wanted.take(i as int),
            decreases len - i,
        {
            let mut part = string_to_json(self.route.key_at(i));
            part.append(":");
            part.append(self.route.value_at(i).to_json().as_str());
            assert(part@ == wanted[i as int]);
            push_text(&mut parts, part);
            assert(texts(parts@) =~= wanted.take(i + 1));
            i = i + 1;
        }
        assert(wanted.take(i as int) =~= wanted);
        let mut text = "{\"reroute_unmatched\":".to_owned();
        text.append(if self.reroute_unmatched { "true" } else { "false" });
        text.append(",\"route\":{");
        text.append(join(&parts, ",").as_str());
        text.append("}}");
        text
    }
}

/// Examples of routes: one for events with a field, one for those without.
pub fn route_examples() -> (routes: ComponentMap<AnyCondition>)
    ensures
        routes@.len() == 2,
        routes@[0].0 == "foo-exists"@,
        routes@[0].1@ == ConditionModel::Vrl("exists(.foo)"@),
        routes@[1].0 == "foo-does-not-exist"@,
        routes@[1].1@ == ConditionModel::Vrl("!exists(.foo)"@),
{
    let mut routes: ComponentMap<AnyCondition> = ComponentMap::new();
    let first = AnyCondition::Config(
        ConditionConfig::Vrl(VrlConfig { source: "exists(.foo)".to_owned() }),
    );
    let second = AnyCondition::Config(
        ConditionConfig::Vrl(VrlConfig { source: "!exists(.foo)".to_owned() }),
    );
    routes.add("foo-exists", first);
    proof {
        reveal_strlit("foo-exists");
        reveal_strlit("foo-does-not-exist");
        assert("foo-exists"@.len() != "foo-does-not-exist"@.len());
    }
    routes.add("foo-does-not-exist", second);
    routes
}

/// An event that a router is given is added to the outputs of just the routes
/// whose conditions it meets: to each once, and whatever its type. Where it meets
/// none, it is added to the output for such events, if that is wanted. All other
/// outputs stay as they are.
pub proof fn routed_by_every_condition(
    before: Route,
    event: EventModel,
    shown: ValueModel,
    met: spec_fn(int) -> bool,
    output: OutputsModel,
    after: Route,
    result: OutputsModel,
)
    requires
        <Route as SyncTransform>::outcome(before, event, output, after, result),
        shows(event.data, shown),
        forall|i: int|
            0 <= i < before.conditions@.len() ==> output.named.contains_key(
                (#[trigger] before.conditions@[i]).0@,
            ),
        before.reroute_unmatched ==> output.named.contains_key("_unmatched"@),
        forall|i: int, j: int|
            0 <= i < j < before.conditions@.len() ==> (#[trigger] before.conditions@[i]).0@ != (
            #[trigger] before.conditions@[j]).0@,
        forall|i: int|
            0 <= i < before.conditions@.len() ==> (#[trigger] before.conditions@[i]).0@
                != "_unmatched"@,
        forall|i: int|
            0 <= i < before.conditions@.len() ==> match (#[trigger] before.conditions@[i]).1 {
                Condition::IsLog => met(i) == (event.data is Log),
                Condition::IsMetric => met(i) == (event.data is Metric),
                Condition::IsTrace => met(i) == (event.data is Trace),
                Condition::Vrl(program) => steady(program.source()) && met(i) == (vrl_outcome(
                    program.source(),
                    shown,
                    usize::BITS,
                ) == Some(true)),
            },
    ensures
        after == before,
        result.primary == output.primary,
        forall|i: int|
            0 <= i < before.conditions@.len() ==> result.named[(
            #[trigger] before.conditions@[i]).0@] == if met(i) {
                output.named[before.conditions@[i].0@].push(event)
            } else {
                output.named[before.conditions@[i].0@]
            },
        result.named["_unmatched"@] == if before.reroute_unmatched && forall|i: int|
            0 <= i < before.conditions@.len() ==> !#[trigger] met(i) {
            output.named["_unmatched"@].push(event)
        } else {
            output.named["_unmatched"@]
        },
        forall|name: Seq<char>|
            name != "_unmatched"@ && (forall|i: int|
                0 <= i < before.conditions@.len() ==> (#[trigger] before.conditions@[i]).0@ != name)
                ==> #[trigger] result.named[name] == output.named[name],
{
    let routes = route_models(before.conditions@);
    one_thing_is_shown(event.data, shown);
    let results = choose|results: Seq<bool>| #[trigger]
        answers(routes, event.data, results) && result.named == routed_event(
            routes,
            |i: int| results[i],
            before.reroute_unmatched,
            event,
            output.named,
        );
    assert forall|i: int| 0 <= i < routes.len() implies settled((#[trigger] routes[i]).1) && holds(
        routes[i].1,
        event.data,
    ) == met(i) by {
        assert(routes[i].1 == before.conditions@[i].1@);
    }
    settled_routes_go_by_the_event(routes, event.data, results);
    let answered = |i: int| results[i];
    assert forall|i: int| 0 <= i < routes.len() implies #[trigger] answered(i) == met(i) by {
        assert(settled(routes[i].1));
    }
    assert forall|i: int| 0 <= i < routes.len() implies (#[trigger] routes[i]).0
        == before.conditions@[i].0@ by {}
    assert forall|i: int, j: int| 0 <= i < j < routes.len() implies (#[trigger] routes[i]).0 != (
    #[trigger] routes[j]).0 by {
        assert(before.conditions@[i].0@ != before.conditions@[j].0@);
    }
    assert forall|i: int| 0 <= i < routes.len() implies (#[trigger] routes[i]).0 != UNMATCHED_ROUTE@
        && output.named.contains_key(routes[i].0) by {
        assert(before.conditions@[i].0@ != "_unmatched"@);
    }
    event_goes_where_conditions_are_met(
        routes,
        answered,
        before.reroute_unmatched,
        event,
        output.named,
    );
    assert forall|i: int| 0 <= i < before.conditions@.len() implies result.named[(
    #[trigger] before.conditions@[i]).0@] == if met(i) {
        output.named[before.conditions@[i].0@].push(event)
    } else {
        output.named[before.conditions@[i].0@]
    } by {
        assert(routes[i].0 == before.conditions@[i].0@);
        assert(answered(i) == met(i));
    }
    assert((forall|i: int| 0 <= i < routes.len() ==> !#[trigger] answered(i)) <==> forall|i: int|
        0 <= i < before.conditions@.len() ==> !#[trigger] met(i)) by {
        if forall|i: int| 0 <= i < routes.len() ==> !#[trigger] answered(i) {
            assert forall|i: int| 0 <= i < before.conditions@.len() implies !#[trigger] met(i) by {
                assert(!answered(i));
            }
        }
    }
    assert forall|name: Seq<char>|
        name != "_unmatched"@ && (forall|i: int|
            0 <= i < before.conditions@.len() ==> (#[trigger] before.conditions@[i]).0@ != name)
            implies #[trigger] result.named[name] == output.named[name] by {
        assert forall|i: int| 0 <= i < routes.len() implies (#[trigger] routes[i]).0 != name by {
            assert(before.conditions@[i].0@ != name);
        }
    }
}

/// A router is built just where all its conditions can be built. It has the
/// conditions of its configuration under the names that they have there, in the
/// same order.
pub proof fn routers_are_built_as_configured(config: &RouteConfig, result: Result<Route, String>)
    requires
        call_ensures(Route::new, (config,), result),
    ensures
        result is Ok <==> forall|i: int|
            0 <= i < config.route@.len() ==> match (#[trigger] config.route@[i]).1 {
                AnyCondition::Program(source) => vrl_compiled(source@, usize::BITS) == Some(true),
                AnyCondition::Config(ConditionConfig::Vrl(own)) => vrl_compiled(
                    own.source@,
                    usize::BITS,
                ) == Some(true),
                _ => true,
            },
        result matches Ok(route) ==> {
            &&& route.reroute_unmatched == config.reroute_unmatched
            &&& route.conditions@.len() == config.route@.len()
            &&& forall|i: int|
                0 <= i < config.route@.len() ==> {
                    &&& (#[trigger] route.conditions@[i]).0@ == config.route@[i].0
                    &&& match config.route@[i].1 {
                        AnyCondition::Program(source) => route.conditions@[i].1 matches Condition::Vrl(
                            program,
                        ) && program.source() == source@,
                        AnyCondition::Config(ConditionConfig::Vrl(own)) => route.conditions@[i].1
                            matches Condition::Vrl(program) && program.source() == own.source@,
                        AnyCondition::Config(ConditionConfig::IsLog) => route.conditions@[i].1 is IsLog,
                        AnyCondition::Config(ConditionConfig::IsMetric) => {
                            route.conditions@[i].1 is IsMetric
                        },
                        AnyCondition::Config(ConditionConfig::IsTrace) => {
                            route.conditions@[i].1 is IsTrace
                        },
                    }
                }
        },
{
    let routes = config.route@;
    if result is Ok {
        let built = result->Ok_0;
        assert(route_models(built.conditions@).len() == routes.len());
        assert forall|i: int| 0 <= i < routes.len() implies built_condition((#[trigger] routes[i]).1@) is Ok
            && built.conditions@[i].0@ == routes[i].0 && Ok::<ConditionModel, Option<Seq<char>>>(
            built.conditions@[i].1@,
        ) == built_condition(routes[i].1@) by {
            assert(route_models(built.conditions@)[i] == built_routes(routes)[i]);
        }
    } else {
        let k = choose|k: int| #[trigger]
            first_unbuilt(routes, k) && reads(
            result->Err_0,
            built_condition(routes[k].1@)->Err_0,
        );
        assert(built_condition(routes[k].1@) is Err);
    }
}

/// No route may be called `_unmatched` or `_default`; all other names will do.
pub proof fn reserved_names_are_refused(config: &RouteConfig, result: Result<(), Vec<String>>)
    requires
        call_ensures(RouteConfig::validate, (config,), result),
    ensures
        result is Ok <==> forall|i: int|
            0 <= i < config.route@.len() ==> (#[trigger] config.route@[i]).0 != "_unmatched"@
                && config.route@[i].0 != "_default"@,
{
    let names = keys(config.route@);
    assert(names.contains("_unmatched"@) <==> exists|i: int|
        0 <= i < config.route@.len() && (#[trigger] config.route@[i]).0 == "_unmatched"@) by {
        if names.contains("_unmatched"@) {
            let i = choose|i: int| 0 <= i < names.len() && names[i] == "_unmatched"@;
            assert(config.route@[i].0 == "_unmatched"@);
        }
        if exists|i: int|
            0 <= i < config.route@.len() && (#[trigger] config.route@[i]).0 == "_unmatched"@ {
            let i = choose|i: int|
                0 <= i < config.route@.len() && (#[trigger] config.route@[i]).0 == "_unmatched"@;
            assert(names[i] == "_unmatched"@);
        }
    }
    assert(names.contains("_default"@) <==> exists|i: int|
        0 <= i < config.route@.len() && (#[trigger] config.route@[i]).0 == "_default"@) by {
        if names.contains("_default"@) {
            let i = choose|i: int| 0 <= i < names.len() && names[i] == "_default"@;
            assert(config.route@[i].0 == "_default"@);
        }
        if exists|i: int|
            0 <= i < config.route@.len() && (#[trigger] config.route@[i]).0 == "_default"@ {
            let i = choose|i: int|
                0 <= i < config.route@.len() && (#[trigger] config.route@[i]).0 == "_default"@;
            assert(names[i] == "_default"@);
        }
    }
}

/// A router has one output for each of its routes, under the name of the route,
/// and one more called `_unmatched` where it is wanted. Events of every type come
/// out of each.
pub proof fn each_route_has_an_output(
    config: &RouteConfig,
    definitions: &Definitions,
    outputs: Vec<TransformOutput>,
)
    requires
        call_ensures(RouteConfig::outputs, (config, definitions), outputs),
    ensures
        outputs@.len() == config.route@.len() + if config.reroute_unmatched {
            1int
        } else {
            0
        },
        forall|i: int|
            0 <= i < config.route@.len() ==> (#[trigger] outputs@[i]).port is Some
                && outputs@[i].port->0@ == config.route@[i].0,
        config.reroute_unmatched ==> outputs@.last().port is Some && outputs@.last().port->0@
            == "_unmatched"@,
        forall|i: int|
            0 <= i < outputs@.len() ==> (#[trigger] outputs@[i]).data_type.log
                && outputs@[i].data_type.metric && outputs@[i].data_type.trace,
{
    assert forall|i: int| 0 <= i < config.route@.len() implies (#[trigger] outputs@[i]).port is Some
        && outputs@[i].port->0@ == config.route@[i].0 by {
        assert(port_text(outputs@[i].port) == Some(output_ports(*config)[i]));
    }
    if config.reroute_unmatched {
        let last = outputs@.len() - 1;
        assert(port_text(outputs@[last].port) == Some(output_ports(*config)[last]));
    }
}

/// Given the answers to the conditions of all routes, an event goes to the
/// outputs of just those that are met, or to the one for events that no route
/// takes, where that is wanted.
pub proof fn events_go_by_the_answers(
    routes: &Vec<(String, Condition)>,
    results: &Vec<bool>,
    reroute_unmatched: bool,
    event: Event,
    output: &mut TransformOutputsBuf,
    i: int,
)
    requires
        results@.len() == routes@.len(),
        forall|j: int|
            0 <= j < routes@.len() ==> old(output)@.named.contains_key((#[trigger] routes@[j]).0@),
        reroute_unmatched ==> old(output)@.named.contains_key("_unmatched"@),
        forall|j: int, k: int|
            0 <= j < k < routes@.len() ==> (#[trigger] routes@[j]).0@ != (#[trigger] routes@[k]).0@,
        forall|j: int| 0 <= j < routes@.len() ==> (#[trigger] routes@[j]).0@ != "_unmatched"@,
        call_ensures(send_to_routes, (routes, results, reroute_unmatched, event, output), ()),
    ensures
        final(output)@.primary == old(output)@.primary,
        0 <= i < routes@.len() ==> final(output)@.named[routes@[i].0@] == if results@[i] {
            old(output)@.named[routes@[i].0@].push(event@)
        } else {
            old(output)@.named[routes@[i].0@]
        },
        final(output)@.named["_unmatched"@] == if reroute_unmatched && forall|j: int|
            0 <= j < results@.len() ==> !#[trigger] results@[j] {
            old(output)@.named["_unmatched"@].push(event@)
        } else {
            old(output)@.named["_unmatched"@]
        },
{
    let models = route_models(routes@);
    let met = |j: int| results@[j];
    assert forall|j: int| 0 <= j < models.len() implies old(output)@.named.contains_key(
        (#[trigger] models[j]).0,
    ) && models[j].0 == routes@[j].0@ by {}
    assert forall|j: int, k: int| 0 <= j < k < models.len() implies (#[trigger] models[j]).0 != (
    #[trigger] models[k]).0 by {
        assert(routes@[j].0@ != routes@[k].0@);
    }
    assert(distinct_routes(models));
    event_goes_where_conditions_are_met(
        models,
        met,
        reroute_unmatched,
        event@,
        old(output)@.named,
    );
    assert(final(output)@.named == routed_event(
        models,
        met,
        reroute_unmatched,
        event@,
        old(output)@.named,
    ));
    if 0 <= i < routes@.len() {
        assert(models[i].0 == routes@[i].0@);
    }
    assert((forall|j: int| 0 <= j < models.len() ==> !#[trigger] met(j)) <==> (forall|j: int|
        0 <= j < results@.len() ==> !#[trigger] results@[j])) by {
        if forall|j: int| 0 <= j < models.len() ==> !#[trigger] met(j) {
            assert forall|j: int| 0 <= j < results@.len() implies !#[trigger] results@[j] by {
                assert(!met(j));
            }
        }
    }
}

/// A router takes events of every type.
pub proof fn routers_take_all_types(config: &RouteConfig, input: Input)
    requires
        call_ensures(RouteConfig::input, (config,), input),
    ensures
        input.data_type.log && input.data_type.metric && input.data_type.trace,
{
}

} // verus!
