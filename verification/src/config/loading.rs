//! From the contents of configuration files to a configuration.
use vstd::prelude::*;

use crate::component_map::distinct_keys;
use crate::config::builder::{
    appended, builds_to, builds_what_is_sound, configurations_share_no_names, duplicate_errors,
    free_names, taken_errors, BuilderNames,
};
use crate::config::compiler::{
    all_fed, carried_over, well_connected, well_fed, well_named, well_set, well_shaped,
};
use crate::config::disk::{
    capacity_errors, check_buffer_preconditions, held_on, room_is_needed, Mountpoint, PlacedBuffer,
};
use crate::config::globs::globs_expanded;
use crate::config::validation::{check_provider, provider_errors};
use crate::config::vars::{find_value, interpolate, interpolates_to, lookup, variable_models};
use crate::config::{Config, ConfigBuilder};
use crate::id::port_text;
use crate::text::{append_texts, gather, gather_empty, gathered, only_if, texts};

verus! {

/// The messages of several steps.
pub open spec fn collected(outcomes: Seq<Result<(), Vec<String>>>) -> Seq<Seq<char>> {
    gather(
        outcomes.len(),
        |i: int|
            match outcomes[i] {
                Ok(_) => Seq::empty(),
                Err(errors) => texts(errors@),
            },
    )
}

/// What has been loaded from several places, unless there were errors. All
/// errors are given, whatever place they come from.
pub fn loader_from_paths<T>(outcomes: Vec<Result<(), Vec<String>>>, loaded: T) -> (result: Result<
    T,
    Vec<String>,
>)
    ensures
        match result {
            Ok(value) => collected(outcomes@).len() == 0 && value == loaded,
            Err(errors) => errors@.len() > 0 && texts(errors@) == collected(outcomes@),
        },
{
    let ghost all = outcomes@;
    let ghost f = |i: int|
        match all[i] {
            Ok(_) => Seq::empty(),
            Err(errors) => texts(errors@),
        };
    let mut errors: Vec<String> = Vec::new();
    assert(texts(errors@) =~= gather(0, f));
    for outcome in iter: outcomes
        invariant
            iter.seq() == all,
            f == (|i: int|
                match all[i] {
                    Ok(_) => Seq::empty(),
                    Err(errors) => texts(errors@),
                }),
            texts(errors@) == gather(iter.index() as nat, f),
    {
        let ghost before = texts(errors@);
        let ghost index = iter.index();
        assert(all[index] == outcome);
        match outcome {
            Ok(_) => {},
            Err(more) => {
                append_texts(&mut errors, more);
            },
        }
        assert(texts(errors@) =~= before + f(index));
    }
    assert(texts(errors@).len() == errors@.len());
    if errors.len() == 0 {
        Ok(loaded)
    } else {
        Err(errors)
    }
}

/// Two lists of names, one after the other.
pub open spec fn joined_names(first: BuilderNames, second: BuilderNames) -> BuilderNames {
    BuilderNames {
        tables: first.tables + second.tables,
        sources: first.sources + second.sources,
        sinks: first.sinks + second.sinks,
        transforms: first.transforms + second.transforms,
        tests: first.tests + second.tests,
        secrets: first.secrets + second.secrets,
    }
}

/// No names at all.
pub open spec fn no_names() -> BuilderNames {
    BuilderNames {
        tables: Seq::empty(),
        sources: Seq::empty(),
        sinks: Seq::empty(),
        transforms: Seq::empty(),
        tests: Seq::empty(),
        secrets: Seq::empty(),
    }
}

/// The names that are given once several inputs have been taken in, and the
/// messages on inputs that could not be.
pub open spec fn taken_in(inputs: Seq<Result<ConfigBuilder, Vec<String>>>) -> (
    BuilderNames,
    Seq<Seq<char>>,
)
    decreases inputs.len(),
{
    if inputs.len() == 0 {
        (no_names(), Seq::empty())
    } else {
        let (names, errors) = taken_in(inputs.drop_last());
        match inputs.last() {
            Err(more) => (names, errors + texts(more@)),
            Ok(builder) => if duplicate_errors(names, builder.names()).len() == 0 {
                (joined_names(names, builder.names()), errors)
            } else {
                (names, errors + duplicate_errors(names, builder.names()))
            },
        }
    }
}

/// Whether a configuration is another one with one input taken in. A faulty
/// input without a message says nothing.
pub open spec fn takes_in(
    input: Result<ConfigBuilder, Vec<String>>,
    before: ConfigBuilder,
    after: ConfigBuilder,
) -> bool {
    match input {
        Ok(builder) => appended(before, builder, after),
        Err(errors) => errors@.len() == 0 && after == before,
    }
}

/// Whether inputs are taken in one after the other, from a configuration that
/// says nothing on.
pub open spec fn steps_through(
    inputs: Seq<Result<ConfigBuilder, Vec<String>>>,
    steps: Seq<ConfigBuilder>,
) -> bool {
    &&& steps.len() == inputs.len() + 1
    &&& steps[0].is_fresh()
    &&& forall|i: int|
        0 <= i < inputs.len() ==> takes_in(#[trigger] inputs[i], steps[i], steps[i + 1])
}

/// Whether a configuration is what several inputs say, one after the other.
pub open spec fn merges_to(
    inputs: Seq<Result<ConfigBuilder, Vec<String>>>,
    config: ConfigBuilder,
) -> bool {
    exists|steps: Seq<ConfigBuilder>| #[trigger]
        steps_through(inputs, steps) && steps.last() == config
}

/// What several inputs, each parsed or found faulty, say together. All messages
/// are given, whatever input they come from.
pub fn load_from_inputs(inputs: Vec<Result<ConfigBuilder, Vec<String>>>) -> (result: Result<
    ConfigBuilder,
    Vec<String>,
>)
    ensures
        match result {
            Ok(config) => taken_in(inputs@).1.len() == 0 && merges_to(inputs@, config),
            Err(errors) => errors@.len() > 0 && texts(errors@) == taken_in(inputs@).1,
        },
{
    let ghost all = inputs@;
    let mut config = Config::builder();
    let mut errors: Vec<String> = Vec::new();
    proof {
        assert(all.take(0) =~= Seq::empty());
        assert(texts(errors@) =~= Seq::empty());
        assert(config.names() == no_names()) by {
            assert(config.names().tables =~= Seq::empty());
            assert(config.names().sources =~= Seq::empty());
            assert(config.names().sinks =~= Seq::empty());
            assert(config.names().transforms =~= Seq::empty());
            assert(config.names().tests =~= Seq::empty());
            assert(config.names().secrets =~= Seq::empty());
        }
    }
    let ghost mut steps: Seq<ConfigBuilder> = seq![config];
    for input in iter: inputs
        invariant
            iter.seq() == all,
            texts(errors@) == taken_in(all.take(iter.index())).1,
            config.names() == taken_in(all.take(iter.index())).0,
            errors@.len() == 0 ==> steps_through(all.take(iter.index()), steps) && steps.last()
                == config,
    {
        let ghost index = iter.index();
        let ghost taken = steps;
        let ghost before = config;
        let ghost next = all.take(index + 1);
        assert(next.drop_last() =~= all.take(index));
        assert(next.last() == input);
        assert(texts(errors@).len() == errors@.len());
        match input {
            Ok(builder) => {
                match config.append(builder) {
                    Ok(_) => {
                        proof {
                            assert(config.names() == joined_names(
                                before.names(),
                                builder.names(),
                            )) by {
                                let both = joined_names(before.names(), builder.names());
                                assert(config.names().tables =~= both.tables);
                                assert(config.names().sources =~= both.sources);
                                assert(config.names().sinks =~= both.sinks);
                                assert(config.names().transforms =~= both.transforms);
                                assert(config.names().tests =~= both.tests);
                                assert(config.names().secrets =~= both.secrets);
                            }
                            steps = steps.push(config);
                            if errors@.len() == 0 {
                                step_taken(all, index, taken, config);
                            }
                        }
                    },
                    Err(more) => {
                        append_texts(&mut errors, more);
                        assert(texts(errors@).len() == errors@.len());
                    },
                }
            },
            Err(more) => {
                let ghost added = more;
                let ghost held = texts(errors@);
                append_texts(&mut errors, more);
                proof {
                    assert(texts(errors@).len() == errors@.len());
                    assert(texts(added@).len() == added@.len());
                    if errors@.len() == 0 {
                        assert((held + texts(added@)).len() == 0);
                        step_taken(all, index, taken, config);
                    }
                    steps = steps.push(config);
                }
            },
        }
    }
    assert(all.take(all.len() as int) =~= all);
    assert(texts(errors@).len() == errors@.len());
    if errors.len() == 0 {
        assert(steps_through(all, steps));
        Ok(config)
    } else {
        Err(errors)
    }
}

proof fn step_taken(
    inputs: Seq<Result<ConfigBuilder, Vec<String>>>,
    index: int,
    steps: Seq<ConfigBuilder>,
    config: ConfigBuilder,
)
    requires
        0 <= index < inputs.len(),
        steps_through(inputs.take(index), steps),
        takes_in(inputs[index], steps.last(), config),
    ensures
        steps_through(inputs.take(index + 1), steps.push(config)),
{
    let before = inputs.take(index);
    let after = inputs.take(index + 1);
    let longer = steps.push(config);
    assert forall|i: int| 0 <= i < after.len() implies takes_in(
        #[trigger] after[i],
        longer[i],
        longer[i + 1],
    ) by {
        if i < index {
            assert(before[i] == after[i]);
        }
    }
}

/// The configuration that one input says, parsed or found faulty.
pub fn load_from_str(parsed: Result<ConfigBuilder, Vec<String>>) -> (result: Result<
    Config,
    Vec<String>,
>)
    ensures
        match parsed {
            Err(errors) if errors@.len() > 0 => result is Err && texts(result->Err_0@) == texts(
                errors@,
            ),
            _ => exists|builder: ConfigBuilder| #[trigger]
                merges_to(seq![parsed], builder) && builds_to(builder, result),
        },
{
    let ghost given = seq![parsed];
    let mut inputs: Vec<Result<ConfigBuilder, Vec<String>>> = Vec::new();
    inputs.push(parsed);
    proof {
        assert(inputs@ =~= given);
        assert(given.drop_last() =~= Seq::empty());
        assert(taken_in(Seq::empty()) == (no_names(), Seq::<Seq<char>>::empty()));
        if given[0] is Ok {
            nothing_is_taken(given[0]->Ok_0.names());
        } else {
            assert(taken_in(given).1 =~= texts(given[0]->Err_0@));
            assert(texts(given[0]->Err_0@).len() == given[0]->Err_0@.len());
        }
    }
    match load_from_inputs(inputs) {
        Ok(builder) => {
            let result = builder.build();
            assert(merges_to(given, builder) && builds_to(builder, result));
            result
        },
        Err(errors) => Err(errors),
    }
}

/// Where there are no names, none is taken.
proof fn nothing_is_taken(names: BuilderNames)
    ensures
        duplicate_errors(no_names(), names).len() == 0,
{
    none_are_taken("duplicate enrichment_table name found: "@, names.tables);
    none_are_taken("duplicate source id found: "@, names.sources);
    none_are_taken("duplicate sink id found: "@, names.sinks);
    none_are_taken("duplicate transform id found: "@, names.transforms);
    none_are_taken("duplicate test name found: "@, names.tests);
    none_are_taken("duplicate secret id found: "@, names.secrets);
}

proof fn none_are_taken(prefix: Seq<char>, names: Seq<Seq<char>>)
    ensures
        taken_errors(prefix, Seq::empty(), names).len() == 0,
{
    let taken = Seq::<Seq<char>>::empty();
    let f = |i: int| only_if(taken.contains(names[i]), prefix + names[i]);
    assert forall|i: int| 0 <= i < names.len() implies (#[trigger] f(i)).len() == 0 by {
        assert(!taken.contains(names[i]));
    }
    gather_empty(names.len(), f);
}

/// The configuration that files and directories say together, or what went
/// wrong with loading them.
pub fn load_from_paths(loaded: Result<ConfigBuilder, Vec<String>>) -> (result: Result<
    Config,
    Vec<String>,
>)
    ensures
        match loaded {
            Ok(builder) => builds_to(builder, result),
            Err(errors) => result == Err::<Config, Vec<String>>(errors),
        },
{
    match loaded {
        Ok(builder) => builder.build(),
        Err(errors) => Err(errors),
    }
}

/// Where the configuration is to be had that loading ends with.
pub enum Bootstrap {
    /// It has been loaded.
    Local(ConfigBuilder),
    /// The provider of this type gives it, in place of the one that has been
    /// loaded.
    Remote(String, ConfigBuilder),
}

/// Where the configuration is to be had, by what has been loaded from files. A
/// configuration that names a provider may hold no components.
pub fn find_provider(loaded: Result<ConfigBuilder, Vec<String>>) -> (result: Result<
    Bootstrap,
    Vec<String>,
>)
    ensures
        match (loaded, result) {
            (Err(errors), Err(given)) => given == errors,
            (Ok(builder), Err(errors)) => errors@.len() > 0 && texts(errors@) == provider_errors(
                builder,
            ),
            (Ok(builder), Ok(Bootstrap::Local(kept))) => builder.provider is None && kept
                == builder,
            (Ok(builder), Ok(Bootstrap::Remote(provider, kept))) => {
                &&& builder.provider == Some(provider)
                &&& kept == builder
                &&& provider_errors(builder).len() == 0
            },
            _ => false,
        },
{
    match loaded {
        Err(errors) => Err(errors),
        Ok(builder) => match check_provider(&builder) {
            Err(errors) => Err(errors),
            Ok(_) => match builder.provider.clone() {
                None => Ok(Bootstrap::Local(builder)),
                Some(provider) => Ok(Bootstrap::Remote(provider, builder)),
            },
        },
    }
}

/// The configuration that loading ends with, once it is known where its disk
/// buffers would lie.
pub fn finalize_config(
    config: Config,
    buffers: &Vec<PlacedBuffer>,
    mountpoints: &Option<Vec<Mountpoint>>,
) -> (result: Result<Config, Vec<String>>)
    ensures
        match (mountpoints, result) {
            (None, Ok(given)) => given == config,
            (None, Err(_)) => false,
            (Some(known), Ok(given)) => given == config && capacity_errors(
                buffers@,
                known@,
            ).len() == 0,
            (Some(known), Err(errors)) => errors@.len() > 0 && texts(errors@) == capacity_errors(
                buffers@,
                known@,
            ),
        },
{
    match check_buffer_preconditions(buffers, mountpoints) {
        Ok(_) => Ok(config),
        Err(errors) => Err(errors),
    }
}

/// The variables that references may name: those of the environment, and the
/// name of the machine, where it is known and the environment does not give it.
pub open spec fn known_variables(
    vars: Seq<(Seq<char>, Seq<char>)>,
    hostname: Option<Seq<char>>,
) -> Seq<(Seq<char>, Seq<char>)> {
    if hostname is Some && forall|i: int| 0 <= i < vars.len() ==> (#[trigger] vars[i]).0 != "HOSTNAME"@ {
        vars.push(("HOSTNAME"@, hostname->0))
    } else {
        vars
    }
}

/// Makes the text of a configuration file ready to be parsed: replaces
/// references to variables, where that is wanted.
pub fn prepare_input(
    source: String,
    interpolate_env: bool,
    vars: Vec<(String, String)>,
    hostname: Option<String>,
) -> (result: Result<String, Vec<String>>)
    ensures
        if interpolate_env {
            interpolates_to(
                source@,
                known_variables(variable_models(vars@), port_text(hostname)),
                result,
            )
        } else {
            result is Ok && result->Ok_0 == source
        },
{
    if !interpolate_env {
        return Ok(source);
    }
    let ghost given = variable_models(vars@);
    let mut vars = vars;
    let found = find_value(&vars, "HOSTNAME").is_some();
    proof {
        lookup_tells(given, "HOSTNAME"@);
    }
    if !found {
        if let Some(name) = hostname {
            vars.push(("HOSTNAME".to_owned(), name));
            assert(variable_models(vars@) =~= given.push(("HOSTNAME"@, name@)));
        }
    }
    interpolate(source.as_str(), &vars)
}

/// A variable is found just where it is listed.
proof fn lookup_tells(vars: Seq<(Seq<char>, Seq<char>)>, name: Seq<char>)
    ensures
        lookup(vars, name) is None <==> forall|i: int|
            0 <= i < vars.len() ==> (#[trigger] vars[i]).0 != name,
    decreases vars.len(),
{
    if vars.len() > 0 {
        let rest = vars.skip(1);
        lookup_tells(rest, name);
        if lookup(vars, name) is None {
            assert forall|i: int| 0 <= i < vars.len() implies (#[trigger] vars[i]).0 != name by {
                if i > 0 {
                    assert(rest[i - 1] == vars[i]);
                }
            }
        } else if vars[0].0 != name {
            let j = choose|j: int| 0 <= j < rest.len() && (#[trigger] rest[j]).0 == name;
            assert(vars[j + 1].0 == name);
        }
    }
}

/// Whether a result is an error with the given text among its messages.
pub open spec fn gives_message<T>(result: Result<T, Vec<String>>, text: Seq<char>) -> bool {
    result matches Err(errors) && exists|m: int|
        0 <= m < errors@.len() && #[trigger] errors@[m]@ == text
}

/// What has been loaded is given just where no place gave an error. Otherwise all
/// messages are given, whatever place they come from.
pub proof fn one_error_is_enough<T>(
    outcomes: Vec<Result<(), Vec<String>>>,
    loaded: T,
    result: Result<T, Vec<String>>,
)
    requires
        call_ensures(loader_from_paths::<T>, (outcomes, loaded), result),
    ensures
        result is Ok <==> forall|i: int|
            0 <= i < outcomes@.len() ==> match #[trigger] outcomes@[i] {
                Ok(_) => true,
                Err(errors) => errors@.len() == 0,
            },
        result is Ok ==> result->Ok_0 == loaded,
        forall|i: int, k: int|
            0 <= i < outcomes@.len() && outcomes@[i] is Err && 0 <= k
                < outcomes@[i]->Err_0@.len() ==> gives_message(
                result,
                (#[trigger] outcomes@[i]->Err_0@[k])@,
            ),
{
    let f = |i: int|
        match outcomes@[i] {
            Ok(_) => Seq::empty(),
            Err(errors) => texts(errors@),
        };
    gather_empty(outcomes@.len(), f);
    let all = collected(outcomes@);
    assert(all == gather(outcomes@.len(), f));
    assert forall|i: int| 0 <= i < outcomes@.len() implies ((#[trigger] f(i)).len() == 0 <==> match outcomes@[i] {
        Ok(_) => true,
        Err(errors) => errors@.len() == 0,
    }) by {}
    if all.len() == 0 {
        assert forall|i: int| 0 <= i < outcomes@.len() implies match #[trigger] outcomes@[i] {
            Ok(_) => true,
            Err(errors) => errors@.len() == 0,
        } by {
            assert(f(i).len() == 0);
        }
    }
    if let Err(errors) = result {
        assert(texts(errors@).len() == errors@.len());
    }
    assert forall|i: int, k: int|
        0 <= i < outcomes@.len() && outcomes@[i] is Err && 0 <= k < outcomes@[i]->Err_0@.len()
            implies gives_message(result, (#[trigger] outcomes@[i]->Err_0@[k])@) by {
        let text = outcomes@[i]->Err_0@[k]@;
        assert(f(i)[k] == text);
        assert(f(i).contains(text));
        gathered(outcomes@.len(), f, text);
        let m = choose|m: int| 0 <= m < all.len() && all[m] == text;
        assert(texts(result->Err_0@)[m] == text);
        assert(result->Err_0@[m]@ == text);
    }
}

/// A configuration that names no provider is used as it is; one that does is used
/// together with the provider, unless it has components of its own. Errors of loading
/// are handed on.
pub proof fn providers_take_over(
    loaded: Result<ConfigBuilder, Vec<String>>,
    result: Result<Bootstrap, Vec<String>>,
)
    requires
        call_ensures(find_provider, (loaded,), result),
    ensures
        match loaded {
            Err(errors) => result matches Err(given) && given == errors,
            Ok(builder) => {
                let empty = builder.sources@.len() == 0 && builder.transforms@.len() == 0
                    && builder.sinks@.len() == 0;
                &&& builder.provider is None ==> (result matches Ok(Bootstrap::Local(kept)) && kept
                    == builder)
                &&& builder.provider is Some && empty ==> (result matches Ok(
                    Bootstrap::Remote(provider, kept),
                ) && provider == builder.provider->0 && kept == builder)
                &&& builder.provider is Some && !empty ==> result is Err
            },
        },
{
    if let Err(errors) = result {
        assert(texts(errors@).len() == errors@.len());
    }
}

/// A configuration is handed on as it is just where there is room on disk for its
/// buffers, or no mountpoints are known.
pub proof fn configurations_need_room_on_disk(
    config: Config,
    buffers: &Vec<PlacedBuffer>,
    mountpoints: &Option<Vec<Mountpoint>>,
    result: Result<Config, Vec<String>>,
)
    requires
        call_ensures(finalize_config, (config, buffers, mountpoints), result),
    ensures
        result matches Ok(given) ==> given == config,
        *mountpoints is None ==> result is Ok,
        *mountpoints matches Some(known) ==> (result is Ok <==> forall|i: int|
            0 <= i < known@.len() ==> held_on(buffers@, known@, i, buffers@.len()) <= (
            #[trigger] known@[i]).capacity),
{
    if let Some(known) = *mountpoints {
        room_is_needed(buffers@, known@);
    }
    if let Err(errors) = result {
        assert(texts(errors@).len() == errors@.len());
    }
}

/// Without interpolation a text is as it was. With it, references stand for the
/// variables of the environment, and `HOSTNAME` for the name of the machine where the
/// environment has no variable of that name: what comes out is what interpolating
/// with these variables gives.
pub proof fn machine_name_is_a_variable(
    source: String,
    interpolate_env: bool,
    vars: Vec<(String, String)>,
    hostname: Option<String>,
    result: Result<String, Vec<String>>,
    text: &str,
    known: &Vec<(String, String)>,
    other: Result<String, Vec<String>>,
)
    requires
        call_ensures(prepare_input, (source, interpolate_env, vars, hostname), result),
        call_ensures(interpolate, (text, known), other),
        text@ == source@,
        ({
            let given = exists|i: int|
                0 <= i < vars@.len() && (#[trigger] vars@[i]).0@ == "HOSTNAME"@;
            let more = hostname is Some && !given;
            &&& known@.len() == vars@.len() + if more {
                1int
            } else {
                0
            }
            &&& forall|i: int|
                0 <= i < vars@.len() ==> (#[trigger] known@[i]).0@ == vars@[i].0@ && known@[i].1@
                    == vars@[i].1@
            &&& more ==> known@.last().0@ == "HOSTNAME"@ && known@.last().1@ == hostname->0@
        }),
    ensures
        !interpolate_env ==> (result matches Ok(same) && same@ == source@),
        interpolate_env ==> match other {
            Ok(wanted) => result matches Ok(found) && found@ == wanted@,
            Err(wanted) => result matches Err(found) && found@.len() == wanted@.len() && forall|
                k: int,
            |
                0 <= k < wanted@.len() ==> #[trigger] result->Err_0@[k]@ == wanted@[k]@,
        },
{
    let models = variable_models(vars@);
    let wanted = known_variables(models, port_text(hostname));
    let given = exists|i: int| 0 <= i < vars@.len() && (#[trigger] vars@[i]).0@ == "HOSTNAME"@;
    assert((forall|i: int| 0 <= i < models.len() ==> (#[trigger] models[i]).0 != "HOSTNAME"@)
        <==> !given) by {
        if given {
            let i = choose|i: int| 0 <= i < vars@.len() && (#[trigger] vars@[i]).0@ == "HOSTNAME"@;
            assert(models[i].0 == "HOSTNAME"@);
        } else {
            assert forall|i: int| 0 <= i < models.len() implies (#[trigger] models[i]).0
                != "HOSTNAME"@ by {
                assert(vars@[i].0@ != "HOSTNAME"@);
            }
        }
    }
    let all = variable_models(known@);
    assert forall|i: int| 0 <= i < vars@.len() implies all[i] == models[i] by {
        assert(known@[i].0@ == vars@[i].0@);
    }
    assert(all =~= wanted);
    if interpolate_env {
        if let (Err(a), Err(b)) = (result, other) {
            assert(texts(a@) == texts(b@));
            assert(texts(a@).len() == a@.len() && texts(b@).len() == b@.len());
            assert forall|k: int| 0 <= k < b@.len() implies #[trigger] a@[k]@ == b@[k]@ by {
                assert(texts(a@)[k] == texts(b@)[k]);
            }
        }
        if let Err(a) = result {
            assert(texts(a@).len() == a@.len());
        }
        if let Err(b) = other {
            assert(texts(b@).len() == b@.len());
        }
    }
}

/// Files that were loaded are built, and what went wrong with loading them is handed
/// on.
pub proof fn loaded_files_are_built(
    loaded: Result<ConfigBuilder, Vec<String>>,
    result: Result<Config, Vec<String>>,
    rank: spec_fn(Seq<char>) -> nat,
)
    requires
        call_ensures(load_from_paths, (loaded,), result),
        loaded matches Ok(builder) ==> distinct_keys(builder.sources@) && distinct_keys(
            builder.sinks@,
        ),
    ensures
        loaded matches Err(errors) ==> (result matches Err(given) && given == errors),
        loaded matches Ok(builder) ==> exists|expanded: ConfigBuilder| #[trigger]
            globs_expanded(builder, expanded) && (well_named(builder) && well_shaped(expanded)
                && well_set(expanded) && well_connected(expanded) && well_fed(expanded, rank)
                ==> result is Ok),
        loaded matches Ok(builder) ==> result matches Ok(config) ==> carried_over(builder, config)
            && exists|expanded: ConfigBuilder, order: spec_fn(Seq<char>) -> nat|
            {
                &&& globs_expanded(builder, expanded)
                &&& well_named(builder) && well_shaped(expanded) && well_set(expanded)
                &&& well_connected(expanded)
                &&& #[trigger] all_fed(expanded, order, config)
            },
{
    if let Ok(builder) = loaded {
        builds_what_is_sound(builder, result, rank);
    }
}

/// Whether nothing of a kind has the same name in two configurations: no table, no
/// source, no sink, no transform, no test and no store of secrets.
#[verifier::opaque]
pub open spec fn share_no_names(first: ConfigBuilder, second: ConfigBuilder) -> bool {
    &&& forall|i: int, j: int|
        0 <= i < first.enrichment_tables@.len() && 0 <= j < second.enrichment_tables@.len() ==> (
        #[trigger] first.enrichment_tables@[i]).0 != (
        #[trigger] second.enrichment_tables@[j]).0
    &&& forall|i: int, j: int|
        0 <= i < first.sources@.len() && 0 <= j < second.sources@.len() ==> (#[trigger] first.sources@[i]).0 != (
        #[trigger] second.sources@[j]).0
    &&& forall|i: int, j: int|
        0 <= i < first.sinks@.len() && 0 <= j < second.sinks@.len() ==> (#[trigger] first.sinks@[i]).0 != (
        #[trigger] second.sinks@[j]).0
    &&& forall|i: int, j: int|
        0 <= i < first.transforms@.len() && 0 <= j < second.transforms@.len() ==> (
        #[trigger] first.transforms@[i]).0 != (
        #[trigger] second.transforms@[j]).0
    &&& forall|i: int, j: int|
        0 <= i < first.secret@.len() && 0 <= j < second.secret@.len() ==> (#[trigger] first.secret@[i]).0 != (
        #[trigger] second.secret@[j]).0
    &&& forall|i: int, j: int|
        0 <= i < first.tests@.len() && 0 <= j < second.tests@.len() ==> (
        #[trigger] first.tests@[i]).name@ != (#[trigger] second.tests@[j]).name@
}

/// The names of one kind.
spec fn of_kind(names: BuilderNames, kind: int) -> Seq<Seq<char>> {
    if kind == 0 {
        names.tables
    } else if kind == 1 {
        names.sources
    } else if kind == 2 {
        names.sinks
    } else if kind == 3 {
        names.transforms
    } else if kind == 4 {
        names.tests
    } else {
        names.secrets
    }
}

/// Whether two lists have no text in common.
spec fn apart(first: Seq<Seq<char>>, second: Seq<Seq<char>>) -> bool {
    forall|i: int, j: int|
        0 <= i < first.len() && 0 <= j < second.len() ==> #[trigger] first[i] != #[trigger] second[j]
}

/// There is no message on names that are taken just where they are apart in each
/// kind.
proof fn apart_in_each_kind(have: BuilderNames, with: BuilderNames)
    ensures
        duplicate_errors(have, with).len() == 0 <==> forall|kind: int|
            0 <= kind < 6 ==> apart(#[trigger] of_kind(have, kind), of_kind(with, kind)),
{
    free_names("duplicate enrichment_table name found: "@, have.tables, with.tables);
    free_names("duplicate source id found: "@, have.sources, with.sources);
    free_names("duplicate sink id found: "@, have.sinks, with.sinks);
    free_names("duplicate transform id found: "@, have.transforms, with.transforms);
    free_names("duplicate test name found: "@, have.tests, with.tests);
    free_names("duplicate secret id found: "@, have.secrets, with.secrets);
    assert(of_kind(have, 0) == have.tables && of_kind(have, 1) == have.sources && of_kind(have, 2)
        == have.sinks && of_kind(have, 3) == have.transforms && of_kind(have, 4) == have.tests
        && of_kind(have, 5) == have.secrets);
}

/// Names that are apart from two lists are apart from both together.
proof fn apart_from_both(first: Seq<Seq<char>>, second: Seq<Seq<char>>, more: Seq<Seq<char>>)
    ensures
        apart(first + second, more) <==> apart(first, more) && apart(second, more),
{
    let both = first + second;
    if apart(both, more) {
        assert forall|i: int, j: int|
            0 <= i < first.len() && 0 <= j < more.len() implies #[trigger] first[i]
            != #[trigger] more[j] by {
            assert(both[i] != more[j]);
        }
        assert forall|i: int, j: int|
            0 <= i < second.len() && 0 <= j < more.len() implies #[trigger] second[i]
            != #[trigger] more[j] by {
            assert(both[first.len() + i] != more[j]);
        }
    }
    if apart(first, more) && apart(second, more) {
        assert forall|i: int, j: int|
            0 <= i < both.len() && 0 <= j < more.len() implies #[trigger] both[i]
            != #[trigger] more[j] by {
            if i < first.len() {
                assert(first[i] != more[j]);
            } else {
                assert(second[i - first.len()] != more[j]);
            }
        }
    }
}

/// Whether the first inputs can be taken in together.
pub open spec fn fit_together(inputs: Seq<Result<ConfigBuilder, Vec<String>>>) -> bool {
    &&& forall|i: int|
        0 <= i < inputs.len() ==> match #[trigger] inputs[i] {
            Ok(_) => true,
            Err(errors) => errors@.len() == 0,
        }
    &&& forall|i: int, j: int|
        0 <= i < j < inputs.len() && inputs[i] is Ok && inputs[j] is Ok ==> share_no_names(
            (#[trigger] inputs[i])->Ok_0,
            (#[trigger] inputs[j])->Ok_0,
        )
}

/// Whether names can be taken in beside others.
#[verifier::opaque]
spec fn free(have: BuilderNames, with: BuilderNames) -> bool {
    duplicate_errors(have, with).len() == 0
}

/// Two configurations share no names just where those of one can be taken in beside
/// those of the other.
proof fn names_are_not_shared(first: ConfigBuilder, second: ConfigBuilder)
    ensures
        free(first.names(), second.names()) <==> share_no_names(first, second),
{
    reveal(share_no_names);
    reveal(free);
    configurations_share_no_names(first, second);
}

/// What taking in one more input comes to.
proof fn one_more_taken_in(inputs: Seq<Result<ConfigBuilder, Vec<String>>>)
    requires
        inputs.len() > 0,
    ensures
        ({
            let (names, errors) = taken_in(inputs.drop_last());
            let (all, messages) = taken_in(inputs);
            match inputs.last() {
                Err(more) => all == names && (messages.len() == 0 <==> errors.len() == 0
                    && more@.len() == 0),
                Ok(builder) => if free(names, builder.names()) {
                    all == joined_names(names, builder.names()) && messages == errors
                } else {
                    messages.len() > 0
                },
            }
        }),
{
    reveal(free);
    if let Err(more) = inputs.last() {
        assert(texts(more@).len() == more@.len());
    }
}

/// Names are free beside two configurations just where they are beside each.
proof fn free_beside_both(first: BuilderNames, second: BuilderNames, with: BuilderNames)
    ensures
        free(joined_names(first, second), with) <==> free(first, with) && free(second, with),
{
    reveal(free);
    let both = joined_names(first, second);
    apart_in_each_kind(first, with);
    apart_in_each_kind(second, with);
    apart_in_each_kind(both, with);
    assert forall|kind: int| 0 <= kind < 6 implies (apart(
        #[trigger] of_kind(both, kind),
        of_kind(with, kind),
    ) <==> apart(of_kind(first, kind), of_kind(with, kind)) && apart(
        of_kind(second, kind),
        of_kind(with, kind),
    )) by {
        apart_from_both(of_kind(first, kind), of_kind(second, kind), of_kind(with, kind));
        assert(of_kind(both, kind) =~= of_kind(first, kind) + of_kind(second, kind));
    }
    if duplicate_errors(both, with).len() == 0 {
        assert forall|kind: int| 0 <= kind < 6 implies apart(
            #[trigger] of_kind(first, kind),
            of_kind(with, kind),
        ) by {
            assert(apart(of_kind(both, kind), of_kind(with, kind)));
        }
        assert forall|kind: int| 0 <= kind < 6 implies apart(
            #[trigger] of_kind(second, kind),
            of_kind(with, kind),
        ) by {
            assert(apart(of_kind(both, kind), of_kind(with, kind)));
        }
    }
}

/// Whether the last input can be taken in beside the others.
spec fn last_fits(inputs: Seq<Result<ConfigBuilder, Vec<String>>>) -> bool {
    match inputs.last() {
        Ok(builder) => forall|i: int|
            0 <= i < inputs.len() - 1 && (#[trigger] inputs[i]) is Ok ==> share_no_names(
                inputs[i]->Ok_0,
                builder,
            ),
        Err(errors) => errors@.len() == 0,
    }
}

/// Inputs fit together just where all but the last do and the last fits in.
proof fn fit_one_by_one(inputs: Seq<Result<ConfigBuilder, Vec<String>>>)
    requires
        inputs.len() > 0,
    ensures
        fit_together(inputs) <==> fit_together(inputs.drop_last()) && last_fits(inputs),
{
    let less = inputs.drop_last();
    let last = inputs.len() - 1;
    if fit_together(inputs) {
        assert forall|i: int| 0 <= i < less.len() implies match #[trigger] less[i] {
            Ok(_) => true,
            Err(errors) => errors@.len() == 0,
        } by {
            assert(less[i] == inputs[i]);
        }
        assert forall|i: int, j: int|
            0 <= i < j < less.len() && less[i] is Ok && less[j] is Ok implies share_no_names(
            (#[trigger] less[i])->Ok_0,
            (#[trigger] less[j])->Ok_0,
        ) by {
            assert(less[i] == inputs[i] && less[j] == inputs[j]);
        }
        assert(match inputs[last] {
            Ok(_) => true,
            Err(errors) => errors@.len() == 0,
        });
    }
    if fit_together(less) && last_fits(inputs) {
        assert forall|i: int| 0 <= i < inputs.len() implies match #[trigger] inputs[i] {
            Ok(_) => true,
            Err(errors) => errors@.len() == 0,
        } by {
            if i < last {
                assert(less[i] == inputs[i]);
            }
        }
        assert forall|i: int, j: int|
            0 <= i < j < inputs.len() && inputs[i] is Ok && inputs[j] is Ok implies share_no_names(
            (#[trigger] inputs[i])->Ok_0,
            (#[trigger] inputs[j])->Ok_0,
        ) by {
            if j < last {
                assert(less[i] == inputs[i] && less[j] == inputs[j]);
            }
        }
    }
}

/// Names are taken in without a message just where the inputs fit together, and then
/// further names are free just where they are beside every input.
proof fn taken_in_together(inputs: Seq<Result<ConfigBuilder, Vec<String>>>, with: BuilderNames)
    ensures
        taken_in(inputs).1.len() == 0 <==> fit_together(inputs),
        fit_together(inputs) ==> (free(taken_in(inputs).0, with)
            <==> forall|i: int|
            0 <= i < inputs.len() && (#[trigger] inputs[i]) is Ok ==> free(inputs[i]->Ok_0.names(), with)),
    decreases inputs.len(),
{
    if inputs.len() == 0 {
        nothing_is_taken(with);
        reveal(free);
    } else {
        let less = inputs.drop_last();
        let last = inputs.len() - 1;
        let (names, errors) = taken_in(less);
        taken_in_together(less, with);
        fit_one_by_one(inputs);
        one_more_taken_in(inputs);
        match inputs[last] {
            Err(more) => {
                assert(texts(more@).len() == more@.len());
            },
            Ok(builder) => {
                taken_in_together(less, builder.names());
                assert forall|i: int| 0 <= i < last && inputs[i] is Ok implies (free(
                    (#[trigger] inputs[i])->Ok_0.names(),
                    builder.names(),
                ) <==> share_no_names(inputs[i]->Ok_0, builder)) by {
                    names_are_not_shared(inputs[i]->Ok_0, builder);
                }
                if fit_together(less) {
                    assert(last_fits(inputs) <==> free(names, builder.names())) by {
                        if last_fits(inputs) {
                            assert forall|i: int|
                                0 <= i < less.len() && (#[trigger] less[i]) is Ok
                                    implies free(less[i]->Ok_0.names(), builder.names()) by {
                                assert(less[i] == inputs[i]);
                            }
                        }
                        if free(names, builder.names()) {
                            assert forall|i: int|
                                0 <= i < inputs.len() - 1 && (#[trigger] inputs[i]) is Ok
                                    implies share_no_names(inputs[i]->Ok_0, builder) by {
                                assert(less[i] == inputs[i]);
                            }
                        }
                    }
                }
                free_beside_both(names, builder.names(), with);
            },
        }
        if fit_together(inputs) {
            assert((forall|i: int|
                0 <= i < inputs.len() && (#[trigger] inputs[i]) is Ok ==> free(
                    inputs[i]->Ok_0.names(),
                    with,
                )) <==> (forall|i: int|
                0 <= i < less.len() && (#[trigger] less[i]) is Ok ==> free(
                    less[i]->Ok_0.names(),
                    with,
                )) && (inputs[last] is Ok ==> free(inputs[last]->Ok_0.names(), with))) by {
                if forall|i: int|
                    0 <= i < inputs.len() && (#[trigger] inputs[i]) is Ok ==> free(inputs[i]->Ok_0.names(), with) {
                    assert forall|i: int|
                        0 <= i < less.len() && (#[trigger] less[i]) is Ok
                            implies free(less[i]->Ok_0.names(), with) by {
                        assert(less[i] == inputs[i]);
                    }
                }
                if (forall|i: int|
                    0 <= i < less.len() && (#[trigger] less[i]) is Ok ==> free(
                        less[i]->Ok_0.names(),
                        with,
                    )) && (inputs[last] is Ok ==> free(inputs[last]->Ok_0.names(), with)) {
                    assert forall|i: int|
                        0 <= i < inputs.len() && (#[trigger] inputs[i]) is Ok
                            implies free(inputs[i]->Ok_0.names(), with) by {
                        if i < last {
                            assert(less[i] == inputs[i]);
                        }
                    }
                }
            }
        }
    }
}

/// What an input says of one kind: nothing where it is faulty.
pub open spec fn said<T>(
    inputs: Seq<Result<ConfigBuilder, Vec<String>>>,
    kind: spec_fn(ConfigBuilder) -> Seq<T>,
) -> Seq<T> {
    gather(
        inputs.len(),
        |i: int|
            match inputs[i] {
                Ok(builder) => kind(builder),
                Err(_) => Seq::empty(),
            },
    )
}

/// What is there after some steps is what the inputs up to there say.
proof fn steps_add_up<T>(
    inputs: Seq<Result<ConfigBuilder, Vec<String>>>,
    steps: Seq<ConfigBuilder>,
    kind: spec_fn(ConfigBuilder) -> Seq<T>,
    n: nat,
)
    requires
        steps_through(inputs, steps),
        n <= inputs.len(),
        forall|builder: ConfigBuilder| #[trigger] builder.is_fresh() ==> kind(builder).len() == 0,
        forall|first: ConfigBuilder, second: ConfigBuilder, both: ConfigBuilder| #[trigger]
            appended(first, second, both) ==> kind(both) == kind(first) + kind(second),
    ensures
        kind(steps[n as int]) == gather(
            n,
            |i: int|
                match inputs[i] {
                    Ok(builder) => kind(builder),
                    Err(_) => Seq::empty(),
                },
        ),
    decreases n,
{
    let f = |i: int|
        match inputs[i] {
            Ok(builder) => kind(builder),
            Err(_) => Seq::empty(),
        };
    if n == 0 {
        assert(steps[0].is_fresh());
        assert(kind(steps[0]) =~= gather(0, f));
    } else {
        steps_add_up(inputs, steps, kind, (n - 1) as nat);
        assert(takes_in(inputs[n - 1], steps[n - 1], steps[n - 1 + 1]));
        assert(kind(steps[n as int]) =~= gather(n, f));
    }
}

/// Several inputs are taken in just where none is faulty with a message and no two of
/// them share a name. What comes of it has all that they say, one after the other.
pub proof fn inputs_add_up(
    inputs: Vec<Result<ConfigBuilder, Vec<String>>>,
    result: Result<ConfigBuilder, Vec<String>>,
)
    requires
        call_ensures(load_from_inputs, (inputs,), result),
    ensures
        result is Ok <==> fit_together(inputs@),
        result matches Ok(config) ==> {
            &&& config.sources@ == said(inputs@, |builder: ConfigBuilder| builder.sources@)
            &&& config.transforms@ == said(inputs@, |builder: ConfigBuilder| builder.transforms@)
            &&& config.sinks@ == said(inputs@, |builder: ConfigBuilder| builder.sinks@)
            &&& config.enrichment_tables@ == said(
                inputs@,
                |builder: ConfigBuilder| builder.enrichment_tables@,
            )
            &&& config.tests@ == said(inputs@, |builder: ConfigBuilder| builder.tests@)
            &&& config.secret@ == said(inputs@, |builder: ConfigBuilder| builder.secret@)
        },
{
    taken_in_together(inputs@, no_names());
    if let Err(errors) = result {
        assert(texts(errors@).len() == errors@.len());
    }
    if let Ok(config) = result {
        let steps = choose|steps: Seq<ConfigBuilder>| #[trigger]
            steps_through(inputs@, steps) && steps.last() == config;
        let n = inputs@.len();
        assert(steps[n as int] == config);
        steps_add_up(inputs@, steps, |builder: ConfigBuilder| builder.sources@, n);
        steps_add_up(inputs@, steps, |builder: ConfigBuilder| builder.transforms@, n);
        steps_add_up(inputs@, steps, |builder: ConfigBuilder| builder.sinks@, n);
        steps_add_up(inputs@, steps, |builder: ConfigBuilder| builder.enrichment_tables@, n);
        steps_add_up(inputs@, steps, |builder: ConfigBuilder| builder.tests@, n);
        steps_add_up(inputs@, steps, |builder: ConfigBuilder| builder.secret@, n);
    }
}

} // verus!
