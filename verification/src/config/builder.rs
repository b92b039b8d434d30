//! Collecting what several configuration files say.
use vstd::prelude::*;

use crate::component_map::{distinct_keys, keys, put, put_is_found, ComponentMap};
use crate::config::compiler::{
    all_fed, carried_over, compile, compiled_ones_are_sound, compiles_to, sound_ones_compile,
    valid_configurations_compile, well_connected, well_fed, well_named, well_set, well_shaped,
};
use crate::config::global::{GlobalOptions, SchemaOptions};
use crate::config::globs::globs_expanded;
use crate::config::sink::{SinkConfig, SinkOuter};
use crate::config::source::{SourceConfig, SourceOuter};
use crate::config::transform::{TransformConfig, TransformOuter};
use crate::config::{Config, ConfigBuilder, HealthcheckOptions, TestDefinition};
use crate::text::{gather, gather_empty, holds_text, only_if, push_text, texts};

verus! {

/// The names that configuration files give to things, by what they are.
pub ghost struct BuilderNames {
    pub tables: Seq<Seq<char>>,
    pub sources: Seq<Seq<char>>,
    pub sinks: Seq<Seq<char>>,
    pub transforms: Seq<Seq<char>>,
    pub tests: Seq<Seq<char>>,
    pub secrets: Seq<Seq<char>>,
}

/// The names of tests.
pub open spec fn test_names<T>(tests: Seq<TestDefinition<T>>) -> Seq<Seq<char>> {
    Seq::new(tests.len(), |i: int| tests[i].name@)
}

impl ConfigBuilder {
    /// The names that are given to things.
    pub open spec fn names(&self) -> BuilderNames {
        BuilderNames {
            tables: keys(self.enrichment_tables@),
            sources: keys(self.sources@),
            sinks: keys(self.sinks@),
            transforms: keys(self.transforms@),
            tests: test_names(self.tests@),
            secrets: keys(self.secret@),
        }
    }
}

/// The messages on names that are taken.
pub open spec fn taken_errors(
    prefix: Seq<char>,
    taken: Seq<Seq<char>>,
    names: Seq<Seq<char>>,
) -> Seq<Seq<char>> {
    gather(names.len(), |i: int| only_if(taken.contains(names[i]), prefix + names[i]))
}

/// The messages on things that have the same name in two places.
pub open spec fn duplicate_errors(have: BuilderNames, with: BuilderNames) -> Seq<Seq<char>> {
    taken_errors("duplicate enrichment_table name found: "@, have.tables, with.tables)
        + taken_errors("duplicate source id found: "@, have.sources, with.sources) + taken_errors(
        "duplicate sink id found: "@,
        have.sinks,
        with.sinks,
    ) + taken_errors("duplicate transform id found: "@, have.transforms, with.transforms)
        + taken_errors("duplicate test name found: "@, have.tests, with.tests) + taken_errors(
        "duplicate secret id found: "@,
        have.secrets,
        with.secrets,
    )
}

/// Adds the messages on names that are taken.
fn check_taken<T>(
    errors: &mut Vec<String>,
    prefix: &str,
    have: &ComponentMap<T>,
    with: &ComponentMap<T>,
)
    ensures
        texts(final(errors)@) == texts(old(errors)@) + taken_errors(
            prefix@,
            keys(have@),
            keys(with@),
        ),
{
    let ghost before = texts(errors@);
    let ghost f = |i: int| only_if(keys(have@).contains(keys(with@)[i]), prefix@ + keys(with@)[i]);
    assert(texts(errors@) =~= before + gather(0, f));
    let len: usize = with.len();
    let mut i: usize = 0;
    while i < len
        invariant
            i <= len,
            len == with@.len(),
            f == (|i: int|
                only_if(keys(have@).contains(keys(with@)[i]), prefix@ + keys(with@)[i])),
            texts(errors@) == before + gather(i as nat, f),
        decreases len - i,
    {
        let ghost held = texts(errors@);
        let key = with.key_at(i);
        assert(keys(with@)[i as int] == key@);
        if have.contains_key(key) {
            let mut message = prefix.to_owned();
            message.append(key);
            push_text(errors, message);
        }
        assert(texts(errors@) =~= held + f(i as int));
        assert(texts(errors@) =~= before + gather((i + 1) as nat, f));
        i = i + 1;
    }
}

/// The names of tests.
fn names_of_tests(tests: &Vec<TestDefinition<String>>) -> (names: Vec<String>)
    ensures
        texts(names@) == test_names(tests@),
{
    let mut names: Vec<String> = Vec::new();
    let mut i: usize = 0;
    assert(texts(names@) =~= test_names(tests@).take(0));
    while i < tests.len()
        invariant
            i <= tests.len(),
            texts(names@) == test_names(tests@).take(i as int),
        decreases tests.len() - i,
    {
        push_text(&mut names, tests[i].name.clone());
        assert(texts(names@) =~= test_names(tests@).take(i + 1));
        i = i + 1;
    }
    assert(test_names(tests@).take(i as int) =~= test_names(tests@));
    names
}

/// Adds the messages on names of tests that are taken.
fn check_taken_tests(errors: &mut Vec<String>, taken: &Vec<String>, names: &Vec<String>)
    ensures
        texts(final(errors)@) == texts(old(errors)@) + taken_errors(
            "duplicate test name found: "@,
            texts(taken@),
            texts(names@),
        ),
{
    let ghost before = texts(errors@);
    let ghost f = |i: int|
        only_if(
            texts(taken@).contains(texts(names@)[i]),
            "duplicate test name found: "@ + texts(names@)[i],
        );
    assert(texts(errors@) =~= before + gather(0, f));
    let mut i: usize = 0;
    while i < names.len()
        invariant
            i <= names.len(),
            f == (|i: int|
                only_if(
                    texts(taken@).contains(texts(names@)[i]),
                    "duplicate test name found: "@ + texts(names@)[i],
                )),
            texts(errors@) == before + gather(i as nat, f),
        decreases names.len() - i,
    {
        let ghost held = texts(errors@);
        let name = names[i].as_str();
        assert(texts(names@)[i as int] == name@);
        if holds_text(taken, name) {
            let mut message = "duplicate test name found: ".to_owned();
            message.append(name);
            push_text(errors, message);
        }
        assert(texts(errors@) =~= held + f(i as int));
        assert(texts(errors@) =~= before + gather((i + 1) as nat, f));
        i = i + 1;
    }
}

/// Where no name is taken, two maps share no key.
proof fn none_taken<T>(prefix: Seq<char>, have: Seq<(Seq<char>, T)>, with: Seq<(Seq<char>, T)>)
    requires
        taken_errors(prefix, keys(have), keys(with)).len() == 0,
    ensures
        forall|i: int, j: int|
            0 <= i < have.len() && 0 <= j < with.len() ==> (#[trigger] have[i]).0 != (
            #[trigger] with[j]).0,
{
    let f = |i: int| only_if(keys(have).contains(keys(with)[i]), prefix + keys(with)[i]);
    gather_empty(keys(with).len(), f);
    assert forall|i: int, j: int| 0 <= i < have.len() && 0 <= j < with.len() implies (
    #[trigger] have[i]).0 != (#[trigger] with[j]).0 by {
        assert(f(j).len() == 0);
        assert(keys(have)[i] == have[i].0);
        assert(keys(with)[j] == with[j].0);
    }
}

/// A setting, or another one where it is open.
pub open spec fn first_set<T>(first: Option<T>, second: Option<T>) -> Option<T> {
    if first is Some {
        first
    } else {
        second
    }
}

fn or<T>(first: Option<T>, second: Option<T>) -> (chosen: Option<T>)
    ensures
        chosen == first_set(first, second),
{
    match first {
        Some(value) => Some(value),
        None => second,
    }
}

/// Whether a builder holds what two builders hold together. Of settings that
/// can be set once only, that of the first goes before that of the second.
pub open spec fn appended(first: ConfigBuilder, second: ConfigBuilder, both: ConfigBuilder) -> bool {
    &&& both.global == (GlobalOptions {
        data_dir: first_set(first.global.data_dir, second.global.data_dir),
        acknowledgements: first.global.acknowledgements.merged(second.global.acknowledgements),
        wildcard_matching: first_set(
            first.global.wildcard_matching,
            second.global.wildcard_matching,
        ),
        buffer_utilization_ewma_half_life_seconds: first_set(
            first.global.buffer_utilization_ewma_half_life_seconds,
            second.global.buffer_utilization_ewma_half_life_seconds,
        ),
        latency_ewma_alpha: first_set(
            first.global.latency_ewma_alpha,
            second.global.latency_ewma_alpha,
        ),
    })
    &&& both.schema.log_namespace == first_set(
        first.schema.log_namespace,
        second.schema.log_namespace,
    )
    &&& both.healthchecks == (HealthcheckOptions {
        enabled: first.healthchecks.enabled && second.healthchecks.enabled,
        require_healthy: first.healthchecks.require_healthy || second.healthchecks.require_healthy,
    })
    &&& both.enrichment_tables@ == first.enrichment_tables@ + second.enrichment_tables@
    &&& both.sources@ == first.sources@ + second.sources@
    &&& both.sinks@ == first.sinks@ + second.sinks@
    &&& both.transforms@ == first.transforms@ + second.transforms@
    &&& both.tests@ == first.tests@ + second.tests@
    &&& both.secret@ == first.secret@ + second.secret@
    &&& both.provider == first_set(first.provider, second.provider)
    &&& both.graceful_shutdown_duration == first_set(
        first.graceful_shutdown_duration,
        second.graceful_shutdown_duration,
    )
    &&& both.allow_empty == first.allow_empty
}

impl ConfigBuilder {
    /// Adds what another configuration file says. Nothing may have the same
    /// name in both; where something has, nothing is added.
    pub fn append(&mut self, with: ConfigBuilder) -> (result: Result<(), Vec<String>>)
        ensures
            match result {
                Ok(_) => duplicate_errors(old(self).names(), with.names()).len() == 0 && appended(
                    *old(self),
                    with,
                    *final(self),
                ),
                Err(errors) => errors@.len() > 0 && texts(errors@) == duplicate_errors(
                    old(self).names(),
                    with.names(),
                ) && *final(self) == *old(self),
            },
    {
        let mut errors: Vec<String> = Vec::new();
        assert(texts(errors@) =~= Seq::empty());
        check_taken(
            &mut errors,
            "duplicate enrichment_table name found: ",
            &self.enrichment_tables,
            &with.enrichment_tables,
        );
        check_taken(&mut errors, "duplicate source id found: ", &self.sources, &with.sources);
        check_taken(&mut errors, "duplicate sink id found: ", &self.sinks, &with.sinks);
        check_taken(
            &mut errors,
            "duplicate transform id found: ",
            &self.transforms,
            &with.transforms,
        );
        check_taken_tests(&mut errors, &names_of_tests(&self.tests), &names_of_tests(&with.tests));
        check_taken(&mut errors, "duplicate secret id found: ", &self.secret, &with.secret);
        assert(texts(errors@) =~= duplicate_errors(self.names(), with.names()));
        assert(texts(errors@).len() == errors@.len());
        if errors.len() > 0 {
            return Err(errors);
        }
        proof {
            none_taken(
                "duplicate enrichment_table name found: "@,
                self.enrichment_tables@,
                with.enrichment_tables@,
            );
            none_taken("duplicate source id found: "@, self.sources@, with.sources@);
            none_taken("duplicate sink id found: "@, self.sinks@, with.sinks@);
            none_taken("duplicate transform id found: "@, self.transforms@, with.transforms@);
            none_taken("duplicate secret id found: "@, self.secret@, with.secret@);
        }
        let mut taken = ConfigBuilder::default();
        std::mem::swap(self, &mut taken);
        let ConfigBuilder {
            global,
            schema,
            healthchecks,
            mut enrichment_tables,
            mut sources,
            mut sinks,
            mut transforms,
            mut tests,
            provider,
            mut secret,
            graceful_shutdown_duration,
            allow_empty,
        } = taken;
        enrichment_tables.extend(with.enrichment_tables);
        sources.extend(with.sources);
        sinks.extend(with.sinks);
        transforms.extend(with.transforms);
        secret.extend(with.secret);
        let mut more = with.tests;
        tests.append(&mut more);
        *self = ConfigBuilder {
            global: GlobalOptions {
                data_dir: or(global.data_dir, with.global.data_dir),
                acknowledgements: global.acknowledgements.merge_default(
                    &with.global.acknowledgements,
                ),
                wildcard_matching: or(global.wildcard_matching, with.global.wildcard_matching),
                buffer_utilization_ewma_half_life_seconds: or(
                    global.buffer_utilization_ewma_half_life_seconds,
                    with.global.buffer_utilization_ewma_half_life_seconds,
                ),
                latency_ewma_alpha: or(global.latency_ewma_alpha, with.global.latency_ewma_alpha),
            },
            schema: SchemaOptions {
                log_namespace: or(schema.log_namespace, with.schema.log_namespace),
            },
            healthchecks: HealthcheckOptions {
                enabled: healthchecks.enabled && with.healthchecks.enabled,
                require_healthy: healthchecks.require_healthy || with.healthchecks.require_healthy,
            },
            enrichment_tables,
            sources,
            sinks,
            transforms,
            tests,
            provider: or(provider, with.provider),
            secret,
            graceful_shutdown_duration: or(
                graceful_shutdown_duration,
                with.graceful_shutdown_duration,
            ),
            allow_empty,
        };
        Ok(())
    }

    /// Puts a source under a name.
    pub fn add_source(&mut self, key: &str, source: SourceConfig)
        ensures
            *final(self) == (ConfigBuilder { sources: final(self).sources, ..*old(self) }),
            exists|outer: SourceOuter|
                final(self).sources@ == #[trigger] put(old(self).sources@, key@, outer)
                    && *outer.inner == source && !outer.sink_acknowledgements,
    {
        let outer = SourceOuter::new(source);
        self.sources.insert(key, outer);
    }

    /// Puts a transform under a name.
    pub fn add_transform(&mut self, key: &str, inputs: Vec<String>, transform: TransformConfig)
        ensures
            *final(self) == (ConfigBuilder { transforms: final(self).transforms, ..*old(self) }),
            exists|outer: TransformOuter<String>|
                final(self).transforms@ == #[trigger] put(old(self).transforms@, key@, outer)
                    && *outer.inner == transform && outer.inputs == inputs,
    {
        let outer = TransformOuter::new(inputs, transform);
        self.transforms.insert(key, outer);
    }

    /// Puts a sink under a name.
    pub fn add_sink(&mut self, key: &str, inputs: Vec<String>, sink: SinkConfig)
        ensures
            *final(self) == (ConfigBuilder { sinks: final(self).sinks, ..*old(self) }),
            exists|outer: SinkOuter<String>|
                final(self).sinks@ == #[trigger] put(old(self).sinks@, key@, outer)
                    && *outer.inner == sink && outer.inputs == inputs,
    {
        let outer = SinkOuter::new(inputs, sink);
        self.sinks.insert(key, outer);
    }

    /// Compiles the configuration.
    pub fn build_with_warnings(self) -> (result: Result<(Config, Vec<String>), Vec<String>>)
        ensures
            exists|expanded: ConfigBuilder| #[trigger]
                globs_expanded(self, expanded) && compiles_to(self, expanded, result),
    {
        compile(self)
    }

    /// Compiles the configuration and leaves the warnings out.
    pub fn build(self) -> (result: Result<Config, Vec<String>>)
        ensures
            builds_to(self, result),
    {
        match self.build_with_warnings() {
            Ok((config, found)) => {
                assert(builds_to(self, Ok(config))) by {
                    let expanded = choose|expanded: ConfigBuilder| #[trigger]
                        globs_expanded(self, expanded) && compiles_to(
                            self,
                            expanded,
                            Ok((config, found)),
                        );
                    assert(globs_expanded(self, expanded));
                }
                Ok(config)
            },
            Err(errors) => {
                assert(builds_to(self, Err(errors))) by {
                    let expanded = choose|expanded: ConfigBuilder| #[trigger]
                        globs_expanded(self, expanded) && compiles_to(self, expanded, Err(errors));
                    let full: Result<(Config, Vec<String>), Vec<String>> = Err(errors);
                    assert(globs_expanded(self, expanded) && compiles_to(self, expanded, full));
                }
                Err(errors)
            },
        }
    }
}

/// What building gives: what compiling gives, without the warnings.
pub open spec fn builds_to(builder: ConfigBuilder, result: Result<Config, Vec<String>>) -> bool {
    exists|expanded: ConfigBuilder, full: Result<(Config, Vec<String>), Vec<String>>|
        {
            &&& #[trigger] globs_expanded(builder, expanded)
            &&& #[trigger] compiles_to(builder, expanded, full)
            &&& match (full, result) {
                (Ok((config, _)), Ok(built)) => built == config,
                (Err(errors), Err(found)) => found == errors,
                _ => false,
            }
        }
}

/// There is no message on names that are taken just where two lists share no name.
pub proof fn free_names(prefix: Seq<char>, taken: Seq<Seq<char>>, names: Seq<Seq<char>>)
    ensures
        taken_errors(prefix, taken, names).len() == 0 <==> forall|i: int, j: int|
            0 <= i < taken.len() && 0 <= j < names.len() ==> #[trigger] taken[i]
                != #[trigger] names[j],
{
    let f = |i: int| only_if(taken.contains(names[i]), prefix + names[i]);
    gather_empty(names.len(), f);
    assert(taken_errors(prefix, taken, names) == gather(names.len(), f));
    if taken_errors(prefix, taken, names).len() == 0 {
        assert forall|i: int, j: int|
            0 <= i < taken.len() && 0 <= j < names.len() implies #[trigger] taken[i]
            != #[trigger] names[j] by {
            assert(f(j).len() == 0);
            assert(taken.contains(taken[i]));
        }
    }
    if forall|i: int, j: int|
        0 <= i < taken.len() && 0 <= j < names.len() ==> #[trigger] taken[i] != #[trigger] names[j] {
        assert forall|j: int| 0 <= j < names.len() implies (#[trigger] f(j)).len() == 0 by {
            if taken.contains(names[j]) {
                let i = choose|i: int| 0 <= i < taken.len() && taken[i] == names[j];
                assert(taken[i] != names[j]);
            }
        }
    }
}

/// There is no message on two configurations just where nothing of a kind has the
/// same name in both: no table, no source, no sink, no transform, no test and no
/// store of secrets.
pub proof fn configurations_share_no_names(first: ConfigBuilder, second: ConfigBuilder)
    ensures
        duplicate_errors(first.names(), second.names()).len() == 0 <==> {
            &&& forall|i: int, j: int|
                0 <= i < first.enrichment_tables@.len() && 0 <= j < second.enrichment_tables@.len() ==> (
                #[trigger] first.enrichment_tables@[i]).0 != (#[trigger] second.enrichment_tables@[j]).0
            &&& forall|i: int, j: int|
                0 <= i < first.sources@.len() && 0 <= j < second.sources@.len() ==> (
                #[trigger] first.sources@[i]).0 != (#[trigger] second.sources@[j]).0
            &&& forall|i: int, j: int|
                0 <= i < first.sinks@.len() && 0 <= j < second.sinks@.len() ==> (
                #[trigger] first.sinks@[i]).0 != (#[trigger] second.sinks@[j]).0
            &&& forall|i: int, j: int|
                0 <= i < first.transforms@.len() && 0 <= j < second.transforms@.len() ==> (
                #[trigger] first.transforms@[i]).0 != (#[trigger] second.transforms@[j]).0
            &&& forall|i: int, j: int|
                0 <= i < first.secret@.len() && 0 <= j < second.secret@.len() ==> (
                #[trigger] first.secret@[i]).0 != (#[trigger] second.secret@[j]).0
            &&& forall|i: int, j: int|
                0 <= i < first.tests@.len() && 0 <= j < second.tests@.len() ==> (
                #[trigger] first.tests@[i]).name@ != (#[trigger] second.tests@[j]).name@
        },
{
    let have = first.names();
    let with = second.names();
    free_names("duplicate enrichment_table name found: "@, have.tables, with.tables);
    free_names("duplicate source id found: "@, have.sources, with.sources);
    free_names("duplicate sink id found: "@, have.sinks, with.sinks);
    free_names("duplicate transform id found: "@, have.transforms, with.transforms);
    free_names("duplicate test name found: "@, have.tests, with.tests);
    free_names("duplicate secret id found: "@, have.secrets, with.secrets);
    assert((forall|i: int, j: int|
        0 <= i < have.tables.len() && 0 <= j < with.tables.len() ==> #[trigger] have.tables[i]
            != #[trigger] with.tables[j]) <==> forall|i: int, j: int|
        0 <= i < first.enrichment_tables@.len() && 0 <= j < second.enrichment_tables@.len() ==> (
        #[trigger] first.enrichment_tables@[i]).0 != (#[trigger] second.enrichment_tables@[j]).0) by {
        same_keys_differ(first.enrichment_tables@, second.enrichment_tables@);
    }
    assert((forall|i: int, j: int|
        0 <= i < have.sources.len() && 0 <= j < with.sources.len() ==> #[trigger] have.sources[i]
            != #[trigger] with.sources[j]) <==> forall|i: int, j: int|
        0 <= i < first.sources@.len() && 0 <= j < second.sources@.len() ==> (
        #[trigger] first.sources@[i]).0 != (#[trigger] second.sources@[j]).0) by {
        same_keys_differ(first.sources@, second.sources@);
    }
    assert((forall|i: int, j: int|
        0 <= i < have.sinks.len() && 0 <= j < with.sinks.len() ==> #[trigger] have.sinks[i]
            != #[trigger] with.sinks[j]) <==> forall|i: int, j: int|
        0 <= i < first.sinks@.len() && 0 <= j < second.sinks@.len() ==> (
        #[trigger] first.sinks@[i]).0 != (#[trigger] second.sinks@[j]).0) by {
        same_keys_differ(first.sinks@, second.sinks@);
    }
    assert((forall|i: int, j: int|
        0 <= i < have.transforms.len() && 0 <= j < with.transforms.len() ==> #[trigger] have.transforms[i]
            != #[trigger] with.transforms[j]) <==> forall|i: int, j: int|
        0 <= i < first.transforms@.len() && 0 <= j < second.transforms@.len() ==> (
        #[trigger] first.transforms@[i]).0 != (#[trigger] second.transforms@[j]).0) by {
        same_keys_differ(first.transforms@, second.transforms@);
    }
    assert((forall|i: int, j: int|
        0 <= i < have.secrets.len() && 0 <= j < with.secrets.len() ==> #[trigger] have.secrets[i]
            != #[trigger] with.secrets[j]) <==> forall|i: int, j: int|
        0 <= i < first.secret@.len() && 0 <= j < second.secret@.len() ==> (
        #[trigger] first.secret@[i]).0 != (#[trigger] second.secret@[j]).0) by {
        same_keys_differ(first.secret@, second.secret@);
    }
    assert((forall|i: int, j: int|
        0 <= i < have.tests.len() && 0 <= j < with.tests.len() ==> #[trigger] have.tests[i]
            != #[trigger] with.tests[j]) <==> forall|i: int, j: int|
        0 <= i < first.tests@.len() && 0 <= j < second.tests@.len() ==> (
        #[trigger] first.tests@[i]).name@ != (#[trigger] second.tests@[j]).name@) by {
        if forall|i: int, j: int|
            0 <= i < have.tests.len() && 0 <= j < with.tests.len() ==> #[trigger] have.tests[i]
                != #[trigger] with.tests[j] {
            assert forall|i: int, j: int|
                0 <= i < first.tests@.len() && 0 <= j < second.tests@.len() implies (
            #[trigger] first.tests@[i]).name@ != (#[trigger] second.tests@[j]).name@ by {
                assert(have.tests[i] != with.tests[j]);
            }
        }
        if forall|i: int, j: int|
            0 <= i < first.tests@.len() && 0 <= j < second.tests@.len() ==> (
            #[trigger] first.tests@[i]).name@ != (#[trigger] second.tests@[j]).name@ {
            assert forall|i: int, j: int|
                0 <= i < have.tests.len() && 0 <= j < with.tests.len() implies #[trigger] have.tests[i]
                != #[trigger] with.tests[j] by {
                assert(first.tests@[i].name@ != second.tests@[j].name@);
            }
        }
    }
}

/// Two maps share no key just where their keys differ, one by one.
proof fn same_keys_differ<T>(first: Seq<(Seq<char>, T)>, second: Seq<(Seq<char>, T)>)
    ensures
        (forall|i: int, j: int|
            0 <= i < keys(first).len() && 0 <= j < keys(second).len() ==> #[trigger] keys(first)[i]
                != #[trigger] keys(second)[j]) <==> forall|i: int, j: int|
            0 <= i < first.len() && 0 <= j < second.len() ==> (#[trigger] first[i]).0 != (
            #[trigger] second[j]).0,
{
    if forall|i: int, j: int|
        0 <= i < keys(first).len() && 0 <= j < keys(second).len() ==> #[trigger] keys(first)[i]
            != #[trigger] keys(second)[j] {
        assert forall|i: int, j: int|
            0 <= i < first.len() && 0 <= j < second.len() implies (#[trigger] first[i]).0 != (
        #[trigger] second[j]).0 by {
            assert(keys(first)[i] != keys(second)[j]);
        }
    }
}

/// Another configuration is added just where nothing of a kind has the same name in
/// both. Then all that either says is there, what was there first in front; of a
/// setting that both make, that of the first counts. Health checks are made where
/// both want them, and must succeed where either wants it. Otherwise nothing is
/// added.
pub proof fn configurations_add_up(
    builder: &mut ConfigBuilder,
    with: ConfigBuilder,
    result: Result<(), Vec<String>>,
)
    requires
        call_ensures(ConfigBuilder::append, (builder, with), result),
    ensures
        result is Ok <==> ({
            let first = *old(builder);
            let second = with;
            &&& forall|i: int, j: int|
                0 <= i < first.enrichment_tables@.len() && 0 <= j < second.enrichment_tables@.len() ==> (
                #[trigger] first.enrichment_tables@[i]).0 != (#[trigger] second.enrichment_tables@[j]).0
            &&& forall|i: int, j: int|
                0 <= i < first.sources@.len() && 0 <= j < second.sources@.len() ==> (
                #[trigger] first.sources@[i]).0 != (#[trigger] second.sources@[j]).0
            &&& forall|i: int, j: int|
                0 <= i < first.sinks@.len() && 0 <= j < second.sinks@.len() ==> (
                #[trigger] first.sinks@[i]).0 != (#[trigger] second.sinks@[j]).0
            &&& forall|i: int, j: int|
                0 <= i < first.transforms@.len() && 0 <= j < second.transforms@.len() ==> (
                #[trigger] first.transforms@[i]).0 != (#[trigger] second.transforms@[j]).0
            &&& forall|i: int, j: int|
                0 <= i < first.secret@.len() && 0 <= j < second.secret@.len() ==> (
                #[trigger] first.secret@[i]).0 != (#[trigger] second.secret@[j]).0
            &&& forall|i: int, j: int|
                0 <= i < first.tests@.len() && 0 <= j < second.tests@.len() ==> (
                #[trigger] first.tests@[i]).name@ != (#[trigger] second.tests@[j]).name@
        }),
        result is Err ==> *final(builder) == *old(builder),
        result is Ok ==> ({
            let first = *old(builder);
            let both = *final(builder);
            &&& both.enrichment_tables@ == first.enrichment_tables@ + with.enrichment_tables@
            &&& both.sources@ == first.sources@ + with.sources@
            &&& both.sinks@ == first.sinks@ + with.sinks@
            &&& both.transforms@ == first.transforms@ + with.transforms@
            &&& both.tests@ == first.tests@ + with.tests@
            &&& both.secret@ == first.secret@ + with.secret@
            &&& first.provider is Some ==> both.provider == first.provider
            &&& first.provider is None ==> both.provider == with.provider
            &&& first.global.data_dir is Some ==> both.global.data_dir == first.global.data_dir
            &&& first.global.data_dir is None ==> both.global.data_dir == with.global.data_dir
            &&& first.global.acknowledgements.enabled is Some
                ==> both.global.acknowledgements.enabled == first.global.acknowledgements.enabled
            &&& first.global.acknowledgements.enabled is None
                ==> both.global.acknowledgements.enabled == with.global.acknowledgements.enabled
            &&& first.global.wildcard_matching is Some ==> both.global.wildcard_matching
                == first.global.wildcard_matching
            &&& first.global.wildcard_matching is None ==> both.global.wildcard_matching
                == with.global.wildcard_matching
            &&& first.global.buffer_utilization_ewma_half_life_seconds is Some
                ==> both.global.buffer_utilization_ewma_half_life_seconds
                == first.global.buffer_utilization_ewma_half_life_seconds
            &&& first.global.buffer_utilization_ewma_half_life_seconds is None
                ==> both.global.buffer_utilization_ewma_half_life_seconds
                == with.global.buffer_utilization_ewma_half_life_seconds
            &&& first.global.latency_ewma_alpha is Some ==> both.global.latency_ewma_alpha
                == first.global.latency_ewma_alpha
            &&& first.global.latency_ewma_alpha is None ==> both.global.latency_ewma_alpha
                == with.global.latency_ewma_alpha
            &&& first.schema.log_namespace is Some ==> both.schema.log_namespace
                == first.schema.log_namespace
            &&& first.schema.log_namespace is None ==> both.schema.log_namespace
                == with.schema.log_namespace
            &&& first.graceful_shutdown_duration is Some ==> both.graceful_shutdown_duration
                == first.graceful_shutdown_duration
            &&& first.graceful_shutdown_duration is None ==> both.graceful_shutdown_duration
                == with.graceful_shutdown_duration
            &&& both.healthchecks.enabled <==> first.healthchecks.enabled
                && with.healthchecks.enabled
            &&& both.healthchecks.require_healthy <==> first.healthchecks.require_healthy
                || with.healthchecks.require_healthy
            &&& both.allow_empty == first.allow_empty
        }),
{
    configurations_share_no_names(*old(builder), with);
    if let Err(errors) = result {
        assert(texts(errors@).len() == errors@.len());
    }
}

/// A configuration is built where its names, shape and settings are as they should
/// be, every input and every test names an output, every component shares a type of
/// events with what feeds it, and nothing is fed, through others, by itself. What is
/// built has the same components, each fed by what its inputs name.
pub proof fn builds_what_is_sound(
    builder: ConfigBuilder,
    result: Result<Config, Vec<String>>,
    rank: spec_fn(Seq<char>) -> nat,
)
    requires
        builds_to(builder, result),
        distinct_keys(builder.sources@),
        distinct_keys(builder.sinks@),
    ensures
        exists|expanded: ConfigBuilder| #[trigger]
            globs_expanded(builder, expanded) && (well_named(builder) && well_shaped(expanded)
                && well_set(expanded) && well_connected(expanded) && well_fed(expanded, rank)
                ==> result is Ok),
        result matches Ok(config) ==> carried_over(builder, config) && exists|
            expanded: ConfigBuilder,
            order: spec_fn(Seq<char>) -> nat,
        |
            {
                &&& globs_expanded(builder, expanded)
                &&& well_named(builder) && well_shaped(expanded) && well_set(expanded)
                &&& well_connected(expanded)
                &&& #[trigger] all_fed(expanded, order, config)
            },
        result matches Err(errors) ==> errors@.len() > 0,
{
    let (expanded, full) = choose|
        expanded: ConfigBuilder,
        full: Result<(Config, Vec<String>), Vec<String>>,
    |
        {
            &&& #[trigger] globs_expanded(builder, expanded)
            &&& #[trigger] compiles_to(builder, expanded, full)
            &&& match (full, result) {
                (Ok((config, _)), Ok(built)) => built == config,
                (Err(errors), Err(found)) => found == errors,
                _ => false,
            }
        };
    if well_named(builder) && well_shaped(expanded) && well_set(expanded) && well_connected(
        expanded,
    ) && well_fed(expanded, rank) {
        sound_ones_compile(builder, expanded, full, rank);
    }
    valid_configurations_compile(builder, expanded, full);
    if let Ok((config, found)) = full {
        let order = compiled_ones_are_sound(builder, expanded, config, found);
        assert(all_fed(expanded, order, config));
    }
}

/// Building a configuration gives what is sound.
pub proof fn sound_configurations_build(
    builder: ConfigBuilder,
    result: Result<Config, Vec<String>>,
    rank: spec_fn(Seq<char>) -> nat,
)
    requires
        call_ensures(ConfigBuilder::build, (builder,), result),
        distinct_keys(builder.sources@),
        distinct_keys(builder.sinks@),
    ensures
        exists|expanded: ConfigBuilder| #[trigger]
            globs_expanded(builder, expanded) && (well_named(builder) && well_shaped(expanded)
                && well_set(expanded) && well_connected(expanded) && well_fed(expanded, rank)
                ==> result is Ok),
        result matches Ok(config) ==> carried_over(builder, config) && exists|
            expanded: ConfigBuilder,
            order: spec_fn(Seq<char>) -> nat,
        |
            {
                &&& globs_expanded(builder, expanded)
                &&& well_named(builder) && well_shaped(expanded) && well_set(expanded)
                &&& well_connected(expanded)
                &&& #[trigger] all_fed(expanded, order, config)
            },
        result matches Err(errors) ==> errors@.len() > 0,
{
    builds_what_is_sound(builder, result, rank);
}

/// A sink that is put under a name is found there, with the inputs that it is given,
/// and takes the place of what had that name. All else stays.
pub proof fn added_sinks_are_found(
    builder: &mut ConfigBuilder,
    key: &str,
    inputs: Vec<String>,
    sink: SinkConfig,
)
    requires
        call_ensures(ConfigBuilder::add_sink, (builder, key, inputs, sink), ()),
        distinct_keys(old(builder).sinks@),
    ensures
        distinct_keys(final(builder).sinks@),
        exists|i: int|
            0 <= i < final(builder).sinks@.len() && (#[trigger] final(builder).sinks@[i]).0 == key@
                && *final(builder).sinks@[i].1.inner == sink && final(builder).sinks@[i].1.inputs
                == inputs,
        forall|name: Seq<char>, other: SinkOuter<String>|
            name != key@ ==> (#[trigger] final(builder).sinks@.contains((name, other))
                <==> old(builder).sinks@.contains((name, other))),
        final(builder).sources == old(builder).sources,
        final(builder).transforms == old(builder).transforms,
        final(builder).enrichment_tables == old(builder).enrichment_tables,
{
    let outer = choose|outer: SinkOuter<String>|
        final(builder).sinks@ == #[trigger] put(old(builder).sinks@, key@, outer) && *outer.inner
            == sink && outer.inputs == inputs;
    put_is_found(old(builder).sinks@, key@, outer);
    assert(final(builder).sinks@.contains((key@, outer)));
    let i = choose|i: int|
        0 <= i < final(builder).sinks@.len() && final(builder).sinks@[i] == (key@, outer);
    assert(final(builder).sinks@[i].0 == key@);
}

/// A transform that is put under a name is found there, with the inputs that it is given,
/// and takes the place of what had that name. All else stays.
pub proof fn added_transforms_are_found(
    builder: &mut ConfigBuilder,
    key: &str,
    inputs: Vec<String>,
    transform: TransformConfig,
)
    requires
        call_ensures(ConfigBuilder::add_transform, (builder, key, inputs, transform), ()),
        distinct_keys(old(builder).transforms@),
    ensures
        distinct_keys(final(builder).transforms@),
        exists|i: int|
            0 <= i < final(builder).transforms@.len() && (#[trigger] final(builder).transforms@[i]).0 == key@
                && *final(builder).transforms@[i].1.inner == transform && final(builder).transforms@[i].1.inputs
                == inputs,
        forall|name: Seq<char>, other: TransformOuter<String>|
            name != key@ ==> (#[trigger] final(builder).transforms@.contains((name, other))
                <==> old(builder).transforms@.contains((name, other))),
        final(builder).sources == old(builder).sources,
        final(builder).sinks == old(builder).sinks,
        final(builder).enrichment_tables == old(builder).enrichment_tables,
{
    let outer = choose|outer: TransformOuter<String>|
        final(builder).transforms@ == #[trigger] put(old(builder).transforms@, key@, outer) && *outer.inner
            == transform && outer.inputs == inputs;
    put_is_found(old(builder).transforms@, key@, outer);
    assert(final(builder).transforms@.contains((key@, outer)));
    let i = choose|i: int|
        0 <= i < final(builder).transforms@.len() && final(builder).transforms@[i] == (key@, outer);
    assert(final(builder).transforms@[i].0 == key@);
}

/// A source that is put under a name is found there, and takes the place of what had
/// that name. All else stays.
pub proof fn added_sources_are_found(
    builder: &mut ConfigBuilder,
    key: &str,
    source: SourceConfig,
)
    requires
        call_ensures(ConfigBuilder::add_source, (builder, key, source), ()),
        distinct_keys(old(builder).sources@),
    ensures
        distinct_keys(final(builder).sources@),
        exists|i: int|
            0 <= i < final(builder).sources@.len() && (#[trigger] final(builder).sources@[i]).0 == key@
                && *final(builder).sources@[i].1.inner == source,
        forall|name: Seq<char>, other: SourceOuter|
            name != key@ ==> (#[trigger] final(builder).sources@.contains((name, other))
                <==> old(builder).sources@.contains((name, other))),
        final(builder).sinks == old(builder).sinks,
        final(builder).transforms == old(builder).transforms,
        final(builder).enrichment_tables == old(builder).enrichment_tables,
{
    let outer = choose|outer: SourceOuter|
        final(builder).sources@ == #[trigger] put(old(builder).sources@, key@, outer) && *outer.inner
            == source;
    put_is_found(old(builder).sources@, key@, outer);
    assert(final(builder).sources@.contains((key@, outer)));
    let i = choose|i: int|
        0 <= i < final(builder).sources@.len() && final(builder).sources@[i] == (key@, outer);
    assert(final(builder).sources@[i].0 == key@);
}

} // verus!
