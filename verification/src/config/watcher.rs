//! Reloading the configuration when its files change.
//!
//! A change to a file is seldom a single event: an editor may write, sync and
//! rename. So changes are collected until nothing has happened for a while, and
//! only then is a reload asked for. Files are registered anew before that,
//! since what stood behind a path may have been replaced. Where watching fails,
//! it is taken up again later, with a reload for what may have been missed.
use vstd::prelude::*;

use crate::component_map::{keys, put, ComponentMap};
use crate::config::source::Duration;
use crate::id::{ComponentKey, KeySet};
use crate::text::{append_texts, gather, gathered, holds_text, push_text, texts};

verus! {

/// How files are watched.
#[derive(Debug, Clone, Copy, PartialEq, Eq, Structural)]
pub enum WatcherConfig {
    /// By what the operating system offers.
    RecommendedWatcher,
    /// By looking at the files at intervals of this many seconds.
    PollWatcher(u64),
}

/// What a component is.
#[derive(Debug, Clone, Copy, PartialEq, Eq, Structural)]
pub enum ComponentType {
    /// A source.
    Source,
    /// A transform.
    Transform,
    /// A sink.
    Sink,
    /// An enrichment table.
    EnrichmentTable,
}

/// The files that a component depends on.
#[derive(Debug)]
pub struct ComponentConfig {
    /// The paths of the files.
    pub config_paths: Vec<String>,
    /// The name of the component.
    pub component_key: ComponentKey,
    /// What the component is.
    pub component_type: ComponentType,
}

/// A [`ComponentConfig`], with texts as sequences of characters.
pub ghost struct ComponentConfigModel {
    pub paths: Seq<Seq<char>>,
    pub key: Seq<char>,
    pub component_type: ComponentType,
}

impl View for ComponentConfig {
    type V = ComponentConfigModel;

    open spec fn view(&self) -> ComponentConfigModel {
        ComponentConfigModel {
            paths: texts(self.config_paths@),
            key: self.component_key@,
            component_type: self.component_type,
        }
    }
}

/// What a list of components stands for.
pub open spec fn component_models(configs: Seq<ComponentConfig>) -> Seq<ComponentConfigModel> {
    Seq::new(configs.len(), |i: int| configs[i]@)
}

/// Whether one of the files that a component depends on has changed.
pub open spec fn touched(config: ComponentConfigModel, changed: Set<Seq<char>>) -> bool {
    exists|i: int| 0 <= i < config.paths.len() && changed.contains(#[trigger] config.paths[i])
}

/// The components whose files have changed, each with what it is.
pub open spec fn changed_components(
    configs: Seq<ComponentConfigModel>,
    changed: Set<Seq<char>>,
) -> Seq<(Seq<char>, ComponentType)>
    decreases configs.len(),
{
    if configs.len() == 0 {
        Seq::empty()
    } else {
        let before = changed_components(configs.drop_last(), changed);
        if touched(configs.last(), changed) {
            put(before, configs.last().key, configs.last().component_type)
        } else {
            before
        }
    }
}

/// What a reload is to take in.
#[derive(Debug)]
pub enum SignalTo {
    /// The whole configuration.
    ReloadFromDisk,
    /// The given components.
    ReloadComponents(KeySet),
    /// The enrichment tables.
    ReloadEnrichmentTables,
}

/// A [`SignalTo`], with texts as sequences of characters.
pub ghost enum SignalModel {
    ReloadFromDisk,
    ReloadComponents(Set<Seq<char>>),
    ReloadEnrichmentTables,
}

impl View for SignalTo {
    type V = SignalModel;

    open spec fn view(&self) -> SignalModel {
        match *self {
            SignalTo::ReloadFromDisk => SignalModel::ReloadFromDisk,
            SignalTo::ReloadComponents(set) => SignalModel::ReloadComponents(set@),
            SignalTo::ReloadEnrichmentTables => SignalModel::ReloadEnrichmentTables,
        }
    }
}

/// Whether all components are enrichment tables.
pub open spec fn only_tables(components: Seq<(Seq<char>, ComponentType)>) -> bool {
    forall|i: int| 0 <= i < components.len() ==> (#[trigger] components[i]).1 is EnrichmentTable
}

/// The reload that changed files call for: that of the components that depend
/// on them, and where there are none, that of the whole configuration.
pub open spec fn signal_for(
    configs: Seq<ComponentConfigModel>,
    changed: Set<Seq<char>>,
) -> SignalModel {
    let components = changed_components(configs, changed);
    if components.len() == 0 {
        SignalModel::ReloadFromDisk
    } else if only_tables(components) {
        SignalModel::ReloadEnrichmentTables
    } else {
        SignalModel::ReloadComponents(keys(components).to_set())
    }
}

impl ComponentConfig {
    /// The component, where one of its files has changed.
    pub fn contains(&self, changed: &Vec<String>) -> (found: Option<(ComponentKey, ComponentType)>)
        ensures
            match found {
                Some((key, component_type)) => touched(self@, texts(changed@).to_set()) && key@
                    == self@.key && component_type == self.component_type,
                None => !touched(self@, texts(changed@).to_set()),
            },
    {
        let mut i: usize = 0;
        while i < self.config_paths.len()
            invariant
                i <= self.config_paths.len(),
                forall|j: int|
                    0 <= j < i ==> !texts(changed@).to_set().contains(#[trigger] self@.paths[j]),
            decreases self.config_paths.len() - i,
        {
            assert(self@.paths[i as int] == self.config_paths@[i as int]@);
            if holds_text(changed, self.config_paths[i].as_str()) {
                return Some((self.component_key.clone(), self.component_type));
            }
            i = i + 1;
        }
        None
    }
}

/// Finds the reload that changed files call for.
pub fn reload_signal(configs: &Vec<ComponentConfig>, changed: &Vec<String>) -> (signal: SignalTo)
    ensures
        signal@ == signal_for(component_models(configs@), texts(changed@).to_set()),
{
    let ghost all = component_models(configs@);
    let ghost paths = texts(changed@).to_set();
    let mut components: ComponentMap<ComponentType> = ComponentMap::new();
    let mut i: usize = 0;
    assert(all.take(0) =~= Seq::empty());
    while i < configs.len()
        invariant
            i <= configs.len(),
            all == component_models(configs@),
            paths == texts(changed@).to_set(),
            components@ == changed_components(all.take(i as int), paths),
        decreases configs.len() - i,
    {
        assert(all.take(i + 1).drop_last() =~= all.take(i as int));
        assert(all.take(i + 1).last() == configs@[i as int]@);
        match configs[i].contains(changed) {
            Some((key, component_type)) => {
                components.insert(key.id(), component_type);
            },
            None => {},
        }
        i = i + 1;
    }
    assert(all.take(i as int) =~= all);
    if components.is_empty() {
        return SignalTo::ReloadFromDisk;
    }
    let len: usize = components.len();
    let mut tables_only = true;
    let mut names = KeySet::new();
    let mut j: usize = 0;
    proof {
        assert(keys(components@).take(0).to_set() =~= Set::empty());
    }
    while j < len
        invariant
            j <= len,
            len == components@.len(),
            tables_only == (forall|k: int|
                0 <= k < j ==> (#[trigger] components@[k]).1 is EnrichmentTable),
            names@ == keys(components@).take(j as int).to_set(),
        decreases len - j,
    {
        tables_only = tables_only && *components.value_at(j) == ComponentType::EnrichmentTable;
        names.insert(ComponentKey::new(components.key_at(j)));
        proof {
            let before = keys(components@).take(j as int);
            let after = keys(components@).take(j + 1);
            let key = components@[j as int].0;
            assert(after =~= before.push(key));
            assert(after.to_set() =~= before.to_set().insert(key)) by {
                assert forall|k: Seq<char>| after.contains(k) <==> before.contains(k) || k == key by {
                    if before.contains(k) {
                        let m = choose|m: int| 0 <= m < before.len() && before[m] == k;
                        assert(after[m] == k);
                    }
                    assert(after[before.len() as int] == key);
                    if after.contains(k) {
                        let m = choose|m: int| 0 <= m < after.len() && after[m] == k;
                        if m < before.len() {
                            assert(before[m] == k);
                        }
                    }
                }
            }
        }
        j = j + 1;
    }
    assert(keys(components@).take(j as int) =~= keys(components@));
    if tables_only {
        SignalTo::ReloadEnrichmentTables
    } else {
        SignalTo::ReloadComponents(names)
    }
}

/// The paths that are watched: those of the configuration, then those of all
/// components.
pub open spec fn watched_texts(
    config_paths: Seq<Seq<char>>,
    configs: Seq<ComponentConfigModel>,
) -> Seq<Seq<char>> {
    config_paths + gather(configs.len(), |i: int| configs[i].paths)
}

/// The paths that are watched.
pub fn watched_paths(config_paths: Vec<String>, configs: &Vec<ComponentConfig>) -> (paths: Vec<String>)
    ensures
        texts(paths@) == watched_texts(texts(config_paths@), component_models(configs@)),
{
    let ghost all = component_models(configs@);
    let ghost f = |i: int| all[i].paths;
    let ghost first = texts(config_paths@);
    let mut paths = config_paths;
    let mut i: usize = 0;
    assert(texts(paths@) =~= first + gather(0, f));
    while i < configs.len()
        invariant
            i <= configs.len(),
            all == component_models(configs@),
            f == (|i: int| all[i].paths),
            texts(paths@) == first + gather(i as nat, f),
        decreases configs.len() - i,
    {
        let more = &configs[i].config_paths;
        let ghost before = texts(paths@);
        let ghost added = texts(more@);
        assert(f(i as int) == added);
        let mut j: usize = 0;
        assert(texts(paths@) =~= before + added.take(0));
        while j < more.len()
            invariant
                j <= more.len(),
                added == texts(more@),
                texts(paths@) == before + added.take(j as int),
            decreases more.len() - j,
        {
            push_text(&mut paths, more[j].clone());
            assert(texts(paths@) =~= before + added.take(j + 1));
            j = j + 1;
        }
        assert(added.take(j as int) =~= added);
        assert(texts(paths@) =~= first + gather((i + 1) as nat, f));
        i = i + 1;
    }
    paths
}

/// How long nothing may happen before a reload, where it is not set.
pub fn watch_delay(delay: Option<Duration>) -> (chosen: Duration)
    ensures
        chosen == match delay {
            Some(own) => own,
            None => Duration { secs: 1, nanos: 0 },
        },
{
    match delay {
        Some(own) => own,
        None => Duration::from_secs(1),
    }
}

/// How long it takes until watching is taken up again.
pub fn retry_timeout() -> (timeout: Duration)
    ensures
        timeout == (Duration { secs: 10, nanos: 0 }),
{
    Duration::from_secs(10)
}

/// What happened to a file.
#[derive(Debug, Clone, Copy, PartialEq, Eq, Structural)]
pub enum EventKind {
    /// It was created.
    Create,
    /// It was removed.
    Remove,
    /// It was modified.
    Modify,
    /// Something else, such as that it was read.
    Other,
}

/// Where watching stands.
#[derive(Debug)]
pub enum WatchState {
    /// Nothing has changed since the last reload.
    Waiting,
    /// Files have changed, and more may follow.
    Collecting(Vec<String>),
    /// Files have changed and are being registered anew.
    Registering(Vec<String>),
    /// Watching has failed.
    Down,
    /// Watching is being taken up again.
    Creating,
}

/// A [`WatchState`], with the changed files as a set.
pub ghost enum WatchModel {
    Waiting,
    Collecting(Set<Seq<char>>),
    Registering(Set<Seq<char>>),
    Down,
    Creating,
}

impl View for WatchState {
    type V = WatchModel;

    open spec fn view(&self) -> WatchModel {
        match *self {
            WatchState::Waiting => WatchModel::Waiting,
            WatchState::Collecting(paths) => WatchModel::Collecting(texts(paths@).to_set()),
            WatchState::Registering(paths) => WatchModel::Registering(texts(paths@).to_set()),
            WatchState::Down => WatchModel::Down,
            WatchState::Creating => WatchModel::Creating,
        }
    }
}

/// What came of the last action.
#[derive(Debug)]
pub enum WatchInput {
    /// Something happened to files.
    Event(EventKind, Vec<String>),
    /// Nothing happened in time, or watching failed.
    NoEvent,
    /// The action succeeded.
    Done,
    /// The action failed.
    Failed,
}

/// A [`WatchInput`], with the files as a set.
pub ghost enum InputModel {
    Event(EventKind, Set<Seq<char>>),
    NoEvent,
    Done,
    Failed,
}

impl View for WatchInput {
    type V = InputModel;

    open spec fn view(&self) -> InputModel {
        match *self {
            WatchInput::Event(kind, paths) => InputModel::Event(kind, texts(paths@).to_set()),
            WatchInput::NoEvent => InputModel::NoEvent,
            WatchInput::Done => InputModel::Done,
            WatchInput::Failed => InputModel::Failed,
        }
    }
}

/// What is to be done next.
#[derive(Debug)]
pub enum WatchAction {
    /// Wait for an event.
    Receive,
    /// Wait for an event, but no longer than the delay.
    ReceiveInTime,
    /// Register all paths anew.
    AddPaths,
    /// Ask for a reload, then wait for an event.
    Send(SignalTo),
    /// Let the time pass after which watching is taken up again.
    Sleep,
    /// Take up watching again.
    CreateWatcher,
}

/// A [`WatchAction`], with texts as sequences of characters.
pub ghost enum ActionModel {
    Receive,
    ReceiveInTime,
    AddPaths,
    Send(SignalModel),
    Sleep,
    CreateWatcher,
}

impl View for WatchAction {
    type V = ActionModel;

    open spec fn view(&self) -> ActionModel {
        match *self {
            WatchAction::Receive => ActionModel::Receive,
            WatchAction::ReceiveInTime => ActionModel::ReceiveInTime,
            WatchAction::AddPaths => ActionModel::AddPaths,
            WatchAction::Send(signal) => ActionModel::Send(signal@),
            WatchAction::Sleep => ActionModel::Sleep,
            WatchAction::CreateWatcher => ActionModel::CreateWatcher,
        }
    }
}

/// Whether an event changes what a file holds.
pub open spec fn is_change(kind: EventKind) -> bool {
    kind != EventKind::Other
}

/// Where watching stands after an input.
pub open spec fn next_state(state: WatchModel, input: InputModel) -> WatchModel {
    match (state, input) {
        (WatchModel::Waiting, InputModel::Event(kind, paths)) => if is_change(kind) {
            WatchModel::Collecting(paths)
        } else {
            WatchModel::Waiting
        },
        (WatchModel::Waiting, InputModel::Done) => WatchModel::Waiting,
        (WatchModel::Waiting, _) => WatchModel::Down,
        (WatchModel::Collecting(changed), InputModel::Event(kind, paths)) => if is_change(kind) {
            WatchModel::Collecting(changed.union(paths))
        } else {
            WatchModel::Collecting(changed)
        },
        (WatchModel::Collecting(changed), _) => WatchModel::Registering(changed),
        (WatchModel::Registering(_), InputModel::Done) => WatchModel::Waiting,
        (WatchModel::Registering(_), _) => WatchModel::Down,
        (WatchModel::Down, _) => WatchModel::Creating,
        (WatchModel::Creating, InputModel::Done) => WatchModel::Waiting,
        (WatchModel::Creating, _) => WatchModel::Down,
    }
}

/// What is to be done after an input.
pub open spec fn next_action(
    configs: Seq<ComponentConfigModel>,
    state: WatchModel,
    input: InputModel,
) -> ActionModel {
    match (state, input) {
        (WatchModel::Registering(changed), InputModel::Done) => ActionModel::Send(
            signal_for(configs, changed),
        ),
        (WatchModel::Creating, InputModel::Done) => ActionModel::Send(SignalModel::ReloadFromDisk),
        _ => match next_state(state, input) {
            WatchModel::Waiting => ActionModel::Receive,
            WatchModel::Collecting(_) => ActionModel::ReceiveInTime,
            WatchModel::Registering(_) => ActionModel::AddPaths,
            WatchModel::Down => ActionModel::Sleep,
            WatchModel::Creating => ActionModel::CreateWatcher,
        },
    }
}

/// Decides whether an event changes what a file holds.
fn changes(kind: EventKind) -> (change: bool)
    ensures
        change == is_change(kind),
{
    match kind {
        EventKind::Other => false,
        _ => true,
    }
}

/// Adds paths to those that have changed.
fn collect(changed: Vec<String>, more: Vec<String>) -> (all: Vec<String>)
    ensures
        texts(all@).to_set() == texts(changed@).to_set().union(texts(more@).to_set()),
{
    let ghost first = texts(changed@);
    let ghost second = texts(more@);
    let mut all = changed;
    append_texts(&mut all, more);
    proof {
        let both = first + second;
        assert forall|k: Seq<char>| both.contains(k) <==> first.contains(k) || second.contains(k) by {
            if first.contains(k) {
                let i = choose|i: int| 0 <= i < first.len() && first[i] == k;
                assert(both[i] == k);
            }
            if second.contains(k) {
                let i = choose|i: int| 0 <= i < second.len() && second[i] == k;
                assert(both[first.len() + i] == k);
            }
            if both.contains(k) {
                let i = choose|i: int| 0 <= i < both.len() && both[i] == k;
                if i < first.len() {
                    assert(first[i] == k);
                } else {
                    assert(second[i - first.len()] == k);
                }
            }
        }
        assert(both.to_set() =~= first.to_set().union(second.to_set()));
    }
    all
}

/// One step of watching: takes in what came of the last action, and says what
/// is to be done next.
pub fn watch_step(state: WatchState, input: WatchInput, configs: &Vec<ComponentConfig>) -> (step: (
    WatchState,
    WatchAction,
))
    ensures
        step.0@ == next_state(state@, input@),
        step.1@ == next_action(component_models(configs@), state@, input@),
{
    match (state, input) {
        (WatchState::Waiting, WatchInput::Event(kind, paths)) => {
            if changes(kind) {
                (WatchState::Collecting(paths), WatchAction::ReceiveInTime)
            } else {
                (WatchState::Waiting, WatchAction::Receive)
            }
        },
        (WatchState::Waiting, WatchInput::Done) => (WatchState::Waiting, WatchAction::Receive),
        (WatchState::Waiting, _) => (WatchState::Down, WatchAction::Sleep),
        (WatchState::Collecting(changed), WatchInput::Event(kind, paths)) => {
            if changes(kind) {
                (WatchState::Collecting(collect(changed, paths)), WatchAction::ReceiveInTime)
            } else {
                (WatchState::Collecting(changed), WatchAction::ReceiveInTime)
            }
        },
        (WatchState::Collecting(changed), _) => (
            WatchState::Registering(changed),
            WatchAction::AddPaths,
        ),
        (WatchState::Registering(changed), WatchInput::Done) => {
            let signal = reload_signal(configs, &changed);
            (WatchState::Waiting, WatchAction::Send(signal))
        },
        (WatchState::Registering(_), _) => (WatchState::Down, WatchAction::Sleep),
        (WatchState::Down, _) => (WatchState::Creating, WatchAction::CreateWatcher),
        (WatchState::Creating, WatchInput::Done) => (
            WatchState::Waiting,
            WatchAction::Send(SignalTo::ReloadFromDisk),
        ),
        (WatchState::Creating, _) => (WatchState::Down, WatchAction::Sleep),
    }
}

/// Where watching stands after several inputs.
pub open spec fn run(state: WatchModel, inputs: Seq<InputModel>) -> WatchModel
    decreases inputs.len(),
{
    if inputs.len() == 0 {
        state
    } else {
        next_state(run(state, inputs.drop_last()), inputs.last())
    }
}

/// The files that events have changed.
pub open spec fn changed_by(inputs: Seq<InputModel>) -> Set<Seq<char>>
    decreases inputs.len(),
{
    if inputs.len() == 0 {
        Set::empty()
    } else {
        let before = changed_by(inputs.drop_last());
        match inputs.last() {
            InputModel::Event(kind, paths) => if is_change(kind) {
                before.union(paths)
            } else {
                before
            },
            _ => before,
        }
    }
}

/// However many events follow the first change, all files that they change are
/// kept until the reload.
pub proof fn no_change_is_lost(first: Set<Seq<char>>, inputs: Seq<InputModel>)
    requires
        forall|i: int| 0 <= i < inputs.len() ==> (#[trigger] inputs[i]) is Event,
    ensures
        run(WatchModel::Collecting(first), inputs) == WatchModel::Collecting(
            first.union(changed_by(inputs)),
        ),
    decreases inputs.len(),
{
    if inputs.len() == 0 {
        assert(first.union(changed_by(inputs)) =~= first);
    } else {
        let rest = inputs.drop_last();
        assert forall|i: int| 0 <= i < rest.len() implies (#[trigger] rest[i]) is Event by {
            assert(inputs[i] is Event);
        }
        no_change_is_lost(first, rest);
        assert(inputs[inputs.len() - 1] is Event);
        match inputs.last() {
            InputModel::Event(kind, paths) => {
                if is_change(kind) {
                    assert(first.union(changed_by(rest)).union(paths) =~= first.union(
                        changed_by(inputs),
                    ));
                }
            },
            _ => {},
        }
    }
}

/// Once nothing has happened for a while and the files are registered anew, one
/// reload is asked for, and it is the one that all the changed files call for.
pub proof fn changes_are_answered_by_one_reload(
    configs: Seq<ComponentConfigModel>,
    first: Set<Seq<char>>,
    inputs: Seq<InputModel>,
)
    requires
        forall|i: int| 0 <= i < inputs.len() ==> (#[trigger] inputs[i]) is Event,
    ensures
        ({
            let collected = run(WatchModel::Collecting(first), inputs);
            let quiet = next_state(collected, InputModel::NoEvent);
            &&& next_action(configs, collected, InputModel::NoEvent) == ActionModel::AddPaths
            &&& next_action(configs, quiet, InputModel::Done) == ActionModel::Send(
                signal_for(configs, first.union(changed_by(inputs))),
            )
            &&& next_state(quiet, InputModel::Done) == WatchModel::Waiting
        }),
{
    no_change_is_lost(first, inputs);
}

/// Watching that has failed is taken up again, and then the whole configuration
/// is reloaded for what may have been missed.
pub proof fn watching_is_taken_up_again(configs: Seq<ComponentConfigModel>, input: InputModel)
    ensures
        next_action(configs, WatchModel::Down, input) == ActionModel::CreateWatcher,
        next_state(WatchModel::Down, input) == WatchModel::Creating,
        next_action(configs, WatchModel::Creating, InputModel::Done) == ActionModel::Send(
            SignalModel::ReloadFromDisk,
        ),
        input != InputModel::Done ==> next_state(WatchModel::Creating, input) == WatchModel::Down,
{
}

/// While nothing has changed, a file that is created, removed or modified is
/// noted, and more changes are waited for. Nothing else that happens to a file
/// is taken notice of.
pub proof fn files_created_removed_or_modified_are_noted(
    kind: EventKind,
    paths: Vec<String>,
    configs: &Vec<ComponentConfig>,
    step: (WatchState, WatchAction),
    path: Seq<char>,
)
    requires
        call_ensures(
            watch_step,
            (WatchState::Waiting, WatchInput::Event(kind, paths), configs),
            step,
        ),
    ensures
        kind == EventKind::Create || kind == EventKind::Remove || kind == EventKind::Modify ==> {
            &&& step.1 is ReceiveInTime
            &&& step.0 is Collecting
            &&& (exists|i: int|
                0 <= i < step.0->Collecting_0@.len() && #[trigger] step.0->Collecting_0@[i]@ == path)
                <==> exists|i: int| 0 <= i < paths@.len() && #[trigger] paths@[i]@ == path
        },
        kind == EventKind::Other ==> step.0 is Waiting && step.1 is Receive,
{
    text_is_listed(step.0->Collecting_0@, path);
    text_is_listed(paths@, path);
}

/// A text is one of those of a list just where it stands somewhere in it.
proof fn text_is_listed(list: Seq<String>, text: Seq<char>)
    ensures
        texts(list).to_set().contains(text) <==> exists|i: int|
            0 <= i < list.len() && #[trigger] list[i]@ == text,
{
    if texts(list).to_set().contains(text) {
        let i = choose|i: int| 0 <= i < texts(list).len() && texts(list)[i] == text;
        assert(list[i]@ == text);
    }
    if exists|i: int| 0 <= i < list.len() && #[trigger] list[i]@ == text {
        let i = choose|i: int| 0 <= i < list.len() && #[trigger] list[i]@ == text;
        assert(texts(list)[i] == text);
    }
}

/// While changes are collected, files that are created, removed or modified are
/// added to those that have changed, and none of these is forgotten. Nothing
/// else that happens to a file adds to them.
pub proof fn changed_files_add_up(
    changed: Vec<String>,
    kind: EventKind,
    paths: Vec<String>,
    configs: &Vec<ComponentConfig>,
    step: (WatchState, WatchAction),
    path: Seq<char>,
)
    requires
        call_ensures(
            watch_step,
            (WatchState::Collecting(changed), WatchInput::Event(kind, paths), configs),
            step,
        ),
    ensures
        step.1 is ReceiveInTime,
        step.0 is Collecting,
        ({
            let kept = exists|i: int|
                0 <= i < step.0->Collecting_0@.len() && #[trigger] step.0->Collecting_0@[i]@ == path;
            let known = exists|i: int| 0 <= i < changed@.len() && #[trigger] changed@[i]@ == path;
            let now = exists|i: int| 0 <= i < paths@.len() && #[trigger] paths@[i]@ == path;
            match kind {
                EventKind::Create => kept <==> known || now,
                EventKind::Remove => kept <==> known || now,
                EventKind::Modify => kept <==> known || now,
                EventKind::Other => kept <==> known,
            }
        }),
{
    text_is_listed(step.0->Collecting_0@, path);
    text_is_listed(changed@, path);
    text_is_listed(paths@, path);
}

/// Once nothing has happened for a while, all files are registered anew, with
/// those that have changed kept in mind.
pub proof fn quiet_ends_collecting(
    changed: Vec<String>,
    input: WatchInput,
    configs: &Vec<ComponentConfig>,
    step: (WatchState, WatchAction),
    path: Seq<char>,
)
    requires
        !(input is Event),
        call_ensures(watch_step, (WatchState::Collecting(changed), input, configs), step),
    ensures
        step.1 is AddPaths,
        step.0 is Registering,
        (exists|i: int|
            0 <= i < step.0->Registering_0@.len() && #[trigger] step.0->Registering_0@[i]@ == path)
            <==> exists|i: int| 0 <= i < changed@.len() && #[trigger] changed@[i]@ == path,
{
    text_is_listed(step.0->Registering_0@, path);
    text_is_listed(changed@, path);
}

/// Where a component depends on one of the changed files.
pub open spec fn depends_on(config: ComponentConfig, changed: Seq<String>) -> bool {
    exists|i: int, k: int|
        0 <= i < config.config_paths@.len() && 0 <= k < changed.len()
            && #[trigger] config.config_paths@[i]@ == #[trigger] changed[k]@
}

/// A component depends on a changed file just where it counts as touched.
proof fn touched_depends(config: ComponentConfig, changed: Seq<String>)
    ensures
        touched(config@, texts(changed).to_set()) <==> depends_on(config, changed),
{
    let set = texts(changed).to_set();
    if touched(config@, set) {
        let i = choose|i: int| 0 <= i < config@.paths.len() && set.contains(#[trigger] config@.paths[i]);
        assert(config.config_paths@[i]@ == config@.paths[i]);
        text_is_listed(changed, config@.paths[i]);
    }
    if depends_on(config, changed) {
        let (i, k) = choose|i: int, k: int|
            0 <= i < config.config_paths@.len() && 0 <= k < changed.len()
                && #[trigger] config.config_paths@[i]@ == #[trigger] changed[k]@;
        text_is_listed(changed, config.config_paths@[i]@);
        assert(set.contains(config@.paths[i]));
    }
}

/// Whether a component is the last of its name that depends on a changed file.
pub open spec fn decides(configs: Seq<ComponentConfig>, changed: Seq<String>, i: int) -> bool {
    &&& 0 <= i < configs.len()
    &&& depends_on(configs[i], changed)
    &&& forall|j: int|
        i < j < configs.len() && depends_on(#[trigger] configs[j], changed)
            ==> configs[j].component_key@ != configs[i].component_key@
}

/// What the changed components are: under the name of each component that
/// depends on a changed file, what the last such component is.
proof fn changed_components_depend(configs: Seq<ComponentConfig>, changed: Seq<String>)
    ensures
        ({
            let found = changed_components(component_models(configs), texts(changed).to_set());
            &&& crate::component_map::distinct_keys(found)
            &&& forall|k: int|
                0 <= k < found.len() ==> exists|i: int| #[trigger]
                    decides(configs, changed, i) && configs[i].component_key@ == (
                    #[trigger] found[k]).0 && configs[i].component_type == found[k].1
            &&& forall|i: int| #[trigger]
                decides(configs, changed, i) ==> found.contains(
                    (configs[i].component_key@, configs[i].component_type),
                )
        }),
    decreases configs.len(),
{
    let set = texts(changed).to_set();
    let all = component_models(configs);
    let found = changed_components(all, set);
    if configs.len() > 0 {
        let less = configs.drop_last();
        let last = configs.len() - 1;
        let config = configs[last];
        changed_components_depend(less, changed);
        touched_depends(config, changed);
        assert(all.drop_last() =~= component_models(less));
        assert(all.last() == config@);
        let before = changed_components(component_models(less), set);
        crate::component_map::put_is_found(before, config@.key, config.component_type);
        assert(found == if depends_on(config, changed) {
            put(before, config@.key, config.component_type)
        } else {
            before
        });
        assert forall|i: int| 0 <= i < last implies #[trigger] decides(configs, changed, i) == (decides(
            less,
            changed,
            i,
        ) && !(depends_on(config, changed) && config.component_key@ == configs[i].component_key@)) by {
            assert(less[i] == configs[i]);
            if decides(configs, changed, i) {
                assert forall|j: int|
                    i < j < less.len() && depends_on(#[trigger] less[j], changed) implies less[j].component_key@
                    != less[i].component_key@ by {
                    assert(less[j] == configs[j]);
                }
            }
            if decides(less, changed, i) && !(depends_on(config, changed) && config.component_key@
                == configs[i].component_key@) {
                assert forall|j: int|
                    i < j < configs.len() && depends_on(
                        #[trigger] configs[j],
                        changed,
                    ) implies configs[j].component_key@
                    != configs[i].component_key@ by {
                    if j < last {
                        assert(less[j] == configs[j]);
                    }
                }
            }
        }
        assert(decides(configs, changed, last) == depends_on(config, changed));
        assert forall|k: int| 0 <= k < found.len() implies exists|i: int| #[trigger]
            decides(configs, changed, i) && configs[i].component_key@ == (#[trigger] found[k]).0
                && configs[i].component_type == found[k].1 by {
            let entry = found[k];
            assert(found.contains((entry.0, entry.1)));
            if depends_on(config, changed) && entry.0 == config.component_key@ {
                assert(decides(configs, changed, last));
            } else {
                assert(before.contains((entry.0, entry.1)));
                let m = choose|m: int| 0 <= m < before.len() && before[m] == (entry.0, entry.1);
                assert(before[m].0 == entry.0);
                let i = choose|i: int| #[trigger]
                    decides(less, changed, i) && less[i].component_key@ == before[m].0
                        && less[i].component_type == before[m].1;
                assert(configs[i] == less[i]);
                assert(decides(configs, changed, i));
            }
        }
        assert forall|i: int| #[trigger] decides(configs, changed, i) implies found.contains(
            (configs[i].component_key@, configs[i].component_type),
        ) by {
            if i < last {
                assert(decides(less, changed, i));
                assert(less[i] == configs[i]);
                assert(before.contains((configs[i].component_key@, configs[i].component_type)));
            }
        }
    }
}

/// A component that depends on a changed file has one of its name that is the
/// last to do so.
proof fn some_component_decides(configs: Seq<ComponentConfig>, changed: Seq<String>, i: int)
    requires
        0 <= i < configs.len(),
        depends_on(configs[i], changed),
    ensures
        exists|j: int| #[trigger]
            decides(configs, changed, j) && configs[j].component_key@ == configs[i].component_key@,
    decreases configs.len() - i,
{
    if !decides(configs, changed, i) {
        let j = choose|j: int|
            i < j < configs.len() && depends_on(#[trigger] configs[j], changed)
                && configs[j].component_key@ == configs[i].component_key@;
        some_component_decides(configs, changed, j);
    }
}

/// What is to be reloaded for changed files, by the components that depend on
/// them.
proof fn signal_goes_by_dependents(configs: Seq<ComponentConfig>, changed: Seq<String>, signal: SignalTo)
    requires
        signal@ == signal_for(component_models(configs), texts(changed).to_set()),
    ensures
        signal is ReloadFromDisk <==> forall|i: int|
            0 <= i < configs.len() ==> !depends_on(#[trigger] configs[i], changed),
        signal is ReloadEnrichmentTables <==> (exists|i: int| #[trigger]
            decides(configs, changed, i)) && forall|i: int| #[trigger]
            decides(configs, changed, i) ==> configs[i].component_type
                == ComponentType::EnrichmentTable,
        signal is ReloadComponents ==> forall|name: Seq<char>| #[trigger]
            signal->ReloadComponents_0@.contains(name) <==> exists|i: int|
                0 <= i < configs.len() && depends_on(#[trigger] configs[i], changed)
                    && configs[i].component_key@ == name,
{
    let found = changed_components(component_models(configs), texts(changed).to_set());
    changed_components_depend(configs, changed);
    assert forall|i: int| 0 <= i < configs.len() && depends_on(#[trigger] configs[i], changed) implies exists|
        k: int,
    |
        0 <= k < found.len() && (#[trigger] found[k]).0 == configs[i].component_key@ by {
        some_component_decides(configs, changed, i);
        let j = choose|j: int| #[trigger]
            decides(configs, changed, j) && configs[j].component_key@ == configs[i].component_key@;
        let entry = (configs[j].component_key@, configs[j].component_type);
        assert(found.contains(entry));
        let k = choose|k: int| 0 <= k < found.len() && found[k] == entry;
        assert(found[k].0 == configs[i].component_key@);
    }
    if found.len() > 0 {
        assert(found[0].0 == found[0].0);
        let i = choose|i: int| #[trigger]
            decides(configs, changed, i) && configs[i].component_key@ == found[0].0
                && configs[i].component_type == found[0].1;
        assert(decides(configs, changed, i));
        assert(depends_on(configs[i], changed));
    }
    assert(only_tables(found) <==> forall|i: int| #[trigger]
        decides(configs, changed, i) ==> configs[i].component_type == ComponentType::EnrichmentTable)
        by {
        if only_tables(found) {
            assert forall|i: int| #[trigger] decides(configs, changed, i) implies configs[i].component_type
                == ComponentType::EnrichmentTable by {
                let entry = (configs[i].component_key@, configs[i].component_type);
                assert(found.contains(entry));
                let k = choose|k: int| 0 <= k < found.len() && found[k] == entry;
                assert(found[k].1 is EnrichmentTable);
            }
        }
        if forall|i: int| #[trigger]
            decides(configs, changed, i) ==> configs[i].component_type
                == ComponentType::EnrichmentTable {
            assert forall|k: int| 0 <= k < found.len() implies (#[trigger] found[k]).1 is EnrichmentTable by {
                let i = choose|i: int| #[trigger]
                    decides(configs, changed, i) && configs[i].component_key@ == found[k].0
                        && configs[i].component_type == found[k].1;
            }
        }
    }
    if signal is ReloadComponents {
        assert forall|name: Seq<char>| #[trigger] signal->ReloadComponents_0@.contains(name) <==> exists|
            i: int,
        |
            0 <= i < configs.len() && depends_on(#[trigger] configs[i], changed)
                && configs[i].component_key@ == name by {
            if keys(found).contains(name) {
                let k = choose|k: int| 0 <= k < keys(found).len() && keys(found)[k] == name;
                assert(found[k].0 == name);
                let i = choose|i: int| #[trigger]
                    decides(configs, changed, i) && configs[i].component_key@ == found[k].0
                        && configs[i].component_type == found[k].1;
                assert(depends_on(configs[i], changed));
            }
            if exists|i: int|
                0 <= i < configs.len() && depends_on(#[trigger] configs[i], changed)
                    && configs[i].component_key@ == name {
                let i = choose|i: int|
                    0 <= i < configs.len() && depends_on(#[trigger] configs[i], changed)
                        && configs[i].component_key@ == name;
                let k = choose|k: int|
                    0 <= k < found.len() && (#[trigger] found[k]).0 == configs[i].component_key@;
                assert(keys(found)[k] == name);
            }
        }
    }
}

/// The whole configuration is reloaded just where no component depends on a
/// changed file, the enrichment tables just where only tables do, and else just
/// the components that do. Of several components of one name the last counts.
pub proof fn dependents_are_reloaded(
    configs: &Vec<ComponentConfig>,
    changed: &Vec<String>,
    signal: SignalTo,
)
    requires
        call_ensures(reload_signal, (configs, changed), signal),
    ensures
        signal is ReloadFromDisk <==> forall|i: int|
            0 <= i < configs@.len() ==> !depends_on(#[trigger] configs@[i], changed@),
        signal is ReloadEnrichmentTables <==> (exists|i: int| #[trigger]
            decides(configs@, changed@, i)) && forall|i: int| #[trigger]
            decides(configs@, changed@, i) ==> configs@[i].component_type
                == ComponentType::EnrichmentTable,
        signal is ReloadComponents ==> forall|name: Seq<char>| #[trigger]
            signal->ReloadComponents_0@.contains(name) <==> exists|i: int|
                0 <= i < configs@.len() && depends_on(#[trigger] configs@[i], changed@)
                    && configs@[i].component_key@ == name,
{
    signal_goes_by_dependents(configs@, changed@, signal);
}

/// Once the files are registered anew, the reload that the changed files call
/// for is asked for, and watching goes on. Where registering fails, watching is
/// down for a while.
pub proof fn registered_changes_are_reloaded(
    changed: Vec<String>,
    input: WatchInput,
    configs: &Vec<ComponentConfig>,
    step: (WatchState, WatchAction),
)
    requires
        call_ensures(watch_step, (WatchState::Registering(changed), input, configs), step),
    ensures
        !(input is Done) ==> step.0 is Down && step.1 is Sleep,
        input is Done ==> step.0 is Waiting && step.1 is Send,
        input is Done ==> ({
            let signal = step.1->Send_0;
            &&& signal is ReloadFromDisk <==> forall|i: int|
                0 <= i < configs@.len() ==> !depends_on(#[trigger] configs@[i], changed@)
            &&& signal is ReloadEnrichmentTables <==> (exists|i: int| #[trigger]
                decides(configs@, changed@, i)) && forall|i: int| #[trigger]
                decides(configs@, changed@, i) ==> configs@[i].component_type
                    == ComponentType::EnrichmentTable
            &&& signal is ReloadComponents ==> forall|name: Seq<char>| #[trigger]
                signal->ReloadComponents_0@.contains(name) <==> exists|i: int|
                    0 <= i < configs@.len() && depends_on(#[trigger] configs@[i], changed@)
                        && configs@[i].component_key@ == name
        }),
{
    if input is Done {
        signal_goes_by_dependents(configs@, changed@, step.1->Send_0);
    }
}

/// While nothing has changed, only a failure to watch ends the waiting. What has
/// failed is let rest, then taken up again; once that has worked, the whole
/// configuration is reloaded, and as long as it has not, it is tried again.
pub proof fn failed_watching_starts_again(
    state: WatchState,
    input: WatchInput,
    configs: &Vec<ComponentConfig>,
    step: (WatchState, WatchAction),
)
    requires
        call_ensures(watch_step, (state, input, configs), step),
    ensures
        state is Waiting && (input is NoEvent || input is Failed) ==> step.0 is Down && step.1 is Sleep,
        state is Waiting && input is Done ==> step.0 is Waiting && step.1 is Receive,
        state is Down ==> step.0 is Creating && step.1 is CreateWatcher,
        state is Creating && input is Done ==> step.0 is Waiting && step.1 is Send
            && step.1->Send_0 is ReloadFromDisk,
        state is Creating && !(input is Done) ==> step.0 is Down && step.1 is Sleep,
{
}

/// All paths of the configuration and of the components are watched, and no
/// others.
pub proof fn configured_paths_are_watched(
    config_paths: Vec<String>,
    configs: &Vec<ComponentConfig>,
    paths: Vec<String>,
    path: Seq<char>,
)
    requires
        call_ensures(watched_paths, (config_paths, configs), paths),
    ensures
        (exists|k: int| 0 <= k < paths@.len() && #[trigger] paths@[k]@ == path) <==> {
            ||| exists|k: int| 0 <= k < config_paths@.len() && #[trigger] config_paths@[k]@ == path
            ||| exists|i: int, k: int|
                0 <= i < configs@.len() && 0 <= k < configs@[i].config_paths@.len()
                    && #[trigger] configs@[i].config_paths@[k]@ == path
        },
{
    let all = component_models(configs@);
    let f = |i: int| all[i].paths;
    text_is_listed(paths@, path);
    text_is_listed(config_paths@, path);
    let first = texts(config_paths@);
    let more = gather(all.len(), f);
    let whole = first + more;
    assert(texts(paths@) == whole);
    gathered(all.len(), f, path);
    if whole.contains(path) {
        let k = choose|k: int| 0 <= k < whole.len() && whole[k] == path;
        if k < first.len() {
            assert(first[k] == path);
        } else {
            assert(more[k - first.len()] == path);
            let i = choose|i: int| 0 <= i < all.len() && (#[trigger] f(i)).contains(path);
            let listed = f(i);
            let m = choose|m: int| 0 <= m < listed.len() && listed[m] == path;
            assert(configs@[i].config_paths@[m]@ == path);
        }
    }
    if first.contains(path) {
        let k = choose|k: int| 0 <= k < first.len() && first[k] == path;
        assert(whole[k] == path);
    }
    if exists|i: int, k: int|
        0 <= i < configs@.len() && 0 <= k < configs@[i].config_paths@.len()
            && #[trigger] configs@[i].config_paths@[k]@ == path {
        let (i, k) = choose|i: int, k: int|
            0 <= i < configs@.len() && 0 <= k < configs@[i].config_paths@.len()
                && #[trigger] configs@[i].config_paths@[k]@ == path;
        assert(f(i)[k] == path);
        assert(f(i).contains(path));
        let m = choose|m: int| 0 <= m < more.len() && more[m] == path;
        assert(whole[first.len() + m] == path);
    }
}

/// A component is found just where one of its files is among those that
/// changed.
pub proof fn components_are_found_by_their_files(
    config: &ComponentConfig,
    changed: &Vec<String>,
    found: Option<(ComponentKey, ComponentType)>,
)
    requires
        call_ensures(ComponentConfig::contains, (config, changed), found),
    ensures
        found is Some <==> exists|i: int, j: int|
            0 <= i < config.config_paths@.len() && 0 <= j < changed@.len() && (
            #[trigger] config.config_paths@[i])@ == (#[trigger] changed@[j])@,
        found matches Some((key, kind)) ==> key@ == config.component_key@ && kind
            == config.component_type,
{
    let list = texts(changed@);
    if found is Some {
        let i = choose|i: int|
            0 <= i < config@.paths.len() && list.to_set().contains(#[trigger] config@.paths[i]);
        assert(config@.paths[i] == config.config_paths@[i]@);
        let j = choose|j: int| 0 <= j < list.len() && list[j] == config@.paths[i];
        assert(changed@[j]@ == config.config_paths@[i]@);
    }
    if exists|i: int, j: int|
        0 <= i < config.config_paths@.len() && 0 <= j < changed@.len() && (
        #[trigger] config.config_paths@[i])@ == (#[trigger] changed@[j])@ {
        let (i, j) = choose|i: int, j: int|
            0 <= i < config.config_paths@.len() && 0 <= j < changed@.len() && (
            #[trigger] config.config_paths@[i])@ == (#[trigger] changed@[j])@;
        assert(config@.paths[i] == config.config_paths@[i]@);
        assert(list[j] == changed@[j]@);
        assert(list.to_set().contains(config@.paths[i]));
    }
}

} // verus!
