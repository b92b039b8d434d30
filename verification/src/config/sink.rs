//! The configuration of sinks.
use std::sync::Arc;
use vstd::prelude::*;

use crate::config::global::{AcknowledgementsConfig, GlobalOptions, ProxyConfig, SchemaOptions};
use crate::config::io::Input;
use crate::config::resource::{debug_text, described, Resource, ResourceInfo, ResourceModel};
use crate::config::source::Duration;
use crate::id::{clone_port, port_text, ComponentKey};

verus! {

/// What to do with an event for which a buffer has no room.
#[derive(Debug, Clone, Copy, PartialEq, Eq, Structural)]
pub enum WhenFull {
    /// Wait for room.
    Block,
    /// Leave the event out.
    DropNewest,
    /// Hand the event on to the next stage.
    Overflow,
}

/// One stage of a sink's buffer.
#[derive(Debug, Clone, Copy, PartialEq, Eq, Structural)]
pub enum BufferType {
    /// In memory, up to a number of events.
    Memory { max_events: usize, when_full: WhenFull },
    /// On disk, up to a number of bytes.
    DiskV2 { max_size: u64, when_full: WhenFull },
}

/// The buffer of a sink: one stage, or several that overflow one into the next.
#[derive(Debug)]
pub struct BufferConfig {
    /// The stages, from the first on.
    pub stages: Vec<BufferType>,
}

impl Default for BufferConfig {
    /// One stage in memory for five hundred events, which makes others wait.
    fn default() -> (buffer: Self)
        ensures
            buffer.stages@ == seq![
                BufferType::Memory { max_events: 500, when_full: WhenFull::Block },
            ],
    {
        let mut stages: Vec<BufferType> = Vec::new();
        stages.push(BufferType::Memory { max_events: 500, when_full: WhenFull::Block });
        assert(stages@ =~= seq![
            BufferType::Memory { max_events: 500, when_full: WhenFull::Block },
        ]);
        BufferConfig { stages }
    }
}

impl BufferConfig {
    /// The stages of the buffer.
    pub fn stages(&self) -> (stages: &Vec<BufferType>)
        ensures
            stages@ == self.stages@,
    {
        &self.stages
    }

    /// Whether two buffers are set up alike.
    pub fn same(&self, other: &BufferConfig) -> (same: bool)
        ensures
            same == (self.stages@ == other.stages@),
    {
        if self.stages.len() != other.stages.len() {
            return false;
        }
        let mut i: usize = 0;
        while i < self.stages.len()
            invariant
                i <= self.stages.len(),
                self.stages.len() == other.stages.len(),
                forall|j: int| 0 <= j < i ==> self.stages@[j] == other.stages@[j],
            decreases self.stages.len() - i,
        {
            if self.stages[i] != other.stages[i] {
                return false;
            }
            i = i + 1;
        }
        assert(self.stages@ =~= other.stages@);
        true
    }
}

impl Clone for BufferConfig {
    fn clone(&self) -> (copy: Self)
        ensures
            copy.stages@ == self.stages@,
    {
        let mut stages: Vec<BufferType> = Vec::new();
        let mut i: usize = 0;
        while i < self.stages.len()
            invariant
                i <= self.stages.len(),
                stages@ == self.stages@.take(i as int),
            decreases self.stages.len() - i,
        {
            stages.push(self.stages[i]);
            assert(stages@ =~= self.stages@.take(i + 1));
            i = i + 1;
        }
        assert(self.stages@.take(i as int) =~= self.stages@);
        BufferConfig { stages }
    }
}

/// Settings on checking whether a sink can be reached.
#[derive(Debug)]
pub struct SinkHealthcheckOptions {
    /// Whether the sink is checked at start-up.
    pub enabled: bool,
    /// How long the check may take.
    pub timeout: Duration,
    /// Where to send the request of the check.
    pub uri: Option<String>,
}

/// The time that a check may take, where none is set.
pub fn default_healthcheck_timeout() -> (timeout: Duration)
    ensures
        timeout == (Duration { secs: 10, nanos: 0 }),
{
    Duration::from_secs(10)
}

/// Whether a check may take just the time that it may where none is set.
pub fn is_default_healthcheck_timeout(timeout: &Duration) -> (default: bool)
    ensures
        default == (*timeout == Duration { secs: 10, nanos: 0 }),
{
    *timeout == default_healthcheck_timeout()
}

impl Default for SinkHealthcheckOptions {
    /// The sink is checked, within the usual time, where it says itself.
    fn default() -> (options: Self)
        ensures
            options == (SinkHealthcheckOptions {
                enabled: true,
                timeout: Duration { secs: 10, nanos: 0 },
                uri: None,
            }),
    {
        SinkHealthcheckOptions { enabled: true, uri: None, timeout: default_healthcheck_timeout() }
    }
}

impl From<bool> for SinkHealthcheckOptions {
    fn from(enabled: bool) -> (options: Self) {
        SinkHealthcheckOptions { enabled, uri: None, timeout: default_healthcheck_timeout() }
    }
}

impl vstd::std_specs::convert::FromSpecImpl<bool> for SinkHealthcheckOptions {
    open spec fn obeys_from_spec() -> bool {
        true
    }

    open spec fn from_spec(enabled: bool) -> SinkHealthcheckOptions {
        SinkHealthcheckOptions { enabled, uri: None, timeout: Duration { secs: 10, nanos: 0 } }
    }
}

impl From<String> for SinkHealthcheckOptions {
    fn from(uri: String) -> (options: Self) {
        SinkHealthcheckOptions {
            enabled: true,
            uri: Some(uri),
            timeout: default_healthcheck_timeout(),
        }
    }
}

impl vstd::std_specs::convert::FromSpecImpl<String> for SinkHealthcheckOptions {
    open spec fn obeys_from_spec() -> bool {
        true
    }

    open spec fn from_spec(uri: String) -> SinkHealthcheckOptions {
        SinkHealthcheckOptions {
            enabled: true,
            uri: Some(uri),
            timeout: Duration { secs: 10, nanos: 0 },
        }
    }
}

impl Clone for SinkHealthcheckOptions {
    fn clone(&self) -> (copy: Self)
        ensures
            copy == *self,
    {
        SinkHealthcheckOptions {
            enabled: self.enabled,
            timeout: self.timeout,
            uri: clone_port(&self.uri),
        }
    }
}

impl SinkHealthcheckOptions {
    /// Whether two settings say the same.
    pub open spec fn agrees(self, other: SinkHealthcheckOptions) -> bool {
        &&& self.enabled == other.enabled
        &&& self.timeout == other.timeout
        &&& port_text(self.uri) == port_text(other.uri)
    }

    /// Decides whether two settings say the same.
    pub fn same(&self, other: &SinkHealthcheckOptions) -> (same: bool)
        ensures
            same == self.agrees(*other),
    {
        self.enabled == other.enabled && self.timeout == other.timeout && crate::id::same_port(
            &self.uri,
            &other.uri,
        )
    }
}

/// What a sink says of itself.
#[derive(Debug)]
pub struct SinkConfig {
    /// The type of the sink, such as `console`.
    pub component_type: String,
    /// What the sink takes in.
    pub input: Input,
    /// What the sink needs for itself alone.
    pub resources: Vec<Resource>,
    /// Whether the sink is to confirm deliveries.
    pub acknowledgements: AcknowledgementsConfig,
    /// The files that the sink is built from, besides its settings.
    pub files: Vec<String>,
    /// The settings of the sink, as JSON.
    pub settings: String,
}

impl SinkConfig {
    /// The files whose changes make it necessary to build the sink anew.
    pub fn files_to_watch(&self) -> (files: &Vec<String>)
        ensures
            *files == self.files,
    {
        &self.files
    }
}

/// A sink of a pipeline, with inputs named by `T`.
#[derive(Debug)]
pub struct SinkOuter<T> {
    /// The settings for drawing the pipeline, as JSON.
    pub graph: String,
    /// The outputs that feed the sink.
    pub inputs: Vec<T>,
    /// Where to send the request of the health check; `healthcheck.uri` goes
    /// before it.
    pub healthcheck_uri: Option<String>,
    /// Settings on the health check.
    pub healthcheck: SinkHealthcheckOptions,
    /// The buffer in front of the sink.
    pub buffer: BufferConfig,
    /// How to reach the outside.
    pub proxy: ProxyConfig,
    /// The sink itself.
    pub inner: Arc<SinkConfig>,
}

/// The resources of a sink with the given name: its own, and one place on
/// disk for each stage of its buffer that is there.
pub open spec fn sink_resources(
    own: Seq<ResourceInfo>,
    stages: Seq<BufferType>,
    id: Seq<char>,
) -> Seq<ResourceInfo>
    decreases stages.len(),
{
    if stages.len() == 0 {
        own
    } else if stages.last() is DiskV2 {
        sink_resources(own, stages.drop_last(), id).push(
            (ResourceModel::DiskBuffer(id), "disk buffer "@ + debug_text(id)),
        )
    } else {
        sink_resources(own, stages.drop_last(), id)
    }
}

impl<T> SinkOuter<T> {
    /// A sink with nothing set around it.
    pub fn new(inputs: Vec<T>, inner: SinkConfig) -> (sink: Self)
        ensures
            sink.inputs == inputs,
            *sink.inner == inner,
            sink.buffer.stages@ == seq![
                BufferType::Memory { max_events: 500, when_full: WhenFull::Block },
            ],
            sink.healthcheck == (SinkHealthcheckOptions {
                enabled: true,
                timeout: Duration { secs: 10, nanos: 0 },
                uri: None,
            }),
            sink.healthcheck_uri is None,
            sink.proxy.is_default(),
            sink.graph@ == "{}"@,
    {
        SinkOuter {
            inputs,
            buffer: BufferConfig::default(),
            healthcheck: SinkHealthcheckOptions::default(),
            healthcheck_uri: None,
            inner: Arc::new(inner),
            proxy: ProxyConfig::default(),
            graph: "{}".to_owned(),
        }
    }

    /// What the sink needs for itself alone, its disk buffers taken in.
    pub fn resources(&self, id: &ComponentKey) -> (resources: Vec<Resource>)
        ensures
            described(resources@) == sink_resources(
                described(self.inner.resources@),
                self.buffer.stages@,
                id@,
            ),
    {
        let mut resources: Vec<Resource> = Vec::new();
        let mut i: usize = 0;
        while i < self.inner.resources.len()
            invariant
                i <= self.inner.resources.len(),
                resources@ == self.inner.resources@.take(i as int),
            decreases self.inner.resources.len() - i,
        {
            resources.push(self.inner.resources[i].clone());
            assert(resources@ =~= self.inner.resources@.take(i + 1));
            i = i + 1;
        }
        assert(resources@ =~= self.inner.resources@);
        let ghost own = resources@;
        let stages = self.buffer.stages();
        assert(stages@.take(0) =~= Seq::empty());
        let mut j: usize = 0;
        while j < stages.len()
            invariant
                j <= stages.len(),
                stages@ == self.buffer.stages@,
                described(resources@) == sink_resources(
                    described(own),
                    stages@.take(j as int),
                    id@,
                ),
            decreases stages.len() - j,
        {
            let ghost before = resources@;
            assert(stages@.take(j + 1).drop_last() =~= stages@.take(j as int));
            match stages[j] {
                BufferType::Memory { .. } => {},
                BufferType::DiskV2 { .. } => {
                    resources.push(Resource::DiskBuffer(id.id().to_owned()));
                    proof {
                        assert(described(resources@) =~= described(before).push(
                            (ResourceModel::DiskBuffer(id@), "disk buffer "@ + debug_text(id@)),
                        ));
                    }
                },
            }
            j = j + 1;
        }
        assert(stages@.take(j as int) =~= stages@);
        resources
    }

    /// The settings on the health check, with `healthcheck_uri` taken in where
    /// no other address is set.
    pub fn healthcheck(&self) -> (options: SinkHealthcheckOptions)
        ensures
            options == (SinkHealthcheckOptions {
                uri: if self.healthcheck.uri is Some {
                    self.healthcheck.uri
                } else {
                    self.healthcheck_uri
                },
                ..self.healthcheck
            }),
    {
        let uri = if self.healthcheck.uri.is_some() {
            clone_port(&self.healthcheck.uri)
        } else {
            clone_port(&self.healthcheck_uri)
        };
        SinkHealthcheckOptions {
            uri,
            enabled: self.healthcheck.enabled,
            timeout: self.healthcheck.timeout,
        }
    }

    /// How to reach the outside.
    pub fn proxy(&self) -> (proxy: &ProxyConfig)
        ensures
            *proxy == self.proxy,
    {
        &self.proxy
    }

    /// The same sink with other inputs.
    pub fn with_inputs<U>(self, inputs: Vec<U>) -> (sink: SinkOuter<U>)
        ensures
            sink == (SinkOuter::<U> {
                inputs,
                inner: self.inner,
                buffer: self.buffer,
                healthcheck: self.healthcheck,
                healthcheck_uri: self.healthcheck_uri,
                proxy: self.proxy,
                graph: self.graph,
            }),
    {
        SinkOuter {
            inputs,
            inner: self.inner,
            buffer: self.buffer,
            healthcheck: self.healthcheck,
            healthcheck_uri: self.healthcheck_uri,
            proxy: self.proxy,
            graph: self.graph,
        }
    }

    /// The same sink with each input put through `f`.
    pub fn map_inputs<U>(self, f: impl Fn(&T) -> U) -> (sink: SinkOuter<U>)
        requires
            forall|i: int| 0 <= i < self.inputs@.len() ==> call_requires(f, (&#[trigger] self.inputs@[i],)),
        ensures
            sink.inputs@.len() == self.inputs@.len(),
            forall|i: int|
                0 <= i < self.inputs@.len() ==> call_ensures(
                    f,
                    (&self.inputs@[i],),
                    #[trigger] sink.inputs@[i],
                ),
            sink.inner == self.inner && sink.buffer == self.buffer && sink.healthcheck
                == self.healthcheck && sink.healthcheck_uri == self.healthcheck_uri && sink.proxy
                == self.proxy && sink.graph == self.graph,
    {
        let inputs = map_list(&self.inputs, f);
        self.with_inputs(inputs)
    }
}

/// The results of putting each item of a list through `f`.
pub fn map_list<T, U>(list: &Vec<T>, f: impl Fn(&T) -> U) -> (mapped: Vec<U>)
    requires
        forall|i: int| 0 <= i < list@.len() ==> call_requires(f, (&#[trigger] list@[i],)),
    ensures
        mapped@.len() == list@.len(),
        forall|i: int|
            0 <= i < list@.len() ==> call_ensures(f, (&list@[i],), #[trigger] mapped@[i]),
{
    let mut mapped: Vec<U> = Vec::new();
    let mut i: usize = 0;
    while i < list.len()
        invariant
            i <= list.len(),
            mapped@.len() == i,
            forall|j: int| 0 <= j < list@.len() ==> call_requires(f, (&#[trigger] list@[j],)),
            forall|j: int| 0 <= j < i ==> call_ensures(f, (&list@[j],), #[trigger] mapped@[j]),
        decreases list.len() - i,
    {
        mapped.push(f(&list[i]));
        i = i + 1;
    }
    mapped
}

/// What is put at the disposal of a sink when it is built.
#[derive(Debug)]
pub struct SinkContext {
    /// Settings on the health check.
    pub healthcheck: SinkHealthcheckOptions,
    /// The settings that all components share.
    pub globals: GlobalOptions,
    /// How to reach the outside.
    pub proxy: ProxyConfig,
    /// How events are described.
    pub schema: SchemaOptions,
    /// The name of the application.
    pub app_name: String,
    /// The name of the application, as part of an address.
    pub app_name_slug: String,
}

impl SinkContext {
    /// A context in which nothing is set, for the application of this name.
    pub fn new(app_name: &str, app_name_slug: &str) -> (context: Self)
        ensures
            context.app_name@ == app_name@,
            context.app_name_slug@ == app_name_slug@,
            context.healthcheck.enabled && context.healthcheck.uri is None,
            context.healthcheck.timeout == (Duration { secs: 10, nanos: 0 }),
            context.globals.is_unset(),
            context.proxy.is_default(),
            context.schema.log_namespace is None,
    {
        SinkContext {
            healthcheck: SinkHealthcheckOptions::default(),
            globals: GlobalOptions::default(),
            proxy: ProxyConfig::default(),
            schema: SchemaOptions::unset(),
            app_name: app_name.to_owned(),
            app_name_slug: app_name_slug.to_owned(),
        }
    }

    /// The settings that all components share.
    pub fn globals(&self) -> (globals: &GlobalOptions)
        ensures
            *globals == self.globals,
    {
        &self.globals
    }

    /// How to reach the outside.
    pub fn proxy(&self) -> (proxy: &ProxyConfig)
        ensures
            *proxy == self.proxy,
    {
        &self.proxy
    }
}

/// How many of the first stages of a buffer are on disk.
pub open spec fn stages_on_disk(stages: Seq<BufferType>, count: int) -> int
    decreases count,
{
    if count <= 0 {
        0
    } else if stages[count - 1] is DiskV2 {
        stages_on_disk(stages, count - 1) + 1
    } else {
        stages_on_disk(stages, count - 1)
    }
}

/// A sink has its own resources and one more for each stage on disk.
proof fn disk_stages_follow(own: Seq<ResourceInfo>, stages: Seq<BufferType>, id: Seq<char>, count: int)
    requires
        0 <= count <= stages.len(),
    ensures
        stages_on_disk(stages, count) >= 0,
        sink_resources(own, stages.take(count), id).len() == own.len() + stages_on_disk(stages, count),
        forall|i: int|
            0 <= i < sink_resources(own, stages.take(count), id).len() ==> (#[trigger] sink_resources(
                own,
                stages.take(count),
                id,
            )[i]) == if i < own.len() {
                own[i]
            } else {
                (ResourceModel::DiskBuffer(id), "disk buffer "@ + debug_text(id))
            },
    decreases count,
{
    if count > 0 {
        disk_stages_follow(own, stages, id, count - 1);
        assert(stages.take(count).drop_last() =~= stages.take(count - 1));
        assert(stages.take(count).last() == stages[count - 1]);
    } else {
        assert(stages.take(count) =~= Seq::<BufferType>::empty());
    }
}

/// A sink needs what it says of itself and, for each stage of its buffer on
/// disk, the place of a disk buffer under its own name; nothing else.
pub proof fn sinks_need_their_resources_and_disk_buffers<T>(
    sink: &SinkOuter<T>,
    id: &ComponentKey,
    resources: Vec<Resource>,
    i: int,
)
    requires
        call_ensures(SinkOuter::<T>::resources, (sink, id), resources),
    ensures
        resources@.len() == sink.inner.resources@.len() + stages_on_disk(
            sink.buffer.stages@,
            sink.buffer.stages@.len() as int,
        ),
        0 <= i < sink.inner.resources@.len() ==> resources@[i]@ == sink.inner.resources@[i]@,
        sink.inner.resources@.len() <= i < resources@.len() ==> resources@[i] is DiskBuffer
            && resources@[i]->DiskBuffer_0@ == id@,
{
    let own = described(sink.inner.resources@);
    let stages = sink.buffer.stages@;
    disk_stages_follow(own, stages, id@, stages.len() as int);
    assert(stages.take(stages.len() as int) =~= stages);
    let all = sink_resources(own, stages, id@);
    assert(described(resources@) == all);
    assert(described(resources@).len() == resources@.len());
    assert(own.len() == sink.inner.resources@.len());
    if 0 <= i < resources@.len() {
        assert(described(resources@)[i].0 == resources@[i]@);
        assert(all[i].0 == resources@[i]@);
        if i < own.len() {
            assert(own[i].0 == sink.inner.resources@[i]@);
        }
    }
}

/// The address of the health check is the one among its settings, or else the
/// one that is set for the sink; the other settings stay.
pub proof fn healthcheck_address_is_the_inner_one<T>(
    sink: &SinkOuter<T>,
    options: SinkHealthcheckOptions,
)
    requires
        call_ensures(SinkOuter::<T>::healthcheck, (sink,), options),
    ensures
        sink.healthcheck.uri is Some ==> options.uri == sink.healthcheck.uri,
        sink.healthcheck.uri is None ==> options.uri == sink.healthcheck_uri,
        options.enabled == sink.healthcheck.enabled,
        options.timeout == sink.healthcheck.timeout,
{
}

/// Settings on health checks say the same just where each of them does.
pub proof fn healthchecks_are_compared_part_by_part(
    a: &SinkHealthcheckOptions,
    b: &SinkHealthcheckOptions,
    same: bool,
)
    requires
        call_ensures(SinkHealthcheckOptions::same, (a, b), same),
    ensures
        same <==> {
            &&& a.enabled == b.enabled
            &&& a.timeout.secs == b.timeout.secs
            &&& a.timeout.nanos == b.timeout.nanos
            &&& a.uri is Some <==> b.uri is Some
            &&& a.uri is Some ==> a.uri->0@ == b.uri->0@
        },
{
}

/// Buffers are set up alike just where they have the same stages in the same
/// order.
pub proof fn buffers_are_compared_stage_by_stage(a: &BufferConfig, b: &BufferConfig, same: bool)
    requires
        call_ensures(BufferConfig::same, (a, b), same),
    ensures
        same <==> a.stages@.len() == b.stages@.len() && forall|i: int|
            0 <= i < a.stages@.len() ==> #[trigger] a.stages@[i] == b.stages@[i],
{
    if a.stages@.len() == b.stages@.len() && forall|i: int|
        0 <= i < a.stages@.len() ==> #[trigger] a.stages@[i] == b.stages@[i] {
        assert(a.stages@ =~= b.stages@);
    }
}

} // verus!
