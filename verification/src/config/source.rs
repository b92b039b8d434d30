//! The configuration of sources.
use std::sync::Arc;
use vstd::prelude::*;

use crate::config::global::{
    choose_namespace, chosen_namespace, AcknowledgementsConfig, GlobalOptions, ProxyConfig,
    SchemaOptions,
};
use crate::config::io::SourceOutput;
use crate::config::resource::Resource;
use crate::event::LogNamespace;
use crate::id::{output_names, port_text, ComponentKey, OutputId, OutputName};
use crate::schema::Definition;

verus! {

/// A length of time.
#[derive(Debug, Clone, Copy, PartialEq, Eq, Structural)]
pub struct Duration {
    /// Whole seconds.
    pub secs: u64,
    /// What is left, in billionths of a second.
    pub nanos: u32,
}

impl Duration {
    /// The given number of seconds.
    pub fn from_secs(secs: u64) -> (duration: Self)
        ensures
            duration == (Duration { secs, nanos: 0 }),
    {
        Duration { secs, nanos: 0 }
    }
}

/// What a source says of itself.
#[derive(Debug)]
pub struct SourceConfig {
    /// The type of the source, such as `file`.
    pub component_type: String,
    /// The outputs, where log entries are in the legacy namespace.
    pub legacy_outputs: Vec<SourceOutput>,
    /// The outputs, where log entries are in the Vector namespace.
    pub vector_outputs: Vec<SourceOutput>,
    /// What the source needs for itself alone.
    pub resources: Vec<Resource>,
    /// Whether the source can wait for its events to be delivered.
    pub can_acknowledge: bool,
    /// How long sending an event may take.
    pub send_timeout: Option<Duration>,
    /// The settings of the source, as JSON.
    pub settings: String,
}

impl SourceConfig {
    /// The outputs in the given namespace.
    pub open spec fn outputs_in(&self, namespace: LogNamespace) -> Seq<SourceOutput> {
        match namespace {
            LogNamespace::Legacy => self.legacy_outputs@,
            LogNamespace::Vector => self.vector_outputs@,
        }
    }

    /// The outputs in the given namespace.
    pub fn outputs(&self, global_log_namespace: LogNamespace) -> (outputs: &Vec<SourceOutput>)
        ensures
            outputs@ == self.outputs_in(global_log_namespace),
    {
        match global_log_namespace {
            LogNamespace::Legacy => &self.legacy_outputs,
            LogNamespace::Vector => &self.vector_outputs,
        }
    }
}

/// The names of the outputs of a source.
pub open spec fn source_output_names(
    component: Seq<char>,
    outputs: Seq<SourceOutput>,
) -> Seq<OutputName> {
    Seq::new(outputs.len(), |i: int| (component, port_text(outputs[i].port)))
}

/// What identifies the outputs of a source.
pub fn get_source_output_ids(
    source: &SourceConfig,
    key: &ComponentKey,
    global_log_namespace: LogNamespace,
) -> (ids: Vec<OutputId>)
    ensures
        output_names(ids@) == source_output_names(key@, source.outputs_in(global_log_namespace)),
{
    let outputs = source.outputs(global_log_namespace);
    let mut ids: Vec<OutputId> = Vec::new();
    let mut i: usize = 0;
    while i < outputs.len()
        invariant
            i <= outputs.len(),
            ids@.len() == i,
            forall|j: int|
                0 <= j < i ==> (#[trigger] ids@[j])@ == (key@, port_text(outputs@[j].port)),
        decreases outputs.len() - i,
    {
        ids.push(OutputId::new(key, &outputs[i].port));
        i = i + 1;
    }
    assert(output_names(ids@) =~= source_output_names(
        key@,
        source.outputs_in(global_log_namespace),
    ));
    ids
}

/// A source of a pipeline.
#[derive(Debug)]
pub struct SourceOuter {
    /// How to reach the outside.
    pub proxy: ProxyConfig,
    /// The settings for drawing the pipeline, as JSON.
    pub graph: String,
    /// Whether a sink wants the source to wait for deliveries.
    pub sink_acknowledgements: bool,
    /// The source itself.
    pub inner: Arc<SourceConfig>,
}

impl SourceOuter {
    /// A source with nothing set around it.
    pub fn new(inner: SourceConfig) -> (source: Self)
        ensures
            *source.inner == inner,
            !source.sink_acknowledgements,
            source.graph@ == "{}"@,
            source.proxy.is_default(),
    {
        SourceOuter {
            proxy: ProxyConfig::default(),
            graph: "{}".to_owned(),
            sink_acknowledgements: false,
            inner: Arc::new(inner),
        }
    }
}

impl Clone for SourceOuter {
    fn clone(&self) -> (copy: Self)
        ensures
            copy == *self,
    {
        SourceOuter {
            proxy: self.proxy.clone(),
            graph: self.graph.clone(),
            sink_acknowledgements: self.sink_acknowledgements,
            inner: crate::schema::share(&self.inner),
        }
    }
}

/// What is put at the disposal of a source when it is built.
#[derive(Debug)]
pub struct SourceContext {
    /// The name of the source.
    pub key: ComponentKey,
    /// The settings that all components share.
    pub globals: GlobalOptions,
    /// How to reach the outside.
    pub proxy: ProxyConfig,
    /// Whether a sink wants the source to wait for deliveries.
    pub acknowledgements: bool,
    /// How events are described.
    pub schema: SchemaOptions,
    /// What the events of each output are expected to look like.
    pub schema_definitions: Vec<(Option<String>, Arc<Definition>)>,
}

impl SourceContext {
    /// A context that only names the source.
    pub fn new_shutdown(key: &ComponentKey) -> (context: Self)
        ensures
            context.key@ == key@,
            context.globals.is_unset(),
            context.proxy.is_default(),
            !context.acknowledgements,
            context.schema.log_namespace is None,
            context.schema_definitions@.len() == 0,
    {
        SourceContext {
            key: key.clone(),
            globals: GlobalOptions::default(),
            proxy: ProxyConfig::default(),
            acknowledgements: false,
            schema: SchemaOptions::unset(),
            schema_definitions: Vec::new(),
        }
    }

    /// A context for a source with the name `default`, with the given
    /// definitions, where there are any, and nothing else.
    pub fn new_test(
        schema_definitions: Option<Vec<(Option<String>, Arc<Definition>)>>,
    ) -> (context: Self)
        ensures
            context.key@ == "default"@,
            context.globals.is_unset(),
            context.proxy.is_default(),
            !context.acknowledgements,
            context.schema.log_namespace is None,
            match schema_definitions {
                Some(definitions) => context.schema_definitions == definitions,
                None => context.schema_definitions@.len() == 0,
            },
    {
        let mut context = SourceContext::new_shutdown(&ComponentKey::new("default"));
        if let Some(definitions) = schema_definitions {
            context.schema_definitions = definitions;
        }
        context
    }

    /// Whether the source is to wait for its events to be delivered: what its
    /// own setting says, else the general setting, else what the sinks want.
    pub fn do_acknowledgements(&self, config: AcknowledgementsConfig) -> (wait: bool)
        ensures
            wait == (match (config.enabled, self.globals.acknowledgements.enabled) {
                (Some(own), _) => own,
                (None, Some(general)) => general,
                (None, None) => self.acknowledgements,
            }),
    {
        let sinks = AcknowledgementsConfig::from_bool(self.acknowledgements);
        config.merge_default(&self.globals.acknowledgements).merge_default(&sinks).enabled()
    }

    /// The namespace of the source's log entries: its own setting, else the
    /// general one, else the legacy namespace.
    pub fn log_namespace(&self, namespace: Option<bool>) -> (chosen: LogNamespace)
        ensures
            chosen == chosen_namespace(namespace, self.schema.log_namespace),
    {
        choose_namespace(namespace, self.schema.log_namespace)
    }
}

/// A source gives out through the outputs of the namespace that it is in.
pub proof fn outputs_go_by_namespace(
    source: &SourceConfig,
    namespace: LogNamespace,
    outputs: &Vec<SourceOutput>,
)
    requires
        call_ensures(SourceConfig::outputs, (source, namespace), outputs),
    ensures
        namespace is Legacy ==> outputs@ == source.legacy_outputs@,
        namespace is Vector ==> outputs@ == source.vector_outputs@,
{
}

/// Each output of a source is identified by the name of the source and by its
/// own port.
pub proof fn outputs_are_identified_by_port(
    source: &SourceConfig,
    key: &ComponentKey,
    namespace: LogNamespace,
    ids: Vec<OutputId>,
    i: int,
)
    requires
        call_ensures(get_source_output_ids, (source, key, namespace), ids),
    ensures
        ids@.len() == if namespace is Legacy {
            source.legacy_outputs@.len()
        } else {
            source.vector_outputs@.len()
        },
        0 <= i < ids@.len() ==> {
            let port = if namespace is Legacy {
                source.legacy_outputs@[i].port
            } else {
                source.vector_outputs@[i].port
            };
            &&& ids@[i].component@ == key@
            &&& ids@[i].port is Some <==> port is Some
            &&& port is Some ==> ids@[i].port->0@ == port->0@
        },
{
    let names = source_output_names(key@, source.outputs_in(namespace));
    assert(output_names(ids@) == names);
    assert(output_names(ids@).len() == names.len());
    if 0 <= i < ids@.len() {
        assert(output_names(ids@)[i] == names[i]);
        assert(ids@[i]@ == names[i]);
    }
}

/// A source waits for deliveries where its own setting says so, or else the
/// general one, or else where sinks want it.
pub proof fn own_setting_decides_on_waiting(
    context: &SourceContext,
    config: AcknowledgementsConfig,
    wait: bool,
)
    requires
        call_ensures(SourceContext::do_acknowledgements, (context, config), wait),
    ensures
        config.enabled is Some ==> wait == config.enabled->0,
        config.enabled is None && context.globals.acknowledgements.enabled is Some ==> wait
            == context.globals.acknowledgements.enabled->0,
        config.enabled is None && context.globals.acknowledgements.enabled is None ==> wait
            == context.acknowledgements,
{
}

/// The entries of a source are in the namespace that is set for it, or else in
/// the general one.
pub proof fn sources_choose_their_namespace(
    context: &SourceContext,
    own: Option<bool>,
    chosen: LogNamespace,
)
    requires
        call_ensures(SourceContext::log_namespace, (context, own), chosen),
    ensures
        own is Some ==> (chosen is Vector <==> own->0),
        own is None ==> (chosen is Vector <==> context.schema.log_namespace == Some(true)),
{
}

} // verus!
