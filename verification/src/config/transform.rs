//! The configuration of transforms.
use std::sync::Arc;
use vstd::prelude::*;

use crate::config::global::{choose_namespace, chosen_namespace, GlobalOptions, SchemaOptions};
use crate::config::io::{Input, TransformOutput};
use crate::config::sink::map_list;
use crate::event::LogNamespace;
use crate::id::{output_names, port_text, ComponentKey, OutputId, OutputName};
use crate::schema::{Definition, Definitions};

verus! {

/// What a transform says of itself.
#[derive(Debug)]
pub struct TransformConfig {
    /// The type of the transform, such as `filter`.
    pub component_type: String,
    /// What the transform takes in.
    pub input: Input,
    /// The outputs, where log entries are in the legacy namespace.
    pub legacy_outputs: Vec<TransformOutput>,
    /// The outputs, where log entries are in the Vector namespace.
    pub vector_outputs: Vec<TransformOutput>,
    /// What is wrong with the settings, whatever the events look like.
    pub validation_errors: Vec<String>,
    /// Whether several workers may run the transform at once.
    pub enable_concurrency: bool,
    /// The files that the transform is built from, besides its settings.
    pub files: Vec<String>,
    /// The settings of the transform, as JSON.
    pub settings: String,
}

impl TransformConfig {
    /// The outputs in the given namespace.
    pub open spec fn outputs_in(&self, namespace: LogNamespace) -> Seq<TransformOutput> {
        match namespace {
            LogNamespace::Legacy => self.legacy_outputs@,
            LogNamespace::Vector => self.vector_outputs@,
        }
    }

    /// The outputs in the given namespace.
    pub fn outputs(&self, namespace: LogNamespace) -> (outputs: &Vec<TransformOutput>)
        ensures
            outputs@ == self.outputs_in(namespace),
    {
        match namespace {
            LogNamespace::Legacy => &self.legacy_outputs,
            LogNamespace::Vector => &self.vector_outputs,
        }
    }

    /// Whether the transform may stand inside others of the given types: inside
    /// any.
    pub fn nestable(&self, parents: &Vec<String>) -> (nestable: bool)
        ensures
            nestable,
    {
        true
    }

    /// The files whose changes make it necessary to build the transform anew.
    pub fn files_to_watch(&self) -> (files: &Vec<String>)
        ensures
            *files == self.files,
    {
        &self.files
    }
}

/// A transform of a pipeline, with inputs named by `T`.
#[derive(Debug)]
pub struct TransformOuter<T> {
    /// The outputs that feed the transform.
    pub inputs: Vec<T>,
    /// The settings for drawing the pipeline, as JSON.
    pub graph: String,
    /// The transform itself.
    pub inner: Arc<TransformConfig>,
}

impl<T> TransformOuter<T> {
    /// A transform with nothing set around it.
    pub fn new(inputs: Vec<T>, inner: TransformConfig) -> (transform: Self)
        ensures
            transform.inputs == inputs,
            *transform.inner == inner,
            transform.graph@ == "{}"@,
    {
        TransformOuter { inputs, inner: Arc::new(inner), graph: "{}".to_owned() }
    }

    /// The same transform with other inputs.
    pub fn with_inputs<U>(self, inputs: Vec<U>) -> (transform: TransformOuter<U>)
        ensures
            transform == (TransformOuter::<U> { inputs, inner: self.inner, graph: self.graph }),
    {
        TransformOuter { inputs, inner: self.inner, graph: self.graph }
    }

    /// The same transform with each input put through `f`.
    pub fn map_inputs<U>(self, f: impl Fn(&T) -> U) -> (transform: TransformOuter<U>)
        requires
            forall|i: int| 0 <= i < self.inputs@.len() ==> call_requires(f, (&#[trigger] self.inputs@[i],)),
        ensures
            transform.inputs@.len() == self.inputs@.len(),
            forall|i: int|
                0 <= i < self.inputs@.len() ==> call_ensures(
                    f,
                    (&self.inputs@[i],),
                    #[trigger] transform.inputs@[i],
                ),
            transform.inner == self.inner && transform.graph == self.graph,
    {
        let inputs = map_list(&self.inputs, f);
        self.with_inputs(inputs)
    }
}

/// The names of the outputs of a component.
pub open spec fn transform_output_names(
    component: Seq<char>,
    outputs: Seq<TransformOutput>,
) -> Seq<OutputName> {
    Seq::new(outputs.len(), |i: int| (component, port_text(outputs[i].port)))
}

/// What identifies the outputs of a transform.
pub fn get_transform_output_ids(
    transform: &TransformConfig,
    key: &ComponentKey,
    global_log_namespace: LogNamespace,
) -> (ids: Vec<OutputId>)
    ensures
        output_names(ids@) == transform_output_names(
            key@,
            transform.outputs_in(global_log_namespace),
        ),
{
    let outputs = transform.outputs(global_log_namespace);
    let mut ids: Vec<OutputId> = Vec::new();
    let mut i: usize = 0;
    while i < outputs.len()
        invariant
            i <= outputs.len(),
            ids@.len() == i,
            forall|j: int|
                0 <= j < i ==> (#[trigger] ids@[j])@ == (key@, port_text(outputs@[j].port)),
        decreases outputs.len() - i,
    {
        ids.push(OutputId::new(key, &outputs[i].port));
        i = i + 1;
    }
    assert(output_names(ids@) =~= transform_output_names(
        key@,
        transform.outputs_in(global_log_namespace),
    ));
    ids
}

/// What is put at the disposal of a transform when it is built.
#[derive(Debug)]
pub struct TransformContext {
    /// The name of the transform, where it is known.
    pub key: Option<ComponentKey>,
    /// The settings that all components share.
    pub globals: GlobalOptions,
    /// What the events of each output are expected to look like.
    pub schema_definitions: Vec<(Option<String>, Definitions)>,
    /// What the events of all inputs are expected to look like.
    pub merged_schema_definition: Definition,
    /// How events are described.
    pub schema: SchemaOptions,
}

impl Default for TransformContext {
    /// Nothing is set; nothing is known of the events of the default output.
    fn default() -> (context: Self)
        ensures
            context.key is None,
            context.schema_definitions@.len() == 1,
            context.schema_definitions@[0].0 is None,
            context.schema_definitions@[0].1@.len() == 0,
            context.merged_schema_definition.fields@.len() == 0,
            context.merged_schema_definition.open,
            context.schema.log_namespace is None,
            context.globals.is_unset(),
    {
        let mut schema_definitions: Vec<(Option<String>, Definitions)> = Vec::new();
        schema_definitions.push((None, Vec::new()));
        TransformContext {
            key: None,
            globals: GlobalOptions::default(),
            schema_definitions,
            merged_schema_definition: Definition::any(),
            schema: SchemaOptions::unset(),
        }
    }
}

impl TransformContext {
    /// A context with the given shared settings and nothing else.
    pub fn new_with_globals(globals: GlobalOptions) -> (context: Self)
        ensures
            context.globals == globals,
            context.key is None,
            context.schema_definitions@.len() == 1,
            context.schema_definitions@[0].0 is None,
            context.schema_definitions@[0].1@.len() == 0,
            context.merged_schema_definition.fields@.len() == 0,
            context.merged_schema_definition.open,
            context.schema.log_namespace is None,
    {
        let mut context = TransformContext::default();
        context.globals = globals;
        context
    }

    /// A context with the given definitions and nothing else.
    pub fn new_test(schema_definitions: Vec<(Option<String>, Definitions)>) -> (context: Self)
        ensures
            context.schema_definitions == schema_definitions,
            context.globals.is_unset(),
            context.key is None,
            context.merged_schema_definition.fields@.len() == 0,
            context.merged_schema_definition.open,
            context.schema.log_namespace is None,
    {
        let mut context = TransformContext::default();
        context.schema_definitions = schema_definitions;
        context
    }

    /// The namespace of log entries that the transform makes: its own setting,
    /// else the general one, else the legacy namespace.
    pub fn log_namespace(&self, namespace: Option<bool>) -> (chosen: LogNamespace)
        ensures
            chosen == chosen_namespace(namespace, self.schema.log_namespace),
    {
        choose_namespace(namespace, self.schema.log_namespace)
    }
}

/// A transform gives out through the outputs of the namespace that it is in.
pub proof fn outputs_go_by_namespace(
    transform: &TransformConfig,
    namespace: LogNamespace,
    outputs: &Vec<TransformOutput>,
)
    requires
        call_ensures(TransformConfig::outputs, (transform, namespace), outputs),
    ensures
        namespace is Legacy ==> outputs@ == transform.legacy_outputs@,
        namespace is Vector ==> outputs@ == transform.vector_outputs@,
{
}

/// Each output of a transform is identified by the name of the transform and by
/// its own port.
pub proof fn outputs_are_identified_by_port(
    transform: &TransformConfig,
    key: &ComponentKey,
    namespace: LogNamespace,
    ids: Vec<OutputId>,
    i: int,
)
    requires
        call_ensures(get_transform_output_ids, (transform, key, namespace), ids),
    ensures
        ids@.len() == if namespace is Legacy {
            transform.legacy_outputs@.len()
        } else {
            transform.vector_outputs@.len()
        },
        0 <= i < ids@.len() ==> {
            let port = if namespace is Legacy {
                transform.legacy_outputs@[i].port
            } else {
                transform.vector_outputs@[i].port
            };
            &&& ids@[i].component@ == key@
            &&& ids@[i].port is Some <==> port is Some
            &&& port is Some ==> ids@[i].port->0@ == port->0@
        },
{
    let names = transform_output_names(key@, transform.outputs_in(namespace));
    assert(output_names(ids@) == names);
    assert(output_names(ids@).len() == names.len());
    if 0 <= i < ids@.len() {
        assert(output_names(ids@)[i] == names[i]);
        assert(ids@[i]@ == names[i]);
    }
}

/// The entries that a transform makes are in the namespace that is set for it,
/// or else in the general one.
pub proof fn transforms_choose_their_namespace(
    context: &TransformContext,
    own: Option<bool>,
    chosen: LogNamespace,
)
    requires
        call_ensures(TransformContext::log_namespace, (context, own), chosen),
    ensures
        own is Some ==> (chosen is Vector <==> own->0),
        own is None ==> (chosen is Vector <==> context.schema.log_namespace == Some(true)),
{
}

} // verus!
