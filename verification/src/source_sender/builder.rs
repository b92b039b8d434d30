//! Building a sender, output by output.
use vstd::prelude::*;

use crate::component_map::{distinct_keys, put, put_is_found, ComponentMap};
use crate::config::io::SourceOutput;
use crate::config::source::Duration;
use crate::event::metric::Float64;
use crate::id::{clone_port, port_text, ComponentKey, OutputId};
use crate::schema::share;
use crate::source_sender::output::{ChannelSpec, Output};
use crate::source_sender::sender::SourceSender;
use crate::source_sender::CHUNK_SIZE;
use crate::transform::sending::DEFAULT_OUTPUT;

verus! {

/// Builds a [`SourceSender`].
pub struct Builder {
    /// How many events the channel of an output holds.
    pub buf_size: usize,
    /// The default output, where there is one yet.
    pub default_output: Option<Output>,
    /// The other outputs, by name.
    pub named_outputs: ComponentMap<Output>,
    /// Whether it is measured how old events are when they are sent.
    pub lag_time: bool,
    /// How long sending may take.
    pub timeout: Option<Duration>,
    /// How fast the measured use of channels forgets, in seconds.
    pub ewma_half_life_seconds: Option<Float64>,
}

impl Default for Builder {
    /// No outputs yet; channels hold as many events as are sent together.
    fn default() -> (builder: Self)
        ensures
            builder.is_fresh(),
    {
        Builder {
            buf_size: CHUNK_SIZE,
            default_output: None,
            named_outputs: ComponentMap::new(),
            lag_time: true,
            timeout: None,
            ewma_half_life_seconds: None,
        }
    }
}

/// Whether an output is what a source says of it, built with the settings of a
/// builder.
pub open spec fn built_output(
    builder: Builder,
    declared: SourceOutput,
    component: Seq<char>,
    output: Output,
) -> bool {
    &&& output.lag_time == builder.lag_time
    &&& output.log_definition == declared.schema_definition
    &&& output.id@ == (component, port_text(declared.port))
    &&& output.timeout == builder.timeout
    &&& output.events_sent@ == match declared.port {
        Some(name) => name@,
        None => DEFAULT_OUTPUT@,
    }
}

impl Builder {
    /// Whether nothing has been set or added yet.
    pub open spec fn is_fresh(&self) -> bool {
        &&& self.buf_size == CHUNK_SIZE
        &&& self.default_output is None
        &&& self.named_outputs@.len() == 0
        &&& self.lag_time
        &&& self.timeout is None
        &&& self.ewma_half_life_seconds is None
    }

    /// Sets how many events the channel of an output holds.
    pub fn with_buffer(self, n: usize) -> (builder: Self)
        ensures
            builder == (Builder { buf_size: n, ..self }),
    {
        let mut builder = self;
        builder.buf_size = n;
        builder
    }

    /// Sets how long sending may take.
    pub fn with_timeout(self, timeout: Option<Duration>) -> (builder: Self)
        ensures
            builder == (Builder { timeout, ..self }),
    {
        let mut builder = self;
        builder.timeout = timeout;
        builder
    }

    /// Sets how fast the measured use of channels forgets.
    pub fn with_ewma_half_life_seconds(self, half_life_seconds: Option<Float64>) -> (builder: Self)
        ensures
            builder == (Builder { ewma_half_life_seconds: half_life_seconds, ..self }),
    {
        let mut builder = self;
        builder.ewma_half_life_seconds = half_life_seconds;
        builder
    }

    /// Adds an output of a source, and says which channel to make for it.
    pub fn add_source_output(&mut self, output: SourceOutput, component_key: ComponentKey) -> (channel:
        ChannelSpec)
        requires
            old(self).buf_size > 0,
        ensures
            channel.max_events == old(self).buf_size,
            channel.output@ == match output.port {
                Some(name) => name@,
                None => DEFAULT_OUTPUT@,
            },
            channel.ewma_half_life_seconds == old(self).ewma_half_life_seconds,
            match output.port {
                None => {
                    &&& final(self).default_output is Some
                    &&& built_output(
                        *old(self),
                        output,
                        component_key@,
                        final(self).default_output->0,
                    )
                    &&& *final(self) == (Builder {
                        default_output: final(self).default_output,
                        ..*old(self)
                    })
                },
                Some(name) => {
                    &&& exists|made: Output|
                        final(self).named_outputs@ == #[trigger] put(
                            old(self).named_outputs@,
                            name@,
                            made,
                        ) && built_output(*old(self), output, component_key@, made)
                    &&& *final(self) == (Builder {
                        named_outputs: final(self).named_outputs,
                        ..*old(self)
                    })
                },
            },
    {
        let log_definition = match &output.schema_definition {
            Some(definition) => Some(share(definition)),
            None => None,
        };
        let output_id = OutputId { component: component_key, port: clone_port(&output.port) };
        match &output.port {
            None => {
                let (made, channel) = Output::new_with_buffer(
                    self.buf_size,
                    DEFAULT_OUTPUT.to_owned(),
                    self.lag_time,
                    log_definition,
                    output_id,
                    self.timeout,
                    self.ewma_half_life_seconds,
                );
                self.default_output = Some(made);
                channel
            },
            Some(name) => {
                let (made, channel) = Output::new_with_buffer(
                    self.buf_size,
                    name.clone(),
                    self.lag_time,
                    log_definition,
                    output_id,
                    self.timeout,
                    self.ewma_half_life_seconds,
                );
                assert(built_output(*old(self), output, component_key@, made));
                self.named_outputs.insert(name.as_str(), made);
                channel
            },
        }
    }

    /// The sender with the outputs that have been added.
    pub fn build(self) -> (sender: SourceSender)
        ensures
            sender.default_output == self.default_output,
            sender.named_outputs == self.named_outputs,
    {
        SourceSender { default_output: self.default_output, named_outputs: self.named_outputs }
    }
}

/// Whether an output is what a source declares, with the settings of a builder.
pub open spec fn made_as_declared(
    output: Output,
    declared: SourceOutput,
    key: Seq<char>,
    builder: Builder,
) -> bool {
    &&& output.id.component@ == key
    &&& output.id.port is Some <==> declared.port is Some
    &&& declared.port is Some ==> output.id.port->0@ == declared.port->0@
    &&& output.log_definition == declared.schema_definition
    &&& output.lag_time == builder.lag_time
    &&& output.timeout == builder.timeout
    &&& declared.port is Some ==> output.events_sent@ == declared.port->0@
    &&& declared.port is None ==> output.events_sent@ == "output"@
}

/// An output without a port becomes the default output, and one with a port is
/// found under it. The channel has the size that was set.
pub proof fn outputs_are_added_as_declared(
    builder: &mut Builder,
    declared: SourceOutput,
    key: ComponentKey,
    channel: ChannelSpec,
)
    requires
        old(builder).buf_size > 0,
        call_ensures(Builder::add_source_output, (builder, declared, key), channel),
        distinct_keys(old(builder).named_outputs@),
    ensures
        channel.max_events == old(builder).buf_size,
        channel.ewma_half_life_seconds == old(builder).ewma_half_life_seconds,
        declared.port is None ==> {
            &&& channel.output@ == "output"@
            &&& final(builder).default_output is Some
            &&& made_as_declared(final(builder).default_output->0, declared, key@, *old(builder))
            &&& final(builder).named_outputs == old(builder).named_outputs
        },
        declared.port is Some ==> {
            let name = declared.port->0@;
            &&& channel.output@ == name
            &&& final(builder).default_output == old(builder).default_output
            &&& exists|made: Output| #[trigger]
                final(builder).named_outputs@.contains((name, made)) && made_as_declared(
                    made,
                    declared,
                    key@,
                    *old(builder),
                )
            &&& forall|other: Seq<char>, output: Output|
                other != name ==> (#[trigger] final(builder).named_outputs@.contains((other, output))
                    <==> old(builder).named_outputs@.contains((other, output)))
        },
{
    if declared.port is Some {
        let name = declared.port->0@;
        let made = choose|made: Output|
            final(builder).named_outputs@ == #[trigger] put(old(builder).named_outputs@, name, made)
                && built_output(*old(builder), declared, key@, made);
        put_is_found(old(builder).named_outputs@, name, made);
        assert(final(builder).named_outputs@.contains((name, made)));
    }
}

} // verus!
