//! Settings that hold for a whole pipeline.
use vstd::prelude::*;

use crate::event::metric::Float64;
use crate::event::LogNamespace;
use crate::id::clone_port;

verus! {

/// Whether deliveries are to be confirmed; `None` leaves it open.
#[derive(Debug, Clone, Copy, PartialEq, Eq, Structural)]
pub struct AcknowledgementsConfig {
    /// What was set, if anything.
    pub enabled: Option<bool>,
}

impl AcknowledgementsConfig {
    /// The setting, with what `other` says where this one leaves it open.
    pub open spec fn merged(self, other: AcknowledgementsConfig) -> AcknowledgementsConfig {
        match self.enabled {
            Some(_) => self,
            None => other,
        }
    }

    /// Whether deliveries are to be confirmed: no, where nothing was set.
    pub open spec fn is_enabled(self) -> bool {
        self.enabled == Some(true)
    }

    /// Leaves the setting open.
    pub fn unset() -> (config: Self)
        ensures
            config.enabled is None,
    {
        AcknowledgementsConfig { enabled: None }
    }

    /// Sets whether deliveries are to be confirmed.
    pub fn from_bool(enabled: bool) -> (config: Self)
        ensures
            config.enabled == Some(enabled),
    {
        AcknowledgementsConfig { enabled: Some(enabled) }
    }

    /// The setting, with what `other` says where this one leaves it open.
    pub fn merge_default(&self, other: &AcknowledgementsConfig) -> (config: Self)
        ensures
            config == self.merged(*other),
    {
        match self.enabled {
            Some(_) => *self,
            None => *other,
        }
    }

    /// Decides whether deliveries are to be confirmed.
    pub fn enabled(&self) -> (enabled: bool)
        ensures
            enabled == self.is_enabled(),
    {
        match self.enabled {
            Some(enabled) => enabled,
            None => false,
        }
    }
}

/// What an input with a wildcard that matches nothing means.
#[derive(Debug, Clone, Copy, PartialEq, Eq, Structural)]
pub enum WildcardMatching {
    /// It is a mistake.
    Strict,
    /// It stands for no input at all.
    Relaxed,
}

/// A number from the configuration, together with its text.
#[derive(Debug)]
pub struct ConfiguredNumber {
    /// The number.
    pub number: Float64,
    /// The number as it is written in messages.
    pub text: String,
}

impl Clone for ConfiguredNumber {
    fn clone(&self) -> (copy: Self)
        ensures
            copy == *self,
    {
        ConfiguredNumber { number: self.number, text: self.text.clone() }
    }
}

/// Settings that all components share.
#[derive(Debug)]
pub struct GlobalOptions {
    /// The directory for data that is to outlive a run.
    pub data_dir: Option<String>,
    /// Whether deliveries are to be confirmed.
    pub acknowledgements: AcknowledgementsConfig,
    /// What an input with a wildcard that matches nothing means.
    pub wildcard_matching: Option<WildcardMatching>,
    /// How fast the measured use of buffers forgets, in seconds.
    pub buffer_utilization_ewma_half_life_seconds: Option<ConfiguredNumber>,
    /// How much weight the newest latency has.
    pub latency_ewma_alpha: Option<ConfiguredNumber>,
}

impl GlobalOptions {
    /// Whether nothing is set.
    pub open spec fn is_unset(self) -> bool {
        &&& self.data_dir is None
        &&& self.acknowledgements.enabled is None
        &&& self.wildcard_matching is None
        &&& self.buffer_utilization_ewma_half_life_seconds is None
        &&& self.latency_ewma_alpha is None
    }
}

impl Default for GlobalOptions {
    /// Nothing is set.
    fn default() -> (options: Self)
        ensures
            options.is_unset(),
    {
        GlobalOptions {
            data_dir: None,
            acknowledgements: AcknowledgementsConfig::unset(),
            wildcard_matching: None,
            buffer_utilization_ewma_half_life_seconds: None,
            latency_ewma_alpha: None,
        }
    }
}

impl Clone for GlobalOptions {
    fn clone(&self) -> (copy: Self)
        ensures
            copy == *self,
    {
        let half_life = match &self.buffer_utilization_ewma_half_life_seconds {
            Some(number) => Some(number.clone()),
            None => None,
        };
        let alpha = match &self.latency_ewma_alpha {
            Some(number) => Some(number.clone()),
            None => None,
        };
        GlobalOptions {
            data_dir: clone_port(&self.data_dir),
            acknowledgements: self.acknowledgements,
            wildcard_matching: self.wildcard_matching,
            buffer_utilization_ewma_half_life_seconds: half_life,
            latency_ewma_alpha: alpha,
        }
    }
}

/// Settings on how events are described.
#[derive(Debug, Clone, Copy, PartialEq, Eq, Structural)]
pub struct SchemaOptions {
    /// Whether what a source adds to a log entry is kept apart from its fields.
    pub log_namespace: Option<bool>,
}

/// The namespace that a setting chooses: its own, where it is set, and the
/// general one otherwise; the legacy one where neither is set.
pub open spec fn chosen_namespace(own: Option<bool>, general: Option<bool>) -> LogNamespace {
    let vector = match own {
        Some(vector) => vector,
        None => general == Some(true),
    };
    if vector {
        LogNamespace::Vector
    } else {
        LogNamespace::Legacy
    }
}

/// Chooses the namespace of log entries.
pub fn choose_namespace(own: Option<bool>, general: Option<bool>) -> (namespace: LogNamespace)
    ensures
        namespace == chosen_namespace(own, general),
{
    let vector = match own {
        Some(vector) => vector,
        None => match general {
            Some(vector) => vector,
            None => false,
        },
    };
    if vector {
        LogNamespace::Vector
    } else {
        LogNamespace::Legacy
    }
}

impl SchemaOptions {
    /// Nothing is set.
    pub fn unset() -> (options: Self)
        ensures
            options.log_namespace is None,
    {
        SchemaOptions { log_namespace: None }
    }

    /// The namespace of log entries, where a component sets none.
    pub fn log_namespace(&self) -> (namespace: LogNamespace)
        ensures
            namespace == chosen_namespace(None, self.log_namespace),
    {
        choose_namespace(None, self.log_namespace)
    }
}

/// How to reach the outside through a proxy.
#[derive(Debug)]
pub struct ProxyConfig {
    /// Whether a proxy is used at all.
    pub enabled: bool,
    /// The proxy for plain requests.
    pub http: Option<String>,
    /// The proxy for encrypted requests.
    pub https: Option<String>,
}

impl Default for ProxyConfig {
    /// Proxies may be used, but none is named.
    fn default() -> (proxy: Self)
        ensures
            proxy.is_default(),
    {
        ProxyConfig { enabled: true, http: None, https: None }
    }
}

impl Clone for ProxyConfig {
    fn clone(&self) -> (copy: Self)
        ensures
            copy == *self,
    {
        ProxyConfig {
            enabled: self.enabled,
            http: clone_port(&self.http),
            https: clone_port(&self.https),
        }
    }
}

impl ProxyConfig {
    /// Whether proxies may be used, but none is named.
    pub open spec fn is_default(self) -> bool {
        self.enabled && self.http is None && self.https is None
    }

    /// Whether two settings say the same.
    pub open spec fn agrees(self, other: ProxyConfig) -> bool {
        &&& self.enabled == other.enabled
        &&& crate::id::port_text(self.http) == crate::id::port_text(other.http)
        &&& crate::id::port_text(self.https) == crate::id::port_text(other.https)
    }

    /// Decides whether two settings say the same.
    pub fn same(&self, other: &ProxyConfig) -> (same: bool)
        ensures
            same == self.agrees(*other),
    {
        self.enabled == other.enabled && crate::id::same_port(&self.http, &other.http)
            && crate::id::same_port(&self.https, &other.https)
    }
}

/// What is set here counts, and only what is left open is taken from elsewhere.
pub proof fn own_setting_goes_first(
    own: &AcknowledgementsConfig,
    other: &AcknowledgementsConfig,
    merged: AcknowledgementsConfig,
)
    requires
        call_ensures(AcknowledgementsConfig::merge_default, (own, other), merged),
    ensures
        own.enabled is Some ==> merged.enabled == own.enabled,
        own.enabled is None ==> merged.enabled == other.enabled,
{
}

/// Deliveries are confirmed only where that was set.
pub proof fn confirming_must_be_set(config: &AcknowledgementsConfig, enabled: bool)
    requires
        call_ensures(AcknowledgementsConfig::enabled, (config,), enabled),
    ensures
        enabled <==> config.enabled is Some && config.enabled->0,
{
}

/// Entries are in the namespace that is set for a component, or else in the one
/// that is set for all, or else in the legacy one.
pub proof fn namespaces_are_chosen_from_inside_out(
    own: Option<bool>,
    general: Option<bool>,
    namespace: LogNamespace,
)
    requires
        call_ensures(choose_namespace, (own, general), namespace),
    ensures
        own is Some ==> (namespace is Vector <==> own->0),
        own is None && general is Some ==> (namespace is Vector <==> general->0),
        own is None && general is None ==> namespace is Legacy,
{
}

/// The namespace where a component sets none is the one that is set for all.
pub proof fn general_namespace_is_as_set(options: &SchemaOptions, namespace: LogNamespace)
    requires
        call_ensures(SchemaOptions::log_namespace, (options,), namespace),
    ensures
        namespace is Vector <==> options.log_namespace is Some && options.log_namespace->0,
{
}

/// Settings on proxies say the same just where each of them does.
pub proof fn proxies_are_compared_part_by_part(a: &ProxyConfig, b: &ProxyConfig, same: bool)
    requires
        call_ensures(ProxyConfig::same, (a, b), same),
    ensures
        same <==> {
            &&& a.enabled == b.enabled
            &&& a.http is Some <==> b.http is Some
            &&& a.http is Some ==> a.http->0@ == b.http->0@
            &&& a.https is Some <==> b.https is Some
            &&& a.https is Some ==> a.https->0@ == b.https->0@
        },
{
}

/// Nothing is set to begin with.
pub proof fn nothing_is_set_by_default(options: GlobalOptions)
    requires
        call_ensures(GlobalOptions::default, (), options),
    ensures
        options.data_dir is None,
        options.acknowledgements.enabled is None,
        options.wildcard_matching is None,
        options.buffer_utilization_ewma_half_life_seconds is None,
        options.latency_ewma_alpha is None,
{
}

} // verus!
