//! Types that can stand in a configuration, and the schemas that describe them.
use vstd::prelude::*;

use crate::component_map::ComponentMap;

verus! {

/// What is said of a type, or of a field of that type, besides its shape.
#[derive(Debug)]
pub struct Metadata {
    /// A title.
    pub title: Option<String>,
    /// A description.
    pub description: Option<String>,
    /// The default value, as JSON.
    pub default_value: Option<String>,
    /// Other attributes, each with its value as JSON.
    pub custom_attributes: Vec<(String, String)>,
}

impl Default for Metadata {
    /// Nothing is said.
    fn default() -> (metadata: Self)
        ensures
            metadata.is_empty(),
    {
        Metadata {
            title: None,
            description: None,
            default_value: None,
            custom_attributes: Vec::new(),
        }
    }
}

impl Metadata {
    /// Whether nothing is said.
    pub open spec fn is_empty(&self) -> bool {
        &&& self.title is None
        &&& self.description is None
        &&& self.default_value is None
        &&& self.custom_attributes@.len() == 0
    }
}

/// Why a schema could not be generated.
#[derive(Debug)]
pub struct GenerateError {
    /// The reason.
    pub reason: String,
}

/// The schema of a type, as JSON.
#[derive(Debug)]
pub struct SchemaObject {
    /// The JSON text.
    pub json: String,
}

/// Collects the schemas of types that are referred to by name.
pub struct SchemaGenerator {
    /// The schemas, by name.
    pub definitions: ComponentMap<SchemaObject>,
}

/// A type that can stand in a configuration.
pub trait Configurable: Sized {
    /// The name under which schemas refer to the type, where it has one.
    fn referenceable_name() -> (name: Option<&'static str>)
        default_ensures
            name is None,
    {
        None
    }

    /// Whether a field of the type may be left out.
    fn is_optional() -> (optional: bool)
        default_ensures
            !optional,
    {
        false
    }

    /// What is said of the type besides its shape.
    fn metadata() -> (metadata: Metadata)
        default_ensures
            metadata.is_empty(),
    {
        Metadata::default()
    }

    /// Checks that what is said of a field fits the type.
    fn validate_metadata(metadata: &Metadata) -> (result: Result<(), GenerateError>)
        default_ensures
            result is Ok,
    {
        Ok(())
    }

    /// Generates the schema of the type.
    fn generate_schema(generator: &mut SchemaGenerator) -> Result<SchemaObject, GenerateError>;
}

/// Whether this is what a type says of itself.
pub open spec fn describes<T: Configurable>(made: ConfigurableRef) -> bool {
    &&& call_ensures(T::referenceable_name, (), made.referenceable_name)
    &&& call_ensures(T::is_optional, (), made.is_optional)
    &&& call_ensures(T::metadata, (), made.metadata)
}

/// What can be said of a type that can stand in a configuration without having
/// the type at hand.
#[derive(Debug)]
pub struct ConfigurableRef {
    /// The name under which schemas refer to the type, where it has one.
    pub referenceable_name: Option<&'static str>,
    /// Whether a field of the type may be left out.
    pub is_optional: bool,
    /// What is said of the type besides its shape.
    pub metadata: Metadata,
}

impl ConfigurableRef {
    /// What the given type says of itself.
    pub fn new<T: Configurable>() -> (made: Self)
        ensures
            describes::<T>(made),
    {
        ConfigurableRef {
            referenceable_name: T::referenceable_name(),
            is_optional: T::is_optional(),
            metadata: T::metadata(),
        }
    }

    /// The name under which schemas refer to the type, where it has one.
    pub fn referenceable_name(&self) -> (name: Option<&'static str>)
        ensures
            name == self.referenceable_name,
    {
        self.referenceable_name
    }
}

/// What the given type says of itself.
pub fn as_configurable_ref<T: Configurable>() -> (made: ConfigurableRef)
    ensures
        describes::<T>(made),
{
    ConfigurableRef::new::<T>()
}

impl Configurable for String {
    fn referenceable_name() -> (name: Option<&'static str>)
        ensures
            name is Some && name->0@ == "stdlib::String"@,
    {
        Some("stdlib::String")
    }

    fn generate_schema(generator: &mut SchemaGenerator) -> (schema: Result<
        SchemaObject,
        GenerateError,
    >)
        ensures
            schema is Ok && schema->Ok_0.json@ == "{\"type\":\"string\"}"@,
            *final(generator) == *old(generator),
    {
        Ok(SchemaObject { json: "{\"type\":\"string\"}".to_owned() })
    }
}

impl Configurable for bool {
    fn referenceable_name() -> (name: Option<&'static str>)
        ensures
            name is Some && name->0@ == "stdlib::bool"@,
    {
        Some("stdlib::bool")
    }

    fn generate_schema(generator: &mut SchemaGenerator) -> (schema: Result<
        SchemaObject,
        GenerateError,
    >)
        ensures
            schema is Ok && schema->Ok_0.json@ == "{\"type\":\"boolean\"}"@,
            *final(generator) == *old(generator),
    {
        Ok(SchemaObject { json: "{\"type\":\"boolean\"}".to_owned() })
    }
}

} // verus!
