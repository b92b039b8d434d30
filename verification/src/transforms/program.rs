//! Programs in the Vector Remap Language (VRL).
use vrl::value::Value as VrlValue;
use vstd::prelude::*;

use crate::event::value::{
    field_at, fields_model, last_named, last_named_at, Value, ValueModel,
};
use crate::transforms::syntax::{runs_to_an_end, steady};

verus! {

/// A compiled program of the `vrl` crate.
#[verifier::external_type_specification]
#[verifier::external_body]
pub struct ExProgram(vrl::compiler::Program);

/// A value of the `vrl` crate.
#[verifier::external_type_specification]
#[verifier::external_body]
pub struct ExVrlValue(VrlValue);

/// Event data in the form that programs work on.
///
/// Converting is the only way to get it, so that it always belongs to some data
/// of this crate.
pub struct VrlData {
    data: Ghost<ValueModel>,
    value: VrlValue,
}

impl VrlData {
    /// The data that was converted.
    pub closed spec fn data(&self) -> ValueModel {
        self.data@
    }
}

/// A compiled program and its source.
///
/// Compiling is the only way to get one, so the two always belong together, and
/// the program always runs to an end.
#[derive(Debug)]
pub struct VrlProgram {
    source: String,
    program: vrl::compiler::Program,
}

impl VrlProgram {
    /// The source of the program.
    pub closed spec fn source(&self) -> Seq<char> {
        self.source@
    }

    /// The program runs to an end.
    #[verifier::type_invariant]
    pub open spec fn ends(self) -> bool {
        runs_to_an_end(self.source())
    }
}

impl Clone for VrlProgram {
    /// `vrl::compiler::Program::clone`: another handle on the same program.
    #[verifier::external_body]
    fn clone(&self) -> (copy: Self)
        ensures
            copy.source() == self.source(),
    {
        VrlProgram { source: self.source.clone(), program: self.program.clone() }
    }
}

/// What comes of compiling a VRL program for a condition, on a machine with
/// words of so many bits: whether its last expression always gives a truth
/// value, or nothing where it does not compile.
///
/// The size of a word bounds how large a number of items may be, and how large a
/// pattern.
pub uninterp spec fn vrl_compiled(source: Seq<char>, word: u32) -> Option<bool>;

/// What a VRL program gives for an event, on a machine with words of so many
/// bits: a truth value, or nothing where it fails or gives something else.
pub uninterp spec fn vrl_outcome(source: Seq<char>, event: ValueModel, word: u32) -> Option<bool>;

/// `vrl::compiler::compile_with_external`: compiles a program that may not
/// change the event and that knows the functions of `vrl::stdlib::all`.
/// Whether the type of its last expression is boolean is as
/// `vrl::compiler::Program::final_type_info` says. A program that does not
/// compile gives the diagnostics as `vrl::diagnostic::Formatter` writes them;
/// what they say is left open, since their order is not fixed. Only a program
/// that [`runs_to_an_end`] may be compiled: of others the compiler may panic.
#[verifier::external_body]
pub(crate) fn compile_vrl(source: &str) -> (compiled: Result<(VrlProgram, bool), String>)
    requires
        runs_to_an_end(source@),
    ensures
        match (compiled, vrl_compiled(source@, usize::BITS)) {
            (Ok((program, boolean)), Some(expected)) => program.source() == source@ && boolean
                == expected,
            (Err(_), None) => true,
            _ => false,
        },
{
    let mut config = vrl::compiler::CompileConfig::default();
    config.set_read_only();
    let compiled =
        vrl::compiler::compile_with_external(source, &vrl::stdlib::all(), &Default::default(), config)
            .map_err(|list| vrl::diagnostic::Formatter::new(source, list).to_string())?;
    let boolean = compiled.program.final_type_info().result.is_boolean();
    Ok((VrlProgram { source: source.to_owned(), program: compiled.program }, boolean))
}

/// The variants of `vrl::value::Value` that hold no others, and
/// `chrono::DateTime::from_timestamp` and `regex::Regex::new` for two of them:
/// data that is no object and no list, in the form that programs work on. A
/// pattern that is no regular expression and a text that is no number, which no
/// data of a pipeline has, become no value.
#[verifier::external_body]
fn scalar_to_vrl(data: &Value) -> (made: VrlData)
    requires
        !(data is Object),
        !(data is Array),
    ensures
        made.data() == data@,
{
    let value = match data {
        Value::Bytes(bytes) => VrlValue::from(bytes.as_slice()),
        Value::Regex(pattern) => regex::Regex::new(pattern).ok().into(),
        Value::Integer(number) => VrlValue::Integer(*number),
        Value::Float(text) => text.parse().map_or(VrlValue::Null, VrlValue::Float),
        Value::Boolean(truth) => VrlValue::Boolean(*truth),
        Value::Timestamp(time) => {
            chrono::DateTime::from_timestamp(time.secs(), time.subsec_nanos()).into()
        },
        _ => VrlValue::Null,
    };
    VrlData { data: Ghost(data@), value }
}

/// What the items of a list stand for.
pub open spec fn items_data(items: Seq<VrlData>) -> Seq<ValueModel> {
    Seq::new(items.len(), |i: int| items[i].data())
}

/// `vrl::value::Value::Array`: a list, in the form that programs work on.
#[verifier::external_body]
fn list_to_vrl(items: Vec<VrlData>) -> (made: VrlData)
    ensures
        made.data() == ValueModel::Array(items_data(items@)),
{
    let data = Ghost(ValueModel::Array(items_data(items@)));
    VrlData { data, value: items.into_iter().map(|item| item.value).collect() }
}

/// What named fields stand for. Of several with the same name the last counts.
pub open spec fn fields_data(fields: Seq<(String, VrlData)>) -> Map<Seq<char>, ValueModel> {
    Map::new(
        |name: Seq<char>| last_named(fields, name) >= 0,
        |name: Seq<char>| fields[last_named(fields, name)].1.data(),
    )
}

/// `vrl::value::Value::Object`: named fields, in the form that programs work on.
/// They are put into a map one after the other, so that of several with the
/// same name the last counts.
#[verifier::external_body]
fn object_to_vrl(fields: Vec<(String, VrlData)>) -> (made: VrlData)
    ensures
        made.data() == ValueModel::Object(fields_data(fields@)),
{
    let data = Ghost(ValueModel::Object(fields_data(fields@)));
    VrlData { data, value: fields.into_iter().map(|(name, item)| (name, item.value)).collect() }
}

/// Event data in the form that programs work on.
pub(crate) fn to_vrl(data: &Value) -> (made: VrlData)
    ensures
        made.data() == data@,
    decreases data,
{
    match data {
        Value::Object(fields) => {
            let mut list: Vec<(String, VrlData)> = Vec::new();
            let mut i: usize = 0;
            while i < fields.len()
                invariant
                    i <= fields.len(),
                    list@.len() == i,
                    *data == Value::Object(*fields),
                    forall|j: int|
                        0 <= j < i ==> (#[trigger] list@[j]).0@ == fields@[j].0@ && list@[j].1.data()
                            == fields@[j].1@,
                decreases fields.len() - i,
            {
                assert(decreases_to!(*data => data->Object_0));
                assert(decreases_to!(*data => fields@));
                assert(decreases_to!(*data => fields@[i as int]));
                list.push((fields[i].0.clone(), to_vrl(&fields[i].1)));
                i = i + 1;
            }
            proof {
                let made = fields_data(list@);
                let wanted = fields_model(fields@);
                assert forall|name: Seq<char>| #[trigger]
                    made.contains_key(name) == wanted.contains_key(name) by {
                    field_at(fields@, name);
                    last_named_at(list@, name, last_named(fields@, name));
                }
                assert forall|name: Seq<char>| made.contains_key(name) implies #[trigger] made[name]
                    == wanted[name] by {
                    field_at(fields@, name);
                    last_named_at(list@, name, last_named(fields@, name));
                }
                assert(made =~= wanted);
            }
            object_to_vrl(list)
        },
        Value::Array(items) => {
            let mut list: Vec<VrlData> = Vec::new();
            let mut i: usize = 0;
            while i < items.len()
                invariant
                    i <= items.len(),
                    list@.len() == i,
                    *data == Value::Array(*items),
                    forall|j: int| 0 <= j < i ==> (#[trigger] list@[j]).data() == items@[j]@,
                decreases items.len() - i,
            {
                assert(decreases_to!(*data => data->Array_0));
                assert(decreases_to!(*data => items@));
                list.push(to_vrl(&items[i]));
                i = i + 1;
            }
            assert(items_data(list@) =~= data@->Array_0);
            list_to_vrl(list)
        },
        _ => scalar_to_vrl(data),
    }
}

/// `vrl::compiler::runtime::Runtime::resolve`: runs a program on event data.
/// What comes of a program that calls other functions than those of [`steady`]
/// is left unsaid: it may go by the time, by chance or by the machine. Only a
/// program that [`runs_to_an_end`] may be run: others may panic.
#[verifier::external_body]
pub(crate) fn run_vrl(program: &VrlProgram, event: VrlData) -> (outcome: Option<bool>)
    requires
        runs_to_an_end(program.source()),
    ensures
        steady(program.source()) ==> outcome == vrl_outcome(
            program.source(),
            event.data(),
            usize::BITS,
        ),
{
    let metadata = VrlValue::Object(Default::default());
    let secrets = Default::default();
    let mut target = vrl::compiler::TargetValue { value: event.value, metadata, secrets };
    let mut runtime = vrl::compiler::runtime::Runtime::default();
    runtime.resolve(&mut target, &program.program, &Default::default()).ok()?.as_boolean()
}

} // verus!
