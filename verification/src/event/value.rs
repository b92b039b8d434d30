//! The data of log and trace events.
use vstd::prelude::*;

use crate::event::time::Time;
use crate::text::same_text;

verus! {

/// A piece of event data.
#[derive(Debug)]
pub enum Value {
    /// Bytes, most often a text.
    Bytes(Vec<u8>),
    /// A regular expression, by its pattern.
    Regex(String),
    /// A whole number.
    Integer(i64),
    /// A floating-point number, by its shortest decimal text.
    Float(String),
    /// A truth value.
    Boolean(bool),
    /// A point in time.
    Timestamp(Time),
    /// Named fields. Of several with the same name the last counts.
    Object(Vec<(String, Value)>),
    /// A list.
    Array(Vec<Value>),
    /// No value.
    Null,
}

/// What a [`Value`] stands for: the same tree over mathematical texts, lists and
/// maps. The order of the fields of an object does not matter.
pub ghost enum ValueModel {
    Bytes(Seq<u8>),
    Regex(Seq<char>),
    Integer(i64),
    Float(Seq<char>),
    Boolean(bool),
    Timestamp(Time),
    Object(Map<Seq<char>, ValueModel>),
    Array(Seq<ValueModel>),
    Null,
}

/// The place of the last field with a name, or less than nought.
pub open spec fn last_named<T>(fields: Seq<(String, T)>, name: Seq<char>) -> int
    decreases fields.len(),
{
    if fields.len() == 0 {
        -1
    } else if fields.last().0@ == name {
        fields.len() - 1
    } else {
        last_named(fields.drop_last(), name)
    }
}

/// The place of the last field with a name has that name, and none behind it
/// has.
pub proof fn last_named_is<T>(fields: Seq<(String, T)>, name: Seq<char>)
    ensures
        -1 <= last_named(fields, name) < fields.len(),
        last_named(fields, name) >= 0 ==> fields[last_named(fields, name)].0@ == name,
        forall|i: int|
            last_named(fields, name) < i < fields.len() ==> (#[trigger] fields[i]).0@ != name,
    decreases fields.len(),
{
    if fields.len() > 0 && fields.last().0@ != name {
        last_named_is(fields.drop_last(), name);
        let place = last_named(fields, name);
        assert forall|i: int| place < i < fields.len() implies (#[trigger] fields[i]).0@ != name by {
            if i < fields.len() - 1 {
                assert(fields.drop_last()[i] == fields[i]);
            }
        }
        if place >= 0 {
            assert(fields.drop_last()[place] == fields[place]);
        }
    }
}

/// A place that has a name, with none behind it that has, is the last one.
pub proof fn last_named_at<T>(fields: Seq<(String, T)>, name: Seq<char>, place: int)
    requires
        -1 <= place < fields.len(),
        place >= 0 ==> fields[place].0@ == name,
        forall|i: int| place < i < fields.len() ==> (#[trigger] fields[i]).0@ != name,
    ensures
        last_named(fields, name) == place,
{
    last_named_is(fields, name);
    let found = last_named(fields, name);
    if found > place {
        assert(fields[found].0@ != name);
    }
    if found < place {
        assert(fields[place].0@ != name);
    }
}

/// What named fields stand for.
pub open spec fn fields_model(fields: Seq<(String, Value)>) -> Map<Seq<char>, ValueModel>
    decreases fields,
{
    Map::new(
        |name: Seq<char>| last_named(fields, name) >= 0,
        |name: Seq<char>|
            {
                let i = last_named(fields, name);
                if 0 <= i < fields.len() {
                    fields[i].1.model()
                } else {
                    arbitrary()
                }
            },
    )
}

/// What a name stands for among named fields.
pub proof fn field_at(fields: Seq<(String, Value)>, name: Seq<char>)
    ensures
        -1 <= last_named(fields, name) < fields.len(),
        fields_model(fields).contains_key(name) == (last_named(fields, name) >= 0),
        last_named(fields, name) >= 0 ==> fields[last_named(fields, name)].0@ == name
            && fields_model(fields)[name] == fields[last_named(fields, name)].1@,
        forall|i: int|
            last_named(fields, name) < i < fields.len() ==> (#[trigger] fields[i]).0@ != name,
{
    reveal_with_fuel(fields_model, 2);
    last_named_is(fields, name);
}

/// Adds a field. Its value takes the place of that of a field with the same
/// name.
pub fn push_field(fields: &mut Vec<(String, Value)>, name: &str, value: Value)
    ensures
        fields_model(final(fields)@) == fields_model(old(fields)@).insert(name@, value@),
{
    let ghost before = fields@;
    fields.push((name.to_owned(), value));
    proof {
        assert(fields@.drop_last() =~= before);
        let made = fields_model(fields@);
        let wanted = fields_model(before).insert(name@, value@);
        assert forall|n: Seq<char>| #[trigger] made.contains_key(n) == wanted.contains_key(n) by {
            field_at(before, n);
            field_at(fields@, n);
        }
        assert forall|n: Seq<char>| made.contains_key(n) implies #[trigger] made[n] == wanted[n] by {
            field_at(before, n);
            field_at(fields@, n);
        }
        assert(made =~= wanted);
    }
}

impl View for Value {
    type V = ValueModel;

    open spec fn view(&self) -> ValueModel {
        self.model()
    }
}

impl Value {
    /// The tree that this value stands for.
    pub open spec fn model(self) -> ValueModel
        decreases self,
    {
        match self {
            Value::Bytes(bytes) => ValueModel::Bytes(bytes@),
            Value::Regex(pattern) => ValueModel::Regex(pattern@),
            Value::Integer(number) => ValueModel::Integer(number),
            Value::Float(text) => ValueModel::Float(text@),
            Value::Boolean(truth) => ValueModel::Boolean(truth),
            Value::Timestamp(time) => ValueModel::Timestamp(time),
            Value::Object(fields) => ValueModel::Object(fields_model(fields@)),
            Value::Array(items) => ValueModel::Array(
                Seq::new(
                    items@.len(),
                    |i: int|
                        if 0 <= i < items@.len() {
                            items@[i].model()
                        } else {
                            arbitrary()
                        },
                ),
            ),
            Value::Null => ValueModel::Null,
        }
    }

    /// A text.
    pub fn text(text: &str) -> (value: Value)
        ensures
            value@ == ValueModel::Bytes(vstd::utf8::encode_utf8(text@)),
    {
        Value::Bytes(text.as_bytes_vec())
    }

    /// A value that stands for the same data.
    pub fn duplicate(&self) -> (copy: Value)
        ensures
            copy@ == self@,
            copy is Object <==> self is Object,
        decreases self,
    {
        match self {
            Value::Bytes(bytes) => Value::Bytes(copy_bytes(bytes)),
            Value::Regex(pattern) => Value::Regex(pattern.clone()),
            Value::Integer(number) => Value::Integer(*number),
            Value::Float(text) => Value::Float(text.clone()),
            Value::Boolean(truth) => Value::Boolean(*truth),
            Value::Timestamp(time) => Value::Timestamp(*time),
            Value::Object(fields) => {
                let mut copies: Vec<(String, Value)> = Vec::new();
                let mut i: usize = 0;
                while i < fields.len()
                    invariant
                        i <= fields.len(),
                        copies@.len() == i,
                        *self == Value::Object(*fields),
                        forall|j: int|
                            0 <= j < i ==> (#[trigger] copies@[j]).0@ == fields@[j].0@ && copies@[j].1@
                                == fields@[j].1@,
                    decreases fields.len() - i,
                {
                    assert(decreases_to!(*self => self->Object_0));
                    assert(decreases_to!(*self => fields@));
                    assert(decreases_to!(*self => fields@[i as int]));
                    let copy = fields[i].1.duplicate();
                    copies.push((fields[i].0.clone(), copy));
                    i = i + 1;
                }
                let copy = Value::Object(copies);
                proof {
                    assert forall|name: Seq<char>| #[trigger]
                        last_named(copies@, name) == last_named(fields@, name) by {
                        last_named_is(fields@, name);
                        last_named_at(copies@, name, last_named(fields@, name));
                    }
                    let made = fields_model(copies@);
                    let wanted = fields_model(fields@);
                    assert forall|name: Seq<char>| #[trigger]
                        made.contains_key(name) == wanted.contains_key(name) by {
                        field_at(copies@, name);
                        field_at(fields@, name);
                    }
                    assert forall|name: Seq<char>| made.contains_key(name) implies #[trigger]
                        made[name] == wanted[name] by {
                        field_at(copies@, name);
                        field_at(fields@, name);
                    }
                    assert(made =~= wanted);
                }
                copy
            },
            Value::Array(items) => {
                let mut copies: Vec<Value> = Vec::new();
                let mut i: usize = 0;
                while i < items.len()
                    invariant
                        i <= items.len(),
                        copies@.len() == i,
                        *self == Value::Array(*items),
                        forall|j: int| 0 <= j < i ==> (#[trigger] copies@[j])@ == items@[j]@,
                    decreases items.len() - i,
                {
                    assert(decreases_to!(*self => self->Array_0));
                    assert(decreases_to!(*self => items@));
                    let copy = items[i].duplicate();
                    copies.push(copy);
                    i = i + 1;
                }
                let copy = Value::Array(copies);
                assert(copy@->Array_0 =~= self@->Array_0);
                copy
            },
            Value::Null => Value::Null,
        }
    }

    /// Whether two values stand for the same data.
    pub fn same(&self, other: &Value) -> (same: bool)
        ensures
            same == (self@ == other@),
        decreases self,
    {
        match (self, other) {
            (Value::Bytes(a), Value::Bytes(b)) => same_bytes(a, b),
            (Value::Regex(a), Value::Regex(b)) => *a == *b,
            (Value::Integer(a), Value::Integer(b)) => *a == *b,
            (Value::Float(a), Value::Float(b)) => *a == *b,
            (Value::Boolean(a), Value::Boolean(b)) => *a == *b,
            (Value::Timestamp(a), Value::Timestamp(b)) => *a == *b,
            (Value::Object(a), Value::Object(b)) => {
                let ghost ma = fields_model(a@);
                let ghost mb = fields_model(b@);
                let mut i: usize = 0;
                while i < a.len()
                    invariant
                        i <= a.len(),
                        *self == Value::Object(*a),
                        *other == Value::Object(*b),
                        ma == fields_model(a@),
                        mb == fields_model(b@),
                        forall|j: int|
                            0 <= j < i && last_named(a@, (#[trigger] a@[j]).0@) == j
                                ==> mb.contains_key(a@[j].0@) && a@[j].1@ == mb[a@[j].0@],
                    decreases a.len() - i,
                {
                    let name = a[i].0.as_str();
                    proof {
                        field_at(a@, name@);
                        field_at(b@, name@);
                        assert(decreases_to!(*self => self->Object_0));
                        assert(decreases_to!(*self => a@));
                        assert(decreases_to!(*self => a@[i as int]));
                    }
                    if let Some(last) = find_last(a, name) {
                        if last == i {
                            assert(ma.contains_key(name@) && ma[name@] == a@[i as int].1@);
                            match find_last(b, name) {
                                Some(j) => {
                                    assert(mb.contains_key(name@) && mb[name@] == b@[j as int].1@);
                                    if !a[i].1.same(&b[j].1) {
                                        return false;
                                    }
                                },
                                None => {
                                    assert(!mb.contains_key(name@));
                                    return false;
                                },
                            }
                        }
                    }
                    i = i + 1;
                }
                let mut j: usize = 0;
                while j < b.len()
                    invariant
                        j <= b.len(),
                        *self == Value::Object(*a),
                        *other == Value::Object(*b),
                        ma == fields_model(a@),
                        mb == fields_model(b@),
                        forall|k: int| 0 <= k < j ==> ma.contains_key((#[trigger] b@[k]).0@),
                    decreases b.len() - j,
                {
                    proof {
                        field_at(a@, b@[j as int].0@);
                        field_at(b@, b@[j as int].0@);
                        assert(mb.contains_key(b@[j as int].0@));
                    }
                    if find_last(a, b[j].0.as_str()).is_none() {
                        assert(!ma.contains_key(b@[j as int].0@));
                        return false;
                    }
                    j = j + 1;
                }
                proof {
                    assert forall|name: Seq<char>| #[trigger]
                        ma.contains_key(name) == mb.contains_key(name) by {
                        field_at(a@, name);
                        field_at(b@, name);
                        if ma.contains_key(name) {
                            assert(a@[last_named(a@, name)].0@ == name);
                        }
                        if mb.contains_key(name) {
                            assert(b@[last_named(b@, name)].0@ == name);
                        }
                    }
                    assert forall|name: Seq<char>| ma.contains_key(name) implies #[trigger] ma[name]
                        == mb[name] by {
                        field_at(a@, name);
                        assert(a@[last_named(a@, name)].0@ == name);
                    }
                    assert(ma =~= mb);
                }
                true
            },
            (Value::Array(a), Value::Array(b)) => {
                if a.len() != b.len() {
                    assert(self@->Array_0.len() != other@->Array_0.len());
                    return false;
                }
                let mut i: usize = 0;
                while i < a.len()
                    invariant
                        i <= a.len(),
                        a.len() == b.len(),
                        *self == Value::Array(*a),
                        *other == Value::Array(*b),
                        forall|j: int| 0 <= j < i ==> (#[trigger] a@[j])@ == b@[j]@,
                    decreases a.len() - i,
                {
                    assert(decreases_to!(*self => a@[i as int]));
                    if !a[i].same(&b[i]) {
                        assert(self@->Array_0[i as int] != other@->Array_0[i as int]);
                        return false;
                    }
                    i = i + 1;
                }
                assert(self@->Array_0 =~= other@->Array_0);
                true
            },
            (Value::Null, Value::Null) => true,
            _ => false,
        }
    }

    /// Looks up a field by its name, where the value is an object with such a
    /// field.
    pub fn get(&self, name: &str) -> (found: Option<&Value>)
        ensures
            match (field_of(self@, name@), found) {
                (Some(model), Some(value)) => value@ == model,
                (None, None) => true,
                _ => false,
            },
    {
        match self {
            Value::Object(fields) => {
                proof {
                    field_at(fields@, name@);
                }
                match find_last(fields, name) {
                    Some(i) => Some(&fields[i].1),
                    None => None,
                }
            },
            _ => None,
        }
    }
}

/// What the field with a name holds, where the value is an object with such a
/// field.
pub open spec fn field_of(value: ValueModel, name: Seq<char>) -> Option<ValueModel> {
    match value {
        ValueModel::Object(fields) => if fields.contains_key(name) {
            Some(fields[name])
        } else {
            None
        },
        _ => None,
    }
}

/// The order of the fields of an object does not matter: two neighbours with
/// different names may change places.
pub proof fn fields_may_change_places(
    fields: Vec<(String, Value)>,
    swapped: Vec<(String, Value)>,
    i: int,
)
    requires
        0 <= i < fields@.len() - 1,
        fields@[i].0@ != fields@[i + 1].0@,
        swapped@ == fields@.update(i, fields@[i + 1]).update(i + 1, fields@[i]),
    ensures
        Value::Object(fields)@ == Value::Object(swapped)@,
{
    let other = |k: int|
        if k == i {
            i + 1
        } else if k == i + 1 {
            i
        } else {
            k
        };
    assert forall|name: Seq<char>| (#[trigger] last_named(fields@, name)) >= 0 implies swapped@[other(
        last_named(fields@, name),
    )] == fields@[last_named(fields@, name)] && last_named(swapped@, name) == other(
        last_named(fields@, name),
    ) by {
        last_named_is(fields@, name);
        let place = last_named(fields@, name);
        assert forall|k: int| other(place) < k < swapped@.len() implies (
        #[trigger] swapped@[k]).0@ != name by {
            assert(swapped@[k] == fields@[other(k)]);
        }
        last_named_at(swapped@, name, other(place));
    }
    assert forall|name: Seq<char>| (#[trigger] last_named(fields@, name)) < 0 implies last_named(
        swapped@,
        name,
    ) < 0 by {
        last_named_is(fields@, name);
        assert forall|k: int| -1 < k < swapped@.len() implies (#[trigger] swapped@[k]).0@ != name by {
            assert(swapped@[k] == fields@[other(k)]);
        }
        last_named_at(swapped@, name, -1);
    }
    let a = fields_model(fields@);
    let b = fields_model(swapped@);
    assert forall|name: Seq<char>| #[trigger] a.contains_key(name) == b.contains_key(name) by {
        field_at(fields@, name);
        field_at(swapped@, name);
    }
    assert forall|name: Seq<char>| a.contains_key(name) implies #[trigger] a[name] == b[name] by {
        field_at(fields@, name);
        field_at(swapped@, name);
    }
    assert(a =~= b);
}

/// The place of the last field with a name, where there is one.
fn find_last(fields: &Vec<(String, Value)>, name: &str) -> (place: Option<usize>)
    ensures
        match place {
            Some(i) => i < fields@.len() && last_named(fields@, name@) == i,
            None => last_named(fields@, name@) == -1,
        },
{
    let mut i: usize = fields.len();
    while i > 0
        invariant
            i <= fields@.len(),
            forall|j: int| i <= j < fields@.len() ==> (#[trigger] fields@[j]).0@ != name@,
        decreases i,
    {
        i = i - 1;
        if same_text(fields[i].0.as_str(), name) {
            proof {
                last_named_at(fields@, name@, i as int);
            }
            return Some(i);
        }
    }
    proof {
        last_named_at(fields@, name@, -1);
    }
    None
}

/// A copy of some bytes.
fn copy_bytes(bytes: &Vec<u8>) -> (copy: Vec<u8>)
    ensures
        copy@ == bytes@,
{
    let mut copy: Vec<u8> = Vec::new();
    let mut i: usize = 0;
    while i < bytes.len()
        invariant
            i <= bytes.len(),
            copy@ == bytes@.take(i as int),
        decreases bytes.len() - i,
    {
        copy.push(bytes[i]);
        assert(copy@ =~= bytes@.take(i + 1));
        i = i + 1;
    }
    assert(copy@ =~= bytes@);
    copy
}

/// Decides whether bytes are the same.
fn same_bytes(a: &Vec<u8>, b: &Vec<u8>) -> (same: bool)
    ensures
        same == (a@ == b@),
{
    if a.len() != b.len() {
        return false;
    }
    let mut i: usize = 0;
    while i < a.len()
        invariant
            i <= a.len(),
            a.len() == b.len(),
            forall|j: int| 0 <= j < i ==> a@[j] == b@[j],
        decreases a.len() - i,
    {
        if a[i] != b[i] {
            return false;
        }
        i = i + 1;
    }
    assert(a@ =~= b@);
    true
}

/// Data are the same where they are of one kind and hold the same.
pub proof fn data_are_compared_by_what_they_hold(a: &Value, b: &Value, same: bool)
    requires
        call_ensures(Value::same, (a, b), same),
    ensures
        match (*a, *b) {
            (Value::Bytes(x), Value::Bytes(y)) => same <==> x@ == y@,
            (Value::Regex(x), Value::Regex(y)) => same <==> x@ == y@,
            (Value::Integer(x), Value::Integer(y)) => same <==> x == y,
            (Value::Float(x), Value::Float(y)) => same <==> x@ == y@,
            (Value::Boolean(x), Value::Boolean(y)) => same <==> x == y,
            (Value::Timestamp(x), Value::Timestamp(y)) => same <==> x == y,
            (Value::Array(x), Value::Array(y)) => same <==> x@.len() == y@.len() && forall|i: int|
                0 <= i < x@.len() ==> (#[trigger] x@[i])@ == y@[i]@,
            (Value::Object(x), Value::Object(y)) => same ==> forall|i: int, j: int|
                is_last_named(x@, i) && is_last_named(y@, j) && (#[trigger] x@[i]).0@ == (
                #[trigger] y@[j]).0@ ==> x@[i].1@ == y@[j].1@,
            (Value::Null, Value::Null) => same,
            _ => !same,
        },
{
    match (*a, *b) {
        (Value::Array(x), Value::Array(y)) => {
            let left = a@->Array_0;
            let right = b@->Array_0;
            assert(left.len() == x@.len() && right.len() == y@.len());
            assert forall|i: int| 0 <= i < x@.len() implies left[i] == (#[trigger] x@[i])@ by {}
            assert forall|i: int| 0 <= i < y@.len() implies right[i] == (#[trigger] y@[i])@ by {}
            if same {
                assert forall|i: int| 0 <= i < x@.len() implies (#[trigger] x@[i])@ == y@[i]@ by {
                    assert(left[i] == right[i]);
                }
            }
            if x@.len() == y@.len() && forall|i: int|
                0 <= i < x@.len() ==> (#[trigger] x@[i])@ == y@[i]@ {
                assert forall|i: int| 0 <= i < left.len() implies left[i] == right[i] by {
                    assert(x@[i]@ == y@[i]@);
                }
                assert(left =~= right);
            }
        },
        (Value::Object(x), Value::Object(y)) => {
            if same {
                assert forall|i: int, j: int|
                    is_last_named(x@, i) && is_last_named(y@, j) && (#[trigger] x@[i]).0@ == (
                    #[trigger] y@[j]).0@ implies x@[i].1@ == y@[j].1@ by {
                    let name = x@[i].0@;
                    last_named_at(x@, name, i);
                    last_named_at(y@, name, j);
                    field_at(x@, name);
                    field_at(y@, name);
                }
            }
        },
        _ => {},
    }
}

/// Whether no field behind a place has the name of the one there.
pub open spec fn is_last_named(fields: Seq<(String, Value)>, place: int) -> bool {
    &&& 0 <= place < fields.len()
    &&& forall|i: int| place < i < fields.len() ==> (#[trigger] fields[i]).0@ != fields[place].0@
}

/// What is looked up under a name is what the last field with the name holds,
/// and nothing where there is none or where the value has no fields.
pub proof fn fields_are_looked_up_by_name(
    value: &Value,
    name: &str,
    found: Option<&Value>,
    place: int,
)
    requires
        call_ensures(Value::get, (value, name), found),
    ensures
        !(value is Object) ==> found is None,
        value is Object && is_last_named(value->Object_0@, place) && value->Object_0@[place].0@
            == name@ ==> found is Some && found->0@ == value->Object_0@[place].1@,
        value is Object && (forall|i: int|
            0 <= i < value->Object_0@.len() ==> (#[trigger] value->Object_0@[i]).0@ != name@)
            ==> found is None,
{
    if value is Object {
        let fields = value->Object_0@;
        field_at(fields, name@);
        if is_last_named(fields, place) && fields[place].0@ == name@ {
            last_named_at(fields, name@, place);
        }
    }
}

} // verus!
