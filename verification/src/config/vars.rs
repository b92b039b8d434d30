//! Environment variables in configuration files.
//!
//! `${VAR}` stands for the value of a variable that must be set. With
//! `${VAR:-default}` the default stands in for a variable that is not set or
//! empty. With `${VAR:?message}` the message goes into the error for such a
//! variable.
use vstd::prelude::*;

use crate::config::resource::{debug_str, debug_text};
use crate::text::{from_chars, push_text, same_text, texts, to_chars};

verus! {

/// Whether a character may stand in the name of a variable.
pub open spec fn is_name_char(c: char) -> bool {
    ('a' <= c && c <= 'z') || ('A' <= c && c <= 'Z') || ('0' <= c && c <= '9') || c == '_' || c == '.'
}

/// How many characters at the start of a text may stand in a name.
pub open spec fn name_length(text: Seq<char>) -> nat
    decreases text.len(),
{
    if text.len() > 0 && is_name_char(text[0]) {
        1 + name_length(text.skip(1))
    } else {
        0
    }
}

/// The place of the first closing brace in a text, or its length.
pub open spec fn closing_brace(text: Seq<char>) -> nat
    decreases text.len(),
{
    if text.len() > 0 && text[0] != '}' {
        1 + closing_brace(text.skip(1))
    } else {
        0
    }
}

/// A closing brace stands within the text, or else its length is given.
pub proof fn closing_brace_within(text: Seq<char>)
    ensures
        closing_brace(text) <= text.len(),
    decreases text.len(),
{
    if text.len() > 0 && text[0] != '}' {
        closing_brace_within(text.skip(1));
    }
}

/// What to do where a variable is not set.
pub ghost enum Otherwise {
    /// It is an error.
    Fail,
    /// Use a default, for an empty variable too.
    Default(Seq<char>),
    /// It is an error with the given message, for an empty variable too.
    FailWith(Seq<char>),
}

/// A reference to a variable.
pub ghost struct Reference {
    pub name: Seq<char>,
    pub otherwise: Otherwise,
}

/// The reference that stands between braces, if it is one.
pub open spec fn parsed_reference(body: Seq<char>) -> Option<Reference> {
    let len = name_length(body) as int;
    let name = body.take(len);
    if len == 0 {
        None
    } else if body.len() == len {
        Some(Reference { name, otherwise: Otherwise::Fail })
    } else if body.len() >= len + 2 && body[len] == ':' && body[len + 1] == '-' {
        Some(Reference { name, otherwise: Otherwise::Default(body.skip(len + 2)) })
    } else if body.len() >= len + 2 && body[len] == ':' && body[len + 1] == '?' {
        Some(Reference { name, otherwise: Otherwise::FailWith(body.skip(len + 2)) })
    } else {
        None
    }
}

/// The reference at the start of a text, if there is one, and its length.
pub open spec fn reference_at_start(text: Seq<char>) -> Option<(Reference, nat)> {
    if text.len() < 2 || text[0] != '$' || text[1] != '{' {
        None
    } else {
        let inner = text.skip(2);
        let end = closing_brace(inner);
        if end == inner.len() {
            None
        } else {
            match parsed_reference(inner.take(end as int)) {
                Some(reference) => Some((reference, end + 3)),
                None => None,
            }
        }
    }
}

/// What a list of variables stands for.
pub open spec fn variable_models(vars: Seq<(String, String)>) -> Seq<(Seq<char>, Seq<char>)> {
    Seq::new(vars.len(), |i: int| (vars[i].0@, vars[i].1@))
}

/// The value of a variable, if it is set.
pub open spec fn lookup(vars: Seq<(Seq<char>, Seq<char>)>, name: Seq<char>) -> Option<Seq<char>>
    decreases vars.len(),
{
    if vars.len() == 0 {
        None
    } else if vars[0].0 == name {
        Some(vars[0].1)
    } else {
        lookup(vars.skip(1), name)
    }
}

/// What a reference stands for, or the message on it.
pub open spec fn substituted(vars: Seq<(Seq<char>, Seq<char>)>, reference: Reference) -> Result<
    Seq<char>,
    Seq<char>,
> {
    let value = lookup(vars, reference.name);
    let given = value is Some && value->0.len() > 0;
    match reference.otherwise {
        Otherwise::Fail => match value {
            Some(found) => Ok(found),
            None => Err(
                "Missing environment variable in config. name = "@ + debug_text(reference.name),
            ),
        },
        Otherwise::Default(default) => if given {
            Ok(value->0)
        } else {
            Ok(default)
        },
        Otherwise::FailWith(message) => if given {
            Ok(value->0)
        } else {
            Err(
                "Non-empty environment variable required in config. name = "@ + debug_text(
                    reference.name,
                ) + ", error = "@ + debug_text(message),
            )
        },
    }
}

/// A text with references replaced, and the messages on those that stand for
/// nothing.
#[verifier::ext_equal]
pub ghost struct Interpolated {
    pub text: Seq<char>,
    pub errors: Seq<Seq<char>>,
}

/// The text with all references replaced by what they stand for.
pub open spec fn interpolated(
    text: Seq<char>,
    vars: Seq<(Seq<char>, Seq<char>)>,
) -> Interpolated
    decreases text.len(),
{
    if text.len() == 0 {
        Interpolated { text: Seq::empty(), errors: Seq::empty() }
    } else {
        match reference_at_start(text) {
            None => {
                let rest = interpolated(text.skip(1), vars);
                Interpolated { text: seq![text[0]] + rest.text, errors: rest.errors }
            },
            Some((reference, len)) => {
                proof {
                    closing_brace_within(text.skip(2));
                }
                let rest = interpolated(text.skip(len as int), vars);
                match substituted(vars, reference) {
                    Ok(value) => Interpolated { text: value + rest.text, errors: rest.errors },
                    Err(message) => Interpolated {
                        text: rest.text,
                        errors: seq![message] + rest.errors,
                    },
                }
            },
        }
    }
}

/// Whether a result is the text with all references replaced, or else the
/// messages on references that stand for nothing.
pub open spec fn interpolates_to(
    text: Seq<char>,
    vars: Seq<(Seq<char>, Seq<char>)>,
    result: Result<String, Vec<String>>,
) -> bool {
    match result {
        Ok(found) => interpolated(text, vars).errors.len() == 0 && found@ == interpolated(
            text,
            vars,
        ).text,
        Err(errors) => errors@.len() > 0 && texts(errors@) == interpolated(text, vars).errors,
    }
}

/// Decides whether a character may stand in the name of a variable.
fn names(c: char) -> (named: bool)
    ensures
        named == is_name_char(c),
{
    ('a' <= c && c <= 'z') || ('A' <= c && c <= 'Z') || ('0' <= c && c <= '9') || c == '_' || c == '.'
}

/// Finds the end of a name.
fn find_name_end(chars: &Vec<char>, from: usize, to: usize) -> (end: usize)
    requires
        from <= to <= chars@.len(),
    ensures
        from <= end <= to,
        end - from == name_length(chars@.subrange(from as int, to as int)),
{
    let ghost all = chars@.subrange(from as int, to as int);
    let mut end: usize = from;
    assert(all.skip(0) =~= all);
    while end < to && names(chars[end])
        invariant
            from <= end <= to <= chars@.len(),
            all == chars@.subrange(from as int, to as int),
            (end - from) + name_length(all.skip(end - from)) == name_length(all),
        decreases to - end,
    {
        assert(all.skip(end - from)[0] == chars@[end as int]);
        assert(all.skip(end - from).skip(1) =~= all.skip(end + 1 - from));
        end = end + 1;
    }
    assert(end < to ==> all.skip(end - from)[0] == chars@[end as int]);
    end
}

/// Finds the closing brace.
fn find_closing_brace(chars: &Vec<char>, from: usize) -> (end: usize)
    requires
        from <= chars@.len(),
    ensures
        from <= end <= chars@.len(),
        end - from == closing_brace(chars@.skip(from as int)),
{
    let ghost all = chars@.skip(from as int);
    let mut end: usize = from;
    assert(all.skip(0) =~= all);
    while end < chars.len() && chars[end] != '}'
        invariant
            from <= end <= chars@.len(),
            all == chars@.skip(from as int),
            (end - from) + closing_brace(all.skip(end - from)) == closing_brace(all),
        decreases chars.len() - end,
    {
        assert(all.skip(end - from)[0] == chars@[end as int]);
        assert(all.skip(end - from).skip(1) =~= all.skip(end + 1 - from));
        end = end + 1;
    }
    assert(end < chars.len() ==> all.skip(end - from)[0] == chars@[end as int]);
    end
}

/// Finds the value of a variable.
pub fn find_value<'a>(vars: &'a Vec<(String, String)>, name: &str) -> (value: Option<&'a String>)
    ensures
        match value {
            Some(found) => lookup(variable_models(vars@), name@) == Some(found@),
            None => lookup(variable_models(vars@), name@) is None,
        },
{
    let ghost all = variable_models(vars@);
    let mut i: usize = 0;
    assert(all.skip(0) =~= all);
    while i < vars.len()
        invariant
            i <= vars.len(),
            all == variable_models(vars@),
            lookup(all, name@) == lookup(all.skip(i as int), name@),
        decreases vars.len() - i,
    {
        assert(all.skip(i as int)[0] == (vars@[i as int].0@, vars@[i as int].1@));
        assert(all.skip(i as int).skip(1) =~= all.skip(i + 1));
        if same_text(vars[i].0.as_str(), name) {
            return Some(&vars[i].1);
        }
        i = i + 1;
    }
    None
}

/// Whether a value is there and not empty.
fn is_given(value: Option<&String>) -> (given: bool)
    ensures
        given == (value is Some && value->0@.len() > 0),
{
    match value {
        Some(found) => {
            let empty = String::new();
            let given = *found != empty;
            assert(!given ==> found@ =~= Seq::empty());
            assert(found@.len() == 0 ==> found@ =~= Seq::empty());
            given
        },
        None => false,
    }
}

/// Replaces the reference between braces, if it is one, by what it stands for.
fn substitute(chars: &Vec<char>, from: usize, to: usize, vars: &Vec<(String, String)>) -> (result: Option<
    Result<String, String>,
>)
    requires
        from <= to <= chars@.len(),
    ensures
        match parsed_reference(chars@.subrange(from as int, to as int)) {
            None => result is None,
            Some(reference) => match substituted(variable_models(vars@), reference) {
                Ok(value) => result is Some && result->0 is Ok && result->0->Ok_0@ == value,
                Err(message) => result is Some && result->0 is Err && result->0->Err_0@ == message,
            },
        },
{
    let ghost body = chars@.subrange(from as int, to as int);
    let end: usize = find_name_end(chars, from, to);
    let ghost len = (end - from) as int;
    if end == from {
        return None;
    }
    let name = from_chars(chars, from, end);
    assert(name@ =~= body.take(len));
    let value = find_value(vars, name.as_str());
    if end == to {
        return Some(
            match value {
                Some(found) => Ok(found.clone()),
                None => {
                    let mut message = "Missing environment variable in config. name = ".to_owned();
                    message.append(debug_str(name.as_str()).as_str());
                    Err(message)
                },
            },
        );
    }
    assert(body[len] == chars@[end as int]);
    if to - end < 2 || chars[end] != ':' {
        return None;
    }
    assert(body[len + 1] == chars@[end + 1]);
    let rest = from_chars(chars, end + 2, to);
    assert(rest@ =~= body.skip(len + 2));
    if chars[end + 1] == '-' {
        if is_given(value) {
            return Some(Ok(value.unwrap().clone()));
        }
        return Some(Ok(rest));
    }
    if chars[end + 1] == '?' {
        if is_given(value) {
            return Some(Ok(value.unwrap().clone()));
        }
        let mut message =
            "Non-empty environment variable required in config. name = ".to_owned();
        message.append(debug_str(name.as_str()).as_str());
        message.append(", error = ");
        message.append(debug_str(rest.as_str()).as_str());
        return Some(Err(message));
    }
    None
}

/// Replaces all references in a text by what they stand for.
pub fn interpolate(input: &str, vars: &Vec<(String, String)>) -> (result: Result<String, Vec<String>>)
    ensures
        interpolates_to(input@, variable_models(vars@), result),
{
    let chars = to_chars(input);
    let ghost models = variable_models(vars@);
    let ghost wanted = interpolated(chars@, models);
    let mut text = String::new();
    let mut errors: Vec<String> = Vec::new();
    let mut i: usize = 0;
    proof {
        assert(chars@.skip(0) =~= chars@);
        assert(wanted.text =~= text@ + wanted.text);
        assert(wanted.errors =~= texts(errors@) + wanted.errors);
    }
    while i < chars.len()
        invariant
            i <= chars.len(),
            models == variable_models(vars@),
            wanted == interpolated(chars@, models),
            wanted.text == text@ + interpolated(chars@.skip(i as int), models).text,
            wanted.errors == texts(errors@) + interpolated(chars@.skip(i as int), models).errors,
        decreases chars.len() - i,
    {
        let ghost here = chars@.skip(i as int);
        let ghost text_before = text@;
        let ghost errors_before = texts(errors@);
        assert(here[0] == chars@[i as int]);
        assert(here.skip(1) =~= chars@.skip(i + 1));
        let mut done = false;
        if chars.len() - i >= 2 && chars[i] == '$' && chars[i + 1] == '{' {
            assert(here[1] == chars@[i + 1]);
            assert(here.skip(2) =~= chars@.skip(i + 2));
            let end: usize = find_closing_brace(&chars, i + 2);
            if end < chars.len() {
                let ghost len = (end + 1 - i) as int;
                assert(here.skip(2).take(end - (i + 2)) =~= chars@.subrange(i + 2, end as int));
                assert(here.skip(len) =~= chars@.skip(end + 1));
                match substitute(&chars, i + 2, end, vars) {
                    None => {},
                    Some(Ok(value)) => {
                        text.append(value.as_str());
                        proof {
                            let rest = interpolated(chars@.skip(end + 1), models);
                            assert(text_before + (value@ + rest.text) =~= text@ + rest.text);
                        }
                        i = end + 1;
                        done = true;
                    },
                    Some(Err(message)) => {
                        push_text(&mut errors, message);
                        proof {
                            let rest = interpolated(chars@.skip(end + 1), models);
                            assert(errors_before + (seq![message@] + rest.errors) =~= texts(
                                errors@,
                            ) + rest.errors);
                        }
                        i = end + 1;
                        done = true;
                    },
                }
            }
        }
        if !done {
            assert(reference_at_start(here) is None);
            text.push(chars[i]);
            proof {
                let rest = interpolated(chars@.skip(i + 1), models);
                assert(text_before + (seq![here[0]] + rest.text) =~= text@ + rest.text);
            }
            i = i + 1;
        }
    }
    proof {
        assert(chars@.skip(i as int) =~= Seq::empty());
        assert(wanted.text =~= text@);
        assert(wanted.errors =~= texts(errors@));
        assert(texts(errors@).len() == errors@.len());
    }
    if errors.len() == 0 {
        Ok(text)
    } else {
        Err(errors)
    }
}

/// A text without a dollar sign stays as it is.
pub proof fn text_without_references_stays(
    text: Seq<char>,
    vars: Seq<(Seq<char>, Seq<char>)>,
)
    requires
        !text.contains('$'),
    ensures
        interpolated(text, vars).text == text,
        interpolated(text, vars).errors.len() == 0,
    decreases text.len(),
{
    if text.len() > 0 {
        assert(text.contains(text[0]));
        let rest = text.skip(1);
        assert(!rest.contains('$')) by {
            if rest.contains('$') {
                let i = choose|i: int| 0 <= i < rest.len() && rest[i] == '$';
                assert(text[i + 1] == '$');
            }
        }
        text_without_references_stays(rest, vars);
        assert(seq![text[0]] + rest =~= text);
    } else {
        assert(interpolated(text, vars).text =~= text);
    }
}

/// A name is as long as it is, whatever follows that may not stand in one.
proof fn name_ends(name: Seq<char>, tail: Seq<char>)
    requires
        forall|k: int|
            0 <= k < name.len() ==> {
                ||| 'a' <= #[trigger] name[k] <= 'z'
                ||| 'A' <= name[k] <= 'Z'
                ||| '0' <= name[k] <= '9'
                ||| name[k] == '_'
                ||| name[k] == '.'
            },
        tail.len() == 0 || tail[0] == ':',
    ensures
        name_length(name + tail) == name.len(),
    decreases name.len(),
{
    let all = name + tail;
    if name.len() > 0 {
        assert(all[0] == name[0]);
        let rest = name.skip(1);
        assert forall|k: int| 0 <= k < rest.len() implies {
            ||| 'a' <= #[trigger] rest[k] <= 'z'
            ||| 'A' <= rest[k] <= 'Z'
            ||| '0' <= rest[k] <= '9'
            ||| rest[k] == '_'
            ||| rest[k] == '.'
        } by {
            assert(rest[k] == name[k + 1]);
        }
        name_ends(rest, tail);
        assert(all.skip(1) =~= rest + tail);
    } else {
        assert(all =~= tail);
    }
}

/// A variable has the value that it is first given.
proof fn looked_up(vars: Seq<(String, String)>, name: Seq<char>, place: int)
    requires
        0 <= place <= vars.len(),
        forall|k: int| 0 <= k < place ==> (#[trigger] vars[k]).0@ != name,
        place < vars.len() ==> vars[place].0@ == name,
    ensures
        lookup(variable_models(vars), name) == if place < vars.len() {
            Some(vars[place].1@)
        } else {
            None
        },
    decreases place,
{
    let models = variable_models(vars);
    if place > 0 {
        assert(models[0].0 == vars[0].0@);
        let rest = vars.skip(1);
        assert forall|k: int| 0 <= k < place - 1 implies (#[trigger] rest[k]).0@ != name by {
            assert(rest[k] == vars[k + 1]);
        }
        looked_up(rest, name, place - 1);
        assert(models.skip(1) =~= variable_models(rest));
    }
}

/// The first closing brace stands behind a text without one.
proof fn brace_closes(body: Seq<char>, after: Seq<char>)
    requires
        !body.contains('}'),
    ensures
        closing_brace(body + seq!['}'] + after) == body.len(),
    decreases body.len(),
{
    let all = body + seq!['}'] + after;
    if body.len() > 0 {
        assert(body.contains(body[0]));
        assert(all[0] == body[0]);
        let rest = body.skip(1);
        assert(!rest.contains('}')) by {
            if rest.contains('}') {
                let i = choose|i: int| 0 <= i < rest.len() && rest[i] == '}';
                assert(body[i + 1] == '}');
            }
        }
        brace_closes(rest, after);
        assert(all.skip(1) =~= rest + seq!['}'] + after);
    }
}

/// What comes before a reference stays, what is between its braces is replaced,
/// and what follows is gone through in turn.
proof fn reference_is_found(
    before: Seq<char>,
    body: Seq<char>,
    after: Seq<char>,
    vars: Seq<(Seq<char>, Seq<char>)>,
)
    requires
        !before.contains('$'),
        !body.contains('}'),
        parsed_reference(body) is Some,
    ensures
        ({
            let made = interpolated(before + (seq!['$', '{'] + body + seq!['}'] + after), vars);
            let rest = interpolated(after, vars);
            match substituted(vars, parsed_reference(body)->0) {
                Ok(value) => made.text == before + value + rest.text && made.errors == rest.errors,
                Err(message) => made.text == before + rest.text && made.errors == seq![message]
                    + rest.errors,
            }
        }),
    decreases before.len(),
{
    let tail = seq!['$', '{'] + body + seq!['}'] + after;
    let all = before + tail;
    let rest = interpolated(after, vars);
    let made = interpolated(all, vars);
    if before.len() > 0 {
        assert(before.contains(before[0]));
        assert(all[0] == before[0]);
        let less = before.skip(1);
        assert(!less.contains('$')) by {
            if less.contains('$') {
                let i = choose|i: int| 0 <= i < less.len() && less[i] == '$';
                assert(before[i + 1] == '$');
            }
        }
        reference_is_found(less, body, after, vars);
        assert(all.skip(1) =~= less + tail);
        assert(reference_at_start(all) is None);
        let made_less = interpolated(less + tail, vars);
        assert(made.text == seq![all[0]] + made_less.text);
        assert(before =~= seq![all[0]] + less);
        match substituted(vars, parsed_reference(body)->0) {
            Ok(value) => {
                assert(made.text =~= before + value + rest.text);
            },
            Err(message) => {
                assert(made.text =~= before + rest.text);
            },
        }
    } else {
        assert(all =~= tail);
        brace_closes(body, after);
        assert(all.skip(2) =~= body + seq!['}'] + after);
        assert(all.skip(2).take(body.len() as int) =~= body);
        assert(all.skip((body.len() + 3) as int) =~= after);
        assert(all[0] == '$' && all[1] == '{');
        assert(reference_at_start(all) == Some((parsed_reference(body)->0, body.len() + 3)));
        match substituted(vars, parsed_reference(body)->0) {
            Ok(value) => {
                assert(made.text =~= before + value + rest.text);
            },
            Err(message) => {
                assert(made.text =~= before + rest.text);
            },
        }
    }
}

/// The messages of two results are those that they stand for, one by one.
proof fn message_lists(
    result: Result<String, Vec<String>>,
    rest: Result<String, Vec<String>>,
    made: Seq<Seq<char>>,
    tail: Seq<Seq<char>>,
)
    requires
        result is Err ==> result->Err_0@.len() > 0 && texts(result->Err_0@) == made,
        result is Ok ==> made.len() == 0,
        rest is Err ==> rest->Err_0@.len() > 0 && texts(rest->Err_0@) == tail,
        rest is Ok ==> tail.len() == 0,
    ensures
        result is Err ==> result->Err_0@.len() == made.len() && forall|k: int|
            0 <= k < made.len() ==> #[trigger] result->Err_0@[k]@ == made[k],
        rest is Err ==> rest->Err_0@.len() == tail.len() && forall|k: int|
            0 <= k < tail.len() ==> #[trigger] rest->Err_0@[k]@ == tail[k],
        result is Err <==> made.len() > 0,
        rest is Err <==> tail.len() > 0,
{
    if result is Err {
        assert forall|k: int| 0 <= k < made.len() implies #[trigger] result->Err_0@[k]@ == made[k] by {
            assert(texts(result->Err_0@)[k] == made[k]);
        }
        assert(texts(result->Err_0@).len() == result->Err_0@.len());
    }
    if rest is Err {
        assert forall|k: int| 0 <= k < tail.len() implies #[trigger] rest->Err_0@[k]@ == tail[k] by {
            assert(texts(rest->Err_0@)[k] == tail[k]);
        }
        assert(texts(rest->Err_0@).len() == rest->Err_0@.len());
    }
}

/// `${name}` stands for the value of the variable, be it empty, and is an error
/// where the variable is not set. What comes before it stays, and what follows
/// gives what it gives by itself. A name is made of letters, digits, underscores
/// and dots.
pub proof fn variables_stand_for_their_values(
    before: Seq<char>,
    name: Seq<char>,
    after: &str,
    vars: &Vec<(String, String)>,
    text: &str,
    result: Result<String, Vec<String>>,
    rest: Result<String, Vec<String>>,
    place: int,
)
    requires
        !before.contains('$'),
        name.len() > 0,
        forall|k: int|
            0 <= k < name.len() ==> {
                ||| 'a' <= #[trigger] name[k] <= 'z'
                ||| 'A' <= name[k] <= 'Z'
                ||| '0' <= name[k] <= '9'
                ||| name[k] == '_'
                ||| name[k] == '.'
            },
        text@ == before + seq!['$', '{'] + name + seq!['}'] + after@,
        call_ensures(interpolate, (text, vars), result),
        call_ensures(interpolate, (after, vars), rest),
        0 <= place <= vars@.len(),
        forall|k: int| 0 <= k < place ==> (#[trigger] vars@[k]).0@ != name,
        place < vars@.len() ==> vars@[place].0@ == name,
    ensures
        place < vars@.len() ==> match rest {
            Ok(tail) => result is Ok && result->Ok_0@ == before + vars@[place].1@ + tail@,
            Err(errors) => result is Err && result->Err_0@.len() == errors@.len() && forall|k: int|
                0 <= k < errors@.len() ==> #[trigger] result->Err_0@[k]@ == errors@[k]@,
        },
        place == vars@.len() ==> result is Err && result->Err_0@.len() > 0 && result->Err_0@[0]@
            == "Missing environment variable in config. name = "@ + debug_text(name) && match rest {
            Ok(_) => result->Err_0@.len() == 1,
            Err(errors) => result->Err_0@.len() == errors@.len() + 1 && forall|k: int|
                0 <= k < errors@.len() ==> #[trigger] result->Err_0@[k + 1]@ == errors@[k]@,
        },
{
    let models = variable_models(vars@);
    let body = name;
    let tail = Seq::<char>::empty();
    looked_up(vars@, name, place);
    name_ends(name, tail);
    assert(body =~= name + tail);
    assert(!body.contains('}')) by {
        if body.contains('}') {
            let k = choose|k: int| 0 <= k < body.len() && body[k] == '}';
            if k < name.len() {
                assert(name[k] == '}');
            }
        }
    }
    assert(body.take(name.len() as int) =~= name);
    assert(parsed_reference(body) == Some(
        Reference { name, otherwise: Otherwise::Fail },
    ));
    reference_is_found(before, body, after@, models);
    assert(text@ =~= before + (seq!['$', '{'] + body + seq!['}'] + after@));
    message_lists(
        result,
        rest,
        interpolated(text@, models).errors,
        interpolated(after@, models).errors,
    );
}

/// `${name:-default}` stands for the value of the variable where it is set and
/// not empty, and for the default otherwise: it is never an error.
pub proof fn defaults_stand_in_for_variables(
    before: Seq<char>,
    name: Seq<char>,
    default: Seq<char>,
    after: &str,
    vars: &Vec<(String, String)>,
    text: &str,
    result: Result<String, Vec<String>>,
    rest: Result<String, Vec<String>>,
    place: int,
)
    requires
        !before.contains('$'),
        name.len() > 0,
        forall|k: int|
            0 <= k < name.len() ==> {
                ||| 'a' <= #[trigger] name[k] <= 'z'
                ||| 'A' <= name[k] <= 'Z'
                ||| '0' <= name[k] <= '9'
                ||| name[k] == '_'
                ||| name[k] == '.'
            },
        !default.contains('}'),
        text@ == before + seq!['$', '{'] + (name + seq![':', '-'] + default) + seq!['}'] + after@,
        call_ensures(interpolate, (text, vars), result),
        call_ensures(interpolate, (after, vars), rest),
        0 <= place <= vars@.len(),
        forall|k: int| 0 <= k < place ==> (#[trigger] vars@[k]).0@ != name,
        place < vars@.len() ==> vars@[place].0@ == name,
    ensures
        place < vars@.len() && vars@[place].1@.len() > 0 ==> match rest {
            Ok(tail) => result is Ok && result->Ok_0@ == before + vars@[place].1@ + tail@,
            Err(errors) => result is Err && result->Err_0@.len() == errors@.len() && forall|k: int|
                0 <= k < errors@.len() ==> #[trigger] result->Err_0@[k]@ == errors@[k]@,
        },
        place == vars@.len() || vars@[place].1@.len() == 0 ==> match rest {
            Ok(tail) => result is Ok && result->Ok_0@ == before + default + tail@,
            Err(errors) => result is Err && result->Err_0@.len() == errors@.len() && forall|k: int|
                0 <= k < errors@.len() ==> #[trigger] result->Err_0@[k]@ == errors@[k]@,
        },
{
    let models = variable_models(vars@);
    let body = (name + seq![':', '-'] + default);
    let tail = seq![':', '-'] + default;
    looked_up(vars@, name, place);
    name_ends(name, tail);
    assert(body =~= name + tail);
    assert(!body.contains('}')) by {
        if body.contains('}') {
            let k = choose|k: int| 0 <= k < body.len() && body[k] == '}';
            if k < name.len() {
                assert(name[k] == '}');
            } else if k >= name.len() + 2 {
                assert(default[k - name.len() - 2] == '}');
            }
        }
    }
    assert(body.take(name.len() as int) =~= name);
    assert(body.skip((name.len() + 2) as int) =~= default);
    assert(parsed_reference(body) == Some(
        Reference { name, otherwise: Otherwise::Default(default) },
    ));
    reference_is_found(before, body, after@, models);
    assert(text@ =~= before + (seq!['$', '{'] + body + seq!['}'] + after@));
    message_lists(
        result,
        rest,
        interpolated(text@, models).errors,
        interpolated(after@, models).errors,
    );
}

/// `${name:?message}` stands for the value of the variable where it is set and
/// not empty, and is an error with the message otherwise.
pub proof fn required_variables_must_have_values(
    before: Seq<char>,
    name: Seq<char>,
    message: Seq<char>,
    after: &str,
    vars: &Vec<(String, String)>,
    text: &str,
    result: Result<String, Vec<String>>,
    rest: Result<String, Vec<String>>,
    place: int,
)
    requires
        !before.contains('$'),
        name.len() > 0,
        forall|k: int|
            0 <= k < name.len() ==> {
                ||| 'a' <= #[trigger] name[k] <= 'z'
                ||| 'A' <= name[k] <= 'Z'
                ||| '0' <= name[k] <= '9'
                ||| name[k] == '_'
                ||| name[k] == '.'
            },
        !message.contains('}'),
        text@ == before + seq!['$', '{'] + (name + seq![':', '?'] + message) + seq!['}'] + after@,
        call_ensures(interpolate, (text, vars), result),
        call_ensures(interpolate, (after, vars), rest),
        0 <= place <= vars@.len(),
        forall|k: int| 0 <= k < place ==> (#[trigger] vars@[k]).0@ != name,
        place < vars@.len() ==> vars@[place].0@ == name,
    ensures
        place < vars@.len() && vars@[place].1@.len() > 0 ==> match rest {
            Ok(tail) => result is Ok && result->Ok_0@ == before + vars@[place].1@ + tail@,
            Err(errors) => result is Err && result->Err_0@.len() == errors@.len() && forall|k: int|
                0 <= k < errors@.len() ==> #[trigger] result->Err_0@[k]@ == errors@[k]@,
        },
        place == vars@.len() || vars@[place].1@.len() == 0 ==> result is Err
            && result->Err_0@.len() > 0 && result->Err_0@[0]@
            == "Non-empty environment variable required in config. name = "@ + debug_text(name)
            + ", error = "@ + debug_text(message) && match rest {
            Ok(_) => result->Err_0@.len() == 1,
            Err(errors) => result->Err_0@.len() == errors@.len() + 1 && forall|k: int|
                0 <= k < errors@.len() ==> #[trigger] result->Err_0@[k + 1]@ == errors@[k]@,
        },
{
    let models = variable_models(vars@);
    let body = (name + seq![':', '?'] + message);
    let tail = seq![':', '?'] + message;
    looked_up(vars@, name, place);
    name_ends(name, tail);
    assert(body =~= name + tail);
    assert(!body.contains('}')) by {
        if body.contains('}') {
            let k = choose|k: int| 0 <= k < body.len() && body[k] == '}';
            if k < name.len() {
                assert(name[k] == '}');
            } else if k >= name.len() + 2 {
                assert(message[k - name.len() - 2] == '}');
            }
        }
    }
    assert(body.take(name.len() as int) =~= name);
    assert(body.skip((name.len() + 2) as int) =~= message);
    assert(parsed_reference(body) == Some(
        Reference { name, otherwise: Otherwise::FailWith(message) },
    ));
    reference_is_found(before, body, after@, models);
    assert(text@ =~= before + (seq!['$', '{'] + body + seq!['}'] + after@));
    message_lists(
        result,
        rest,
        interpolated(text@, models).errors,
        interpolated(after@, models).errors,
    );
}

/// Whether a character is a letter, a digit, an underscore or a dot.
spec fn is_listed(c: char) -> bool {
    ||| 'a' <= c <= 'z'
    ||| 'A' <= c <= 'Z'
    ||| '0' <= c <= '9'
    ||| c == '_'
    ||| c == '.'
}

/// A name ends before the first character that may not stand in it.
proof fn name_stops(body: Seq<char>, end: int)
    requires
        0 <= end <= body.len(),
        forall|k: int| 0 <= k < end ==> is_listed(#[trigger] body[k]),
        end < body.len() ==> !is_listed(body[end]),
    ensures
        name_length(body) == end,
    decreases end,
{
    if end > 0 {
        let rest = body.skip(1);
        assert(is_listed(body[0]));
        assert forall|k: int| 0 <= k < end - 1 implies is_listed(#[trigger] rest[k]) by {
            assert(rest[k] == body[k + 1]);
        }
        assert(end < body.len() ==> rest[end - 1] == body[end]);
        name_stops(rest, end - 1);
    }
}

/// A text without a dollar sign stays in front of whatever follows.
proof fn plain_start_stays(
    start: Seq<char>,
    after: Seq<char>,
    vars: Seq<(Seq<char>, Seq<char>)>,
)
    requires
        !start.contains('$'),
    ensures
        interpolated(start + after, vars).text == start + interpolated(after, vars).text,
        interpolated(start + after, vars).errors == interpolated(after, vars).errors,
    decreases start.len(),
{
    let all = start + after;
    if start.len() > 0 {
        assert(start.contains(start[0]));
        assert(all[0] == start[0]);
        let less = start.skip(1);
        assert(!less.contains('$')) by {
            if less.contains('$') {
                let i = choose|i: int| 0 <= i < less.len() && less[i] == '$';
                assert(start[i + 1] == '$');
            }
        }
        plain_start_stays(less, after, vars);
        assert(all.skip(1) =~= less + after);
        assert(reference_at_start(all) is None);
        assert(interpolated(all, vars).text =~= start + interpolated(after, vars).text);
    } else {
        assert(all =~= after);
        assert(start + interpolated(after, vars).text =~= interpolated(after, vars).text);
    }
}

/// What stands between braces and is no reference stays with its braces: where
/// it does not start with a letter, a digit, an underscore or a dot, and where
/// such characters are followed by something else than `:-` or `:?`.
pub proof fn other_braces_stay(
    before: Seq<char>,
    body: Seq<char>,
    end: int,
    after: &str,
    vars: &Vec<(String, String)>,
    text: &str,
    result: Result<String, Vec<String>>,
    rest: Result<String, Vec<String>>,
)
    requires
        !before.contains('$'),
        !body.contains('$'),
        !body.contains('}'),
        0 <= end <= body.len(),
        end == 0 || end < body.len(),
        forall|k: int|
            0 <= k < end ==> {
                ||| 'a' <= #[trigger] body[k] <= 'z'
                ||| 'A' <= body[k] <= 'Z'
                ||| '0' <= body[k] <= '9'
                ||| body[k] == '_'
                ||| body[k] == '.'
            },
        end < body.len() ==> !{
            ||| 'a' <= body[end] <= 'z'
            ||| 'A' <= body[end] <= 'Z'
            ||| '0' <= body[end] <= '9'
            ||| body[end] == '_'
            ||| body[end] == '.'
        },
        end > 0 ==> !(end + 1 < body.len() && body[end] == ':' && (body[end + 1] == '-' || body[end
            + 1] == '?')),
        text@ == before + seq!['$', '{'] + body + seq!['}'] + after@,
        call_ensures(interpolate, (text, vars), result),
        call_ensures(interpolate, (after, vars), rest),
    ensures
        match rest {
            Ok(tail) => result is Ok && result->Ok_0@ == before + seq!['$', '{'] + body + seq!['}']
                + tail@,
            Err(errors) => result is Err && result->Err_0@.len() == errors@.len() && forall|k: int|
                0 <= k < errors@.len() ==> #[trigger] result->Err_0@[k]@ == errors@[k]@,
        },
{
    let models = variable_models(vars@);
    name_stops(body, end);
    assert(parsed_reference(body) is None);
    let inner = seq!['{'] + body + seq!['}'];
    let tail = seq!['$'] + (inner + after@);
    assert(!inner.contains('$')) by {
        if inner.contains('$') {
            let i = choose|i: int| 0 <= i < inner.len() && inner[i] == '$';
            if 0 < i <= body.len() {
                assert(body[i - 1] == '$');
            }
        }
    }
    plain_start_stays(inner, after@, models);
    brace_closes(body, after@);
    assert(tail.skip(2) =~= body + seq!['}'] + after@);
    assert(tail.skip(2).take(body.len() as int) =~= body);
    assert(tail[0] == '$' && tail[1] == '{');
    assert(reference_at_start(tail) is None);
    assert(tail.skip(1) =~= inner + after@);
    plain_start_stays(before, tail, models);
    assert(text@ =~= before + tail);
    let made = interpolated(text@, models);
    assert(made.text =~= before + seq!['$', '{'] + body + seq!['}'] + interpolated(
        after@,
        models,
    ).text);
    message_lists(result, rest, made.errors, interpolated(after@, models).errors);
}

} // verus!
