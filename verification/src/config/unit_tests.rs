//! The outputs that tests of a configuration look at.
use vstd::prelude::*;

use crate::config::graph::{
    find_output, output_infos, reads_as, resolve, resolved_is_output, Graph, GraphOutput, OutputInfo,
};
use crate::config::TestDefinition;
use crate::id::{output_names, output_text, OutputId, OutputName};
use crate::text::{append_texts, gather, gather_empty, only_if, push_text, texts};

verus! {

/// The outputs that a list names, but for names of no output.
pub open spec fn resolved_names(outputs: Seq<OutputInfo>, names: Seq<Seq<char>>) -> Seq<OutputName> {
    gather(
        names.len(),
        |i: int|
            match resolve(outputs, names[i]) {
                Some(found) => seq![found.0],
                None => Seq::empty(),
            },
    )
}

/// The messages on names of no output.
pub open spec fn target_errors(
    outputs: Seq<OutputInfo>,
    field: Seq<char>,
    test: Seq<char>,
    names: Seq<Seq<char>>,
) -> Seq<Seq<char>> {
    gather(
        names.len(),
        |i: int|
            only_if(
                resolve(outputs, names[i]) is None,
                "Invalid "@ + field + " target in test '"@ + test + "': '"@ + names[i]
                    + "' does not exist"@,
            ),
    )
}

/// The messages on a test.
pub open spec fn test_errors(outputs: Seq<OutputInfo>, test: TestDefinition<String>) -> Seq<Seq<char>> {
    target_errors(outputs, "extract_from"@, test.name@, texts(test.extract_from@)) + target_errors(
        outputs,
        "no_outputs_from"@,
        test.name@,
        texts(test.no_outputs_from@),
    )
}

/// Whether a test is another one with names replaced by the outputs they name.
pub open spec fn test_resolved(
    outputs: Seq<OutputInfo>,
    before: TestDefinition<String>,
    after: TestDefinition<OutputId>,
) -> bool {
    &&& after.name == before.name
    &&& output_names(after.extract_from@) == resolved_names(outputs, texts(before.extract_from@))
    &&& output_names(after.no_outputs_from@) == resolved_names(
        outputs,
        texts(before.no_outputs_from@),
    )
}

/// Looks up the outputs that a list names.
fn resolve_targets(outputs: &Vec<GraphOutput>, field: &str, test: &str, names: &Vec<String>) -> (found: (
    Vec<OutputId>,
    Vec<String>,
))
    ensures
        output_names(found.0@) == resolved_names(output_infos(outputs@), texts(names@)),
        texts(found.1@) == target_errors(
            output_infos(outputs@),
            field@,
            test@,
            texts(names@),
        ),
{
    let ghost infos = output_infos(outputs@);
    let ghost all = texts(names@);
    let ghost f = |i: int|
        match resolve(infos, all[i]) {
            Some(found) => seq![found.0],
            None => Seq::empty(),
        };
    let ghost g = |i: int|
        only_if(
            resolve(infos, all[i]) is None,
            "Invalid "@ + field@ + " target in test '"@ + test@ + "': '"@ + all[i]
                + "' does not exist"@,
        );
    let mut ids: Vec<OutputId> = Vec::new();
    let mut errors: Vec<String> = Vec::new();
    assert(output_names(ids@) =~= gather(0, f));
    assert(texts(errors@) =~= gather(0, g));
    let mut i: usize = 0;
    while i < names.len()
        invariant
            i <= names.len(),
            infos == output_infos(outputs@),
            all == texts(names@),
            f == (|i: int|
                match resolve(infos, all[i]) {
                    Some(found) => seq![found.0],
                    None => Seq::empty(),
                }),
            g == (|i: int|
                only_if(
                    resolve(infos, all[i]) is None,
                    "Invalid "@ + field@ + " target in test '"@ + test@ + "': '"@ + all[i]
                        + "' does not exist"@,
                )),
            output_names(ids@) == gather(i as nat, f),
            texts(errors@) == gather(i as nat, g),
        decreases names.len() - i,
    {
        let ghost ids_before = output_names(ids@);
        let ghost errors_before = texts(errors@);
        let name = names[i].as_str();
        assert(all[i as int] == name@);
        match find_output(outputs, name) {
            Some(k) => {
                ids.push(outputs[k].id.clone());
            },
            None => {
                let mut message = "Invalid ".to_owned();
                message.append(field);
                message.append(" target in test '");
                message.append(test);
                message.append("': '");
                message.append(name);
                message.append("' does not exist");
                push_text(&mut errors, message);
            },
        }
        assert(output_names(ids@) =~= ids_before + f(i as int));
        assert(texts(errors@) =~= errors_before + g(i as int));
        i = i + 1;
    }
    (ids, errors)
}

impl TestDefinition<String> {
    /// Looks up the outputs that the test names.
    pub fn resolve_outputs(self, graph: &Graph) -> (result: Result<
        TestDefinition<OutputId>,
        Vec<String>,
    >)
        ensures
            match result {
                Ok(test) => test_errors(output_infos(graph.outputs@), self).len() == 0
                    && test_resolved(output_infos(graph.outputs@), self, test),
                Err(errors) => texts(errors@) == test_errors(output_infos(graph.outputs@), self)
                    && errors@.len() > 0,
            },
    {
        let (extract_from, mut errors) = resolve_targets(
            &graph.outputs,
            "extract_from",
            self.name.as_str(),
            &self.extract_from,
        );
        let (no_outputs_from, more) = resolve_targets(
            &graph.outputs,
            "no_outputs_from",
            self.name.as_str(),
            &self.no_outputs_from,
        );
        append_texts(&mut errors, more);
        assert(texts(errors@).len() == errors@.len());
        if errors.len() == 0 {
            Ok(TestDefinition { name: self.name, extract_from, no_outputs_from })
        } else {
            Err(errors)
        }
    }
}

/// A test is resolved just where each name that it gives is the text of an output
/// of the graph: the name of a component, or, for an output with a name, both
/// names with a dot between them.
pub proof fn tests_must_name_outputs(
    test: TestDefinition<String>,
    graph: &Graph,
    result: Result<TestDefinition<OutputId>, Vec<String>>,
)
    requires
        call_ensures(TestDefinition::<String>::resolve_outputs, (test, graph), result),
    ensures
        result is Ok <==> {
            &&& forall|k: int|
                0 <= k < test.extract_from@.len() ==> is_output_text(
                    graph.outputs@,
                    (#[trigger] test.extract_from@[k])@,
                )
            &&& forall|k: int|
                0 <= k < test.no_outputs_from@.len() ==> is_output_text(
                    graph.outputs@,
                    (#[trigger] test.no_outputs_from@[k])@,
                )
        },
{
    let outputs = output_infos(graph.outputs@);
    test_names_outputs(outputs, test);
    assert forall|text: Seq<char>| #[trigger] is_output_text(graph.outputs@, text) <==> exists|i: int|
        0 <= i < outputs.len() && reads_as(#[trigger] outputs[i], text) by {
        if is_output_text(graph.outputs@, text) {
            let i = choose|i: int|
                0 <= i < graph.outputs@.len() && text == match (
                #[trigger] graph.outputs@[i]).id.port {
                    None => graph.outputs@[i].id.component@,
                    Some(port) => graph.outputs@[i].id.component@ + "."@ + port@,
                };
            assert(reads_as(outputs[i], text));
        }
        if exists|i: int| 0 <= i < outputs.len() && reads_as(#[trigger] outputs[i], text) {
            let i = choose|i: int| 0 <= i < outputs.len() && reads_as(#[trigger] outputs[i], text);
            assert(outputs[i] == graph.outputs@[i]@);
            assert(graph.outputs@[i].id@ == outputs[i].0);
        }
    }
}

/// Whether a text is that of an output of a graph.
pub open spec fn is_output_text(outputs: Seq<GraphOutput>, text: Seq<char>) -> bool {
    exists|i: int|
        0 <= i < outputs.len() && text == match (#[trigger] outputs[i]).id.port {
            None => outputs[i].id.component@,
            Some(port) => outputs[i].id.component@ + "."@ + port@,
        }
}

/// There is no message on a test just where each name that it gives is the text of
/// an output.
pub proof fn test_names_outputs(outputs: Seq<OutputInfo>, test: TestDefinition<String>)
    ensures
        test_errors(outputs, test).len() == 0 <==> {
            &&& forall|k: int|
                0 <= k < test.extract_from@.len() ==> exists|i: int|
                    0 <= i < outputs.len() && reads_as(
                        #[trigger] outputs[i],
                        (#[trigger] test.extract_from@[k])@,
                    )
            &&& forall|k: int|
                0 <= k < test.no_outputs_from@.len() ==> exists|i: int|
                    0 <= i < outputs.len() && reads_as(
                        #[trigger] outputs[i],
                        (#[trigger] test.no_outputs_from@[k])@,
                    )
        },
{
    targets_name_outputs(outputs, "extract_from"@, test.name@, test.extract_from@);
    targets_name_outputs(outputs, "no_outputs_from"@, test.name@, test.no_outputs_from@);
}

proof fn targets_name_outputs(
    outputs: Seq<OutputInfo>,
    field: Seq<char>,
    test: Seq<char>,
    names: Seq<String>,
)
    ensures
        target_errors(outputs, field, test, texts(names)).len() == 0 <==> forall|k: int|
            0 <= k < names.len() ==> exists|i: int|
                0 <= i < outputs.len() && reads_as(#[trigger] outputs[i], (#[trigger] names[k])@),
{
    let list = texts(names);
    let f = |i: int|
        only_if(
            resolve(outputs, list[i]) is None,
            "Invalid "@ + field + " target in test '"@ + test + "': '"@ + list[i]
                + "' does not exist"@,
        );
    gather_empty(list.len(), f);
    assert(target_errors(outputs, field, test, list) == gather(list.len(), f));
    assert forall|k: int| 0 <= k < names.len() implies ((#[trigger] f(k)).len() == 0 <==> exists|i: int|
        0 <= i < outputs.len() && reads_as(#[trigger] outputs[i], names[k]@)) by {
        assert(list[k] == names[k]@);
        resolved_is_output(outputs, names[k]@);
        if let Some(found) = resolve(outputs, names[k]@) {
            let i = choose|i: int| 0 <= i < outputs.len() && outputs[i] == found;
            assert(reads_as(outputs[i], names[k]@));
        } else {
            assert forall|i: int| 0 <= i < outputs.len() implies !reads_as(
                #[trigger] outputs[i],
                names[k]@,
            ) by {
                assert(output_text(outputs[i].0) != names[k]@);
            }
        }
    }
    if target_errors(outputs, field, test, list).len() == 0 {
        assert forall|k: int| 0 <= k < names.len() implies exists|i: int|
            0 <= i < outputs.len() && reads_as(#[trigger] outputs[i], (#[trigger] names[k])@) by {
            assert(f(k).len() == 0);
        }
    }
    if forall|k: int|
        0 <= k < names.len() ==> exists|i: int|
            0 <= i < outputs.len() && reads_as(#[trigger] outputs[i], (#[trigger] names[k])@) {
        assert forall|k: int| 0 <= k < list.len() implies (#[trigger] f(k)).len() == 0 by {
            assert(names[k]@ == list[k]);
        }
    }
}

} // verus!
