//! Comparing the settings of components.
use vstd::prelude::*;

use crate::text::same_text;

verus! {

/// The value of a JSON text, as a number that stands for it: texts with equal
/// values have the same number. The order of the members of an object and the
/// layout of the text do not matter. A text that is no JSON, or is nested too
/// deeply to be read, has none.
pub uninterp spec fn json_value(text: Seq<char>) -> Option<int>;

/// Whether two texts say the same: whether they have the same value as JSON, or
/// are equal where neither has one.
pub open spec fn same_json(a: Seq<char>, b: Seq<char>) -> bool {
    if json_value(a) is None && json_value(b) is None {
        a == b
    } else {
        json_value(a) == json_value(b)
    }
}

/// `serde_json::from_str` on both texts, and the equality of the two
/// `serde_json::Value`s, unless neither text can be read. The equality of such
/// values is an equivalence, so that one number can stand for all values that
/// are equal to one another.
#[verifier::external_body]
fn values_equal(a: &str, b: &str) -> (same: Option<bool>)
    ensures
        same == (if json_value(a@) is None && json_value(b@) is None {
            None
        } else {
            Some(json_value(a@) == json_value(b@))
        }),
{
    let a = serde_json::from_str::<serde_json::Value>(a);
    let b = serde_json::from_str::<serde_json::Value>(b);
    match (a, b) {
        (Err(_), Err(_)) => None,
        (a, b) => Some(a.ok() == b.ok()),
    }
}

/// Decides whether two texts say the same.
pub(crate) fn json_equal(a: &str, b: &str) -> (same: bool)
    ensures
        same == same_json(a@, b@),
{
    match values_equal(a, b) {
        Some(same) => same,
        None => same_text(a, b),
    }
}

/// Texts say the same where they have one value, or where they are the same.
pub(crate) proof fn texts_are_compared_by_value(a: &str, b: &str, same: bool)
    requires
        call_ensures(json_equal, (a, b), same),
    ensures
        a@ == b@ ==> same,
        json_value(a@) is Some && json_value(b@) is Some ==> (same <==> json_value(a@) == json_value(
            b@,
        )),
        json_value(a@) is Some && json_value(b@) is None ==> !same,
        json_value(a@) is None && json_value(b@) is Some ==> !same,
        json_value(a@) is None && json_value(b@) is None ==> (same <==> a@ == b@),
{
}

} // verus!
