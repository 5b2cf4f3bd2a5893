//! The names that the node and component attributes give the items they
//! generate, in the case that `convert_case` writes them in.

use vstd::prelude::*;
use vstd::string::StringExecFns;
use convert_case::Casing;

verus! {

/// A case that names are written in.
pub enum TextCase {
    /// `UpperCamelCase`.
    Pascal,
    /// `lower_snake_case`.
    Snake,
}

/// The text that `convert_case` makes of `text` in `case`: it splits the
/// text into words at its boundaries and joins them as the case writes
/// them.
pub uninterp spec fn converted_case(text: Seq<char>, case: TextCase) -> Seq<char>;

/// `convert_case::Casing::to_case` on `text`, with `Case::Pascal` or
/// `Case::Snake`. Claimed: the result is `converted_case` of the text and
/// the case, which depends on nothing else; what that text is is not
/// stated.
#[verifier::external_body]
fn to_case(text: &str, case: TextCase) -> (r: String)
    ensures
        r@ == converted_case(text@, case),
{
    let case = match case {
        TextCase::Pascal => convert_case::Case::Pascal,
        TextCase::Snake => convert_case::Case::Snake,
    };
    text.to_case(case)
}

/// The name `name` followed by `suffix`, written in `case`.
pub fn suffixed(name: &str, suffix: &str, case: TextCase) -> (r: String)
    ensures
        r@ == converted_case(name@ + suffix@, case),
{
    let text = String::from_str(name).concat(suffix);
    to_case(text.as_str(), case)
}

/// The name of a node's message enum: `{name}Message` in Pascal case.
pub fn message_name(node_name: &str) -> (r: String)
    ensures
        r@ == converted_case(node_name@ + "Message"@, TextCase::Pascal),
{
    suffixed(node_name, "Message", TextCase::Pascal)
}

/// The name of the module that holds a node's or a component's items:
/// `{name}Mod` in Pascal case.
pub fn mod_name(name: &str) -> (r: String)
    ensures
        r@ == converted_case(name@ + "Mod"@, TextCase::Pascal),
{
    suffixed(name, "Mod", TextCase::Pascal)
}

/// The name of the macro that `node_macro` and `component_macro` define:
/// `{name}_macro` in snake case.
pub fn macro_name(name: &str) -> (r: String)
    ensures
        r@ == converted_case(name@ + "_macro"@, TextCase::Snake),
{
    suffixed(name, "_macro", TextCase::Snake)
}

} // verus!
