//! What the component attribute reads from its arguments: the attributes
//! to put on the component, and the state it shows.

use vstd::prelude::*;
use crate::codegen::attrs::Attrs;
use crate::codegen::component_attrs::{ComponentAttrItem, ComponentAttrKeyItem};
use crate::codegen::names::{converted_case, mod_name, TextCase};
use crate::codegen::tokens::Tok;

verus! {

/// An argument that holds the wrong kind of thing: the key it was given
/// under ("ComponentAttrItem expand error").
pub struct ExpandError {
    pub key: String,
}

/// What the component attribute generates from: the attributes it puts on
/// the component (those of the `attrs` argument), and the state it shows.
pub struct ComponentLayout<'a> {
    pub mod_name: String,
    pub attrs: Option<&'a Vec<Vec<Tok>>>,
    pub state: Option<String>,
}

/// What the component attribute generates from, for a component named
/// `component_name`: an `attrs` argument must hold attributes and a
/// `state` argument a name; the first that does not is the error.
pub fn expand<'a>(attrs: &'a Attrs<ComponentAttrKeyItem>, component_name: &str) -> (r: Result<ComponentLayout<'a>, ExpandError>)
    ensures
        ({
            let m = attrs.map();
            let a = "attrs"@;
            let s = "state"@;
            match r {
                Ok(layout) => {
                    &&& layout.mod_name@ == converted_case(component_name@ + "Mod"@, TextCase::Pascal)
                    &&& match layout.attrs {
                        Some(v) => m.contains_key(a) && (m[a].item matches ComponentAttrItem::Attrs(x) && *v == x),
                        None => !m.contains_key(a),
                    }
                    &&& match layout.state {
                        Some(v) => m.contains_key(s) && (m[s].item matches ComponentAttrItem::Ident(x) && v == x),
                        None => !m.contains_key(s),
                    }
                },
                Err(e) => {
                    ||| m.contains_key(a) && !(m[a].item is Attrs) && e.key == m[a].key
                    ||| (!m.contains_key(a) || m[a].item is Attrs) && m.contains_key(s) && !(
                    m[s].item is Ident) && e.key == m[s].key
                },
            }
        }),
{
    let component_attrs = match attrs.get("attrs") {
        Some(item) => match &item.item {
            ComponentAttrItem::Attrs(v) => Some(v),
            _ => {
                return Err(ExpandError { key: item.key.clone() });
            },
        },
        None => None,
    };
    let state = match attrs.get("state") {
        Some(item) => match &item.item {
            ComponentAttrItem::Ident(i) => Some(i.clone()),
            _ => {
                return Err(ExpandError { key: item.key.clone() });
            },
        },
        None => None,
    };
    Ok(ComponentLayout { mod_name: mod_name(component_name), attrs: component_attrs, state })
}

} // verus!
