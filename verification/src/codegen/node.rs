//! What the node attribute reads from a struct: the names of the items it
//! generates, and each named field with its id, the index at which it is
//! declared.

use vstd::prelude::*;
use crate::codegen::names::{converted_case, message_name, mod_name, TextCase};
use crate::packet::NodeId;
use crate::state::{get_at, set_at, Value};

verus! {

/// A field of a node: its id, its name and the text of its type.
pub struct FieldLayout {
    pub id: NodeId,
    pub name: String,
    pub ty: String,
}

/// What the node attribute generates from.
pub struct NodeLayout {
    pub message_name: String,
    pub mod_name: String,
    pub fields: Vec<FieldLayout>,
}

/// What the node attribute generates from, for a struct named `node_name`
/// whose named fields (name, type) are `fields`; a struct without named
/// fields (`None`) has none.
pub fn expand(node_name: &str, fields: Option<Vec<(String, String)>>) -> (l: NodeLayout)
    requires
        fields matches Some(fs) ==> fs@.len() <= u32::MAX,
    ensures
        l.message_name@ == converted_case(node_name@ + "Message"@, TextCase::Pascal),
        l.mod_name@ == converted_case(node_name@ + "Mod"@, TextCase::Pascal),
        match fields {
            Some(fs) => {
                &&& l.fields@.len() == fs@.len()
                &&& forall|i: int|
                    #![trigger l.fields@[i]]
                    0 <= i < fs@.len() ==> {
                        &&& l.fields@[i].id == i
                        &&& l.fields@[i].name == fs@[i].0
                        &&& l.fields@[i].ty == fs@[i].1
                    }
            },
            None => l.fields@.len() == 0,
        },
{
    let message_name = message_name(node_name);
    let mod_name = mod_name(node_name);
    let mut out: Vec<FieldLayout> = Vec::new();
    match fields {
        Some(fs) => {
            let n = fs.len();
            let mut i: usize = 0;
            while i < n
                invariant
                    n == fs@.len(),
                    n <= u32::MAX,
                    i <= n,
                    out@.len() == i,
                    forall|k: int|
                        #![trigger out@[k]]
                        0 <= k < i ==> {
                            &&& out@[k].id == k
                            &&& out@[k].name == fs@[k].0
                            &&& out@[k].ty == fs@[k].1
                        },
                decreases n - i,
            {
                let (name, ty) = (fs[i].0.clone(), fs[i].1.clone());
                out.push(FieldLayout { id: i as u32, name, ty });
                i = i + 1;
            }
        },
        None => {},
    }
    NodeLayout { message_name, mod_name, fields: out }
}

/// The generated code of a node dispatches a packet on the id at its own
/// depth to the field of that id. With the ids that `expand` gives, that id
/// names exactly one field, the one declared at that index, so the field
/// that the generated code reads and writes is the one that `get_at` and
/// `set_at` of the node's value choose for the rest of the key; and the
/// fields of a node named by `key` get keys of their own, `key` followed by
/// their ids.
pub proof fn law_field_ids_choose_fields(
    key: Seq<u32>,
    fields: Seq<FieldLayout>,
    vs: Seq<Value>,
    id: u32,
    rest: Seq<u32>,
    new: Value,
)
    requires
        fields.len() == vs.len(),
        forall|k: int| #![trigger fields[k]] 0 <= k < fields.len() ==> fields[k].id == k,
        id < fields.len(),
    ensures
        fields[id as int].id == id,
        forall|k: int| #![trigger fields[k]] 0 <= k < fields.len() && fields[k].id == id ==> k == id,
        get_at(Value::Fields(vs), seq![id] + rest) == get_at(vs[id as int], rest),
        set_at(Value::Fields(vs), seq![id] + rest, new) == Value::Fields(
            vs.update(id as int, set_at(vs[id as int], rest, new)),
        ),
        forall|i: int, j: int|
            0 <= i < j < fields.len() ==> #[trigger] key.push(fields[i].id) != #[trigger] key.push(
                fields[j].id,
            ),
{
    assert forall|i: int, j: int| 0 <= i < j < fields.len() implies #[trigger] key.push(fields[i].id)
        != #[trigger] key.push(fields[j].id) by {
        assert(key.push(fields[i].id)[key.len() as int] == fields[i].id);
        assert(key.push(fields[j].id)[key.len() as int] == fields[j].id);
    }
    let p = seq![id] + rest;
    assert(p.skip(1) =~= rest);
    assert(p[0] == id);
}

} // verus!
