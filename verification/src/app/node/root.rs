//! `Root`: the whole tree that a server and its clients share.

use vstd::prelude::*;
use crate::app::node::personal::Personal;
use crate::app::node::shared::Shared;
use crate::node::Node;
use crate::packet::{child_key, copy_key, NodeId};
use crate::state::{all_zero, lemma_all_zero_leaves, lemma_states_value, lemma_states_value_ext, same_shape, states_value, State, Value};

verus! {

/// The id of the field `shared`.
pub const SHARED: NodeId = 0;
/// The id of the field `personal`.
pub const PERSONAL: NodeId = 1;

/// The root node: what all clients share, and what each has for itself.
pub struct Root {
    pub key: Vec<NodeId>,
    pub shared: Shared,
    pub personal: Personal,
}

impl Root {
    /// The value of a node of this type as it starts.
    pub open spec fn template() -> Value {
        Value::Fields(seq![Shared::template(), Personal::template()])
    }

    pub open spec fn value(&self) -> Value {
        Value::Fields(seq![self.shared.value(), self.personal.value()])
    }

    /// Whether `key` names the node and each node below it is named by it.
    pub open spec fn keyed(&self, key: Seq<u32>) -> bool {
        &&& self.key@ == key
        &&& self.shared.keyed(key.push(SHARED))
        &&& self.personal.keyed(key.push(PERSONAL))
    }

    /// The state of a node of this type as it starts.
    pub fn default_state() -> (s: State)
        ensures
            s@ == Self::template(),
    {
        let fs = vec![Shared::default_state(), Personal::default_state()];
        proof {
            lemma_states_value_ext(fs@, seq![Shared::template(), Personal::template()]);
        }
        State::Fields(fs)
    }

    /// The typed view of a node of this type.
    pub fn from_node(node: &Node) -> (r: Root)
        requires
            same_shape(Self::template(), node.value()),
        ensures
            r.keyed(node.spec_key()),
            r.value() == node.value(),
    {
        Self::from_state(node.key(), node.state())
    }

    /// The node that `key` names, of state `s`.
    pub fn from_state(key: &Vec<NodeId>, s: &State) -> (r: Root)
        requires
            same_shape(Self::template(), s@),
        ensures
            r.keyed(key@),
            r.value() == s@,
    {
        match s {
            State::Fields(fs) => {
                proof {
                    lemma_states_value(fs@);
                    let ts = Self::template()->Fields_0;
                    let ys = s@->Fields_0;
                    assert(same_shape(ts[0], ys[0]));
                    assert(same_shape(ts[1], ys[1]));
                }
                let r = Root {
                    key: copy_key(key),
                    shared: Shared::from_state(&child_key(key, SHARED), &fs[0]),
                    personal: Personal::from_state(&child_key(key, PERSONAL), &fs[1]),
                };
                assert(states_value(fs@) =~= seq![r.shared.value(), r.personal.value()]);
                r
            },
            _ => {
                proof {
                    assert(false);
                }
                Root {
                    key: copy_key(key),
                    shared: Shared::from_state(&child_key(key, SHARED), &Shared::default_state()),
                    personal: Personal::from_state(&child_key(key, PERSONAL), &Personal::default_state()),
                }
            },
        }
    }
}

/// Every number of the tree of sums as it starts is 0.
pub proof fn law_root_of_sums_starts_at_zero()
    ensures
        all_zero(Root::template()),
{
    let ns = crate::app::node::number_sum::NumberSum::template();
    lemma_all_zero_leaves(ns->Fields_0, 0);
    let gs = Shared::template()->Fields_0;
    assert forall|i: int| 0 <= i < gs.len() implies #[trigger] all_zero(gs[i]) by {
        assert(gs[i] == ns);
    }
    let ps = Personal::template()->Fields_0;
    assert forall|i: int| 0 <= i < ps.len() implies #[trigger] all_zero(ps[i]) by {
        assert(ps[i] == ns);
    }
    lemma_all_zero_leaves(gs, gs.len() as int);
    lemma_all_zero_leaves(ps, ps.len() as int);
    let fs = Root::template()->Fields_0;
    assert forall|i: int| 0 <= i < fs.len() implies #[trigger] all_zero(fs[i]) by {
        if i == 0 {
            assert(fs[i] == Shared::template());
        } else {
            assert(fs[i] == Personal::template());
        }
    }
    lemma_all_zero_leaves(fs, fs.len() as int);
}

} // verus!
