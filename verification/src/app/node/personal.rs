//! `Personal`: the sums that each client has for itself.

use vstd::prelude::*;
use crate::app::node::number_sum::NumberSum;
use crate::packet::{child_key, copy_key, NodeId};
use crate::state::{lemma_states_value, lemma_states_value_ext, same_shape, states_value, State, Value};

verus! {

/// The id of the field `sum1`.
pub const SUM1: NodeId = 0;
/// The id of the field `sum2`.
pub const SUM2: NodeId = 1;
/// The id of the field `sum3`.
pub const SUM3: NodeId = 2;

/// A `Personal` node: three `NumberSum`s.
pub struct Personal {
    pub key: Vec<NodeId>,
    pub sum1: NumberSum,
    pub sum2: NumberSum,
    pub sum3: NumberSum,
}

impl Personal {
    /// The value of a node of this type as it starts.
    pub open spec fn template() -> Value {
        Value::Fields(seq![NumberSum::template(), NumberSum::template(), NumberSum::template()])
    }

    pub open spec fn value(&self) -> Value {
        Value::Fields(seq![self.sum1.value(), self.sum2.value(), self.sum3.value()])
    }

    /// Whether `key` names the node and each node below it is named by it.
    pub open spec fn keyed(&self, key: Seq<u32>) -> bool {
        &&& self.key@ == key
        &&& self.sum1.keyed(key.push(SUM1))
        &&& self.sum2.keyed(key.push(SUM2))
        &&& self.sum3.keyed(key.push(SUM3))
    }

    /// The state of a node of this type as it starts.
    pub fn default_state() -> (s: State)
        ensures
            s@ == Self::template(),
    {
        let fs = vec![NumberSum::default_state(), NumberSum::default_state(), NumberSum::default_state()];
        proof {
            lemma_states_value_ext(fs@, seq![NumberSum::template(), NumberSum::template(), NumberSum::template()]);
        }
        State::Fields(fs)
    }

    /// The node that `key` names, of state `s`.
    pub fn from_state(key: &Vec<NodeId>, s: &State) -> (n: Personal)
        requires
            same_shape(Self::template(), s@),
        ensures
            n.keyed(key@),
            n.value() == s@,
    {
        match s {
            State::Fields(fs) => {
                proof {
                    lemma_states_value(fs@);
                    let ts = Self::template()->Fields_0;
                    let ys = s@->Fields_0;
                    assert(same_shape(ts[0], ys[0]));
                    assert(same_shape(ts[1], ys[1]));
                    assert(same_shape(ts[2], ys[2]));
                }
                let n = Personal {
                    key: copy_key(key),
                    sum1: NumberSum::from_state(&child_key(key, SUM1), &fs[0]),
                    sum2: NumberSum::from_state(&child_key(key, SUM2), &fs[1]),
                    sum3: NumberSum::from_state(&child_key(key, SUM3), &fs[2]),
                };
                assert(states_value(fs@) =~= seq![n.sum1.value(), n.sum2.value(), n.sum3.value()]);
                n
            },
            _ => {
                proof {
                    assert(false);
                }
                let z = NumberSum::default_state();
                Personal {
                    key: copy_key(key),
                    sum1: NumberSum::from_state(&child_key(key, SUM1), &z),
                    sum2: NumberSum::from_state(&child_key(key, SUM2), &z),
                    sum3: NumberSum::from_state(&child_key(key, SUM3), &z),
                }
            },
        }
    }

    /// The `NumberSum` whose id is `id`.
    pub fn sum_at(&self, id: NodeId) -> (n: &NumberSum)
        requires
            id <= SUM3,
        ensures
            n == (if id == SUM1 {
                &self.sum1
            } else if id == SUM2 {
                &self.sum2
            } else {
                &self.sum3
            }),
    {
        if id == SUM1 {
            &self.sum1
        } else if id == SUM2 {
            &self.sum2
        } else {
            &self.sum3
        }
    }
}

} // verus!
