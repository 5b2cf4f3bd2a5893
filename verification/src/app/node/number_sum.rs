//! `NumberSum`: two numbers and the sum that is worked out of them.

use vstd::prelude::*;
use crate::node::{Emission, I32Node, Node};
use crate::packet::{child_key, copy_key, NodeId};
use crate::state::{encode, lemma_states_value, lemma_states_value_ext, same_shape, State, Value};

verus! {

/// The id of the field `a`.
pub const A: NodeId = 0;
/// The id of the field `b`.
pub const B: NodeId = 1;
/// The id of the field `sum`.
pub const SUM: NodeId = 2;

/// How long the sum takes to work out, in milliseconds.
pub const SUM_DELAY_MS: u64 = 200;

/// The value of a `NumberSum` node.
pub open spec fn number_sum_value(a: i32, b: i32, sum: i32) -> Value {
    Value::Fields(seq![Value::I32(a), Value::I32(b), Value::I32(sum)])
}

/// The field `i` of a value.
pub open spec fn field(v: Value, i: int) -> Value {
    v->Fields_0[i]
}

/// A `NumberSum` node: the numbers `a` and `b`, and `sum`.
pub struct NumberSum {
    pub key: Vec<NodeId>,
    pub a: I32Node,
    pub b: I32Node,
    pub sum: I32Node,
}

impl NumberSum {
    /// The value of a node of this type as it starts.
    pub open spec fn template() -> Value {
        number_sum_value(0, 0, 0)
    }

    pub open spec fn value(&self) -> Value {
        number_sum_value(self.a.value, self.b.value, self.sum.value)
    }

    /// Whether `key` names the node and each field is named by it.
    pub open spec fn keyed(&self, key: Seq<u32>) -> bool {
        &&& self.key@ == key
        &&& self.a.key@ == key.push(A)
        &&& self.b.key@ == key.push(B)
        &&& self.sum.key@ == key.push(SUM)
    }

    /// The state of a node of this type as it starts.
    pub fn default_state() -> (s: State)
        ensures
            s@ == Self::template(),
    {
        let fs = vec![State::I32(0), State::I32(0), State::I32(0)];
        proof {
            lemma_states_value_ext(fs@, seq![Value::I32(0), Value::I32(0), Value::I32(0)]);
        }
        State::Fields(fs)
    }

    /// The node that `key` names, of state `s`.
    pub fn from_state(key: &Vec<NodeId>, s: &State) -> (n: NumberSum)
        requires
            same_shape(Self::template(), s@),
        ensures
            n.keyed(key@),
            n.value() == s@,
    {
        match s {
            State::Fields(fs) => {
                proof {
                    lemma_states_value(fs@);
                    assert(same_shape(Value::I32(0), s@->Fields_0[0]));
                    assert(same_shape(Value::I32(0), s@->Fields_0[1]));
                    assert(same_shape(Value::I32(0), s@->Fields_0[2]));
                }
                match (&fs[0], &fs[1], &fs[2]) {
                    (State::I32(a), State::I32(b), State::I32(sum)) => {
                        let n = NumberSum {
                            key: copy_key(key),
                            a: I32Node::new(child_key(key, A), *a),
                            b: I32Node::new(child_key(key, B), *b),
                            sum: I32Node::new(child_key(key, SUM), *sum),
                        };
                        assert(crate::state::states_value(fs@) =~= seq![
                            Value::I32(*a),
                            Value::I32(*b),
                            Value::I32(*sum),
                        ]);
                        n
                    },
                    _ => {
                        proof {
                            assert(false);
                        }
                        Self::zero(key)
                    },
                }
            },
            _ => {
                proof {
                    assert(false);
                }
                Self::zero(key)
            },
        }
    }

    fn zero(key: &Vec<NodeId>) -> (n: NumberSum)
        ensures
            n.keyed(key@),
    {
        NumberSum {
            key: copy_key(key),
            a: I32Node::new(child_key(key, A), 0),
            b: I32Node::new(child_key(key, B), 0),
            sum: I32Node::new(child_key(key, SUM), 0),
        }
    }

    /// Sets `sum` to `a + b` after a while: the packet for the sum, to be
    /// applied `SUM_DELAY_MS` milliseconds later. `a + b` must fit in an
    /// `i32`.
    pub fn emit_expensive_sum(&self) -> (e: Emission)
        requires
            i32::MIN <= self.a.value + self.b.value <= i32::MAX,
        ensures
            e.parts() == (
                self.sum.key@,
                encode(Value::I32((self.a.value + self.b.value) as i32)),
                SUM_DELAY_MS,
            ),
    {
        let e = self.sum.emit(self.a.value + self.b.value);
        Emission { packet: e.packet, delay_ms: SUM_DELAY_MS }
    }
}

} // verus!
