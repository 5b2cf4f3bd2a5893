//! `Shared`: four numbers that every client sees alike.

use vstd::prelude::*;
use crate::packet::NodeId;
use crate::state::{lemma_states_value_ext, State, Value};

verus! {

/// The id of the field `number1`.
pub const NUMBER1: NodeId = 0;
/// The id of the field `number2`.
pub const NUMBER2: NodeId = 1;
/// The id of the field `number3`.
pub const NUMBER3: NodeId = 2;
/// The id of the field `number4`.
pub const NUMBER4: NodeId = 3;

/// The node type `Shared`: the fields `number1` to `number4`, each an
/// `i32`.
pub struct Shared;

impl Shared {
    /// The value of a node of this type as it starts.
    pub open spec fn template() -> Value {
        Value::Fields(seq![Value::I32(0), Value::I32(0), Value::I32(0), Value::I32(0)])
    }

    /// The state of a node of this type as it starts.
    pub fn default_state() -> (s: State)
        ensures
            s@ == Self::template(),
    {
        let fs = vec![State::I32(0), State::I32(0), State::I32(0), State::I32(0)];
        proof {
            lemma_states_value_ext(fs@, seq![Value::I32(0), Value::I32(0), Value::I32(0), Value::I32(0)]);
        }
        State::Fields(fs)
    }
}

} // verus!
