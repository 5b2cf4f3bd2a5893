//! The nodes, components and sockets of the demo tree.

pub mod client_socket;
pub mod node;
pub mod render;
pub mod simple;
pub mod simple_component;
pub mod yew_app;

use vstd::prelude::*;
use crate::state::{all_zero, lemma_all_zero_leaves, lemma_states_value_ext, State, Value};

verus! {

/// The node type `Test`: `number1` to `number3`, each an `i32`.
pub struct Test;

impl Test {
    pub open spec fn template() -> Value {
        Value::Fields(seq![Value::I32(0), Value::I32(0), Value::I32(0)])
    }

    pub fn default_state() -> (s: State)
        ensures
            s@ == Self::template(),
    {
        let fs = vec![State::I32(0), State::I32(0), State::I32(0)];
        proof {
            lemma_states_value_ext(fs@, seq![Value::I32(0), Value::I32(0), Value::I32(0)]);
        }
        State::Fields(fs)
    }
}

/// Every number of a `Test` as it starts is 0.
pub proof fn law_test_numbers_start_at_zero()
    ensures
        all_zero(Test::template()),
{
    lemma_all_zero_leaves(Test::template()->Fields_0, 0);
}

} // verus!
