//! `Client`: the numbers that each client has for itself.

use vstd::prelude::*;
use crate::state::{all_zero, lemma_all_zero_leaves, lemma_states_value_ext, State, Value};

verus! {

/// The node type `Client`: `number1` to `number3`, each an `i32`.
pub struct Client;

impl Client {
    pub open spec fn template() -> Value {
        Value::Fields(seq![Value::I32(0), Value::I32(0), Value::I32(0)])
    }

    pub fn default_state() -> (s: State)
        ensures
            s@ == Self::template(),
    {
        let fs = vec![State::I32(0), State::I32(0), State::I32(0)];
        proof {
            lemma_states_value_ext(fs@, seq![Value::I32(0), Value::I32(0), Value::I32(0)]);
        }
        State::Fields(fs)
    }
}

/// Every number of a `Client` as it starts is 0.
pub proof fn law_client_starts_at_zero()
    ensures
        all_zero(Client::template()),
{
    lemma_all_zero_leaves(Client::template()->Fields_0, 0);
}

} // verus!
