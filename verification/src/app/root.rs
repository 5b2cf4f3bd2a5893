//! `Root` of shared and personal numbers, and the server's answer to each
//! change of them.

use vstd::prelude::*;
use crate::app::personal::Personal;
use crate::app::shared::{Shared, NUMBER4};
use crate::node::{action_views, Action, ActionView, Emission, Message, Node, emit_number};
use crate::packet::{NodeId, Packet};
use crate::state::{all_zero, lemma_all_zero_leaves, encode, lemma_states_value_ext, State, Value};

verus! {

/// The id of the field `shared`.
pub const SHARED: NodeId = 0;
/// The id of the field `personal`.
pub const PERSONAL: NodeId = 1;

/// The node type `Root`: `shared` and `personal`.
pub struct Root;

impl Root {
    /// The value of a node of this type as it starts.
    pub open spec fn template() -> Value {
        Value::Fields(seq![Shared::template(), Personal::template()])
    }

    /// The state of a node of this type as it starts.
    pub fn default_state() -> (s: State)
        ensures
            s@ == Self::template(),
    {
        let fs = vec![Shared::default_state(), Personal::default_state()];
        proof {
            lemma_states_value_ext(fs@, seq![Shared::template(), Personal::template()]);
        }
        State::Fields(fs)
    }
}

/// Whether a message that sets `path` below the root to `state` names one
/// of the numbers.
pub open spec fn is_number(path: Seq<u32>, state: Value) -> bool {
    path.len() == 2 && path[1] <= NUMBER4 && state is I32
}

/// Whether the answer to a message can be worked out without overflow:
/// a shared number is below `i32::MAX`, a personal one strictly between
/// `i32::MIN` and `i32::MAX`.
pub open spec fn handle_fits(path: Seq<u32>, state: Value) -> bool {
    is_number(path, state) ==> {
        let n = state->I32_0;
        &&& path[0] == SHARED ==> n < i32::MAX
        &&& path[0] == PERSONAL ==> i32::MIN < n < i32::MAX
    }
}

/// Whether the answer to a message can be worked out without overflow.
pub fn handle_fits_exec(path: &Vec<NodeId>, state: &State) -> (b: bool)
    ensures
        b == handle_fits(path@, state@),
{
    if path.len() == 2 && path[1] <= NUMBER4 {
        if let State::I32(n) = state {
            let n: i32 = *n;
            if path[0] == SHARED {
                n < i32::MAX
            } else if path[0] == PERSONAL {
                i32::MIN < n && n < i32::MAX
            } else {
                true
            }
        } else {
            true
        }
    } else {
        true
    }
}

/// The server's answer to a message from the client `id` that sets `path`
/// below the root (named by `root_key`) to `state`, the message having come
/// as `payload`.
///
/// Anything below `shared` goes to every client, and a new shared number
/// `n` sets the next number (the fourth's next is the first) to `n + 1`.
/// Anything below `personal` goes back to `id`, and a new personal number
/// `n` sets the number before it to `n - 1` and the one after it to
/// `n + 1`. A message for the whole root is not answered.
pub open spec fn handle_actions(
    id: u128,
    root_key: Seq<u32>,
    path: Seq<u32>,
    state: Value,
    payload: (Seq<u32>, Seq<u8>),
) -> Seq<ActionView> {
    if path.len() > 0 && path[0] == SHARED {
        let forward = ActionView::Forward(payload.0, payload.1);
        if is_number(path, state) {
            let n = state->I32_0;
            let next = ((path[1] + 1) % 4) as u32;
            seq![
                forward,
                ActionView::Emit(root_key + seq![SHARED, next], encode(Value::I32((n + 1) as i32)), 0),
            ]
        } else {
            seq![forward]
        }
    } else if path.len() > 0 && path[0] == PERSONAL {
        let send = ActionView::SendTo(id, payload.0, payload.1);
        if is_number(path, state) {
            let n = state->I32_0;
            let before = ((path[1] + 3) % 4) as u32;
            let next = ((path[1] + 1) % 4) as u32;
            seq![
                send,
                ActionView::Emit(root_key + seq![PERSONAL, before], encode(Value::I32((n - 1) as i32)), 0),
                ActionView::Emit(root_key + seq![PERSONAL, next], encode(Value::I32((n + 1) as i32)), 0),
            ]
        } else {
            seq![send]
        }
    } else {
        seq![]
    }
}

/// A new shared number `n`, the number at index `p` of the ring of four
/// shared numbers, is sent on to every client and sets the number after it
/// round the ring (after the fourth comes the first) to `n + 1`.
pub proof fn law_shared_number_sets_the_next_round_the_ring(
    id: u128,
    root_key: Seq<u32>,
    p: u32,
    n: i32,
    payload: (Seq<u32>, Seq<u8>),
)
    requires
        p < 4,
        n < i32::MAX,
    ensures
        handle_actions(id, root_key, seq![SHARED, p], Value::I32(n), payload) == seq![
            ActionView::Forward(payload.0, payload.1),
            ActionView::Emit(
                root_key + seq![SHARED, if p == 3 { 0u32 } else { (p + 1) as u32 }],
                encode(Value::I32((n + 1) as i32)),
                0,
            ),
        ],
{
}

/// A new personal number `n`, the number at index `p` of the ring of four
/// personal numbers, goes back to the client it came from, sets the number
/// before it round the ring (before the first comes the fourth) to `n - 1`
/// and the number after it (after the fourth comes the first) to `n + 1`.
pub proof fn law_personal_number_sets_its_neighbours_round_the_ring(
    id: u128,
    root_key: Seq<u32>,
    p: u32,
    n: i32,
    payload: (Seq<u32>, Seq<u8>),
)
    requires
        p < 4,
        i32::MIN < n < i32::MAX,
    ensures
        handle_actions(id, root_key, seq![PERSONAL, p], Value::I32(n), payload) == seq![
            ActionView::SendTo(id, payload.0, payload.1),
            ActionView::Emit(
                root_key + seq![PERSONAL, if p == 0 { 3u32 } else { (p - 1) as u32 }],
                encode(Value::I32((n - 1) as i32)),
                0,
            ),
            ActionView::Emit(
                root_key + seq![PERSONAL, if p == 3 { 0u32 } else { (p + 1) as u32 }],
                encode(Value::I32((n + 1) as i32)),
                0,
            ),
        ],
{
}

/// Every number of the tree as it starts is 0.
pub proof fn law_root_starts_at_zero()
    ensures
        all_zero(Root::template()),
        all_zero(Shared::template()),
        all_zero(Personal::template()),
{
    lemma_all_zero_leaves(Shared::template()->Fields_0, 0);
    lemma_all_zero_leaves(Personal::template()->Fields_0, 0);
    let fs = Root::template()->Fields_0;
    assert forall|i: int| 0 <= i < fs.len() implies #[trigger] all_zero(fs[i]) by {
        if i == 0 {
            assert(fs[i] == Shared::template());
        } else {
            assert(fs[i] == Personal::template());
        }
    }
    lemma_all_zero_leaves(fs, fs.len() as int);
}

/// The server's answer to `message`, which came from the client `id` as
/// `payload`, for the root `node`.
pub fn handle(id: u128, node: &Node, message: &Message, payload: Packet) -> (actions: Vec<Action>)
    requires
        handle_fits(message.path@, message.state@),
    ensures
        action_views(actions@) == handle_actions(
            id,
            node.spec_key(),
            message.path@,
            message.state@,
            (payload.key@, payload.data@),
        ),
{
    let ghost payload_view = (payload.key@, payload.data@);
    let mut actions: Vec<Action> = Vec::new();
    if message.path.len() > 0 && message.path[0] == SHARED {
        actions.push(Action::Forward(payload));
        if message.path.len() == 2 && message.path[1] <= NUMBER4 {
            if let State::I32(n) = &message.state {
                let next = (message.path[1] + 1) % 4;
                actions.push(Action::Emit(emit_number(node, SHARED, next, *n + 1)));
            }
        }
    } else if message.path.len() > 0 && message.path[0] == PERSONAL {
        actions.push(Action::SendTo(id, payload));
        if message.path.len() == 2 && message.path[1] <= NUMBER4 {
            if let State::I32(n) = &message.state {
                let before = (message.path[1] + 3) % 4;
                let next = (message.path[1] + 1) % 4;
                actions.push(Action::Emit(emit_number(node, PERSONAL, before, *n - 1)));
                actions.push(Action::Emit(emit_number(node, PERSONAL, next, *n + 1)));
            }
        }
    }
    assert(action_views(actions@) =~= handle_actions(
        id,
        node.spec_key(),
        message.path@,
        message.state@,
        payload_view,
    ));
    actions
}

} // verus!
