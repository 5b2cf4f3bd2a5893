//! `Simple` and `SimpleSub`: two groups of three numbers and a count of
//! messages, and how a group answers a change of one of its numbers.

use vstd::prelude::*;
use crate::node::{ActionView, Action, Emission, Node, emit_number};
use crate::packet::NodeId;
use crate::state::{all_zero, encode, lemma_all_zero_leaves, lemma_states_value_ext, State, Value};

verus! {

/// The id of the field `sub1`.
pub const SUB1: NodeId = 0;
/// The id of the field `sub2`.
pub const SUB2: NodeId = 1;
/// The id of the field `message_count`.
pub const MESSAGE_COUNT: NodeId = 2;

/// The id of the field `number1` of a group.
pub const NUMBER1: NodeId = 0;
/// The id of the field `number2` of a group.
pub const NUMBER2: NodeId = 1;
/// The id of the field `number3` of a group.
pub const NUMBER3: NodeId = 2;

/// The node type `SimpleSub`: `number1` to `number3`, each an `i32`.
pub struct SimpleSub;

impl SimpleSub {
    pub open spec fn template() -> Value {
        Value::Fields(seq![Value::I32(0), Value::I32(0), Value::I32(0)])
    }

    pub fn default_state() -> (s: State)
        ensures
            s@ == Self::template(),
    {
        let fs = vec![State::I32(0), State::I32(0), State::I32(0)];
        proof {
            lemma_states_value_ext(fs@, seq![Value::I32(0), Value::I32(0), Value::I32(0)]);
        }
        State::Fields(fs)
    }
}

/// The node type `Simple`: the groups `sub1` and `sub2`, and
/// `message_count`, a `u32`.
pub struct Simple;

impl Simple {
    pub open spec fn template() -> Value {
        Value::Fields(seq![SimpleSub::template(), SimpleSub::template(), Value::U32(0)])
    }

    pub fn default_state() -> (s: State)
        ensures
            s@ == Self::template(),
    {
        let fs = vec![SimpleSub::default_state(), SimpleSub::default_state(), State::U32(0)];
        proof {
            lemma_states_value_ext(fs@, seq![SimpleSub::template(), SimpleSub::template(), Value::U32(0)]);
        }
        State::Fields(fs)
    }
}

/// `n / 2`, rounded toward zero.
pub open spec fn half(n: int) -> int {
    if n >= 0 {
        n / 2
    } else {
        -((-n) / 2)
    }
}

/// Whether a message that sets `path` to `state` names a number of one of
/// the two groups.
pub open spec fn is_group_number(path: Seq<u32>, state: Value) -> bool {
    path.len() == 2 && path[0] <= SUB2 && path[1] <= NUMBER3 && state is I32
}

/// Whether the answer to such a message fits in `i32`s: `n + 1` for the
/// first group, `n * 2` for the second.
pub open spec fn group_fits(path: Seq<u32>, state: Value) -> bool {
    is_group_number(path, state) ==> {
        let n = state->I32_0;
        &&& path[0] == SUB1 ==> n < i32::MAX
        &&& path[0] == SUB2 ==> i32::MIN <= n * 2 <= i32::MAX
    }
}

/// Whether the answer to a message can be worked out without overflow.
pub fn group_fits_exec(path: &Vec<NodeId>, state: &State) -> (b: bool)
    ensures
        b == group_fits(path@, state@),
{
    if path.len() == 2 && path[0] <= SUB2 && path[1] <= NUMBER3 {
        if let State::I32(n) = state {
            let n: i32 = *n;
            if path[0] == SUB1 {
                n < i32::MAX
            } else {
                -1073741824 <= n && n <= 1073741823
            }
        } else {
            true
        }
    } else {
        true
    }
}

/// The packets that answer a new number `n` of a group below the node that
/// `root_key` names: in `sub1` the next number (the third's next is the
/// first) becomes `n + 1`; in `sub2` the next becomes `n * 2` and the one
/// after it `n / 2`. Nothing else is answered.
pub open spec fn group_reaction(root_key: Seq<u32>, path: Seq<u32>, state: Value) -> Seq<ActionView> {
    if is_group_number(path, state) {
        let n = state->I32_0;
        let g = path[0];
        let next = ((path[1] + 1) % 3) as u32;
        let after = ((path[1] + 2) % 3) as u32;
        if g == SUB1 {
            seq![ActionView::Emit(root_key + seq![SUB1, next], encode(Value::I32((n + 1) as i32)), 0)]
        } else {
            seq![
                ActionView::Emit(root_key + seq![SUB2, next], encode(Value::I32((n * 2) as i32)), 0),
                ActionView::Emit(root_key + seq![SUB2, after], encode(Value::I32(half(n as int) as i32)), 0),
            ]
        }
    } else {
        seq![]
    }
}

/// A new number `n` at index `p` of the ring of three numbers of `sub1`
/// sets the number after it round the ring (after the third comes the
/// first) to `n + 1`.
pub proof fn law_first_group_sets_the_next_round_the_ring(root_key: Seq<u32>, p: u32, n: i32)
    requires
        p < 3,
        n < i32::MAX,
    ensures
        group_reaction(root_key, seq![SUB1, p], Value::I32(n)) == seq![
            ActionView::Emit(
                root_key + seq![SUB1, if p == 2 { 0u32 } else { (p + 1) as u32 }],
                encode(Value::I32((n + 1) as i32)),
                0,
            ),
        ],
{
}

/// A new number `n` at index `p` of the ring of three numbers of `sub2`
/// sets the number after it round the ring to `n * 2`, and the number after
/// that one (the one before `p`) to `n / 2` rounded toward zero: twice the
/// half is `n`, or one less than `n` for an odd positive `n`, or one more
/// for an odd negative `n`.
pub proof fn law_second_group_doubles_the_next_and_halves_the_one_after(root_key: Seq<u32>, p: u32, n: i32)
    requires
        p < 3,
        i32::MIN <= n * 2 <= i32::MAX,
    ensures
        group_reaction(root_key, seq![SUB2, p], Value::I32(n)) == seq![
            ActionView::Emit(
                root_key + seq![SUB2, if p == 2 { 0u32 } else { (p + 1) as u32 }],
                encode(Value::I32((n * 2) as i32)),
                0,
            ),
            ActionView::Emit(
                root_key + seq![SUB2, if p == 0 { 2u32 } else { (p - 1) as u32 }],
                encode(Value::I32(half(n as int) as i32)),
                0,
            ),
        ],
        0 <= n ==> 2 * half(n as int) <= n <= 2 * half(n as int) + 1,
        n < 0 ==> 2 * half(n as int) - 1 <= n <= 2 * half(n as int),
{
}

/// Every number of the trees as they start is 0, and so is the count of
/// messages.
pub proof fn law_simple_starts_at_zero()
    ensures
        all_zero(SimpleSub::template()),
        all_zero(Simple::template()),
{
    lemma_all_zero_leaves(SimpleSub::template()->Fields_0, 0);
    lemma_all_zero_leaves(Simple::template()->Fields_0, 2);
}

/// Appends the answer to a new number of a group to `actions`.
pub fn push_group_reaction(actions: &mut Vec<Action>, node: &Node, path: &Vec<NodeId>, state: &State)
    requires
        group_fits(path@, state@),
    ensures
        crate::node::action_views(final(actions)@) == crate::node::action_views(old(actions)@)
            + group_reaction(node.spec_key(), path@, state@),
{
    let ghost start = old(actions)@;
    if path.len() == 2 && path[0] <= SUB2 && path[1] <= NUMBER3 {
        if let State::I32(n) = state {
            let n: i32 = *n;
            let next = (path[1] + 1) % 3;
            let after = (path[1] + 2) % 3;
            if path[0] == SUB1 {
                actions.push(Action::Emit(emit_number(node, SUB1, next, n + 1)));
            } else {
                actions.push(Action::Emit(emit_number(node, SUB2, next, n * 2)));
                actions.push(Action::Emit(emit_number(node, SUB2, after, n / 2)));
            }
        }
    }
    assert(crate::node::action_views(actions@) =~= crate::node::action_views(start)
        + group_reaction(node.spec_key(), path@, state@));
}

} // verus!
