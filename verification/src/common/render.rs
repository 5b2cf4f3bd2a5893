//! `Test` and `TestSub`, and the component that shows a `Test` tree and
//! answers changes of its numbers.

use vstd::prelude::*;
use crate::common::simple::{group_fits, group_reaction, push_group_reaction};
use crate::node::{accepts, action_views, applied, Action, ActionView, Message, Node};
use crate::packet::Packet;
use crate::state::{all_zero, lemma_all_zero_leaves, lemma_same_shape_refl, lemma_same_shape_trans, lemma_states_value_ext, same_shape, State, Value};

verus! {

/// The node type `TestSub`: `number1` to `number3`, each an `i32`.
pub struct TestSub;

impl TestSub {
    pub open spec fn template() -> Value {
        Value::Fields(seq![Value::I32(0), Value::I32(0), Value::I32(0)])
    }

    pub fn default_state() -> (s: State)
        ensures
            s@ == Self::template(),
    {
        let fs = vec![State::I32(0), State::I32(0), State::I32(0)];
        proof {
            lemma_states_value_ext(fs@, seq![Value::I32(0), Value::I32(0), Value::I32(0)]);
        }
        State::Fields(fs)
    }
}

/// The node type `Test`: the groups `sub1` and `sub2`.
pub struct Test;

impl Test {
    pub open spec fn template() -> Value {
        Value::Fields(seq![TestSub::template(), TestSub::template()])
    }

    pub fn default_state() -> (s: State)
        ensures
            s@ == Self::template(),
    {
        let fs = vec![TestSub::default_state(), TestSub::default_state()];
        proof {
            lemma_states_value_ext(fs@, seq![TestSub::template(), TestSub::template()]);
        }
        State::Fields(fs)
    }
}

/// A component that shows a `Test` tree and counts the messages it took.
pub struct TestComponent {
    performer: Node,
    message_count: usize,
}

impl TestComponent {
    pub closed spec fn spec_node(&self) -> Node {
        self.performer
    }

    pub closed spec fn spec_message_count(&self) -> usize {
        self.message_count
    }

    /// Whether the tree is a `Test`.
    pub open spec fn wf(&self) -> bool {
        same_shape(Test::template(), self.spec_node().value())
    }

    /// A component of a `Test` tree as it starts, at the root, that has
    /// taken no message.
    pub fn new() -> (c: TestComponent)
        ensures
            c.wf(),
            c.spec_node().spec_key() == Seq::<u32>::empty(),
            c.spec_node().value() == Test::template(),
            c.spec_message_count() == 0,
    {
        proof {
            lemma_same_shape_refl(Test::template());
        }
        TestComponent { performer: Node::new(Vec::new(), None, Test::default_state()), message_count: 0 }
    }

    /// A component of the tree `props`.
    pub fn create(props: State) -> (c: TestComponent)
        requires
            same_shape(Test::template(), props@),
        ensures
            c.wf(),
            c.spec_node().spec_key() == Seq::<u32>::empty(),
            c.spec_node().value() == props@,
            c.spec_message_count() == 0,
    {
        let mut c = Self::new();
        proof {
            lemma_same_shape_refl(Test::template());
            crate::state::lemma_same_shape_sym(Test::template(), props@);
            lemma_same_shape_trans(c.performer.value(), Test::template(), props@);
        }
        c.performer.apply(props);
        c
    }

    /// The tree.
    pub fn node(&self) -> (n: &Node)
        ensures
            *n == self.spec_node(),
    {
        &self.performer
    }

    /// How many messages the component took.
    pub fn message_count(&self) -> (c: usize)
        ensures
            c == self.spec_message_count(),
    {
        self.message_count
    }

    /// The answer to `message`, which came as `data`: the data go to the
    /// component itself, then the groups answer it.
    pub fn perform(&self, message: &Message, data: Packet) -> (actions: Vec<Action>)
        requires
            group_fits(message.path@, message.state@),
        ensures
            action_views(actions@) == seq![ActionView::Forward(data.key@, data.data@)]
                + group_reaction(self.spec_node().spec_key(), message.path@, message.state@),
    {
        let mut actions: Vec<Action> = Vec::new();
        actions.push(Action::Forward(data));
        push_group_reaction(&mut actions, &self.performer, &message.path, &message.state);
        actions
    }

    /// Takes a message: the tree applies it and the count goes up by one;
    /// the component is to be shown again.
    pub fn update(&mut self, message: &Packet) -> (render: bool)
        requires
            old(self).wf(),
            accepts(old(self).spec_node().value(), old(self).spec_node().spec_key().len() as int, message.key@, message.data@),
            old(self).spec_message_count() < usize::MAX,
        ensures
            render,
            final(self).wf(),
            final(self).spec_node().spec_key() == old(self).spec_node().spec_key(),
            final(self).spec_node().value() == applied(
                old(self).spec_node().value(),
                old(self).spec_node().spec_key().len() as int,
                message.key@,
                message.data@,
            ),
            final(self).spec_message_count() == old(self).spec_message_count() + 1,
    {
        let ghost before = self.performer.value();
        let ghost path = crate::node::relative_path(message.key@, self.performer.spec_key().len() as int);
        proof {
            let target = crate::state::get_at(before, path);
            crate::state::lemma_encode_decode(target, message.data@);
            crate::state::lemma_set_keeps_shape(before, path, crate::state::decode(target, message.data@).unwrap());
            lemma_same_shape_trans(Test::template(), before, crate::state::set_at(before, path, crate::state::decode(target, message.data@).unwrap()));
        }
        self.performer.apply_packet(message);
        self.message_count = self.message_count + 1;
        true
    }
}

/// Every number of the `Test` tree as it starts is 0.
pub proof fn law_test_starts_at_zero()
    ensures
        all_zero(TestSub::template()),
        all_zero(Test::template()),
{
    lemma_all_zero_leaves(TestSub::template()->Fields_0, 0);
    let fs = Test::template()->Fields_0;
    assert forall|i: int| 0 <= i < fs.len() implies #[trigger] all_zero(fs[i]) by {
        assert(fs[i] == TestSub::template());
    }
    lemma_all_zero_leaves(fs, fs.len() as int);
}

} // verus!
