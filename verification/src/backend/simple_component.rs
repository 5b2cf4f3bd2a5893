//! The server of the `Simple` tree: it answers changes of the numbers,
//! keeps its own copy of the tree, sends every change to every client and
//! counts the messages that clients send.

use vstd::prelude::*;
use crate::backend::server_socket::{ServerSocket, ServerSocketConnection, ServerSocketMessage};
use crate::common::simple::{group_fits, group_reaction, push_group_reaction, Simple, MESSAGE_COUNT};
use crate::node::{accepts, action_views, applied, Action, ActionView, Emission, Message, Node};
use crate::packet::Packet;
use crate::state::{encode, lemma_states_value, same_shape, State, Value};

verus! {

/// The server of a `Simple` tree.
pub struct SimpleComponent<T> {
    simple: Node,
    server_socket: ServerSocket<T>,
}

impl<T> SimpleComponent<T> {
    pub closed spec fn simple(&self) -> Node {
        self.simple
    }

    pub closed spec fn connections(&self) -> Map<u128, ServerSocketConnection<T>> {
        self.server_socket.spec_connections()
    }

    /// Whether the tree is a `Simple`.
    pub open spec fn wf(&self) -> bool {
        same_shape(Simple::template(), self.simple().value())
    }

    /// The message count of the tree.
    pub open spec fn spec_message_count(&self) -> u32 {
        self.simple().value()->Fields_0[MESSAGE_COUNT as int]->U32_0
    }

    /// A server of a `Simple` tree as it starts, at the root, on `server_socket`.
    pub fn new(server_socket: ServerSocket<T>) -> (c: SimpleComponent<T>)
        ensures
            c.wf(),
            c.simple().spec_key() == Seq::<u32>::empty(),
            c.simple().value() == Simple::template(),
            c.connections() == server_socket.spec_connections(),
    {
        let simple = Node::new(Vec::new(), None, Simple::default_state());
        proof {
            crate::state::lemma_same_shape_refl(Simple::template());
        }
        SimpleComponent { simple, server_socket }
    }

    /// The tree.
    pub fn simple_node(&self) -> (n: &Node)
        ensures
            *n == self.simple(),
    {
        &self.simple
    }

    /// The answer to `message`, which came as `payload`: the payload goes
    /// to every client, then the groups answer it.
    pub fn update(&self, message: &Message, payload: Packet) -> (actions: Vec<Action>)
        requires
            group_fits(message.path@, message.state@),
        ensures
            action_views(actions@) == seq![ActionView::Forward(payload.key@, payload.data@)]
                + group_reaction(self.simple().spec_key(), message.path@, message.state@),
    {
        let mut actions: Vec<Action> = Vec::new();
        actions.push(Action::Forward(payload));
        push_group_reaction(&mut actions, &self.simple, &message.path, &message.state);
        actions
    }


    /// A packet to broadcast: the tree applies it, and it is sent to every
    /// open connection in turn through `send`, stopping at the first that
    /// does not take it (see `ServerSocket::broadcast`).
    pub fn on_broadcast<F: Fn(&T, &Packet) -> bool>(&mut self, payload: &Packet, send: &F) -> (r: (
        Vec<u128>,
        Result<(), u128>,
    ))
        requires
            forall|t: &T, p: &Packet| #[trigger] send.requires((t, p)),
            old(self).wf(),
            accepts(old(self).simple().value(), old(self).simple().spec_key().len() as int, payload.key@, payload.data@),
        ensures
            final(self).wf(),
            final(self).simple().spec_key() == old(self).simple().spec_key(),
            final(self).simple().value() == applied(
                old(self).simple().value(),
                old(self).simple().spec_key().len() as int,
                payload.key@,
                payload.data@,
            ),
            final(self).connections() == old(self).connections(),
            r.0@.no_duplicates(),
            forall|i: int|
                #![trigger r.0@[i]]
                0 <= i < r.0@.len() ==> old(self).connections().contains_key(r.0@[i]) && send.ensures(
                    (&old(self).connections()[r.0@[i]].spec_outbound(), payload),
                    true,
                ),
            match r.1 {
                Ok(()) => r.0@.to_set() == old(self).connections().dom(),
                Err(id) => {
                    &&& old(self).connections().contains_key(id)
                    &&& !r.0@.contains(id)
                    &&& send.ensures((&old(self).connections()[id].spec_outbound(), payload), false)
                },
            },
    {
        let ghost before = self.simple.value();
        let ghost path = crate::node::relative_path(payload.key@, self.simple.spec_key().len() as int);
        proof {
            let target = crate::state::get_at(before, path);
            crate::state::lemma_encode_decode(target, payload.data@);
            crate::state::lemma_set_keeps_shape(before, path, crate::state::decode(target, payload.data@).unwrap());
            crate::state::lemma_same_shape_trans(Simple::template(), before, crate::state::set_at(before, path, crate::state::decode(target, payload.data@).unwrap()));
        }
        self.simple.apply_packet(payload);
        self.server_socket.broadcast(payload, send)
    }

    /// The tree's message count.
    pub fn message_count(&self) -> (c: u32)
        requires
            self.wf(),
        ensures
            c == self.spec_message_count(),
    {
        match self.simple.state() {
            State::Fields(fs) => {
                proof {
                    lemma_states_value(fs@);
                    let ts = Simple::template()->Fields_0;
                    let ys = self.simple.value()->Fields_0;
                    assert(same_shape(ts[2], ys[2]));
                }
                match &fs[2] {
                    State::U32(c) => *c,
                    _ => {
                        proof {
                            assert(false);
                        }
                        0
                    },
                }
            },
            _ => {
                proof {
                    assert(false);
                }
                0
            },
        }
    }

    /// What the socket told: a packet from a client goes to the processor,
    /// and the message count goes up by one; openings and closings are only
    /// noted.
    pub fn on_socket_message(&mut self, message: ServerSocketMessage) -> (r: Option<(Packet, Emission)>)
        requires
            old(self).wf(),
            message is Message ==> old(self).spec_message_count() < u32::MAX,
        ensures
            final(self).simple() == old(self).simple(),
            final(self).connections() == old(self).connections(),
            match message {
                ServerSocketMessage::Message(_, payload) => r matches Some((p, e)) && p == payload
                    && e.parts() == (
                        old(self).simple().spec_key().push(MESSAGE_COUNT),
                        encode(Value::U32((old(self).spec_message_count() + 1) as u32)),
                        0u64,
                    ),
                _ => r is None,
            },
    {
        match message {
            ServerSocketMessage::Message(_, payload) => {
                let count = self.message_count();
                let path = vec![MESSAGE_COUNT];
                let p = self.simple.emit_at(path.as_slice(), &State::U32(count + 1));
                assert(self.simple.spec_key() + path@ =~= self.simple.spec_key().push(MESSAGE_COUNT));
                Some((payload, Emission { packet: p, delay_ms: 0 }))
            },
            _ => None,
        }
    }

    /// A new connection: it joins the socket, which tells that it opened.
    pub fn on_new_socket(&mut self, connection: ServerSocketConnection<T>) -> (m: ServerSocketMessage)
        ensures
            final(self).simple() == old(self).simple(),
            final(self).connections() == old(self).connections().insert(connection.spec_id(), connection),
            m matches ServerSocketMessage::Open(id) && id == connection.spec_id(),
    {
        self.server_socket.on_new_socket(connection)
    }

    /// The open connection with this id.
    pub fn connection(&self, id: u128) -> (c: Option<&ServerSocketConnection<T>>)
        ensures
            match c {
                Some(c) => self.connections().contains_key(id) && *c == self.connections()[id],
                None => !self.connections().contains_key(id),
            },
    {
        self.server_socket.connection(id)
    }
}

} // verus!
