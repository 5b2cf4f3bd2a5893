//! The browser's app of the `Root` of sums: packets from the server are
//! applied; packets that its own nodes emit are applied and sent to the
//! server.

use vstd::prelude::*;
use crate::app::node::root::Root;
use crate::common::client_socket::ClientSocket;
use crate::node::{accepts, applied, Node};
use crate::packet::{packet_bytes, Packet};
use crate::state::same_shape;

verus! {

/// What the app is told: a packet from the server, or one that a node of
/// its own emitted.
pub enum Message {
    FromServer(Packet),
    FromNode(Packet),
}

impl Message {
    pub open spec fn packet(&self) -> Packet {
        match self {
            Message::FromServer(p) => *p,
            Message::FromNode(p) => *p,
        }
    }
}

/// The browser's app: its container of the root, and its socket.
pub struct YewApp<T> {
    container: Node,
    socket: ClientSocket<T>,
}

impl<T> YewApp<T> {
    pub closed spec fn spec_container(&self) -> Node {
        self.container
    }

    pub closed spec fn spec_socket(&self) -> ClientSocket<T> {
        self.socket
    }

    /// An app of the root `container` on `socket`.
    pub fn new(container: Node, socket: ClientSocket<T>) -> (a: YewApp<T>)
        requires
            same_shape(Root::template(), container.value()),
        ensures
            a.spec_container() == container,
            a.spec_socket() == socket,
    {
        YewApp { container, socket }
    }

    /// The container.
    pub fn container(&self) -> (c: &Node)
        ensures
            *c == self.spec_container(),
    {
        &self.container
    }

    /// The socket.
    pub fn socket(&self) -> (s: &ClientSocket<T>)
        ensures
            *s == self.spec_socket(),
    {
        &self.socket
    }

    /// Takes a message: the container applies its packet. A packet from the
    /// server has the app shown again; one of its own is also written on
    /// the socket, where there is one, and does not.
    pub fn update(&mut self, message: Message) -> (r: (bool, Option<Vec<u8>>))
        requires
            accepts(
                old(self).spec_container().value(),
                old(self).spec_container().spec_key().len() as int,
                message.packet().key@,
                message.packet().data@,
            ),
            message is FromNode ==> message.packet().key@.len() <= u32::MAX,
        ensures
            final(self).spec_socket() == old(self).spec_socket(),
            final(self).spec_container().spec_key() == old(self).spec_container().spec_key(),
            final(self).spec_container().value() == applied(
                old(self).spec_container().value(),
                old(self).spec_container().spec_key().len() as int,
                message.packet().key@,
                message.packet().data@,
            ),
            match message {
                Message::FromServer(_) => r.0 && r.1 is None,
                Message::FromNode(p) => !r.0 && match r.1 {
                    Some(b) => old(self).spec_socket().task is Some && b@ == packet_bytes(p.key@, p.data@),
                    None => old(self).spec_socket().task is None,
                },
            },
    {
        match message {
            Message::FromServer(packet) => {
                self.container.apply_packet(&packet);
                (true, None)
            },
            Message::FromNode(packet) => {
                self.container.apply_packet(&packet);
                let b = self.socket.send(&packet);
                (false, b)
            },
        }
    }
}

} // verus!
