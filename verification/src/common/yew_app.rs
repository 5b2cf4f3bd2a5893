//! The browser's app over a node of a server's part and a client's part: it
//! applies what the server sends and writes what the node emits.

use vstd::prelude::*;
use crate::common::client_socket::{client_takes, client_update, ClientSocket, SocketMessage};
use crate::node::{applied, Node};
use crate::packet::{packet_bytes, Packet};

verus! {

/// The browser's app: its node, and its socket.
pub struct YewApp<T> {
    node: Node,
    socket: ClientSocket<T>,
}

impl<T> YewApp<T> {
    pub closed spec fn spec_node(&self) -> Node {
        self.node
    }

    pub closed spec fn spec_socket(&self) -> ClientSocket<T> {
        self.socket
    }

    /// An app of `node` on `socket`.
    pub fn new(node: Node, socket: ClientSocket<T>) -> (a: YewApp<T>)
        ensures
            a.spec_node() == node,
            a.spec_socket() == socket,
    {
        YewApp { node, socket }
    }

    /// The node.
    pub fn node(&self) -> (n: &Node)
        ensures
            *n == self.spec_node(),
    {
        &self.node
    }

    /// The socket.
    pub fn socket(&self) -> (s: &ClientSocket<T>)
        ensures
            *s == self.spec_socket(),
    {
        &self.socket
    }

    /// A message on the socket: one to the server gives the bytes to write,
    /// one from the server is applied to the node. The app is shown again
    /// either way.
    pub fn update(&mut self, message: SocketMessage<Packet>) -> (r: (bool, Option<Vec<u8>>))
        requires
            client_takes(old(self).spec_node(), message),
        ensures
            r.0,
            final(self).spec_socket() == old(self).spec_socket(),
            final(self).spec_node().spec_key() == old(self).spec_node().spec_key(),
            match message {
                SocketMessage::Send(p) => final(self).spec_node().value() == old(self).spec_node().value()
                    && match r.1 {
                    Some(b) => old(self).spec_socket().task is Some && b@ == packet_bytes(p.key@, p.data@),
                    None => old(self).spec_socket().task is None,
                },
                SocketMessage::Receive(p) => r.1 is None && final(self).spec_node().value() == applied(
                    old(self).spec_node().value(),
                    old(self).spec_node().spec_key().len() as int,
                    p.key@,
                    p.data@,
                ),
            },
    {
        let b = client_update(&mut self.node, &self.socket, message);
        (true, b)
    }
}

} // verus!
