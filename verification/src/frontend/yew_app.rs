//! The browser's side of the `Root` of numbers: it applies what the server
//! sends and writes what it emits on the socket.

use vstd::prelude::*;
use crate::app::root::Root;
use crate::common::client_socket::{client_takes, client_update, ClientSocket, SocketMessage};
use crate::node::{applied, Node};
use crate::packet::{packet_bytes, Packet};
use crate::state::same_shape;

verus! {

/// The browser's app: its copy of the root, and its socket.
pub struct YewApp<T> {
    root: Node,
    socket: ClientSocket<T>,
}

impl<T> YewApp<T> {
    pub closed spec fn spec_root(&self) -> Node {
        self.root
    }

    pub closed spec fn spec_socket(&self) -> ClientSocket<T> {
        self.socket
    }

    /// An app of the root `root` on `socket`.
    pub fn new(root: Node, socket: ClientSocket<T>) -> (a: YewApp<T>)
        requires
            same_shape(Root::template(), root.value()),
        ensures
            a.spec_root() == root,
            a.spec_socket() == socket,
    {
        YewApp { root, socket }
    }

    /// The root.
    pub fn root(&self) -> (r: &Node)
        ensures
            *r == self.spec_root(),
    {
        &self.root
    }

    /// The socket.
    pub fn socket(&self) -> (s: &ClientSocket<T>)
        ensures
            *s == self.spec_socket(),
    {
        &self.socket
    }

    /// A message on the socket: one to the server gives the bytes to write,
    /// one from the server is applied to the root. The app is shown again
    /// either way.
    pub fn update(&mut self, message: SocketMessage<Packet>) -> (r: (bool, Option<Vec<u8>>))
        requires
            client_takes(old(self).spec_root(), message),
        ensures
            r.0,
            final(self).spec_socket() == old(self).spec_socket(),
            final(self).spec_root().spec_key() == old(self).spec_root().spec_key(),
            match message {
                SocketMessage::Send(p) => final(self).spec_root().value() == old(self).spec_root().value()
                    && match r.1 {
                    Some(b) => old(self).spec_socket().task is Some && b@ == packet_bytes(p.key@, p.data@),
                    None => old(self).spec_socket().task is None,
                },
                SocketMessage::Receive(p) => r.1 is None && final(self).spec_root().value() == applied(
                    old(self).spec_root().value(),
                    old(self).spec_root().spec_key().len() as int,
                    p.key@,
                    p.data@,
                ),
            },
    {
        let b = client_update(&mut self.root, &self.socket, message);
        (true, b)
    }
}

} // verus!
