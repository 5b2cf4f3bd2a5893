//! A client's socket: the messages it carries, and the bytes it writes.

use vstd::prelude::*;
use crate::node::{accepts, applied, Node};
use crate::packet::{packet_bytes, Packet};

verus! {

/// A message on a client socket: one on its way to the server, or one that
/// the server sent.
pub enum SocketMessage<M> {
    Send(M),
    Receive(M),
}

impl<M> SocketMessage<M> {
    /// The message that either variant carries.
    pub open spec fn inner(&self) -> &M {
        match self {
            SocketMessage::Send(message) => message,
            SocketMessage::Receive(message) => message,
        }
    }
}

impl<M> core::ops::Deref for SocketMessage<M> {
    type Target = M;

    fn deref(&self) -> (message: &M)
        ensures
            *message == *self.inner(),
    {
        match self {
            SocketMessage::Send(message) => message,
            SocketMessage::Receive(message) => message,
        }
    }
}

/// A client's connection to the server, where it could be opened.
pub struct ClientSocket<T> {
    pub task: Option<T>,
}

impl<T> ClientSocket<T> {
    /// A socket on the task that connecting gave, if it gave one.
    pub fn new(task: Option<T>) -> (s: ClientSocket<T>)
        ensures
            s.task == task,
    {
        ClientSocket { task }
    }

    /// The bytes to write on the socket for a message to the server: none
    /// where the socket could not be opened.
    pub fn send(&self, message: &Packet) -> (b: Option<Vec<u8>>)
        requires
            self.task is Some ==> message.key@.len() <= u32::MAX,
        ensures
            match b {
                Some(b) => self.task is Some && b@ == packet_bytes(message.key@, message.data@),
                None => self.task is None,
            },
    {
        match &self.task {
            Some(_) => Some(message.to_bytes()),
            None => None,
        }
    }
}

/// Whether a client can take a message: one to the server has a key short
/// enough to frame, one from the server is accepted by its root.
pub open spec fn client_takes(root: Node, message: SocketMessage<Packet>) -> bool {
    match message {
        SocketMessage::Send(p) => p.key@.len() <= u32::MAX,
        SocketMessage::Receive(p) => accepts(root.value(), root.spec_key().len() as int, p.key@, p.data@),
    }
}

/// A client's step for a message on its socket: one to the server is
/// written on the socket, one from the server is applied to its root.
pub fn client_update<T>(root: &mut Node, socket: &ClientSocket<T>, message: SocketMessage<Packet>) -> (b: Option<Vec<u8>>)
    requires
        client_takes(*old(root), message),
    ensures
        final(root).spec_key() == old(root).spec_key(),
        match message {
            SocketMessage::Send(p) => final(root).value() == old(root).value() && match b {
                Some(b) => socket.task is Some && b@ == packet_bytes(p.key@, p.data@),
                None => socket.task is None,
            },
            SocketMessage::Receive(p) => b is None && final(root).value() == applied(
                old(root).value(),
                old(root).spec_key().len() as int,
                p.key@,
                p.data@,
            ),
        },
{
    match message {
        SocketMessage::Send(p) => socket.send(&p),
        SocketMessage::Receive(p) => {
            root.apply_packet(&p);
            None
        },
    }
}

} // verus!
