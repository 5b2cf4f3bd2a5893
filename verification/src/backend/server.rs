//! The server's routing of packets: what is shared goes to every client,
//! what is personal goes back to the client it came from.

use vstd::prelude::*;
use crate::app::node::root::{Root, PERSONAL, SHARED};
use crate::node::{accepts, relative_path, Message};
use crate::packet::Packet;

verus! {

/// Where the server sends a packet that arrived from `id`, the packet's
/// key being `key`: nowhere for a packet for the whole root, to every client
/// (`None`) for one below `shared`, back to `id` for one below `personal`.
pub open spec fn route(id: Option<u128>, key: Seq<u32>) -> Option<Option<u128>> {
    let path = relative_path(key, 0);
    if path.len() == 0 {
        None
    } else if path[0] == SHARED {
        Some(None)
    } else if path[0] == PERSONAL {
        Some(id)
    } else {
        None
    }
}

/// The server: the channel it sends routed packets on.
pub struct Server<T> {
    send_tx: T,
}

impl<T> Server<T> {
    pub closed spec fn spec_send_tx(&self) -> T {
        self.send_tx
    }

    pub fn new(send_tx: T) -> (s: Server<T>)
        ensures
            s.spec_send_tx() == send_tx,
    {
        Server { send_tx }
    }

    pub fn send_tx(&self) -> (t: &T)
        ensures
            *t == self.spec_send_tx(),
    {
        &self.send_tx
    }

    /// Where a packet from the client `id` (`None` for one from the server
    /// itself) goes, with the packet; the packet is read as a message to
    /// the root.
    pub fn process(&mut self, id: Option<u128>, packet: Packet) -> (r: Option<(Option<u128>, Packet)>)
        requires
            accepts(Root::template(), 0, packet.key@, packet.data@),
        ensures
            final(self).spec_send_tx() == old(self).spec_send_tx(),
            match r {
                Some((to, p)) => route(id, packet.key@) == Some(to) && p == packet,
                None => route(id, packet.key@) is None,
            },
    {
        let template = Root::default_state();
        let message = Message::from_packet(0, &packet, &template);
        if message.path.len() == 0 {
            None
        } else if message.path[0] == SHARED {
            Some((None, packet))
        } else if message.path[0] == PERSONAL {
            Some((id, packet))
        } else {
            None
        }
    }
}

} // verus!
