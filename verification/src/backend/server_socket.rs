//! The server's side of the socket connections: each connection's id, what
//! its frames turn into, and the table of open connections.

use vstd::prelude::*;
use crate::backend::connections::ConnectionTable;
use crate::packet::{packet_bytes, parse_packet, Packet};

verus! {

/// Why a client closed its connection.
pub struct CloseReason {
    pub code: u16,
    pub description: Option<String>,
}

/// What a connection tells the server: that it opened, that it closed, or a
/// packet from its client.
pub enum ServerSocketMessage {
    Open(u128),
    Close(u128, Option<CloseReason>),
    Message(Option<u128>, Packet),
}

/// A frame that a client's socket delivered.
pub enum WsFrame {
    Binary(Vec<u8>),
    Close(Option<CloseReason>),
    Other,
}

/// What a connection does with a frame.
pub enum FrameAction {
    /// Hands the message to the server and goes on.
    Forward(ServerSocketMessage),
    /// Hands the message to the server and stops.
    ForwardAndStop(ServerSocketMessage),
    /// Stops: the frame does not hold a packet.
    Stop,
    /// Goes on.
    Ignore,
}

/// A fresh id for a connection: `uuid::Uuid::new_v4`, as a `u128` (its
/// bytes big-endian). The id is random; claimed is only what every version
/// 4 id has: the version nibble (bits 76 to 79) is 4, and the variant bits
/// (62 and 63) are `10`.
#[verifier::external_body]
fn new_connection_id() -> (id: u128)
    ensures
        (id >> 76u32) & 0xfu128 == 4,
        (id >> 62u32) & 3u128 == 2,
{
    uuid::Uuid::new_v4().as_u128()
}

/// One client's connection: its id, and what it is written to.
pub struct ServerSocketConnection<T> {
    id: u128,
    outbound_tx: T,
}

impl<T> ServerSocketConnection<T> {
    pub closed spec fn spec_id(&self) -> u128 {
        self.id
    }

    pub closed spec fn spec_outbound(&self) -> T {
        self.outbound_tx
    }

    /// A connection written to through `outbound_tx`, with a fresh id.
    pub fn new(outbound_tx: T) -> (c: ServerSocketConnection<T>)
        ensures
            c.spec_outbound() == outbound_tx,
            (c.spec_id() >> 76u32) & 0xfu128 == 4,
            (c.spec_id() >> 62u32) & 3u128 == 2,
    {
        ServerSocketConnection { id: new_connection_id(), outbound_tx }
    }

    pub fn id(&self) -> (id: u128)
        ensures
            id == self.spec_id(),
    {
        self.id
    }

    pub fn outbound_tx(&self) -> (t: &T)
        ensures
            *t == self.spec_outbound(),
    {
        &self.outbound_tx
    }
}

/// What the connection `id` does with a frame from its client: a binary
/// frame that holds a packet goes to the server as a message of this
/// connection, one that does not stops the connection; a close frame goes
/// to the server and stops the connection; other frames are let go.
pub fn frame_action(id: u128, frame: WsFrame) -> (a: FrameAction)
    ensures
        match frame {
            WsFrame::Binary(bytes) => match parse_packet(bytes@) {
                Some((key, data)) => a matches FrameAction::Forward(
                    ServerSocketMessage::Message(Some(i), p),
                ) && i == id && p.key@ == key && p.data@ == data,
                None => a is Stop,
            },
            WsFrame::Close(reason) => a matches FrameAction::ForwardAndStop(
                ServerSocketMessage::Close(i, r),
            ) && i == id && r == reason,
            WsFrame::Other => a is Ignore,
        },
{
    match frame {
        WsFrame::Binary(bytes) => match Packet::from_bytes(bytes.as_slice()) {
            Ok(p) => FrameAction::Forward(ServerSocketMessage::Message(Some(id), p)),
            Err(_) => FrameAction::Stop,
        },
        WsFrame::Close(reason) => FrameAction::ForwardAndStop(ServerSocketMessage::Close(id, reason)),
        WsFrame::Other => FrameAction::Ignore,
    }
}

/// The bytes to write for a packet that the server sends a connection;
/// `None` where its key is too long to frame, which stops the connection.
pub fn outbound_frame(packet: &Packet) -> (b: Option<Vec<u8>>)
    ensures
        match b {
            Some(b) => packet.key@.len() <= u32::MAX && b@ == packet_bytes(packet.key@, packet.data@),
            None => packet.key@.len() > u32::MAX,
        },
{
    packet.try_to_bytes()
}

/// The server's socket: its open connections by id.
pub struct ServerSocket<T> {
    connections: ConnectionTable<ServerSocketConnection<T>>,
}

impl<T> ServerSocket<T> {
    pub closed spec fn spec_connections(&self) -> Map<u128, ServerSocketConnection<T>> {
        self.connections.spec_map()
    }

    /// A socket with no connection yet.
    pub fn new() -> (s: ServerSocket<T>)
        ensures
            s.spec_connections() == Map::<u128, ServerSocketConnection<T>>::empty(),
    {
        ServerSocket { connections: ConnectionTable::new() }
    }

    /// Takes in a new connection, by its id, and tells that it opened.
    pub fn on_new_socket(&mut self, connection: ServerSocketConnection<T>) -> (m: ServerSocketMessage)
        ensures
            final(self).spec_connections() == old(self).spec_connections().insert(
                connection.spec_id(),
                connection,
            ),
            m matches ServerSocketMessage::Open(id) && id == connection.spec_id(),
    {
        let id = connection.id();
        self.connections.insert(id, connection);
        ServerSocketMessage::Open(id)
    }

    /// Forgets a connection that closed.
    pub fn on_close(&mut self, id: u128)
        ensures
            final(self).spec_connections() == old(self).spec_connections().remove(id),
    {
        self.connections.remove(id);
    }

    /// Sends `message` to every open connection in turn, through `send` on
    /// the connection's outbound channel (`true` where the channel took it),
    /// each once, and stops at the first that does not take it: the ids of
    /// the connections it reached, in the order it reached them, and `Ok`
    /// where it reached all, or `Err` with the id of the one that failed.
    pub fn broadcast<F: Fn(&T, &Packet) -> bool>(&self, message: &Packet, send: &F) -> (r: (
        Vec<u128>,
        Result<(), u128>,
    ))
        requires
            forall|t: &T, p: &Packet| #[trigger] send.requires((t, p)),
        ensures
            r.0@.no_duplicates(),
            forall|i: int|
                #![trigger r.0@[i]]
                0 <= i < r.0@.len() ==> self.spec_connections().contains_key(r.0@[i]) && send.ensures(
                    (&self.spec_connections()[r.0@[i]].spec_outbound(), message),
                    true,
                ),
            match r.1 {
                Ok(()) => r.0@.to_set() == self.spec_connections().dom(),
                Err(id) => {
                    &&& self.spec_connections().contains_key(id)
                    &&& !r.0@.contains(id)
                    &&& send.ensures((&self.spec_connections()[id].spec_outbound(), message), false)
                },
            },
    {
        let ids = self.connections.targets(None);
        let mut sent: Vec<u128> = Vec::new();
        let mut i: usize = 0;
        while i < ids.len()
            invariant
                ids@.no_duplicates(),
                ids@.to_set() == self.spec_connections().dom(),
                forall|t: &T, p: &Packet| #[trigger] send.requires((t, p)),
                i <= ids@.len(),
                sent@ == ids@.take(i as int),
                forall|k: int|
                    #![trigger sent@[k]]
                    0 <= k < sent@.len() ==> self.spec_connections().contains_key(sent@[k]) && send.ensures(
                        (&self.spec_connections()[sent@[k]].spec_outbound(), message),
                        true,
                    ),
            decreases ids@.len() - i,
        {
            let id = ids[i];
            assert(ids@.to_set().contains(id));
            let connection = match self.connections.get(id) {
                Some(c) => c,
                None => {
                    proof {
                        assert(false);
                    }
                    return (sent, Err(id));
                },
            };
            if !send(connection.outbound_tx(), message) {
                proof {
                    assert(!sent@.contains(id)) by {
                        if sent@.contains(id) {
                            let k = sent@.index_of(id);
                            assert(ids@[k] == ids@[i as int]);
                        }
                    }
                }
                return (sent, Err(id));
            }
            sent.push(id);
            i = i + 1;
            proof {
                assert(sent@ =~= ids@.take(i as int));
            }
        }
        proof {
            assert(ids@.take(ids@.len() as int) =~= ids@);
        }
        (sent, Ok(()))
    }

    /// The open connection with this id.
    pub fn connection(&self, id: u128) -> (c: Option<&ServerSocketConnection<T>>)
        ensures
            match c {
                Some(c) => self.spec_connections().contains_key(id) && *c == self.spec_connections()[id],
                None => !self.spec_connections().contains_key(id),
            },
    {
        self.connections.get(id)
    }
}

} // verus!
