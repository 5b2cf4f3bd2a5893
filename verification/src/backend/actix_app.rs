//! The socket server's switchboard: the open connections, where packets
//! from the server go, and what connections tell the server.

use vstd::prelude::*;
use crate::backend::connections::ConnectionTable;
use crate::backend::server_socket::ServerSocketMessage;
use crate::packet::Packet;

verus! {

/// What happens to the switchboard: a connection arrives with its outbound
/// channel, or a connection tells it something.
pub enum RouterEvent<T> {
    Connect(u128, T),
    Client(ServerSocketMessage),
}

/// The switchboard's connections once `event` has happened to `m`.
pub open spec fn router_step<T>(m: Map<u128, T>, event: RouterEvent<T>) -> Map<u128, T> {
    match event {
        RouterEvent::Connect(id, tx) => m.insert(id, tx),
        RouterEvent::Client(ServerSocketMessage::Close(id, _)) => m.remove(id),
        RouterEvent::Client(_) => m,
    }
}

/// The switchboard's connections after `events`, from a new switchboard.
pub open spec fn replay<T>(events: Seq<RouterEvent<T>>) -> Map<u128, T>
    decreases events.len(),
{
    if events.len() == 0 {
        Map::empty()
    } else {
        router_step(replay(events.drop_last()), events.last())
    }
}

/// The ids of the connections that `events` leave open: each that arrived
/// and has not closed since.
pub open spec fn open_ids<T>(events: Seq<RouterEvent<T>>) -> Set<u128>
    decreases events.len(),
{
    if events.len() == 0 {
        Set::empty()
    } else {
        let before = open_ids(events.drop_last());
        match events.last() {
            RouterEvent::Connect(id, _) => before.insert(id),
            RouterEvent::Client(ServerSocketMessage::Close(id, _)) => before.remove(id),
            RouterEvent::Client(_) => before,
        }
    }
}

/// Whether `event` is the arrival of the connection `id`.
pub open spec fn arrives<T>(event: RouterEvent<T>, id: u128) -> bool {
    event matches RouterEvent::Connect(k, _) && k == id
}

/// Whether `event` is the closing of the connection `id`.
pub open spec fn closes<T>(event: RouterEvent<T>, id: u128) -> bool {
    event matches RouterEvent::Client(ServerSocketMessage::Close(k, _)) && k == id
}

/// After any run of events the switchboard holds exactly the open
/// connections, each with the channel it last arrived with; a connection
/// that closed, and has not arrived again since, is not held, so no packet
/// goes to it.
pub proof fn law_router_holds_open_connections<T>(events: Seq<RouterEvent<T>>, id: u128, i: int)
    ensures
        replay(events).dom() == open_ids(events),
        (0 <= i < events.len() && closes(events[i], id) && forall|j: int|
            i < j < events.len() ==> !#[trigger] arrives(events[j], id)) ==> !replay(events).dom().contains(id),
        (0 <= i < events.len() && arrives(events[i], id) && forall|j: int|
            i < j < events.len() ==> !#[trigger] arrives(events[j], id) && !closes(events[j], id))
            ==> replay(events).dom().contains(id) && replay(events)[id] == events[i]->Connect_1,
    decreases events.len(),
{
    if events.len() > 0 {
        let last = events.len() - 1;
        let before = events.drop_last();
        law_router_holds_open_connections(before, id, i);
        assert(replay(events).dom() =~= open_ids(events));
        if 0 <= i < last {
            assert(before[i] == events[i]);
            if closes(events[i], id) && forall|j: int|
                i < j < events.len() ==> !#[trigger] arrives(events[j], id) {
                assert forall|j: int| i < j < before.len() implies !#[trigger] arrives(before[j], id) by {
                    assert(before[j] == events[j]);
                    assert(!arrives(events[j], id));
                }
                assert(!arrives(events[last], id));
            }
            if arrives(events[i], id) && forall|j: int|
                i < j < events.len() ==> !#[trigger] arrives(events[j], id) && !closes(events[j], id) {
                assert forall|j: int| i < j < before.len() implies !#[trigger] arrives(before[j], id)
                    && !closes(before[j], id) by {
                    assert(before[j] == events[j]);
                    assert(!arrives(events[j], id));
                }
                assert(!arrives(events[last], id));
                assert(!closes(events[last], id));
            }
        }
    }
}

/// The state of the switchboard: each open connection's outbound channel.
pub struct Router<T> {
    conn_outbound_txs: ConnectionTable<T>,
}

impl<T> Router<T> {
    pub closed spec fn spec_connections(&self) -> Map<u128, T> {
        self.conn_outbound_txs.spec_map()
    }

    pub fn new() -> (r: Router<T>)
        ensures
            r.spec_connections() == Map::<u128, T>::empty(),
    {
        Router { conn_outbound_txs: ConnectionTable::new() }
    }

    /// A new connection opened.
    pub fn on_new_connection(&mut self, id: u128, outbound_tx: T)
        ensures
            final(self).spec_connections() == old(self).spec_connections().insert(id, outbound_tx),
            final(self).spec_connections() == router_step(
                old(self).spec_connections(),
                RouterEvent::Connect(id, outbound_tx),
            ),
    {
        self.conn_outbound_txs.insert(id, outbound_tx);
    }

    /// The connections that a packet the server sends to `to` goes to: the
    /// one named, or every open one with none named, each once.
    pub fn on_send(&self, to: Option<u128>) -> (ids: Vec<u128>)
        requires
            to matches Some(id) ==> self.spec_connections().contains_key(id),
        ensures
            ids@.no_duplicates(),
            match to {
                Some(id) => ids@ == seq![id],
                None => ids@.to_set() == self.spec_connections().dom(),
            },
    {
        self.conn_outbound_txs.targets(to)
    }

    /// Whether a connection is open.
    pub fn is_open(&self, id: u128) -> (b: bool)
        ensures
            b == self.spec_connections().contains_key(id),
    {
        self.conn_outbound_txs.contains(id)
    }

    /// The outbound channel of an open connection.
    pub fn outbound(&self, id: u128) -> (t: Option<&T>)
        ensures
            match t {
                Some(t) => self.spec_connections().contains_key(id) && *t == self.spec_connections()[id],
                None => !self.spec_connections().contains_key(id),
            },
    {
        self.conn_outbound_txs.get(id)
    }

    /// What a connection told: an opening changes nothing, a closing forgets
    /// the connection, a packet goes on to the server with the id it came
    /// with.
    pub fn on_client_message(&mut self, message: ServerSocketMessage) -> (r: Option<(Option<u128>, Packet)>)
        ensures
            match message {
                ServerSocketMessage::Open(_) => r is None && final(self).spec_connections()
                    == old(self).spec_connections(),
                ServerSocketMessage::Close(id, _) => r is None && final(self).spec_connections()
                    == old(self).spec_connections().remove(id),
                ServerSocketMessage::Message(id, packet) => r == Some((id, packet))
                    && final(self).spec_connections() == old(self).spec_connections(),
            },
            final(self).spec_connections() == router_step(
                old(self).spec_connections(),
                RouterEvent::Client(message),
            ),
    {
        match message {
            ServerSocketMessage::Open(_) => None,
            ServerSocketMessage::Close(id, _) => {
                self.conn_outbound_txs.remove(id);
                None
            },
            ServerSocketMessage::Message(id, packet) => Some((id, packet)),
        }
    }
}

/// What a client's connection task does with a message from its
/// connection: whether it stops, and the packet, if any, that its client's
/// processor takes.
pub enum SessionStep {
    /// Nothing to do.
    Continue,
    /// Tell the switchboard that the connection closed, and stop.
    Closed(ServerSocketMessage),
    /// Hand the packet to the client's processor.
    Process(Packet),
}

/// The step of a client's connection task for a message from its
/// connection.
pub fn session_step(message: ServerSocketMessage) -> (s: SessionStep)
    ensures
        match message {
            ServerSocketMessage::Open(_) => s is Continue,
            ServerSocketMessage::Close(id, reason) => s matches SessionStep::Closed(
                ServerSocketMessage::Close(i, r),
            ) && i == id && r == reason,
            ServerSocketMessage::Message(_, packet) => s matches SessionStep::Process(p) && p
                == packet,
        },
{
    match message {
        ServerSocketMessage::Open(_) => SessionStep::Continue,
        ServerSocketMessage::Close(id, reason) => SessionStep::Closed(
            ServerSocketMessage::Close(id, reason),
        ),
        ServerSocketMessage::Message(_, packet) => SessionStep::Process(packet),
    }
}

} // verus!
