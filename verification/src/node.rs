//! A node: the key that names it from the root, and its state. It turns
//! states into packets for its key (`emit`), and applies packets whose key
//! passes through it (`apply_packet`), each id below its own key choosing a
//! field.

use vstd::prelude::*;
use crate::packet::{NodeId, Packet, PacketError};
use crate::state::{decode, encode, get_at, has_path, same_shape, set_at, State, Value};

verus! {

/// The part of a packet's key below a node at `depth`: empty where the key
/// is no longer than the node's.
pub open spec fn relative_path(key: Seq<u32>, depth: int) -> Seq<u32> {
    if key.len() > depth {
        key.skip(depth)
    } else {
        Seq::empty()
    }
}

/// Whether a node with value `v` at `depth` applies a packet with this key
/// and data: the rest of the key names a node of `v`, and the data hold a
/// state of that node's type.
pub open spec fn accepts(v: Value, depth: int, key: Seq<u32>, data: Seq<u8>) -> bool {
    let path = relative_path(key, depth);
    has_path(v, path) && decode(get_at(v, path), data) is Some
}

/// The value of a node at `depth` once it has applied a packet that it
/// accepts: the node the rest of the key names holds the packet's state.
pub open spec fn applied(v: Value, depth: int, key: Seq<u32>, data: Seq<u8>) -> Value {
    let path = relative_path(key, depth);
    set_at(v, path, decode(get_at(v, path), data).unwrap())
}

/// A node of the tree, with the key that names it from the root.
pub struct Node {
    key: Vec<NodeId>,
    state: State,
}

/// What a packet says to a node: which node below it, and its new state.
pub struct Message {
    pub path: Vec<NodeId>,
    pub state: State,
}

impl Node {
    pub closed spec fn spec_key(&self) -> Seq<u32> {
        self.key@
    }

    pub closed spec fn value(&self) -> Value {
        self.state@
    }

    /// A node of the given state, named by `key` followed by `id` where
    /// there is one.
    pub fn new(key: Vec<NodeId>, id: Option<NodeId>, state: State) -> (n: Node)
        ensures
            n.spec_key() == match id {
                Some(i) => key@.push(i),
                None => key@,
            },
            n.value() == state@,
    {
        let mut key = key;
        if let Some(i) = id {
            key.push(i);
        }
        Node { key, state }
    }

    /// The key that names this node.
    pub fn key(&self) -> (k: &Vec<NodeId>)
        ensures
            k@ == self.spec_key(),
    {
        &self.key
    }

    /// This node's state.
    pub fn state(&self) -> (s: &State)
        ensures
            s@ == self.value(),
    {
        &self.state
    }

    /// The packet that sets the node `path` names below this one to
    /// `state`.
    pub fn emit_at(&self, path: &[NodeId], state: &State) -> (p: Packet)
        ensures
            p.key@ == self.spec_key() + path@,
            p.data@ == encode(state@),
    {
        let mut key = crate::packet::copy_key(&self.key);
        assert(self.key@ + path@.take(0) =~= self.key@);
        let mut j: usize = 0;
        while j < path.len()
            invariant
                j <= path@.len(),
                key@ == self.key@ + path@.take(j as int),
            decreases path@.len() - j,
        {
            key.push(path[j]);
            j = j + 1;
            proof {
                assert(self.key@ + path@.take(j as int) =~= (self.key@ + path@.take(j - 1)).push(
                    path@[j - 1],
                ));
            }
        }
        proof {
            assert(path@.take(path@.len() as int) =~= path@);
        }
        Packet { key, data: state.to_bytes() }
    }

    /// The packet that sets this node to `state`.
    pub fn emit(&self, state: &State) -> (p: Packet)
        ensures
            p.key@ == self.spec_key(),
            p.data@ == encode(state@),
    {
        let p = self.emit_at(&[], state);
        assert(self.spec_key() + Seq::<u32>::empty() =~= self.spec_key());
        p
    }

    /// Sets this node's state to `state`, of the node's type.
    pub fn apply(&mut self, state: State)
        requires
            same_shape(old(self).value(), state@),
        ensures
            final(self).value() == state@,
            final(self).spec_key() == old(self).spec_key(),
    {
        self.state = state;
    }

    /// Whether this node applies `packet`: `UnknownId` where the rest of its
    /// key does not name a node below this one, `StateMismatch` where its
    /// data do not hold a state of that node's type.
    pub fn check_packet(&self, packet: &Packet) -> (r: Result<(), PacketError>)
        ensures
            ({
                let path = relative_path(packet.key@, self.spec_key().len() as int);
                match r {
                    Ok(()) => accepts(self.value(), self.spec_key().len() as int, packet.key@, packet.data@),
                    Err(PacketError::UnknownId) => !has_path(self.value(), path),
                    Err(PacketError::StateMismatch) => has_path(self.value(), path) && decode(
                        get_at(self.value(), path),
                        packet.data@,
                    ) is None,
                    Err(PacketError::Truncated) => false,
                }
            }),
    {
        let depth = self.key.len();
        let (path, start) = relative(&packet.key, depth);
        match self.state.get_at(&packet.key, start) {
            Some(target) => {
                proof {
                    assert(packet.key@.skip(start as int) == path);
                }
                match target.decode_like(&packet.data) {
                    Some(_) => Ok(()),
                    None => Err(PacketError::StateMismatch),
                }
            },
            None => Err(PacketError::UnknownId),
        }
    }

    /// Applies a packet that this node accepts: the node that the rest of
    /// its key names takes the state that its data hold.
    pub fn apply_packet(&mut self, packet: &Packet)
        requires
            accepts(old(self).value(), old(self).spec_key().len() as int, packet.key@, packet.data@),
        ensures
            final(self).value() == applied(
                old(self).value(),
                old(self).spec_key().len() as int,
                packet.key@,
                packet.data@,
            ),
            final(self).spec_key() == old(self).spec_key(),
    {
        let depth = self.key.len();
        let (_path, start) = relative(&packet.key, depth);
        let decoded = match self.state.get_at(&packet.key, start) {
            Some(target) => target.decode_like(&packet.data),
            None => None,
        };
        match decoded {
            Some(s) => {
                self.state.set_at(&packet.key, start, s);
            },
            None => {},
        }
    }
}

/// Where the part of `key` below a node at `depth` starts.
fn relative(key: &Vec<NodeId>, depth: usize) -> (r: (Ghost<Seq<u32>>, usize))
    ensures
        r.1 <= key@.len(),
        key@.skip(r.1 as int) == relative_path(key@, depth as int),
        r.0@ == relative_path(key@, depth as int),
{
    if key.len() > depth {
        (Ghost(key@.skip(depth as int)), depth)
    } else {
        proof {
            assert(key@.skip(key@.len() as int) =~= Seq::<u32>::empty());
        }
        (Ghost(Seq::empty()), key.len())
    }
}

impl Message {
    /// What `packet` says to a node at `depth` whose type is that of
    /// `template`: the rest of its key, and the state its data hold.
    pub fn from_packet(depth: usize, packet: &Packet, template: &State) -> (m: Message)
        requires
            accepts(template@, depth as int, packet.key@, packet.data@),
        ensures
            m.path@ == relative_path(packet.key@, depth as int),
            Some(m.state@) == decode(
                get_at(template@, relative_path(packet.key@, depth as int)),
                packet.data@,
            ),
    {
        let (_path, start) = relative(&packet.key, depth);
        let mut path: Vec<NodeId> = Vec::new();
        let mut i: usize = start;
        while i < packet.key.len()
            invariant
                start <= i <= packet.key@.len(),
                path@ == packet.key@.subrange(start as int, i as int),
            decreases packet.key@.len() - i,
        {
            path.push(packet.key[i]);
            i = i + 1;
            proof {
                assert(packet.key@.subrange(start as int, i as int) =~= packet.key@.subrange(
                    start as int,
                    i - 1,
                ).push(packet.key@[i - 1]));
            }
        }
        proof {
            assert(packet.key@.subrange(start as int, packet.key@.len() as int) =~= packet.key@.skip(
                start as int,
            ));
        }
        let target = template.get_at(&packet.key, start);
        let state = match target {
            Some(t) => match t.decode_like(&packet.data) {
                Some(s) => s,
                None => State::I32(0),
            },
            None => State::I32(0),
        };
        Message { path, state }
    }
}

/// A packet to be applied after `delay_ms` milliseconds.
pub struct Emission {
    pub packet: Packet,
    pub delay_ms: u64,
}

impl Emission {
    /// The key, data and delay of the emission.
    pub open spec fn parts(&self) -> (Seq<u32>, Seq<u8>, u64) {
        (self.packet.key@, self.packet.data@, self.delay_ms)
    }
}

/// What a reaction to a packet does.
pub enum Action {
    /// Hands the packet on: to every client, or to the component itself.
    Forward(Packet),
    /// Sends the packet to one client.
    SendTo(u128, Packet),
    /// Emits a packet of its own.
    Emit(Emission),
}

/// An action, by the keys, bytes and delays it carries.
pub enum ActionView {
    Forward(Seq<u32>, Seq<u8>),
    SendTo(u128, Seq<u32>, Seq<u8>),
    Emit(Seq<u32>, Seq<u8>, u64),
}

impl Action {
    pub open spec fn view(&self) -> ActionView {
        match self {
            Action::Forward(p) => ActionView::Forward(p.key@, p.data@),
            Action::SendTo(id, p) => ActionView::SendTo(*id, p.key@, p.data@),
            Action::Emit(e) => ActionView::Emit(e.packet.key@, e.packet.data@, e.delay_ms),
        }
    }
}

/// The views of a sequence of actions.
pub open spec fn action_views(actions: Seq<Action>) -> Seq<ActionView> {
    actions.map_values(|a: Action| a.view())
}

/// The views of a sequence of emissions.
pub open spec fn emission_parts(es: Seq<Emission>) -> Seq<(Seq<u32>, Seq<u8>, u64)> {
    es.map_values(|e: Emission| e.parts())
}

// ---------------------------------------------------------------------------
// Laws.

/// A node applies the packet that any node below it emits, and afterwards
/// the emitting node holds the emitted state, the whole keeps its type, and
/// every node on a path unrelated to the emitter's is unchanged.
pub proof fn law_apply_emitted(v: Value, root_key: Seq<u32>, path: Seq<u32>, s: Value, other: Seq<u32>)
    requires
        has_path(v, path),
        same_shape(get_at(v, path), s),
    ensures
        accepts(v, root_key.len() as int, root_key + path, encode(s)),
        applied(v, root_key.len() as int, root_key + path, encode(s)) == set_at(v, path, s),
        get_at(applied(v, root_key.len() as int, root_key + path, encode(s)), path) == s,
        same_shape(v, applied(v, root_key.len() as int, root_key + path, encode(s))),
        has_path(v, other) && !crate::state::related(path, other) ==> get_at(
            applied(v, root_key.len() as int, root_key + path, encode(s)),
            other,
        ) == get_at(v, other),
{
    let key = root_key + path;
    assert(relative_path(key, root_key.len() as int) =~= path);
    crate::state::lemma_decode_encode(get_at(v, path), s);
    crate::state::lemma_get_set_same(v, path, s);
    crate::state::lemma_set_keeps_shape(v, path, s);
    if has_path(v, other) && !crate::state::related(path, other) {
        crate::state::lemma_get_set_other(v, path, other, s);
    }
}

/// What a packet that a node below emits says to the root: the path to the
/// emitter and the emitted state.
pub proof fn law_message_of_emitted(template: Value, root_key: Seq<u32>, path: Seq<u32>, s: Value)
    requires
        has_path(template, path),
        same_shape(get_at(template, path), s),
    ensures
        relative_path(root_key + path, root_key.len() as int) == path,
        decode(get_at(template, path), encode(s)) == Some(s),
{
    assert(relative_path(root_key + path, root_key.len() as int) =~= path);
    crate::state::lemma_decode_encode(get_at(template, path), s);
}

/// Each node has a key of its own: the packets that a node emits for two
/// different nodes below it have different keys, and the key of each names
/// its node back (`relative_path`).
pub proof fn law_keys_are_unique(root_key: Seq<u32>, p: Seq<u32>, q: Seq<u32>)
    requires
        p != q,
    ensures
        root_key + p != root_key + q,
        p.len() > 0 ==> relative_path(root_key + p, root_key.len() as int) == p,
{
    assert((root_key + p).skip(root_key.len() as int) =~= p);
    assert((root_key + q).skip(root_key.len() as int) =~= q);
    if p.len() > 0 {
        assert(relative_path(root_key + p, root_key.len() as int) =~= p);
    }
}

/// A node whose state is an `i32`.
pub struct I32Node {
    pub key: Vec<NodeId>,
    pub value: i32,
}

impl I32Node {
    pub fn new(key: Vec<NodeId>, value: i32) -> (n: I32Node)
        ensures
            n.key@ == key@,
            n.value == value,
    {
        I32Node { key, value }
    }

    /// The packet that sets this node to `value`, to be applied now.
    pub fn emit(&self, value: i32) -> (e: Emission)
        ensures
            e.parts() == (self.key@, encode(Value::I32(value)), 0u64),
    {
        let n = Node { key: crate::packet::copy_key(&self.key), state: State::I32(value) };
        let s = State::I32(value);
        Emission { packet: n.emit(&s), delay_ms: 0 }
    }
}

impl I32Node {
    /// The packet that a click on the node's button emits: its value plus
    /// one.
    pub fn emit_increment(&self) -> (e: Emission)
        requires
            self.value < i32::MAX,
        ensures
            e.parts() == (self.key@, encode(Value::I32((self.value + 1) as i32)), 0u64),
    {
        self.emit(self.value + 1)
    }
}

/// A node whose state is a `u32`.
pub struct U32Node {
    pub key: Vec<NodeId>,
    pub value: u32,
}

impl U32Node {
    pub fn new(key: Vec<NodeId>, value: u32) -> (n: U32Node)
        ensures
            n.key@ == key@,
            n.value == value,
    {
        U32Node { key, value }
    }

    /// The packet that sets this node to `value`, to be applied now.
    pub fn emit(&self, value: u32) -> (e: Emission)
        ensures
            e.parts() == (self.key@, encode(Value::U32(value)), 0u64),
    {
        let n = Node { key: crate::packet::copy_key(&self.key), state: State::U32(value) };
        let s = State::U32(value);
        Emission { packet: n.emit(&s), delay_ms: 0 }
    }
}

/// The emission that sets the number `id` of the group `group` below `node`
/// to `value`, at once.
pub fn emit_number(node: &Node, group: NodeId, id: NodeId, value: i32) -> (e: Emission)
    ensures
        e.parts() == (node.spec_key() + seq![group, id], encode(Value::I32(value)), 0u64),
{
    let path = vec![group, id];
    let p = node.emit_at(path.as_slice(), &State::I32(value));
    assert(path@ =~= seq![group, id]);
    Emission { packet: p, delay_ms: 0 }
}

} // verus!
