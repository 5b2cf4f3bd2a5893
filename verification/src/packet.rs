//! Packets: the key of the node that a state is meant for, and the bytes of
//! that state. On the wire a packet is the number of ids in its key, then
//! each id, four little-endian bytes each, then the state's bytes.

use vstd::prelude::*;
use vstd::bytes::{spec_u32_from_le_bytes, spec_u32_to_le_bytes, lemma_auto_spec_u32_to_from_le_bytes};

verus! {

/// The id of a field within its node: its index in declaration order.
pub type NodeId = u32;

/// A state on its way to the node that its key names.
pub struct Packet {
    pub key: Vec<NodeId>,
    pub data: Vec<u8>,
}

/// Why bytes, or a packet, were refused.
#[derive(Debug, PartialEq, Eq)]
pub enum PacketError {
    /// The bytes end before the key does.
    Truncated,
    /// An id of the key is not the index of a field of the node it reaches.
    UnknownId,
    /// The bytes do not hold a state of the type of the node the key names.
    StateMismatch,
}

/// The bytes of a key: each id, four little-endian bytes each.
pub open spec fn key_bytes(key: Seq<u32>) -> Seq<u8>
    decreases key.len(),
{
    if key.len() == 0 {
        Seq::empty()
    } else {
        key_bytes(key.drop_last()) + spec_u32_to_le_bytes(key.last())
    }
}

/// The ids whose bytes `b` holds, four bytes each.
pub open spec fn key_of_bytes(b: Seq<u8>) -> Seq<u32>
    decreases b.len(),
{
    if b.len() < 4 {
        Seq::empty()
    } else {
        key_of_bytes(b.take(b.len() - 4)).push(spec_u32_from_le_bytes(b.skip(b.len() - 4)))
    }
}

/// The bytes of a packet with this key and data.
pub open spec fn packet_bytes(key: Seq<u32>, data: Seq<u8>) -> Seq<u8> {
    spec_u32_to_le_bytes(key.len() as u32) + key_bytes(key) + data
}

/// The key and data that bytes hold, if they hold a whole key.
pub open spec fn parse_packet(b: Seq<u8>) -> Option<(Seq<u32>, Seq<u8>)> {
    if b.len() < 4 {
        None
    } else {
        let n = spec_u32_from_le_bytes(b.take(4)) as int;
        if b.len() < 4 + 4 * n {
            None
        } else {
            Some((key_of_bytes(b.subrange(4, 4 + 4 * n)), b.skip(4 + 4 * n)))
        }
    }
}

pub proof fn lemma_key_bytes_len(key: Seq<u32>)
    ensures
        key_bytes(key).len() == 4 * key.len(),
    decreases key.len(),
{
    lemma_auto_spec_u32_to_from_le_bytes();
    if key.len() > 0 {
        lemma_key_bytes_len(key.drop_last());
    }
}

pub proof fn lemma_key_of_key_bytes(key: Seq<u32>)
    ensures
        key_of_bytes(key_bytes(key)) == key,
    decreases key.len(),
{
    lemma_auto_spec_u32_to_from_le_bytes();
    if key.len() > 0 {
        let b = key_bytes(key);
        lemma_key_bytes_len(key.drop_last());
        assert(b.take(b.len() - 4) =~= key_bytes(key.drop_last()));
        assert(b.skip(b.len() - 4) =~= spec_u32_to_le_bytes(key.last()));
        lemma_key_of_key_bytes(key.drop_last());
        assert(key.drop_last().push(key.last()) =~= key);
    }
}

pub proof fn lemma_key_bytes_of_key(b: Seq<u8>, n: nat)
    requires
        b.len() == 4 * n,
    ensures
        key_bytes(key_of_bytes(b)) == b,
        key_of_bytes(b).len() == n,
    decreases n,
{
    lemma_auto_spec_u32_to_from_le_bytes();
    if n > 0 {
        lemma_key_bytes_of_key(b.take(b.len() - 4), (n - 1) as nat);
        let k = key_of_bytes(b);
        assert(k.drop_last() =~= key_of_bytes(b.take(b.len() - 4)));
        assert(b.skip(b.len() - 4).len() == 4);
        assert(b.take(b.len() - 4) + b.skip(b.len() - 4) =~= b);
    } else {
        assert(b =~= Seq::<u8>::empty());
    }
}

/// Parsing the bytes of a packet gives its key and data back.
pub proof fn law_packet_bytes_parse_back(key: Seq<u32>, data: Seq<u8>)
    requires
        key.len() <= u32::MAX,
    ensures
        parse_packet(packet_bytes(key, data)) == Some((key, data)),
{
    lemma_auto_spec_u32_to_from_le_bytes();
    lemma_key_bytes_len(key);
    lemma_key_of_key_bytes(key);
    let b = packet_bytes(key, data);
    let n = key.len() as int;
    assert(b.take(4) =~= spec_u32_to_le_bytes(n as u32));
    assert(b.subrange(4, 4 + 4 * n) =~= key_bytes(key));
    assert(b.skip(4 + 4 * n) =~= data);
}

/// Bytes that parse are the bytes of the packet they parse to.
pub proof fn law_parsed_bytes_are_packet_bytes(b: Seq<u8>)
    requires
        parse_packet(b) is Some,
    ensures
        ({
            let (key, data) = parse_packet(b).unwrap();
            key.len() <= u32::MAX && packet_bytes(key, data) == b
        }),
{
    lemma_auto_spec_u32_to_from_le_bytes();
    let n = spec_u32_from_le_bytes(b.take(4)) as int;
    let kb = b.subrange(4, 4 + 4 * n);
    lemma_key_bytes_of_key(kb, n as nat);
    assert(spec_u32_to_le_bytes(spec_u32_from_le_bytes(b.take(4))) == b.take(4));
    assert(b.take(4) + kb + b.skip(4 + 4 * n) =~= b);
}

impl Packet {
    /// The id at `depth` of the key, if the key is that long.
    pub fn get_id(&self, depth: usize) -> (id: Option<NodeId>)
        ensures
            id == (if depth < self.key@.len() {
                Some(self.key@[depth as int])
            } else {
                None::<u32>
            }),
    {
        if depth < self.key.len() {
            Some(self.key[depth])
        } else {
            None
        }
    }

    /// The bytes of the packet.
    pub fn to_bytes(&self) -> (b: Vec<u8>)
        requires
            self.key@.len() <= u32::MAX,
        ensures
            b@ == packet_bytes(self.key@, self.data@),
    {
        let n = self.key.len();
        let mut b = vstd::bytes::u32_to_le_bytes(n as u32);
        let mut i: usize = 0;
        while i < n
            invariant
                n == self.key@.len(),
                n <= u32::MAX,
                i <= n,
                b@ == spec_u32_to_le_bytes(n as u32) + key_bytes(self.key@.take(i as int)),
            decreases n - i,
        {
            let mut id = vstd::bytes::u32_to_le_bytes(self.key[i]);
            proof {
                assert(self.key@.take(i + 1).drop_last() =~= self.key@.take(i as int));
            }
            b.append(&mut id);
            i = i + 1;
        }
        proof {
            assert(self.key@.take(n as int) =~= self.key@);
        }
        let mut j: usize = 0;
        let ghost head = b@;
        while j < self.data.len()
            invariant
                j <= self.data@.len(),
                b@ == head + self.data@.take(j as int),
            decreases self.data@.len() - j,
        {
            b.push(self.data[j]);
            j = j + 1;
            proof {
                assert(head + self.data@.take(j as int) =~= (head + self.data@.take(j - 1)).push(
                    self.data@[j - 1],
                ));
            }
        }
        proof {
            assert(self.data@.take(self.data@.len() as int) =~= self.data@);
        }
        b
    }

    /// The bytes of the packet, where its key is short enough for its
    /// length to fit in the four bytes before it.
    pub fn try_to_bytes(&self) -> (b: Option<Vec<u8>>)
        ensures
            match b {
                Some(b) => self.key@.len() <= u32::MAX && b@ == packet_bytes(self.key@, self.data@),
                None => self.key@.len() > u32::MAX,
            },
    {
        if self.key.len() <= 0xffff_ffffusize {
            Some(self.to_bytes())
        } else {
            None
        }
    }

    /// A copy of the packet.
    pub fn duplicate(&self) -> (p: Packet)
        ensures
            p.key@ == self.key@,
            p.data@ == self.data@,
    {
        Packet { key: copy_key(&self.key), data: copy_bytes(&self.data) }
    }

    /// The packet that `bytes` hold: `Truncated` exactly when they end
    /// before the key that their first four bytes announce.
    pub fn from_bytes(bytes: &[u8]) -> (r: Result<Packet, PacketError>)
        ensures
            match r {
                Ok(p) => parse_packet(bytes@) == Some((p.key@, p.data@)),
                Err(e) => e == PacketError::Truncated && parse_packet(bytes@) is None,
            },
    {
        let len = bytes.len();
        if len < 4 {
            return Err(PacketError::Truncated);
        }
        let head = vec![bytes[0], bytes[1], bytes[2], bytes[3]];
        assert(head@ =~= bytes@.take(4));
        let n = vstd::bytes::u32_from_le_bytes(head.as_slice());
        if (len - 4) / 4 < n as usize {
            return Err(PacketError::Truncated);
        }
        let n = n as usize;
        let end = 4 + 4 * n;
        let mut key: Vec<u32> = Vec::new();
        let mut i: usize = 0;
        while i < n
            invariant
                n == spec_u32_from_le_bytes(bytes@.take(4)),
                end == 4 + 4 * n,
                end <= len,
                len == bytes@.len(),
                i <= n,
                key@ == key_of_bytes(bytes@.subrange(4, 4 + 4 * i)),
            decreases n - i,
        {
            let at = 4 + 4 * i;
            let chunk = vec![bytes[at], bytes[at + 1], bytes[at + 2], bytes[at + 3]];
            let id = vstd::bytes::u32_from_le_bytes(chunk.as_slice());
            proof {
                let prev = bytes@.subrange(4, 4 + 4 * i);
                let next = bytes@.subrange(4, 4 + 4 * (i + 1));
                assert(next.take(next.len() - 4) =~= prev);
                assert(next.skip(next.len() - 4) =~= chunk@);
            }
            key.push(id);
            i = i + 1;
        }
        let mut data: Vec<u8> = Vec::new();
        let mut j: usize = end;
        while j < len
            invariant
                end <= j <= len,
                len == bytes@.len(),
                data@ == bytes@.subrange(end as int, j as int),
            decreases len - j,
        {
            data.push(bytes[j]);
            j = j + 1;
            proof {
                assert(bytes@.subrange(end as int, j as int) =~= bytes@.subrange(
                    end as int,
                    j - 1,
                ).push(bytes@[j - 1]));
            }
        }
        proof {
            assert(bytes@.subrange(end as int, len as int) =~= bytes@.skip(end as int));
        }
        Ok(Packet { key, data })
    }
}

/// A copy of some bytes.
pub fn copy_bytes(bytes: &Vec<u8>) -> (b: Vec<u8>)
    ensures
        b@ == bytes@,
{
    let b = bytes.clone();
    assert(b@ =~= bytes@);
    b
}

/// A copy of a key.
pub fn copy_key(key: &Vec<NodeId>) -> (k: Vec<NodeId>)
    ensures
        k@ == key@,
{
    let k = key.clone();
    assert(k@ =~= key@);
    k
}

/// The key of the field `id` of the node that `key` names.
pub fn child_key(key: &Vec<NodeId>, id: NodeId) -> (k: Vec<NodeId>)
    ensures
        k@ == key@.push(id),
{
    let mut k = copy_key(key);
    k.push(id);
    k
}

} // verus!
