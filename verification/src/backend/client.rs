//! A client's processor on the server: it applies each packet that comes
//! from the client to its tree, and reacts to it.

use vstd::prelude::*;
use crate::app::node::number_sum::{field, NumberSum, A, B, SUM, SUM_DELAY_MS};
use crate::app::node::root::{Root, PERSONAL, SHARED};
use crate::app::node::shared::{SUM1, SUM2, SUM3};
use crate::node::{accepts, applied, emission_parts, relative_path, Emission, Message, Node};
use crate::packet::{copy_key, Packet};
use crate::state::{decode, encode, get_at, has_path, lemma_decode_encode, lemma_same_shape_sym, lemma_same_shape_trans, lemma_set_keeps_shape, same_shape, same_shape_all, set_at, Value};

verus! {

/// The packets that a client's processor emits once a packet has set the
/// node at `path` (below the root, named by `root_key`) to `state`, the tree
/// then being `v`: as key, bytes and delay.
///
/// A new `a` or `b` of a `NumberSum` sets its `sum` to `a + b` after a
/// while, unless the sum does not fit in an `i32`; a new `sum` of `sum1`
/// or `sum2` sets `a` or `b` of `sum3` of the same group at once; nothing
/// else is answered.
pub open spec fn client_reaction(root_key: Seq<u32>, v: Value, path: Seq<u32>, state: Value) -> Seq<
    (Seq<u32>, Seq<u8>, u64),
> {
    if path.len() == 3 && path[0] <= PERSONAL && path[1] <= SUM3 {
        let g = path[0];
        let s = path[1];
        let f = path[2];
        let ns = field(field(v, g as int), s as int);
        if f == A || f == B {
            let a = field(ns, A as int)->I32_0;
            let b = field(ns, B as int)->I32_0;
            if i32::MIN <= a + b <= i32::MAX {
                seq![
                    (root_key + seq![g, s, SUM], encode(Value::I32((a + b) as i32)), SUM_DELAY_MS),
                ]
            } else {
                seq![]
            }
        } else if f == SUM && s == SUM1 {
            seq![(root_key + seq![g, SUM3, A], encode(state), 0u64)]
        } else if f == SUM && s == SUM2 {
            seq![(root_key + seq![g, SUM3, B], encode(state), 0u64)]
        } else {
            seq![]
        }
    } else {
        seq![]
    }
}

/// The tree once a client's processor has taken the packet of `key` and
/// `data`, and then, in turn, the packet that each answer emits, for at
/// most `steps` answers. Each step is what `Client::process` states: the
/// tree becomes `applied(..)` of the packet, and the answers are
/// `client_reaction` of the tree it became (at most one answer each time).
pub open spec fn settled(root_key: Seq<u32>, v: Value, key: Seq<u32>, data: Seq<u8>, steps: nat) -> Value
    decreases steps,
{
    let depth = root_key.len() as int;
    let path = relative_path(key, depth);
    let next = applied(v, depth, key, data);
    let answers = client_reaction(root_key, next, path, decode(get_at(v, path), data).unwrap());
    if steps == 0 || answers.len() == 0 {
        next
    } else {
        settled(root_key, next, answers[0].0, answers[0].1, (steps - 1) as nat)
    }
}

/// Whether `ns` is the value of a `NumberSum`: three `i32` fields.
pub open spec fn sum_shaped(ns: Value) -> bool {
    &&& ns is Fields
    &&& ns->Fields_0.len() == 3
    &&& field(ns, 0) is I32
    &&& field(ns, 1) is I32
    &&& field(ns, 2) is I32
}

/// Whether the group `g` of `v` (`shared` or `personal`) is three
/// `NumberSum`s.
pub open spec fn group_shaped(v: Value, g: u32) -> bool {
    &&& v is Fields
    &&& g < v->Fields_0.len()
    &&& field(v, g as int) is Fields
    &&& field(v, g as int)->Fields_0.len() == 3
    &&& sum_shaped(field(field(v, g as int), 0))
    &&& sum_shaped(field(field(v, g as int), 1))
    &&& sum_shaped(field(field(v, g as int), 2))
}

/// The number in the field `f` of the sum `s` of the group `g` of `v`.
pub open spec fn number_at(v: Value, g: u32, s: u32, f: u32) -> int {
    field(field(field(v, g as int), s as int), f as int)->I32_0 as int
}

/// Whether each sum of the group `g` of `v` holds its own `a + b`.
pub open spec fn sums_hold(v: Value, g: u32) -> bool {
    &&& number_at(v, g, SUM1, SUM) == number_at(v, g, SUM1, A) + number_at(v, g, SUM1, B)
    &&& number_at(v, g, SUM2, SUM) == number_at(v, g, SUM2, A) + number_at(v, g, SUM2, B)
    &&& number_at(v, g, SUM3, SUM) == number_at(v, g, SUM3, A) + number_at(v, g, SUM3, B)
}

/// Whether the sums of the group `g` of `v` agree: each holds its own
/// `a + b`, and `sum3` takes the sums of `sum1` and `sum2` as its `a` and
/// `b`.
pub open spec fn group_consistent(v: Value, g: u32) -> bool {
    &&& sums_hold(v, g)
    &&& number_at(v, g, SUM3, A) == number_at(v, g, SUM1, SUM)
    &&& number_at(v, g, SUM3, B) == number_at(v, g, SUM2, SUM)
}

/// Whether every sum that the answers to setting the field `f` of the sum
/// `s` of the group `g` of `v` to `x` work out fits in an `i32`.
pub open spec fn answers_fit(v: Value, g: u32, s: u32, f: u32, x: i32) -> bool {
    let a = if f == A { x as int } else { number_at(v, g, s, A) };
    let b = if f == B { x as int } else { number_at(v, g, s, B) };
    &&& i32::MIN <= a + b <= i32::MAX
    &&& s == SUM1 ==> i32::MIN <= a + b + number_at(v, g, SUM3, B) <= i32::MAX
    &&& s == SUM2 ==> i32::MIN <= number_at(v, g, SUM3, A) + a + b <= i32::MAX
}

/// Each group of a `Root` is three `NumberSum`s.
pub proof fn lemma_root_groups(v: Value, g: u32)
    requires
        same_shape(Root::template(), v),
        g <= PERSONAL,
    ensures
        group_shaped(v, g),
{
    let ts = Root::template()->Fields_0;
    let vs = v->Fields_0;
    assert(same_shape_all(ts, vs));
    assert(same_shape(ts[g as int], vs[g as int]));
    let gts = ts[g as int]->Fields_0;
    let gvs = vs[g as int]->Fields_0;
    assert(gts == seq![NumberSum::template(), NumberSum::template(), NumberSum::template()]);
    assert(same_shape_all(gts, gvs));
    assert forall|k: int| 0 <= k < 3 implies sum_shaped(#[trigger] gvs[k]) by {
        assert(same_shape(gts[k], gvs[k]));
        let nts = gts[k]->Fields_0;
        let nvs = gvs[k]->Fields_0;
        assert(same_shape_all(nts, nvs));
        assert(same_shape(nts[0], nvs[0]));
        assert(same_shape(nts[1], nvs[1]));
        assert(same_shape(nts[2], nvs[2]));
    }
    assert(sum_shaped(gvs[0]));
    assert(sum_shaped(gvs[1]));
    assert(sum_shaped(gvs[2]));
}

/// The node at `[g, s, f]` inside a group of three `NumberSum`s, and the
/// tree with it replaced.
pub proof fn lemma_number_path(v: Value, g: u32, s: u32, f: u32, x: Value)
    requires
        group_shaped(v, g),
        s < 3,
        f < 3,
    ensures
        has_path(v, seq![g, s, f]),
        get_at(v, seq![g, s, f]) == field(field(field(v, g as int), s as int), f as int),
        set_at(v, seq![g, s, f], x) == Value::Fields(
            v->Fields_0.update(
                g as int,
                Value::Fields(
                    field(v, g as int)->Fields_0.update(
                        s as int,
                        Value::Fields(field(field(v, g as int), s as int)->Fields_0.update(f as int, x)),
                    ),
                ),
            ),
        ),
{
    let p = seq![g, s, f];
    assert(p.skip(1) =~= seq![s, f]);
    assert(p.skip(1).skip(1) =~= seq![f]);
    assert(p.skip(1).skip(1).skip(1) =~= Seq::<u32>::empty());
    reveal_with_fuel(has_path, 4);
    reveal_with_fuel(get_at, 4);
    reveal_with_fuel(set_at, 4);
}

/// One answer of the processor, taken: the tree with the number at
/// `[g, s, f]` set to `n`, where the answer's key is the root's key
/// followed by that path and its bytes are those of `n`.
proof fn lemma_take_answer(root_key: Seq<u32>, v: Value, g: u32, s: u32, f: u32, n: i32)
    requires
        group_shaped(v, g),
        s < 3,
        f < 3,
    ensures
        relative_path(root_key + seq![g, s, f], root_key.len() as int) == seq![g, s, f],
        decode(get_at(v, seq![g, s, f]), encode(Value::I32(n))) == Some(Value::I32(n)),
        group_shaped(set_at(v, seq![g, s, f], Value::I32(n)), g),
{
    assert((root_key + seq![g, s, f]).skip(root_key.len() as int) =~= seq![g, s, f]);
    lemma_number_path(v, g, s, f, Value::I32(n));
    lemma_decode_encode(get_at(v, seq![g, s, f]), Value::I32(n));
}

/// Once a processor has taken a new `a` or `b` of a sum of a `Root` whose
/// group agreed, and then every answer that follows, each sum of the group
/// holds its `a + b` again; where the new number was in `sum1` or `sum2`,
/// `sum3` has also taken the new sum, so the group agrees. (A new `a` or `b`
/// written into `sum3` itself is kept as written, so `sum3` may then
/// differ from the other sums.) This holds where every sum worked out fits
/// in an `i32`; where one does not, no answer comes for it.
pub proof fn law_answers_leave_group_consistent(root_key: Seq<u32>, v: Value, g: u32, s: u32, f: u32, x: i32)
    requires
        same_shape(Root::template(), v),
        g <= PERSONAL,
        s <= SUM3,
        f == A || f == B,
        group_consistent(v, g),
        answers_fit(v, g, s, f, x),
    ensures
        sums_hold(settled(root_key, v, root_key + seq![g, s, f], encode(Value::I32(x)), 3), g),
        s != SUM3 ==> group_consistent(
            settled(root_key, v, root_key + seq![g, s, f], encode(Value::I32(x)), 3),
            g,
        ),
{
    lemma_root_groups(v, g);
    let p1 = seq![g, s, f];
    lemma_take_answer(root_key, v, g, s, f, x);
    lemma_number_path(v, g, s, f, Value::I32(x));
    let v1 = set_at(v, p1, Value::I32(x));
    let n = number_at(v1, g, s, A) + number_at(v1, g, s, B);
    assert(number_at(v1, g, s, A) == if f == A { x as int } else { number_at(v, g, s, A) });
    assert(number_at(v1, g, s, B) == if f == B { x as int } else { number_at(v, g, s, B) });
    let n32 = n as i32;
    assert(n32 == n);
    let k1 = root_key + seq![g, s, SUM];
    assert(client_reaction(root_key, v1, p1, Value::I32(x)) == seq![
        (k1, encode(Value::I32(n32)), SUM_DELAY_MS),
    ]);
    lemma_take_answer(root_key, v1, g, s, SUM, n32);
    let p2 = seq![g, s, SUM];
    lemma_number_path(v1, g, s, SUM, Value::I32(n32));
    let v2 = set_at(v1, p2, Value::I32(n32));
    assert(settled(root_key, v, root_key + p1, encode(Value::I32(x)), 3) == settled(root_key, v1, k1, encode(Value::I32(n32)), 2));
    if s == SUM3 {
        assert(client_reaction(root_key, v2, p2, Value::I32(n32)).len() == 0);
        assert(settled(root_key, v1, k1, encode(Value::I32(n32)), 2) == v2);
        assert(number_at(v2, g, SUM3, SUM) == n);
        assert(number_at(v2, g, SUM3, A) == number_at(v1, g, SUM3, A));
        assert(number_at(v2, g, SUM3, B) == number_at(v1, g, SUM3, B));
        assert(number_at(v2, g, SUM1, SUM) == number_at(v, g, SUM1, SUM));
        assert(number_at(v2, g, SUM1, A) == number_at(v, g, SUM1, A));
        assert(number_at(v2, g, SUM1, B) == number_at(v, g, SUM1, B));
        assert(number_at(v2, g, SUM2, SUM) == number_at(v, g, SUM2, SUM));
        assert(number_at(v2, g, SUM2, A) == number_at(v, g, SUM2, A));
        assert(number_at(v2, g, SUM2, B) == number_at(v, g, SUM2, B));
    } else {
        let t = if s == SUM1 { A } else { B };
        let k2 = root_key + seq![g, SUM3, t];
        assert(client_reaction(root_key, v2, p2, Value::I32(n32)) == seq![
            (k2, encode(Value::I32(n32)), 0u64),
        ]);
        lemma_take_answer(root_key, v2, g, SUM3, t, n32);
        let p3 = seq![g, SUM3, t];
        lemma_number_path(v2, g, SUM3, t, Value::I32(n32));
        let v3 = set_at(v2, p3, Value::I32(n32));
        assert(settled(root_key, v1, k1, encode(Value::I32(n32)), 2) == settled(root_key, v2, k2, encode(Value::I32(n32)), 1));
        let m = number_at(v3, g, SUM3, A) + number_at(v3, g, SUM3, B);
        assert(number_at(v3, g, SUM3, A) == if s == SUM1 { n } else { number_at(v, g, SUM3, A) });
        assert(number_at(v3, g, SUM3, B) == if s == SUM2 { n } else { number_at(v, g, SUM3, B) });
        let m32 = m as i32;
        assert(m32 == m);
        let k3 = root_key + seq![g, SUM3, SUM];
        assert(client_reaction(root_key, v3, p3, Value::I32(n32)) == seq![
            (k3, encode(Value::I32(m32)), SUM_DELAY_MS),
        ]);
        lemma_take_answer(root_key, v3, g, SUM3, SUM, m32);
        let p4 = seq![g, SUM3, SUM];
        lemma_number_path(v3, g, SUM3, SUM, Value::I32(m32));
        let v4 = set_at(v3, p4, Value::I32(m32));
        assert(settled(root_key, v2, k2, encode(Value::I32(n32)), 1) == settled(root_key, v3, k3, encode(Value::I32(m32)), 0));
        assert(settled(root_key, v3, k3, encode(Value::I32(m32)), 0) == v4);
        assert(number_at(v4, g, SUM3, SUM) == m);
        assert(number_at(v4, g, SUM3, A) == number_at(v3, g, SUM3, A));
        assert(number_at(v4, g, SUM3, B) == number_at(v3, g, SUM3, B));
        assert(number_at(v4, g, s, SUM) == n);
        assert(number_at(v4, g, s, A) == number_at(v1, g, s, A));
        assert(number_at(v4, g, s, B) == number_at(v1, g, s, B));
        let o = if s == SUM1 { SUM2 } else { SUM1 };
        assert(number_at(v4, g, o, SUM) == number_at(v, g, o, SUM));
        assert(number_at(v4, g, o, A) == number_at(v, g, o, A));
        assert(number_at(v4, g, o, B) == number_at(v, g, o, B));
    }
}

/// The processor of one client: its copy of the root.
pub struct Client {
    processor: Node,
}

impl Client {
    pub closed spec fn root_value(&self) -> Value {
        self.processor.value()
    }

    pub closed spec fn root_key(&self) -> Seq<u32> {
        self.processor.spec_key()
    }

    /// Whether the processor holds a `Root`.
    pub open spec fn wf(&self) -> bool {
        same_shape(Root::template(), self.root_value())
    }

    pub fn new(processor: Node) -> (c: Client)
        requires
            same_shape(Root::template(), processor.value()),
        ensures
            c.wf(),
            c.root_value() == processor.value(),
            c.root_key() == processor.spec_key(),
    {
        Client { processor }
    }

    /// The processor's root.
    pub fn processor(&self) -> (n: &Node)
        ensures
            n.value() == self.root_value(),
            n.spec_key() == self.root_key(),
    {
        &self.processor
    }

    /// Applies a packet from the client and gives the packets that the
    /// processor emits in answer.
    pub fn process(&mut self, packet: &Packet) -> (out: Vec<Emission>)
        requires
            old(self).wf(),
            accepts(old(self).root_value(), old(self).root_key().len() as int, packet.key@, packet.data@),
        ensures
            final(self).wf(),
            final(self).root_key() == old(self).root_key(),
            final(self).root_value() == applied(
                old(self).root_value(),
                old(self).root_key().len() as int,
                packet.key@,
                packet.data@,
            ),
            emission_parts(out@) == client_reaction(
                old(self).root_key(),
                final(self).root_value(),
                relative_path(packet.key@, old(self).root_key().len() as int),
                decode(
                    get_at(
                        old(self).root_value(),
                        relative_path(packet.key@, old(self).root_key().len() as int),
                    ),
                    packet.data@,
                ).unwrap(),
            ),
    {
        let depth = self.processor.key().len();
        let message = Message::from_packet(depth, packet, self.processor.state());
        let ghost before = self.processor.value();
        let ghost path = relative_path(packet.key@, depth as int);
        proof {
            let target = get_at(before, path);
            crate::state::lemma_encode_decode(target, packet.data@);
            lemma_set_keeps_shape(before, path, decode(target, packet.data@).unwrap());
            lemma_same_shape_trans(Root::template(), before, crate::state::set_at(before, path, decode(target, packet.data@).unwrap()));
        }
        self.processor.apply_packet(packet);
        let root = Root::from_node(&self.processor);
        let mut out: Vec<Emission> = Vec::new();
        if message.path.len() == 3 {
            let g = message.path[0];
            let s = message.path[1];
            let f = message.path[2];
            if g <= PERSONAL && s <= SUM3 {
                let (sum, sum3): (&NumberSum, &NumberSum) = if g == SHARED {
                    (root.shared.sum_at(s), &root.shared.sum3)
                } else {
                    (root.personal.sum_at(s), &root.personal.sum3)
                };
                if f == A || f == B {
                    // A sum that does not fit in an `i32` is not emitted: the
                    // task that would work it out stops on the overflow.
                    if sum.a.value.checked_add(sum.b.value).is_some() {
                        out.push(sum.emit_expensive_sum());
                    }
                } else if f == SUM && s == SUM1 {
                    out.push(Emission {
                        packet: Packet { key: copy_key(&sum3.a.key), data: message.state.to_bytes() },
                        delay_ms: 0,
                    });
                } else if f == SUM && s == SUM2 {
                    out.push(Emission {
                        packet: Packet { key: copy_key(&sum3.b.key), data: message.state.to_bytes() },
                        delay_ms: 0,
                    });
                }
                proof {
                    let rk = self.processor.spec_key();
                    assert(rk.push(g).push(s).push(SUM) =~= rk + seq![g, s, SUM]);
                    assert(rk.push(g).push(SUM3).push(A) =~= rk + seq![g, SUM3, A]);
                    assert(rk.push(g).push(SUM3).push(B) =~= rk + seq![g, SUM3, B]);
                }
            }
        }
        assert(emission_parts(out@) =~= client_reaction(
            self.processor.spec_key(),
            self.processor.value(),
            message.path@,
            message.state@,
        ));
        out
    }
}

} // verus!
