//! The state of a node: an `i32` or `u32` leaf, or the states of a node's
//! fields in declaration order. Its bytes are each leaf's four bytes, little
//! endian, field after field.

use vstd::prelude::*;
use vstd::bytes::{spec_u32_from_le_bytes, spec_u32_to_le_bytes, lemma_auto_spec_u32_to_from_le_bytes};

verus! {

/// The mathematical value of a node state.
pub enum Value {
    I32(i32),
    U32(u32),
    Fields(Seq<Value>),
}

/// The bytes of a value.
pub open spec fn encode(v: Value) -> Seq<u8>
    decreases v,
{
    match v {
        Value::I32(x) => spec_u32_to_le_bytes(x as u32),
        Value::U32(x) => spec_u32_to_le_bytes(x),
        Value::Fields(fs) => encode_all(fs),
    }
}

/// The bytes of a sequence of values, one after the other.
pub open spec fn encode_all(fs: Seq<Value>) -> Seq<u8>
    decreases fs,
{
    if fs.len() == 0 {
        Seq::empty()
    } else {
        encode_all(fs.drop_last()) + encode(fs.last())
    }
}

/// The number of bytes that a value of the same type as `t` takes.
pub open spec fn width(t: Value) -> nat
    decreases t,
{
    match t {
        Value::I32(_) => 4,
        Value::U32(_) => 4,
        Value::Fields(ts) => width_all(ts),
    }
}

pub open spec fn width_all(ts: Seq<Value>) -> nat
    decreases ts,
{
    if ts.len() == 0 {
        0
    } else {
        width_all(ts.drop_last()) + width(ts.last())
    }
}

/// Whether two values have the same type: the same kind of leaf, or the
/// same number of fields, each of the same type.
pub open spec fn same_shape(a: Value, b: Value) -> bool
    decreases a,
{
    match a {
        Value::I32(_) => b is I32,
        Value::U32(_) => b is U32,
        Value::Fields(xs) => match b {
            Value::Fields(ys) => same_shape_all(xs, ys),
            _ => false,
        },
    }
}

pub open spec fn same_shape_all(xs: Seq<Value>, ys: Seq<Value>) -> bool
    decreases xs,
{
    &&& ys.len() == xs.len()
    &&& forall|i: int| #![trigger xs[i], ys[i]] 0 <= i < xs.len() ==> same_shape(xs[i], ys[i])
}

/// The value of the type of `t` that `b` holds, if `b` holds one.
pub open spec fn decode(t: Value, b: Seq<u8>) -> Option<Value>
    decreases t,
{
    match t {
        Value::I32(_) => if b.len() == 4 {
            Some(Value::I32(spec_u32_from_le_bytes(b) as i32))
        } else {
            None
        },
        Value::U32(_) => if b.len() == 4 {
            Some(Value::U32(spec_u32_from_le_bytes(b)))
        } else {
            None
        },
        Value::Fields(ts) => match decode_all(ts, b) {
            Some(vs) => Some(Value::Fields(vs)),
            None => None,
        },
    }
}

pub open spec fn decode_all(ts: Seq<Value>, b: Seq<u8>) -> Option<Seq<Value>>
    decreases ts,
{
    if ts.len() == 0 {
        if b.len() == 0 {
            Some(Seq::empty())
        } else {
            None
        }
    } else {
        let w = width(ts.last());
        if b.len() < w {
            None
        } else {
            match decode_all(ts.drop_last(), b.take(b.len() - w)) {
                Some(vs) => match decode(ts.last(), b.skip(b.len() - w)) {
                    Some(v) => Some(vs.push(v)),
                    None => None,
                },
                None => None,
            }
        }
    }
}

/// Whether `path` names a node inside `v`: each id is the index of a field.
pub open spec fn has_path(v: Value, path: Seq<u32>) -> bool
    decreases path.len(),
{
    if path.len() == 0 {
        true
    } else {
        match v {
            Value::Fields(fs) => path[0] < fs.len() && has_path(fs[path[0] as int], path.skip(1)),
            _ => false,
        }
    }
}

/// The value of the node that `path` names inside `v`.
pub open spec fn get_at(v: Value, path: Seq<u32>) -> Value
    recommends
        has_path(v, path),
    decreases path.len(),
{
    if path.len() == 0 {
        v
    } else {
        match v {
            Value::Fields(fs) => get_at(fs[path[0] as int], path.skip(1)),
            _ => v,
        }
    }
}

/// `v` with the node that `path` names replaced by `new`.
pub open spec fn set_at(v: Value, path: Seq<u32>, new: Value) -> Value
    recommends
        has_path(v, path),
    decreases path.len(),
{
    if path.len() == 0 {
        new
    } else {
        match v {
            Value::Fields(fs) => Value::Fields(
                fs.update(path[0] as int, set_at(fs[path[0] as int], path.skip(1), new)),
            ),
            _ => v,
        }
    }
}

/// Whether every number in `v` is 0.
pub open spec fn all_zero(v: Value) -> bool
    decreases v,
{
    match v {
        Value::I32(x) => x == 0,
        Value::U32(x) => x == 0,
        Value::Fields(fs) => all_zero_all(fs),
    }
}

/// Whether every number in each of `fs` is 0.
pub open spec fn all_zero_all(fs: Seq<Value>) -> bool
    decreases fs,
{
    if fs.len() == 0 {
        true
    } else {
        all_zero_all(fs.drop_last()) && all_zero(fs.last())
    }
}

/// Fields whose values are all 0 before `k`, and each `I32(0)` or
/// `U32(0)` from `k` on, are all 0.
pub proof fn lemma_all_zero_leaves(fs: Seq<Value>, k: int)
    requires
        0 <= k <= fs.len(),
        forall|i: int| 0 <= i < k ==> #[trigger] all_zero(fs[i]),
        forall|i: int| k <= i < fs.len() ==> #[trigger] fs[i] == Value::I32(0) || fs[i] == Value::U32(0),
    ensures
        all_zero(Value::Fields(fs)),
    decreases fs.len(),
{
    if fs.len() > 0 {
        let init = fs.drop_last();
        let k2 = if k < init.len() { k } else { init.len() as int };
        assert forall|i: int| 0 <= i < k2 implies #[trigger] all_zero(init[i]) by {
            assert(init[i] == fs[i]);
        }
        assert forall|i: int| k2 <= i < init.len() implies #[trigger] init[i] == Value::I32(0) || init[i]
            == Value::U32(0) by {
            assert(init[i] == fs[i]);
        }
        lemma_all_zero_leaves(init, k2);
        let last = fs.len() - 1;
        if last >= k {
            assert(fs[last] == Value::I32(0) || fs[last] == Value::U32(0));
        } else {
            assert(all_zero(fs[last]));
        }
        assert(all_zero(fs[last]));
        assert(fs.last() == fs[last]);
        assert(all_zero_all(init));
        assert(all_zero_all(fs));
    }
    assert(all_zero_all(fs));
}

// ---------------------------------------------------------------------------
// Lemmas on the model.

/// `same_shape_all` holds of two non-empty sequences exactly when it holds
/// of all but their last elements and `same_shape` holds of those.
pub proof fn lemma_same_shape_all_split(xs: Seq<Value>, ys: Seq<Value>)
    requires
        xs.len() > 0,
        ys.len() == xs.len(),
    ensures
        same_shape_all(xs, ys) <==> (same_shape_all(xs.drop_last(), ys.drop_last())
            && same_shape(xs.last(), ys.last())),
{
    let n = xs.len() - 1;
    if same_shape_all(xs.drop_last(), ys.drop_last()) && same_shape(xs.last(), ys.last()) {
        assert forall|i: int| #![trigger xs[i], ys[i]] 0 <= i < xs.len() implies same_shape(
            xs[i],
            ys[i],
        ) by {
            if i < n {
                assert(xs.drop_last()[i] == xs[i] && ys.drop_last()[i] == ys[i]);
            }
        }
        assert(same_shape_all(xs, ys));
    }
    if same_shape_all(xs, ys) {
        assert(xs[n] == xs.last() && ys[n] == ys.last());
        assert(same_shape(xs.last(), ys.last()));
        assert forall|i: int| #![trigger xs.drop_last()[i], ys.drop_last()[i]]
            0 <= i < n implies same_shape(xs.drop_last()[i], ys.drop_last()[i]) by {
            assert(xs.drop_last()[i] == xs[i] && ys.drop_last()[i] == ys[i]);
        }
        assert(same_shape_all(xs.drop_last(), ys.drop_last()));
    }
}

pub proof fn lemma_width_is_encoded_len(t: Value, v: Value)
    requires
        same_shape(t, v),
    ensures
        encode(v).len() == width(t),
    decreases t,
{
    lemma_auto_spec_u32_to_from_le_bytes();
    match t {
        Value::Fields(ts) => {
            let vs = v->Fields_0;
            lemma_width_all_is_encoded_len(ts, vs);
        },
        _ => {},
    }
}

pub proof fn lemma_width_all_is_encoded_len(ts: Seq<Value>, vs: Seq<Value>)
    requires
        same_shape_all(ts, vs),
    ensures
        encode_all(vs).len() == width_all(ts),
    decreases ts,
{
    if ts.len() > 0 {
        lemma_same_shape_all_split(ts, vs);
        lemma_width_all_is_encoded_len(ts.drop_last(), vs.drop_last());
        lemma_width_is_encoded_len(ts.last(), vs.last());
    }
}

/// Decoding the bytes of a value, against any value of the same type,
/// gives the value back.
pub proof fn lemma_decode_encode(t: Value, v: Value)
    requires
        same_shape(t, v),
    ensures
        decode(t, encode(v)) == Some(v),
    decreases t,
{
    lemma_auto_spec_u32_to_from_le_bytes();
    match t {
        Value::I32(_) => {
            let x = v->I32_0;
            assert(spec_u32_to_le_bytes(x as u32).len() == 4);
            assert(spec_u32_from_le_bytes(spec_u32_to_le_bytes(x as u32)) == x as u32);
            assert((x as u32) as i32 == x) by (bit_vector);
        },
        Value::U32(_) => {
            let x = v->U32_0;
            assert(spec_u32_to_le_bytes(x).len() == 4);
        },
        Value::Fields(ts) => {
            let vs = v->Fields_0;
            lemma_decode_encode_all(ts, vs);
        },
    }
}

pub proof fn lemma_decode_encode_all(ts: Seq<Value>, vs: Seq<Value>)
    requires
        same_shape_all(ts, vs),
    ensures
        decode_all(ts, encode_all(vs)) == Some(vs),
    decreases ts,
{
    if ts.len() > 0 {
        lemma_same_shape_all_split(ts, vs);
        let b = encode_all(vs);
        let head = encode_all(vs.drop_last());
        let tail = encode(vs.last());
        lemma_width_is_encoded_len(ts.last(), vs.last());
        assert(b == head + tail);
        assert(b.take(b.len() - width(ts.last())) =~= head);
        assert(b.skip(b.len() - width(ts.last())) =~= tail);
        lemma_decode_encode_all(ts.drop_last(), vs.drop_last());
        lemma_decode_encode(ts.last(), vs.last());
        assert(vs.drop_last().push(vs.last()) =~= vs);
    }
}

/// What decoding gives has the type it was decoded against, and its bytes
/// are the bytes it was decoded from.
pub proof fn lemma_encode_decode(t: Value, b: Seq<u8>)
    requires
        decode(t, b) is Some,
    ensures
        same_shape(t, decode(t, b).unwrap()),
        encode(decode(t, b).unwrap()) == b,
    decreases t,
{
    lemma_auto_spec_u32_to_from_le_bytes();
    match t {
        Value::I32(_) => {
            let x = spec_u32_from_le_bytes(b);
            assert(((x as i32) as u32) == x) by (bit_vector);
            assert(spec_u32_to_le_bytes(spec_u32_from_le_bytes(b)) == b);
        },
        Value::U32(_) => {
            assert(spec_u32_to_le_bytes(spec_u32_from_le_bytes(b)) == b);
        },
        Value::Fields(ts) => {
            lemma_encode_decode_all(ts, b);
        },
    }
}

pub proof fn lemma_encode_decode_all(ts: Seq<Value>, b: Seq<u8>)
    requires
        decode_all(ts, b) is Some,
    ensures
        same_shape_all(ts, decode_all(ts, b).unwrap()),
        encode_all(decode_all(ts, b).unwrap()) == b,
    decreases ts,
{
    if ts.len() > 0 {
        let w = width(ts.last());
        let vs = decode_all(ts, b).unwrap();
        let front = b.take(b.len() - w);
        let back = b.skip(b.len() - w);
        lemma_encode_decode_all(ts.drop_last(), front);
        lemma_encode_decode(ts.last(), back);
        let pre = decode_all(ts.drop_last(), front).unwrap();
        assert(vs.drop_last() =~= pre);
        lemma_same_shape_all_split(ts, vs);
        assert(front + back =~= b);
    }
}

// ---------------------------------------------------------------------------
// Paths.

/// Setting a node and then reading it gives what was set.
pub proof fn lemma_get_set_same(v: Value, path: Seq<u32>, new: Value)
    requires
        has_path(v, path),
    ensures
        has_path(set_at(v, path, new), path),
        get_at(set_at(v, path, new), path) == new,
    decreases path.len(),
{
    if path.len() > 0 {
        let fs = v->Fields_0;
        let i = path[0] as int;
        lemma_get_set_same(fs[i], path.skip(1), new);
    }
}

/// Whether one path is a prefix of the other.
pub open spec fn related(p: Seq<u32>, q: Seq<u32>) -> bool {
    ||| p.len() <= q.len() && q.take(p.len() as int) == p
    ||| q.len() <= p.len() && p.take(q.len() as int) == q
}

/// Setting a node leaves every node on an unrelated path as it was.
pub proof fn lemma_get_set_other(v: Value, p: Seq<u32>, q: Seq<u32>, new: Value)
    requires
        has_path(v, p),
        has_path(v, q),
        !related(p, q),
    ensures
        has_path(set_at(v, p, new), q),
        get_at(set_at(v, p, new), q) == get_at(v, q),
    decreases p.len(),
{
    assert(p.len() > 0 && q.len() > 0) by {
        if p.len() == 0 {
            assert(q.take(0) =~= p);
        }
        if q.len() == 0 {
            assert(p.take(0) =~= q);
        }
    }
    let fs = v->Fields_0;
    let i = p[0] as int;
    let j = q[0] as int;
    if i == j {
        assert(!related(p.skip(1), q.skip(1))) by {
            if p.skip(1).len() <= q.skip(1).len() && q.skip(1).take(p.skip(1).len() as int)
                == p.skip(1) {
                assert forall|k: int| 0 <= k < p.len() implies q.take(p.len() as int)[k]
                    == p[k] by {
                    if k > 0 {
                        assert(q.skip(1).take(p.skip(1).len() as int)[k - 1] == p.skip(1)[k - 1]);
                    }
                }
                assert(q.take(p.len() as int) =~= p);
            }
            if q.skip(1).len() <= p.skip(1).len() && p.skip(1).take(q.skip(1).len() as int)
                == q.skip(1) {
                assert forall|k: int| 0 <= k < q.len() implies p.take(q.len() as int)[k]
                    == q[k] by {
                    if k > 0 {
                        assert(p.skip(1).take(q.skip(1).len() as int)[k - 1] == q.skip(1)[k - 1]);
                    }
                }
                assert(p.take(q.len() as int) =~= q);
            }
        }
        lemma_get_set_other(fs[i], p.skip(1), q.skip(1), new);
    }
}

/// Setting a node to a value of its type keeps the type of the whole.
pub proof fn lemma_set_keeps_shape(v: Value, path: Seq<u32>, new: Value)
    requires
        has_path(v, path),
        same_shape(get_at(v, path), new),
    ensures
        same_shape(v, set_at(v, path, new)),
    decreases path.len(),
{
    if path.len() == 0 {
        lemma_same_shape_refl(v);
        lemma_same_shape_sym(v, new);
        lemma_same_shape_trans(v, v, new);
    } else {
        let fs = v->Fields_0;
        let i = path[0] as int;
        lemma_set_keeps_shape(fs[i], path.skip(1), new);
        let gs = fs.update(i, set_at(fs[i], path.skip(1), new));
        assert forall|k: int| #![trigger fs[k], gs[k]] 0 <= k < fs.len() implies same_shape(
            fs[k],
            gs[k],
        ) by {
            if k != i {
                lemma_same_shape_refl(fs[k]);
            }
        }
    }
}

pub proof fn lemma_same_shape_refl(v: Value)
    ensures
        same_shape(v, v),
    decreases v,
{
    if let Value::Fields(fs) = v {
        assert forall|k: int| #![trigger fs[k]] 0 <= k < fs.len() implies same_shape(
            fs[k],
            fs[k],
        ) by {
            lemma_same_shape_refl(fs[k]);
        }
    }
}

pub proof fn lemma_same_shape_sym(a: Value, b: Value)
    requires
        same_shape(a, b),
    ensures
        same_shape(b, a),
    decreases a,
{
    if let Value::Fields(xs) = a {
        let ys = b->Fields_0;
        assert forall|k: int| #![trigger ys[k], xs[k]] 0 <= k < ys.len() implies same_shape(
            ys[k],
            xs[k],
        ) by {
            lemma_same_shape_sym(xs[k], ys[k]);
        }
    }
}

pub proof fn lemma_same_shape_trans(a: Value, b: Value, c: Value)
    requires
        same_shape(a, b),
        same_shape(b, c),
    ensures
        same_shape(a, c),
    decreases a,
{
    if let Value::Fields(xs) = a {
        let ys = b->Fields_0;
        let zs = c->Fields_0;
        assert forall|k: int| #![trigger xs[k], zs[k]] 0 <= k < xs.len() implies same_shape(
            xs[k],
            zs[k],
        ) by {
            assert(same_shape(xs[k], ys[k]));
            assert(same_shape(ys[k], zs[k]));
            lemma_same_shape_trans(xs[k], ys[k], zs[k]);
        }
    }
}

// ---------------------------------------------------------------------------
// The executable state.

/// The state of a node: a leaf, or the states of its fields in declaration
/// order.
pub enum State {
    I32(i32),
    U32(u32),
    Fields(Vec<State>),
}

pub open spec fn state_value(s: State) -> Value
    decreases s,
{
    match s {
        State::I32(x) => Value::I32(x),
        State::U32(x) => Value::U32(x),
        State::Fields(fs) => Value::Fields(states_value(fs@)),
    }
}

pub open spec fn states_value(fs: Seq<State>) -> Seq<Value>
    decreases fs,
{
    if fs.len() == 0 {
        Seq::empty()
    } else {
        states_value(fs.drop_last()).push(state_value(fs.last()))
    }
}

impl View for State {
    type V = Value;

    open spec fn view(&self) -> Value {
        state_value(*self)
    }
}

pub proof fn lemma_states_value(fs: Seq<State>)
    ensures
        states_value(fs).len() == fs.len(),
        forall|i: int| 0 <= i < fs.len() ==> #[trigger] states_value(fs)[i] == state_value(fs[i]),
    decreases fs.len(),
{
    if fs.len() > 0 {
        lemma_states_value(fs.drop_last());
        assert forall|i: int| 0 <= i < fs.len() implies #[trigger] states_value(fs)[i]
            == state_value(fs[i]) by {
            if i < fs.len() - 1 {
                assert(fs.drop_last()[i] == fs[i]);
            }
        }
    }
}

/// The view of a sequence of states is the sequence of their views.
pub proof fn lemma_states_value_ext(fs: Seq<State>, vs: Seq<Value>)
    requires
        vs.len() == fs.len(),
        forall|i: int| 0 <= i < fs.len() ==> #[trigger] vs[i] == state_value(fs[i]),
    ensures
        states_value(fs) == vs,
{
    lemma_states_value(fs);
    assert(states_value(fs) =~= vs);
}

impl State {
    /// A copy of the state.
    pub fn duplicate(&self) -> (r: State)
        ensures
            r@ == self@,
        decreases self,
    {
        match self {
            State::I32(x) => State::I32(*x),
            State::U32(x) => State::U32(*x),
            State::Fields(fs) => {
                let mut out: Vec<State> = Vec::new();
                let mut i: usize = 0;
                while i < fs.len()
                    invariant
                        *self == State::Fields(*fs),
                        i <= fs.len(),
                        out@.len() == i,
                        forall|k: int| 0 <= k < i ==> #[trigger] out@[k]@ == fs@[k]@,
                    decreases fs.len() - i,
                {
                    proof {
                        assert(decreases_to!(*self => self->Fields_0));
                        assert(decreases_to!(self->Fields_0 => self->Fields_0@));
                        assert(decreases_to!(self->Fields_0@ => fs@[i as int]));
                    }
                    let c = fs[i].duplicate();
                    out.push(c);
                    i = i + 1;
                }
                proof {
                    lemma_states_value(fs@);
                    assert forall|k: int| 0 <= k < out@.len() implies #[trigger] states_value(
                        fs@,
                    )[k] == state_value(out@[k]) by {
                        assert(out@[k]@ == fs@[k]@);
                    }
                    lemma_states_value_ext(out@, states_value(fs@));
                }
                State::Fields(out)
            },
        }
    }

    /// Appends the bytes of the state to `out`.
    pub fn write_bytes(&self, out: &mut Vec<u8>)
        ensures
            final(out)@ == old(out)@ + encode(self@),
        decreases self,
    {
        match self {
            State::I32(x) => {
                let x: i32 = *x;
                push_u32(out, x as u32);
            },
            State::U32(x) => {
                push_u32(out, *x);
            },
            State::Fields(fs) => {
                let ghost start = out@;
                let mut i: usize = 0;
                while i < fs.len()
                    invariant
                        *self == State::Fields(*fs),
                        i <= fs.len(),
                        out@ == start + encode_all(states_value(fs@.take(i as int))),
                    decreases fs.len() - i,
                {
                    proof {
                        assert(decreases_to!(*self => self->Fields_0));
                        assert(decreases_to!(self->Fields_0 => self->Fields_0@));
                        assert(decreases_to!(self->Fields_0@ => fs@[i as int]));
                        lemma_states_value_take_next(fs@, i as int);
                    }
                    fs[i].write_bytes(out);
                    i = i + 1;
                }
                proof {
                    assert(fs@.take(fs@.len() as int) =~= fs@);
                }
            },
        }
    }

    /// The number of bytes that a state of this type takes, if it fits in
    /// a `usize`.
    pub fn byte_width(&self) -> (w: Option<usize>)
        ensures
            match w {
                Some(n) => n == width(self@),
                None => width(self@) > usize::MAX,
            },
        decreases self,
    {
        match self {
            State::I32(_) => Some(4),
            State::U32(_) => Some(4),
            State::Fields(fs) => {
                let mut total: usize = 0;
                let mut i: usize = 0;
                while i < fs.len()
                    invariant
                        *self == State::Fields(*fs),
                        i <= fs.len(),
                        total == width_all(states_value(fs@.take(i as int))),
                    decreases fs.len() - i,
                {
                    proof {
                        assert(decreases_to!(*self => self->Fields_0));
                        assert(decreases_to!(self->Fields_0 => self->Fields_0@));
                        assert(decreases_to!(self->Fields_0@ => fs@[i as int]));
                        lemma_states_value_take_next(fs@, i as int);
                        lemma_states_value(fs@);
                        lemma_width_all_prefix(states_value(fs@), i as int + 1);
                        assert(fs@.take(fs@.len() as int) =~= fs@);
                        assert(states_value(fs@.take(i + 1)) =~= states_value(fs@).take(i + 1)) by {
                            lemma_states_value(fs@.take(i + 1));
                        }
                        assert(states_value(fs@)[i as int] == fs@[i as int]@);
                        assert(states_value(fs@.take(i + 1)) == states_value(fs@.take(i as int)).push(fs@[i as int]@));
                    }
                    match fs[i].byte_width() {
                        Some(w) => {
                            match total.checked_add(w) {
                                Some(t) => {
                                    total = t;
                                },
                                None => {
                                    return None;
                                },
                            }
                        },
                        None => {
                            return None;
                        },
                    }
                    i = i + 1;
                }
                proof {
                    assert(fs@.take(fs@.len() as int) =~= fs@);
                }
                Some(total)
            },
        }
    }

    /// Reads a state of this state's type from the bytes at `start`; gives
    /// it with the number of bytes it took.
    pub fn read_from(&self, bytes: &[u8], start: usize) -> (r: (State, usize))
        requires
            start + width(self@) <= bytes@.len(),
        ensures
            decode(self@, bytes@.subrange(start as int, start + width(self@))) == Some(r.0@),
            r.1 == width(self@),
        decreases self,
    {
        match self {
            State::I32(_) => {
                let x = read_u32(bytes, start);
                (State::I32(x as i32), 4)
            },
            State::U32(_) => {
                let x = read_u32(bytes, start);
                (State::U32(x), 4)
            },
            State::Fields(fs) => {
                let ghost ts = states_value(fs@);
                proof {
                    lemma_states_value(fs@);
                }
                let n = bytes.len();
                let mut out: Vec<State> = Vec::new();
                let mut off: usize = start;
                let mut i: usize = 0;
                while i < fs.len()
                    invariant
                        *self == State::Fields(*fs),
                        ts == states_value(fs@),
                        ts.len() == fs@.len(),
                        forall|k: int| 0 <= k < fs@.len() ==> #[trigger] ts[k] == fs@[k]@,
                        start + width_all(ts) <= bytes@.len(),
                        n == bytes@.len(),
                        i <= fs.len(),
                        off == start + width_all(ts.take(i as int)),
                        decode_all(ts.take(i as int), bytes@.subrange(start as int, off as int))
                            == Some(states_value(out@)),
                    decreases fs.len() - i,
                {
                    proof {
                        assert(decreases_to!(*self => self->Fields_0));
                        assert(decreases_to!(self->Fields_0 => self->Fields_0@));
                        assert(decreases_to!(self->Fields_0@ => fs@[i as int]));
                        lemma_width_all_prefix(ts, i as int + 1);
                        assert(ts.take(i + 1).drop_last() =~= ts.take(i as int));
                        assert(ts.take(i + 1).last() == ts[i as int]);
                    }
                    let (c, w) = fs[i].read_from(bytes, off);
                    proof {
                        assert(ts[i as int] == fs@[i as int]@);
                        let w = width(ts[i as int]);
                        let b2 = bytes@.subrange(start as int, off + w);
                        assert(b2.take(b2.len() - w) =~= bytes@.subrange(start as int, off as int));
                        assert(b2.skip(b2.len() - w) =~= bytes@.subrange(off as int, off + w));
                        assert(states_value(out@.push(c)).drop_last() =~= states_value(out@)) by {
                            assert(out@.push(c).drop_last() =~= out@);
                        }
                        assert(states_value(out@.push(c)) =~= states_value(out@).push(c@)) by {
                            assert(out@.push(c).drop_last() =~= out@);
                        }
                    }
                    out.push(c);
                    off = off + w;
                    i = i + 1;
                }
                proof {
                    assert(ts.take(fs@.len() as int) =~= ts);
                }
                (State::Fields(out), off - start)
            },
        }
    }
}

/// Appends the four little-endian bytes of `x` to `out`.
fn push_u32(out: &mut Vec<u8>, x: u32)
    ensures
        final(out)@ == old(out)@ + spec_u32_to_le_bytes(x),
{
    let mut b = vstd::bytes::u32_to_le_bytes(x);
    out.append(&mut b);
}

/// The `u32` whose little-endian bytes start at `start`.
fn read_u32(bytes: &[u8], start: usize) -> (x: u32)
    requires
        start + 4 <= bytes@.len(),
    ensures
        x == spec_u32_from_le_bytes(bytes@.subrange(start as int, start + 4)),
{
    let chunk = vec![bytes[start], bytes[start + 1], bytes[start + 2], bytes[start + 3]];
    assert(chunk@ =~= bytes@.subrange(start as int, start + 4));
    vstd::bytes::u32_from_le_bytes(chunk.as_slice())
}

pub proof fn lemma_states_value_take_next(fs: Seq<State>, i: int)
    requires
        0 <= i < fs.len(),
    ensures
        states_value(fs.take(i + 1)) == states_value(fs.take(i)).push(state_value(fs[i])),
        encode_all(states_value(fs.take(i + 1))) == encode_all(states_value(fs.take(i)))
            + encode(state_value(fs[i])),
        width_all(states_value(fs.take(i + 1))) == width_all(states_value(fs.take(i)))
            + width(state_value(fs[i])),
{
    assert(fs.take(i + 1).drop_last() =~= fs.take(i));
    let vs = states_value(fs.take(i)).push(state_value(fs[i]));
    assert(vs.drop_last() =~= states_value(fs.take(i)));
}

pub proof fn lemma_width_all_prefix(ts: Seq<Value>, j: int)
    requires
        0 <= j <= ts.len(),
    ensures
        width_all(ts.take(j)) <= width_all(ts),
        j > 0 ==> width_all(ts.take(j)) == width_all(ts.take(j - 1)) + width(ts[j - 1]),
    decreases ts.len(),
{
    if j > 0 {
        assert(ts.take(j).drop_last() =~= ts.take(j - 1));
    }
    if j < ts.len() {
        lemma_width_all_prefix(ts.drop_last(), j);
        assert(ts.drop_last().take(j) =~= ts.take(j));
    } else {
        assert(ts.take(j) =~= ts);
    }
}

/// Bytes hold a value of a type exactly when there are as many of them as
/// the type takes.
pub proof fn lemma_decode_some(t: Value, b: Seq<u8>)
    ensures
        decode(t, b) is Some <==> b.len() == width(t),
    decreases t,
{
    if let Value::Fields(ts) = t {
        lemma_decode_all_some(ts, b);
    }
}

pub proof fn lemma_decode_all_some(ts: Seq<Value>, b: Seq<u8>)
    ensures
        decode_all(ts, b) is Some <==> b.len() == width_all(ts),
    decreases ts,
{
    if ts.len() > 0 {
        let w = width(ts.last());
        if b.len() >= w {
            lemma_decode_all_some(ts.drop_last(), b.take(b.len() - w));
            lemma_decode_some(ts.last(), b.skip(b.len() - w));
        }
    }
}

impl State {
    /// The state of this state's type that `bytes` hold, if they hold one:
    /// exactly when there are as many bytes as the type takes.
    pub fn decode_like(&self, bytes: &[u8]) -> (r: Option<State>)
        ensures
            match r {
                Some(s) => decode(self@, bytes@) == Some(s@),
                None => decode(self@, bytes@) is None,
            },
    {
        proof {
            lemma_decode_some(self@, bytes@);
        }
        let n = bytes.len();
        match self.byte_width() {
            Some(w) => {
                if w == n {
                    let (s, _) = self.read_from(bytes, 0);
                    assert(bytes@.subrange(0, 0 + width(self@) as int) =~= bytes@);
                    assert(decode(self@, bytes@) == Some(s@));
                    Some(s)
                } else {
                    None
                }
            },
            None => None,
        }
    }

    /// The bytes of the state.
    pub fn to_bytes(&self) -> (b: Vec<u8>)
        ensures
            b@ == encode(self@),
    {
        let mut b: Vec<u8> = Vec::new();
        self.write_bytes(&mut b);
        assert(Seq::<u8>::empty() + encode(self@) =~= encode(self@));
        b
    }

    /// The node that `path` names inside this state, from the id at `depth`
    /// on; `None` where an id is not the index of a field.
    pub fn get_at(&self, path: &[u32], depth: usize) -> (r: Option<&State>)
        requires
            depth <= path@.len(),
        ensures
            r is Some <==> has_path(self@, path@.skip(depth as int)),
            r matches Some(s) ==> s@ == get_at(self@, path@.skip(depth as int)),
        decreases path@.len() - depth,
    {
        if depth == path.len() {
            Some(self)
        } else {
            let id = path[depth];
            proof {
                assert(path@.skip(depth as int)[0] == id);
                assert(path@.skip(depth as int).skip(1) =~= path@.skip(depth + 1));
            }
            match self {
                State::Fields(fs) => {
                    proof {
                        lemma_states_value(fs@);
                    }
                    if (id as usize) < fs.len() {
                        fs[id as usize].get_at(path, depth + 1)
                    } else {
                        None
                    }
                },
                _ => None,
            }
        }
    }

    /// Replaces the node that `path` names, from the id at `depth` on, by
    /// `new`.
    pub fn set_at(&mut self, path: &[u32], depth: usize, new: State)
        requires
            depth <= path@.len(),
            has_path(old(self)@, path@.skip(depth as int)),
        ensures
            final(self)@ == set_at(old(self)@, path@.skip(depth as int), new@),
        decreases path@.len() - depth,
    {
        if depth == path.len() {
            *self = new;
        } else {
            let id = path[depth];
            proof {
                assert(path@.skip(depth as int)[0] == id);
                assert(path@.skip(depth as int).skip(1) =~= path@.skip(depth + 1));
            }
            match self {
                State::Fields(fs) => {
                    proof {
                        lemma_states_value(fs@);
                    }
                    let ghost before = fs@;
                    let i = id as usize;
                    fs[i].set_at(path, depth + 1, new);
                    proof {
                        lemma_states_value(fs@);
                        assert(fs@ =~= before.update(i as int, fs@[i as int]));
                        assert forall|k: int| 0 <= k < fs@.len() implies #[trigger] states_value(
                            before,
                        ).update(i as int, fs@[i as int]@)[k] == state_value(fs@[k]) by {
                            lemma_states_value(before);
                        }
                        lemma_states_value(before);
                        lemma_states_value_ext(fs@, states_value(before).update(i as int, fs@[i as int]@));
                    }
                },
                _ => {},
            }
        }
    }
}

} // verus!
