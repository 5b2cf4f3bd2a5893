//! The arguments of the component attribute: `key(Ident)` or
//! `key(#[..], ..)`, each followed by an optional comma, for as long as an
//! identifier follows.

use vstd::prelude::*;
use crate::codegen::attrs::{keyed_last, Attrs, AttrsItem};
use crate::codegen::tokens::{
    accepted_as_ident, attr_list, group_tokens, is_ident, is_punct, parse_attr_list, reads_as_ident,
    starts_with_punct, Delim, Tok,
};

verus! {

/// What an argument holds: a name, attributes (each as the tokens inside
/// its brackets), or nothing.
pub enum ComponentAttrItem {
    Ident(String),
    Attrs(Vec<Vec<Tok>>),
    Empty,
}

/// An argument of the component attribute: its key and what it holds.
pub struct ComponentAttrKeyItem {
    pub key: String,
    pub item: ComponentAttrItem,
}

/// What an argument holds, as a value.
pub enum AttrValue {
    Name(Seq<char>),
    Attrs(Seq<Seq<Tok>>),
    Empty,
}

/// What an argument holds, as a value.
pub open spec fn item_value(item: ComponentAttrItem) -> AttrValue {
    match item {
        ComponentAttrItem::Ident(name) => AttrValue::Name(name@),
        ComponentAttrItem::Attrs(attrs) => AttrValue::Attrs(attrs@.map_values(|x: Vec<Tok>| x@)),
        ComponentAttrItem::Empty => AttrValue::Empty,
    }
}

impl ComponentAttrKeyItem {
    /// The argument's key and what it holds.
    pub open spec fn view_item(&self) -> (Seq<char>, AttrValue) {
        (self.key@, item_value(self.item))
    }
}

impl AttrsItem for ComponentAttrKeyItem {
    open spec fn spec_key(&self) -> Seq<char> {
        self.key@
    }

    fn key(&self) -> (k: &String) {
        &self.key
    }
}

/// Whether a token is a group in round brackets.
pub open spec fn is_paren_group(t: Tok) -> bool {
    t matches Tok::Group(Delim::Parenthesis, _)
}

/// What the tokens inside an argument's brackets hold: exactly one
/// identifier, or a list of attributes; `None` otherwise.
pub open spec fn attr_value(inner: Seq<Tok>) -> Option<AttrValue> {
    if inner.len() == 1 && is_ident(inner[0]) {
        Some(AttrValue::Name(inner[0]->Ident_0@))
    } else if inner.len() > 0 && is_punct(inner[0], '#') {
        match attr_list(inner) {
            Some(l) => Some(AttrValue::Attrs(l)),
            None => None,
        }
    } else {
        None
    }
}

/// The arguments that `ts` writes, as key and value, in order: each an
/// identifier, its value in round brackets and an optional comma; `None`
/// where `ts` is not such a list.
pub open spec fn attrs_grammar(ts: Seq<Tok>) -> Option<Seq<(Seq<char>, AttrValue)>>
    decreases ts.len(),
{
    if ts.len() == 0 {
        Some(Seq::empty())
    } else if is_ident(ts[0]) && ts.len() >= 2 && is_paren_group(ts[1]) {
        match attr_value(group_tokens(ts[1])) {
            Some(value) => {
                let n: int = if ts.len() >= 3 && is_punct(ts[2], ',') {
                    3
                } else {
                    2
                };
                match attrs_grammar(ts.skip(n)) {
                    Some(rest) => Some(seq![(ts[0]->Ident_0@, value)] + rest),
                    None => None,
                }
            },
            None => None,
        }
    } else {
        None
    }
}

/// The comma after an argument is optional also after the last one:
/// arguments that do not end with a comma read the same with one after
/// them.
pub proof fn law_comma_after_the_last_argument_is_optional(ts: Seq<Tok>, comma: Tok)
    requires
        ts.len() > 0,
        !is_punct(ts.last(), ','),
        is_punct(comma, ','),
    ensures
        attrs_grammar(ts.push(comma)) == attrs_grammar(ts),
    decreases ts.len(),
{
    let tc = ts.push(comma);
    if ts.len() >= 2 {
        assert(tc[0] == ts[0] && tc[1] == ts[1]);
        if is_ident(ts[0]) && is_paren_group(ts[1]) {
            match attr_value(group_tokens(ts[1])) {
                Some(value) => {
                    let head = seq![(ts[0]->Ident_0@, value)];
                    if ts.len() == 2 {
                        assert(tc.skip(3) =~= Seq::<Tok>::empty());
                        assert(ts.skip(2) =~= Seq::<Tok>::empty());
                        assert(head + Seq::<(Seq<char>, AttrValue)>::empty() =~= head);
                        assert(attrs_grammar(tc) == attrs_grammar(ts));
                    } else {
                        assert(tc[2] == ts[2]);
                        let n: int = if is_punct(ts[2], ',') {
                            3
                        } else {
                            2
                        };
                        assert(ts.len() > n);
                        assert(tc.skip(n) =~= ts.skip(n).push(comma));
                        assert(ts.skip(n).last() == ts.last());
                        law_comma_after_the_last_argument_is_optional(ts.skip(n), comma);
                        assert(attrs_grammar(tc) == attrs_grammar(ts));
                    }
                },
                None => {
                    assert(attrs_grammar(tc) == attrs_grammar(ts));
                },
            }
        } else {
            assert(attrs_grammar(tc) == attrs_grammar(ts));
        }
    } else {
        assert(tc[1] == comma);
        assert(!is_paren_group(comma));
        assert(attrs_grammar(tc) == attrs_grammar(ts));
    }
}

/// Arguments read one after the other: a list of arguments that is empty
/// or ends with its comma, followed by more arguments, reads as the first
/// list's arguments followed by the others.
pub proof fn law_arguments_read_in_sequence(a: Seq<Tok>, b: Seq<Tok>)
    requires
        attrs_grammar(a) is Some,
        a.len() == 0 || is_punct(a.last(), ','),
    ensures
        attrs_grammar(a + b) == match attrs_grammar(b) {
            Some(y) => Some(attrs_grammar(a).unwrap() + y),
            None => None,
        },
    decreases a.len(),
{
    if a.len() == 0 {
        assert(a + b =~= b);
        match attrs_grammar(b) {
            Some(y) => {
                assert(Seq::<(Seq<char>, AttrValue)>::empty() + y =~= y);
            },
            None => {},
        }
    } else {
        let ab = a + b;
        assert(ab[0] == a[0] && ab[1] == a[1]);
        let value = attr_value(group_tokens(a[1])).unwrap();
        let head = seq![(a[0]->Ident_0@, value)];
        let n: int = if a.len() >= 3 && is_punct(a[2], ',') {
            3
        } else {
            2
        };
        assert(a.len() >= n) by {
            if a.len() == 2 {
                assert(a.last() == a[1]);
            }
        }
        if a.len() >= 3 {
            assert(ab[2] == a[2]);
        }
        assert(n == 2 ==> a.len() > 2) by {
            if n == 2 && a.len() == 2 {
                assert(a.last() == a[1]);
            }
        }
        let rest = a.skip(n);
        assert(ab.skip(n) =~= rest + b);
        assert(rest.len() == 0 || rest.last() == a.last());
        law_arguments_read_in_sequence(rest, b);
        match attrs_grammar(b) {
            Some(y) => {
                assert(head + (attrs_grammar(rest).unwrap() + y) =~= (head + attrs_grammar(rest).unwrap()) + y);
            },
            None => {},
        }
    }
}

/// Why the arguments could not be read.
#[derive(Debug, PartialEq, Eq)]
pub struct ParseError;

/// Whether the first token of `ts` is an identifier.
fn starts_with_ident(ts: &Vec<Tok>) -> (b: bool)
    ensures
        b == (ts@.len() > 0 && is_ident(ts@[0])),
{
    if ts.len() == 0 {
        return false;
    }
    match &ts[0] {
        Tok::Ident(name) => reads_as_ident(name),
        _ => false,
    }
}

/// What the tokens inside an argument's brackets hold (see `attr_value`).
fn parse_value(inner: Vec<Tok>) -> (r: Option<ComponentAttrItem>)
    ensures
        match attr_value(inner@) {
            Some(v) => r matches Some(item) && item_value(item) == v,
            None => r is None,
        },
{
    let ghost tokens = inner@;
    if inner.len() == 1 && starts_with_ident(&inner) {
        let mut inner = inner;
        let t = inner.remove(0);
        match t {
            Tok::Ident(name) => Some(ComponentAttrItem::Ident(name)),
            _ => {
                proof {
                    assert(false);
                }
                None
            },
        }
    } else if starts_with_punct(&inner, '#') {
        match parse_attr_list(inner) {
            Some(attrs) => Some(ComponentAttrItem::Attrs(attrs)),
            None => None,
        }
    } else {
        None
    }
}

/// Whether the second token of `ts` is a group in round brackets.
fn second_is_paren_group(ts: &Vec<Tok>) -> (b: bool)
    ensures
        b == (ts@.len() >= 2 && is_paren_group(ts@[1])),
{
    if ts.len() < 2 {
        return false;
    }
    match &ts[1] {
        Tok::Group(Delim::Parenthesis, _) => true,
        _ => false,
    }
}

/// The arguments of the component attribute that `tokens` write (see
/// `attrs_grammar`), in order; the later of two with the same key counts.
pub fn parse_component_attrs(tokens: Vec<Tok>) -> (r: Result<Attrs<ComponentAttrKeyItem>, ParseError>)
    ensures
        r is Ok <==> attrs_grammar(tokens@) is Some,
        r matches Ok(a) ==> {
            &&& a.items().map_values(|i: ComponentAttrKeyItem| i.view_item()) == attrs_grammar(tokens@).unwrap()
            &&& a.map() == keyed_last(a.items())
        },
{
    let ghost whole = tokens@;
    let mut ts = tokens;
    let mut items: Vec<ComponentAttrKeyItem> = Vec::new();
    while ts.len() > 0
        invariant
            whole == tokens@,
            attrs_grammar(whole) == match attrs_grammar(ts@) {
                Some(l) => Some(items@.map_values(|i: ComponentAttrKeyItem| i.view_item()) + l),
                None => None::<Seq<(Seq<char>, AttrValue)>>,
            },
        decreases ts@.len(),
    {
        if !(starts_with_ident(&ts) && second_is_paren_group(&ts)) {
            assert(attrs_grammar(ts@) is None);
            assert(attrs_grammar(whole) is None);
            return Err(ParseError);
        }
        let ghost before = ts@;
        let ghost prev = items@.map_values(|i: ComponentAttrKeyItem| i.view_item());
        let key_tok = ts.remove(0);
        let group = ts.remove(0);
        let key = match key_tok {
            Tok::Ident(k) => k,
            _ => {
                proof {
                    assert(false);
                }
                return Err(ParseError);
            },
        };
        let inner = match group {
            Tok::Group(_, inner) => inner,
            _ => {
                proof {
                    assert(false);
                }
                return Err(ParseError);
            },
        };
        proof {
            assert(inner@ == group_tokens(before[1]));
        }
        let value = match parse_value(inner) {
            Some(v) => v,
            None => {
                assert(attrs_grammar(before) is None);
                assert(attrs_grammar(whole) is None);
                return Err(ParseError);
            },
        };
        let ghost n: int = if before.len() >= 3 && is_punct(before[2], ',') {
            3
        } else {
            2
        };
        if starts_with_punct(&ts, ',') {
            let _comma = ts.remove(0);
        }
        let item = ComponentAttrKeyItem { key, item: value };
        let ghost v = item.view_item();
        items.push(item);
        proof {
            assert(ts@ =~= before.skip(n));
            assert(v == (before[0]->Ident_0@, attr_value(group_tokens(before[1])).unwrap()));
            assert(items@.map_values(|i: ComponentAttrKeyItem| i.view_item()) =~= prev + seq![v]);
            match attrs_grammar(ts@) {
                Some(l) => {
                    assert(prev + (seq![v] + l) =~= (prev + seq![v]) + l);
                },
                None => {},
            }
        }
    }
    proof {
        let done = items@.map_values(|i: ComponentAttrKeyItem| i.view_item());
        assert(done + Seq::<(Seq<char>, AttrValue)>::empty() =~= done);
    }
    Ok(Attrs::parse(items))
}

} // verus!
