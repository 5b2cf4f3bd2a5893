//! The tokens that an attribute's arguments are written in, and the list
//! of attributes `#[..], ..` that an argument can hold.

use vstd::prelude::*;

verus! {

/// The brackets around a group of tokens.
#[derive(Debug, PartialEq, Eq)]
pub enum Delim {
    Parenthesis,
    Bracket,
    Brace,
}

/// A token: a name (an identifier or a keyword), a punctuation character
/// (and whether it is joined to the next one, as in `::`), a literal as
/// written, or a group in brackets.
#[derive(Debug, PartialEq, Eq)]
pub enum Tok {
    Ident(String),
    Punct(char, bool),
    Literal(String),
    Group(Delim, Vec<Tok>),
}

/// Whether `syn` reads the name `name` as an identifier: every name but a
/// keyword of Rust or `_`.
pub uninterp spec fn accepted_as_ident(name: Seq<char>) -> bool;

/// Whether `name` reads as an identifier: `syn::parse_str::<syn::Ident>`
/// succeeds on it. Claimed: the result is `accepted_as_ident` of the name,
/// which depends on nothing else; which names are keywords is not stated.
#[verifier::external_body]
pub(crate) fn reads_as_ident(name: &String) -> (b: bool)
    ensures
        b == accepted_as_ident(name@),
{
    syn::parse_str::<syn::Ident>(name).is_ok()
}

/// Whether a token is an identifier.
pub open spec fn is_ident(t: Tok) -> bool {
    t matches Tok::Ident(name) && accepted_as_ident(name@)
}

/// Whether a token is the punctuation character `c`.
pub open spec fn is_punct(t: Tok, c: char) -> bool {
    t matches Tok::Punct(p, _) && p == c
}

/// Whether a token is a group in square brackets.
pub open spec fn is_bracket_group(t: Tok) -> bool {
    t matches Tok::Group(Delim::Bracket, _)
}

/// The tokens of a group.
pub open spec fn group_tokens(t: Tok) -> Seq<Tok> {
    t->Group_1@
}

/// The attributes that `ts` lists, each as the tokens inside its brackets:
/// `#[..]`, separated by commas, with an optional comma after the last, and
/// nothing else; `None` where `ts` is not such a list.
pub open spec fn attr_list(ts: Seq<Tok>) -> Option<Seq<Seq<Tok>>>
    decreases ts.len(),
{
    if ts.len() == 0 {
        Some(Seq::empty())
    } else if ts.len() >= 2 && is_punct(ts[0], '#') && is_bracket_group(ts[1]) {
        let inner = group_tokens(ts[1]);
        if ts.len() == 2 {
            Some(seq![inner])
        } else if is_punct(ts[2], ',') {
            match attr_list(ts.skip(3)) {
                Some(rest) => Some(seq![inner] + rest),
                None => None,
            }
        } else {
            None
        }
    } else {
        None
    }
}

/// A list of one attribute, `#[..]` and nothing after it, reads as
/// exactly that attribute.
pub proof fn law_one_attribute(hash: Tok, group: Tok)
    requires
        is_punct(hash, '#'),
        is_bracket_group(group),
    ensures
        attr_list(seq![hash, group]) == Some(seq![group_tokens(group)]),
{
}

/// The comma after the last attribute of a list is optional: a list that
/// does not end with a comma reads the same with one after it.
pub proof fn law_last_comma_is_optional(ts: Seq<Tok>, comma: Tok)
    requires
        ts.len() > 0,
        !is_punct(ts.last(), ','),
        is_punct(comma, ','),
    ensures
        attr_list(ts.push(comma)) == attr_list(ts),
    decreases ts.len(),
{
    let tc = ts.push(comma);
    if ts.len() >= 2 && is_punct(ts[0], '#') && is_bracket_group(ts[1]) {
        assert(tc[0] == ts[0] && tc[1] == ts[1]);
        let inner = group_tokens(ts[1]);
        if ts.len() == 2 {
            assert(tc.skip(3) =~= Seq::<Tok>::empty());
            assert(attr_list(tc.skip(3)) == Some(Seq::<Seq<Tok>>::empty()));
            assert(seq![inner] + Seq::<Seq<Tok>>::empty() =~= seq![inner]);
            assert(attr_list(tc) == attr_list(ts));
        } else {
            assert(tc[2] == ts[2]);
            if is_punct(ts[2], ',') {
                assert(ts.len() > 3);
                assert(tc.skip(3) =~= ts.skip(3).push(comma));
                assert(ts.skip(3).last() == ts.last());
                law_last_comma_is_optional(ts.skip(3), comma);
                assert(attr_list(tc) == attr_list(ts));
            } else {
                assert(attr_list(tc) == attr_list(ts));
            }
        }
    } else if ts.len() >= 2 {
        assert(tc[0] == ts[0] && tc[1] == ts[1]);
        assert(attr_list(tc) == attr_list(ts));
    } else {
        assert(tc[1] == comma);
        assert(!is_bracket_group(comma));
        assert(attr_list(tc) == attr_list(ts));
    }
}

/// The tokens `#[a1], #[a2], .., #[ak]` of the attribute groups `gs`.
pub open spec fn attrs_written(gs: Seq<Tok>) -> Seq<Tok>
    decreases gs.len(),
{
    if gs.len() == 0 {
        Seq::empty()
    } else if gs.len() == 1 {
        seq![Tok::Punct('#', false), gs[0]]
    } else {
        seq![Tok::Punct('#', false), gs[0], Tok::Punct(',', false)] + attrs_written(gs.skip(1))
    }
}

/// Attributes written one after the other, separated by commas, read back
/// as those attributes, in order, with or without a comma after the last.
pub proof fn law_written_attributes_read_back(gs: Seq<Tok>)
    requires
        forall|i: int| 0 <= i < gs.len() ==> is_bracket_group(#[trigger] gs[i]),
    ensures
        attr_list(attrs_written(gs)) == Some(gs.map_values(|g: Tok| group_tokens(g))),
        gs.len() > 0 ==> attr_list(attrs_written(gs).push(Tok::Punct(',', false))) == Some(
            gs.map_values(|g: Tok| group_tokens(g)),
        ),
    decreases gs.len(),
{
    let w = attrs_written(gs);
    let expect = gs.map_values(|g: Tok| group_tokens(g));
    if gs.len() == 0 {
        assert(expect =~= Seq::<Seq<Tok>>::empty());
    } else {
        assert(is_bracket_group(gs[0]));
        if gs.len() == 1 {
            assert(expect =~= seq![group_tokens(gs[0])]);
        } else {
            let rest = gs.skip(1);
            assert forall|i: int| 0 <= i < rest.len() implies is_bracket_group(#[trigger] rest[i]) by {
                assert(rest[i] == gs[i + 1]);
            }
            law_written_attributes_read_back(rest);
            assert(w.skip(3) =~= attrs_written(rest));
            assert(expect =~= seq![group_tokens(gs[0])] + rest.map_values(|g: Tok| group_tokens(g)));
        }
        assert(w.len() >= 2);
        assert(w.last() == gs.last()) by {
            lemma_written_ends_with_last_group(gs);
        }
        law_last_comma_is_optional(w, Tok::Punct(',', false));
    }
}

/// The tokens of some attributes written end with the last attribute's
/// group.
proof fn lemma_written_ends_with_last_group(gs: Seq<Tok>)
    requires
        gs.len() > 0,
    ensures
        attrs_written(gs).len() >= 2,
        attrs_written(gs).last() == gs.last(),
    decreases gs.len(),
{
    if gs.len() > 1 {
        lemma_written_ends_with_last_group(gs.skip(1));
        assert(gs.skip(1).last() == gs.last());
    }
}

/// Whether the first token of `ts` is the punctuation character `c`.
pub(crate) fn starts_with_punct(ts: &Vec<Tok>, c: char) -> (b: bool)
    ensures
        b == (ts@.len() > 0 && is_punct(ts@[0], c)),
{
    if ts.len() == 0 {
        return false;
    }
    match &ts[0] {
        Tok::Punct(p, _) => *p == c,
        _ => false,
    }
}

/// Whether the second token of `ts` is a group in square brackets.
fn second_is_bracket_group(ts: &Vec<Tok>) -> (b: bool)
    ensures
        b == (ts@.len() >= 2 && is_bracket_group(ts@[1])),
{
    if ts.len() < 2 {
        return false;
    }
    match &ts[1] {
        Tok::Group(Delim::Bracket, _) => true,
        _ => false,
    }
}

/// The attributes that `ts` lists (see `attr_list`), each as the tokens
/// inside its brackets.
pub fn parse_attr_list(tokens: Vec<Tok>) -> (r: Option<Vec<Vec<Tok>>>)
    ensures
        match attr_list(tokens@) {
            Some(l) => r matches Some(v) && v@.map_values(|x: Vec<Tok>| x@) == l,
            None => r is None,
        },
{
    let ghost whole = tokens@;
    let mut ts = tokens;
    let mut out: Vec<Vec<Tok>> = Vec::new();
    while ts.len() > 0
        invariant
            whole == tokens@,
            attr_list(whole) == match attr_list(ts@) {
                Some(l) => Some(out@.map_values(|x: Vec<Tok>| x@) + l),
                None => None::<Seq<Seq<Tok>>>,
            },
        decreases ts@.len(),
    {
        if !(starts_with_punct(&ts, '#') && second_is_bracket_group(&ts)) {
            assert(attr_list(ts@) is None);
            assert(attr_list(whole) is None);
            return None;
        }
        let ghost before = ts@;
        let ghost prev = out@.map_values(|x: Vec<Tok>| x@);
        let _hash = ts.remove(0);
        let group = ts.remove(0);
        let inner = match group {
            Tok::Group(_, inner) => inner,
            _ => {
                proof {
                    assert(false);
                }
                Vec::new()
            },
        };
        proof {
            assert(inner@ == group_tokens(before[1]));
            assert(ts@ =~= before.skip(2));
        }
        out.push(inner);
        proof {
            assert(out@.map_values(|x: Vec<Tok>| x@) =~= prev + seq![group_tokens(before[1])]);
        }
        if ts.len() > 0 {
            if !starts_with_punct(&ts, ',') {
                assert(before[2] == ts@[0]);
                assert(attr_list(before) is None);
                assert(attr_list(whole) is None);
                return None;
            }
            let _comma = ts.remove(0);
            proof {
                assert(ts@ =~= before.skip(3));
                match attr_list(ts@) {
                    Some(l) => {
                        assert(prev + (seq![group_tokens(before[1])] + l) =~= (prev + seq![
                            group_tokens(before[1]),
                        ]) + l);
                    },
                    None => {},
                }
            }
        } else {
            proof {
                assert(before.len() == 2);
                assert(prev + seq![group_tokens(before[1])] + Seq::<Seq<Tok>>::empty() =~= prev + seq![group_tokens(before[1])]);
            }
        }
    }
    proof {
        assert(out@.map_values(|x: Vec<Tok>| x@) + Seq::<Seq<Tok>>::empty() =~= out@.map_values(|x: Vec<Tok>| x@));
    }
    Some(out)
}

} // verus!
