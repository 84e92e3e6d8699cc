//! Values, properties, arguments, nodes and documents.
use vstd::prelude::*;

use crate::ast::{
    insert_property, lemma_nodes_view_push, lemma_props_insert_sorted, name_view, nodes_view,
    opt_view, props_insert, props_sorted,
    props_view, Literal, LiteralV, Node, NodeV, SpannedName, SpannedNode, TypeName, TypeNameV,
    Value, ValueV,
};
use crate::errors::{Delimiter, ParseError, Token, TokenKind};
use crate::grammar::lex::{
    line_spaces, line_spaces_furthest, node_spaces, node_spaces_furthest, node_terminator,
    node_terminator_furthest, run, run_of, sp_line_spaces, sp_node_spaces, sp_node_terminator,
    Class,
};
use crate::grammar::words::{
    ident_furthest, lit_errs_agree, literal, literal_furthest, sp_literal, sp_type_tag, type_tag,
    type_tag_furthest,
};
use crate::grammar::{expect_v, fail_with_v, span_at, span_of, Furthest, FurthestV, Src};
use crate::span::{span_in_text, Span, Spanned};
use crate::text::{byte_at, bytes_len, lemma_byte_at_full, lemma_byte_at_mono};

verus! {

broadcast use vstd::std_specs::vec::group_vec_axioms;

/// The views of a list of values.
pub open spec fn values_view(vs: Seq<Value>) -> Seq<ValueV> {
    vs.map_values(|v: Value| v@)
}

pub open spec fn val_agrees(
    r: Option<(Value, usize)>,
    sp: Option<(ValueV, int, Seq<ParseError>)>,
    before: Seq<ParseError>,
    after: Seq<ParseError>,
) -> bool {
    match (r, sp) {
        (Some((v, e)), Some((vv, e2, es))) => v@ == vv && e == e2 && after == before + es,
        (None, None) => after == before,
        _ => false,
    }
}

/// A value with a type name: the type name, whitespace, a literal. The span
/// of the type name takes in the whitespace after it.
#[verifier::opaque]
pub open spec fn sp_type_name_value(s: Seq<char>, p: int) -> Option<(ValueV, int, Seq<ParseError>)> {
    match sp_type_tag(s, p) {
        Some((tn, e1, es1)) => {
            let e2 = run(s, e1, Class::Ws);
            match sp_literal(s, e2) {
                Some((l, e3, es2)) => Some(
                    (
                        ValueV { type_tag: Some((span_at(s, p, e2), tn)), literal: (span_at(s, e2, e3), l) },
                        e3,
                        es1 + es2,
                    ),
                ),
                None => None,
            }
        },
        None => None,
    }
}

/// The failure tracker after a value with a type name was read at `p`:
/// the type name, then the literal after its whitespace.
#[verifier::opaque]
pub open spec fn type_name_value_furthest(s: Seq<char>, p: int, v: FurthestV) -> FurthestV {
    let v1 = type_tag_furthest(s, p, v);
    match sp_type_tag(s, p) {
        Some((_, e1, _)) => literal_furthest(s, run(s, e1, Class::Ws), v1),
        None => v1,
    }
}

pub fn type_name_value(src: &Src, p: usize, errs: &mut Vec<ParseError>, f: &mut Furthest) -> (r: Option<(Value, usize)>)
    requires
        src.wf(),
        p <= src.chars.len(),
    ensures
        val_agrees(r, sp_type_name_value(src.chars@, p as int), old(errs)@, final(errs)@),
        r matches Some((v, e)) ==> p < e <= src.chars.len(),
        final(f)@ == type_name_value_furthest(src.chars@, p as int, old(f)@),
{
    proof {
        reveal(type_name_value_furthest);
    }
    proof {
        reveal(sp_type_name_value);
    }
    let mark = errs.len();
    match type_tag(src, p, errs, f) {
        Some((tn, e1)) => {
            let ghost mid = errs@;
            let e2 = run_of(&src.chars, e1, Class::Ws);
            match literal(src, e2, errs, f) {
                Some((l, e3)) => {
                    proof {
                        let (_, _, es1) = sp_type_tag(src.chars@, p as int).unwrap();
                        let (_, _, es2) = sp_literal(src.chars@, e2 as int).unwrap();
                        assert(errs@ =~= old(errs)@ + (es1 + es2));
                    }
                    let v = Value {
                        type_tag: Some(Spanned { span: span_of(src, p, e2), value: tn }),
                        literal: Spanned { span: span_of(src, e2, e3), value: l },
                    };
                    Some((v, e3))
                },
                None => {
                    errs.truncate(mark);
                    assert(errs@ =~= old(errs)@);
                    None
                },
            }
        },
        None => None,
    }
}

/// A value: one with a type name, else a bare literal.
#[verifier::opaque]
pub open spec fn sp_value(s: Seq<char>, p: int) -> Option<(ValueV, int, Seq<ParseError>)> {
    match sp_type_name_value(s, p) {
        Some(x) => Some(x),
        None => match sp_literal(s, p) {
            Some((l, e, es)) => Some(
                (ValueV { type_tag: None, literal: (span_at(s, p, e), l) }, e, es),
            ),
            None => None,
        },
    }
}

/// The failure tracker after a value was read at `p`: one with a type name
/// is tried, then a literal.
#[verifier::opaque]
pub open spec fn value_furthest(s: Seq<char>, p: int, v: FurthestV) -> FurthestV {
    let v1 = type_name_value_furthest(s, p, v);
    if sp_type_name_value(s, p) is Some {
        v1
    } else {
        literal_furthest(s, p, v1)
    }
}

pub fn value(src: &Src, p: usize, errs: &mut Vec<ParseError>, f: &mut Furthest) -> (r: Option<(Value, usize)>)
    requires
        src.wf(),
        p <= src.chars.len(),
    ensures
        val_agrees(r, sp_value(src.chars@, p as int), old(errs)@, final(errs)@),
        r matches Some((v, e)) ==> p < e <= src.chars.len(),
        final(f)@ == value_furthest(src.chars@, p as int, old(f)@),
{
    proof {
        reveal(value_furthest);
    }
    proof {
        reveal(sp_value);
    }
    match type_name_value(src, p, errs, f) {
        Some(x) => Some(x),
        None => match literal(src, p, errs, f) {
            Some((l, e)) => Some(
                (Value { type_tag: None, literal: Spanned { span: span_of(src, p, e), value: l } }, e),
            ),
            None => None,
        },
    }
}

/// What a node holds after its name.
pub enum ItemV {
    Prop((Span, Seq<char>), ValueV),
    Arg(ValueV),
    Ignore,
}

/// A property, an argument, or something commented out with `/-`.
pub enum Item {
    Prop(SpannedName, Value),
    Arg(Value),
    Ignore,
}

impl View for Item {
    type V = ItemV;

    open spec fn view(&self) -> ItemV {
        match self {
            Item::Prop(n, v) => ItemV::Prop(name_view(*n), v@),
            Item::Arg(v) => ItemV::Arg(v@),
            Item::Ignore => ItemV::Ignore,
        }
    }
}

pub open spec fn item_agrees(
    r: Option<(Item, usize)>,
    sp: Option<(ItemV, int, Seq<ParseError>)>,
    before: Seq<ParseError>,
    after: Seq<ParseError>,
) -> bool {
    match (r, sp) {
        (Some((it, e)), Some((iv, e2, es))) => it@ == iv && e == e2 && after == before + es,
        (None, None) => after == before,
        _ => false,
    }
}

/// `=` with whitespace around it, and a value.
#[verifier::opaque]
pub open spec fn sp_equals_value(s: Seq<char>, p: int) -> Option<(ValueV, int, Seq<ParseError>)> {
    let a = run(s, p, Class::Ws);
    if 0 <= a < s.len() && s[a] == '=' {
        sp_value(s, run(s, a + 1, Class::Ws))
    } else {
        None
    }
}

/// A property or an argument: a literal, and `=` with a value after it for a
/// property. A property name that is a keyword or a number is reported and
/// the property gets the empty name. Else a value with a type name, as an
/// argument.
#[verifier::opaque]
pub open spec fn sp_prop_or_arg_inner(s: Seq<char>, p: int) -> Option<(ItemV, int, Seq<ParseError>)> {
    match sp_literal(s, p) {
        Some((l, e1, es1)) => {
            let nspan = span_at(s, p, e1);
            match sp_equals_value(s, e1) {
                Some((v, e2, es2)) => match l {
                    LiteralV::String(t) => Some((ItemV::Prop((nspan, t), v), e2, es1 + es2)),
                    LiteralV::Int(_, _) | LiteralV::Decimal(_) => Some(
                        (
                            ItemV::Prop((nspan, Seq::empty()), v),
                            e2,
                            es1 + es2 + seq![ParseError::NumberAsPropertyName { span: nspan }],
                        ),
                    ),
                    _ => Some(
                        (
                            ItemV::Prop((nspan, Seq::empty()), v),
                            e2,
                            es1 + es2 + seq![ParseError::KeywordAsPropertyName { span: nspan }],
                        ),
                    ),
                },
                None => Some(
                    (ItemV::Arg(ValueV { type_tag: None, literal: (nspan, l) }), e1, es1),
                ),
            }
        },
        None => match sp_type_name_value(s, p) {
            Some((v, e, es)) => Some((ItemV::Arg(v), e, es)),
            None => None,
        },
    }
}

/// The failure tracker after a property or an argument was read at `p`: a
/// literal, then `=` (expected where it is missing) and a value; where no
/// literal comes, a value with a type name.
#[verifier::opaque]
pub open spec fn prop_or_arg_inner_furthest(s: Seq<char>, p: int, v: FurthestV) -> FurthestV {
    let v1 = literal_furthest(s, p, v);
    match sp_literal(s, p) {
        Some((_, e1, _)) => {
            let a = run(s, e1, Class::Ws);
            if a < s.len() && s[a] == '=' {
                value_furthest(s, run(s, a + 1, Class::Ws), v1)
            } else {
                expect_v(v1, a as usize, Token::Char('='))
            }
        },
        None => type_name_value_furthest(s, p, v1),
    }
}

pub fn prop_or_arg_inner(src: &Src, p: usize, errs: &mut Vec<ParseError>, f: &mut Furthest) -> (r: Option<(Item, usize)>)
    requires
        src.wf(),
        p <= src.chars.len(),
    ensures
        item_agrees(r, sp_prop_or_arg_inner(src.chars@, p as int), old(errs)@, final(errs)@),
        r matches Some((it, e)) ==> p < e <= src.chars.len(),
        final(f)@ == prop_or_arg_inner_furthest(src.chars@, p as int, old(f)@),
{
    proof {
        reveal(prop_or_arg_inner_furthest);
    }
    proof {
        reveal(sp_prop_or_arg_inner);
        reveal(sp_equals_value);
    }
    let s = &src.chars;
    match literal(src, p, errs, f) {
        Some((l, e1)) => {
            let ghost mid = errs@;
            let nspan = span_of(src, p, e1);
            let a = run_of(s, e1, Class::Ws);
            let eq = if a < s.len() && s[a] == '=' {
                let b = run_of(s, a + 1, Class::Ws);
                value(src, b, errs, f)
            } else {
                f.expect(a, Token::Char('='));
                None
            };
            match eq {
                Some((v, e2)) => {
                    let ghost es1 = sp_literal(s@, p as int).unwrap().2;
                    let ghost es2 = sp_equals_value(s@, e1 as int).unwrap().2;
                    proof {
                        assert(errs@ =~= old(errs)@ + (es1 + es2));
                    }
                    match l {
                        Literal::String(t) => Some((Item::Prop(Spanned { span: nspan, value: t }, v), e2)),
                        Literal::Int(_) | Literal::Decimal(_) => {
                            let rep = ParseError::NumberAsPropertyName { span: nspan };
                            errs.push(rep);
                            assert(errs@ =~= old(errs)@ + (es1 + es2 + seq![rep]));
                            Some((Item::Prop(Spanned { span: nspan, value: String::new() }, v), e2))
                        },
                        _ => {
                            let rep = ParseError::KeywordAsPropertyName { span: nspan };
                            errs.push(rep);
                            assert(errs@ =~= old(errs)@ + (es1 + es2 + seq![rep]));
                            Some((Item::Prop(Spanned { span: nspan, value: String::new() }, v), e2))
                        },
                    }
                },
                None => Some(
                    (
                        Item::Arg(Value { type_tag: None, literal: Spanned { span: nspan, value: l } }),
                        e1,
                    ),
                ),
            }
        },
        None => match type_name_value(src, p, errs, f) {
            Some((v, e)) => Some((Item::Arg(v), e)),
            None => None,
        },
    }
}

/// A property or an argument, or one commented out by `/-` (which is parsed
/// and dropped).
#[verifier::opaque]
pub open spec fn sp_prop_or_arg(s: Seq<char>, p: int) -> Option<(ItemV, int, Seq<ParseError>)> {
    if 0 <= p && p + 1 < s.len() && s[p] == '/' && s[p + 1] == '-' {
        match sp_prop_or_arg_inner(s, sp_line_spaces(s, p + 2)) {
            Some((_, e, es)) => Some((ItemV::Ignore, e, es)),
            None => sp_prop_or_arg_inner(s, p),
        }
    } else {
        sp_prop_or_arg_inner(s, p)
    }
}

/// The failure tracker after a property or an argument, or one commented
/// out by `/-`, was read at `p`.
#[verifier::opaque]
pub open spec fn prop_or_arg_furthest(s: Seq<char>, p: int, v: FurthestV) -> FurthestV {
    if 0 <= p && p + 1 < s.len() && s[p] == '/' && s[p + 1] == '-' {
        let a = sp_line_spaces(s, p + 2);
        let v2 = prop_or_arg_inner_furthest(s, a, line_spaces_furthest(s, p + 2, v));
        if sp_prop_or_arg_inner(s, a) is Some {
            v2
        } else {
            prop_or_arg_inner_furthest(s, p, v2)
        }
    } else {
        prop_or_arg_inner_furthest(s, p, v)
    }
}

pub fn prop_or_arg(src: &Src, p: usize, errs: &mut Vec<ParseError>, f: &mut Furthest) -> (r: Option<(Item, usize)>)
    requires
        src.wf(),
        p <= src.chars.len(),
    ensures
        item_agrees(r, sp_prop_or_arg(src.chars@, p as int), old(errs)@, final(errs)@),
        r matches Some((it, e)) ==> p < e <= src.chars.len(),
        final(f)@ == prop_or_arg_furthest(src.chars@, p as int, old(f)@),
{
    proof {
        reveal(prop_or_arg_furthest);
    }
    proof {
        reveal(sp_prop_or_arg);
    }
    let s = &src.chars;
    if p + 1 < s.len() && s[p] == '/' && s[p + 1] == '-' {
        let a = line_spaces(src, p + 2, f);
        match prop_or_arg_inner(src, a, errs, f) {
            Some((_, e)) => {
                return Some((Item::Ignore, e));
            },
            None => {},
        }
    }
    prop_or_arg_inner(src, p, errs, f)
}

} // verus!

verus! {

/// Arguments and properties after one more item.
pub open spec fn apply_item(
    args: Seq<ValueV>,
    props: Seq<((Span, Seq<char>), ValueV)>,
    it: ItemV,
) -> (Seq<ValueV>, Seq<((Span, Seq<char>), ValueV)>) {
    match it {
        ItemV::Prop(n, v) => (args, props_insert(props, n, v)),
        ItemV::Arg(v) => (args.push(v), props),
        ItemV::Ignore => (args, props),
    }
}

/// The items of a node from `q`: each is space within the node followed by a
/// property or an argument; as many as there are. Gives the arguments, the
/// properties, the position after the last item and the errors reported.
pub open spec fn sp_node_items(
    s: Seq<char>,
    q: int,
    args: Seq<ValueV>,
    props: Seq<((Span, Seq<char>), ValueV)>,
    errs: Seq<ParseError>,
) -> (Seq<ValueV>, Seq<((Span, Seq<char>), ValueV)>, int, Seq<ParseError>)
    decreases s.len() - q,
{
    if q < 0 || q > s.len() {
        (args, props, q, errs)
    } else {
        let a = sp_node_spaces(s, q);
        if a > q {
            match sp_prop_or_arg(s, a) {
                Some((it, e, es)) => if q < e <= s.len() {
                    let (args2, props2) = apply_item(args, props, it);
                    sp_node_items(s, e, args2, props2, errs + es)
                } else {
                    (args, props, q, errs)
                },
                None => (args, props, q, errs),
            }
        } else {
            (args, props, q, errs)
        }
    }
}

/// The failure tracker after the items of a node were read from `q`: each
/// is space within the node, then a property or an argument, as
/// [`sp_node_items`] reads them.
#[verifier::opaque]
pub open spec fn node_items_furthest(s: Seq<char>, q: int, v: FurthestV) -> FurthestV
    decreases s.len() - q,
{
    if q < 0 || q > s.len() {
        v
    } else {
        let a = sp_node_spaces(s, q);
        let v1 = node_spaces_furthest(s, q, v);
        if a > q {
            let v2 = prop_or_arg_furthest(s, a, v1);
            match sp_prop_or_arg(s, a) {
                Some((_, e, _)) => if q < e <= s.len() {
                    node_items_furthest(s, e, v2)
                } else {
                    v2
                },
                None => v2,
            }
        } else {
            v1
        }
    }
}

/// The arguments that the items of a node from `q` add are the same
/// whatever arguments, properties and errors came before them: they follow
/// the arguments already there, and no property, before or between them,
/// drops or changes one. Where the first item is an argument, its value is
/// the first one added; a property or an item commented out with `/-` adds
/// none. The items end at the same place either way.
pub proof fn lemma_node_items_args(
    s: Seq<char>,
    q: int,
    args: Seq<ValueV>,
    props: Seq<((Span, Seq<char>), ValueV)>,
    errs: Seq<ParseError>,
    props2: Seq<((Span, Seq<char>), ValueV)>,
    errs2: Seq<ParseError>,
)
    ensures
        sp_node_items(s, q, args, props, errs).0 == args + sp_node_items(s, q, Seq::empty(), props2, errs2).0,
        sp_node_items(s, q, args, props, errs).2 == sp_node_items(s, q, Seq::empty(), props2, errs2).2,
        0 <= q <= s.len() && sp_node_spaces(s, q) > q ==> match sp_prop_or_arg(s, sp_node_spaces(s, q)) {
            Some((it, e, _)) => q < e <= s.len() ==> match it {
                ItemV::Arg(v) => sp_node_items(s, q, args, props, errs).0 == args.push(v) + sp_node_items(
                    s,
                    e,
                    Seq::empty(),
                    props2,
                    errs2,
                ).0,
                _ => sp_node_items(s, q, args, props, errs).0 == args + sp_node_items(
                    s,
                    e,
                    Seq::empty(),
                    props2,
                    errs2,
                ).0,
            },
            None => true,
        },
    decreases s.len() - q,
{
    if 0 <= q <= s.len() {
        let a = sp_node_spaces(s, q);
        if a > q {
            match sp_prop_or_arg(s, a) {
                Some((it, e, es)) => if q < e <= s.len() {
                    let (args2, props3) = apply_item(args, props, it);
                    let (n2, p2) = apply_item(Seq::empty(), props2, it);
                    lemma_node_items_args(s, e, args2, props3, errs + es, props2, errs2);
                    lemma_node_items_args(s, e, n2, p2, errs2 + es, props2, errs2);
                    lemma_node_items_args(s, e, args, props3, errs + es, props2, errs2);
                    match it {
                        ItemV::Arg(v) => {
                            assert(args2 == args.push(v));
                            assert(n2 == seq![v]);
                            assert(args.push(v) =~= args + seq![v]);
                            assert(args + seq![v] + sp_node_items(s, e, Seq::empty(), props2, errs2).0 =~= args + (
                            seq![v] + sp_node_items(s, e, Seq::empty(), props2, errs2).0));
                        },
                        _ => {
                            assert(n2 =~= Seq::<ValueV>::empty());
                            assert(Seq::<ValueV>::empty() + sp_node_items(s, e, Seq::empty(), props2, errs2).0
                                =~= sp_node_items(s, e, Seq::empty(), props2, errs2).0);
                        },
                    }
                } else {
                    assert(args =~= args + Seq::<ValueV>::empty());
                },
                None => {
                    assert(args =~= args + Seq::<ValueV>::empty());
                },
            }
        } else {
            assert(args =~= args + Seq::<ValueV>::empty());
        }
    } else {
        assert(args =~= args + Seq::<ValueV>::empty());
    }
}

fn node_items(
    src: &Src,
    b: usize,
    args: &mut Vec<Value>,
    props: &mut Vec<(SpannedName, Value)>,
    errs: &mut Vec<ParseError>,
    f: &mut Furthest,
) -> (c: usize)
    requires
        src.wf(),
        b <= src.chars.len(),
    ensures
        (values_view(final(args)@), props_view(final(props)@), c as int, final(errs)@)
            == sp_node_items(
            src.chars@,
            b as int,
            values_view(old(args)@),
            props_view(old(props)@),
            old(errs)@,
        ),
        b <= c <= src.chars.len(),
        final(f)@ == node_items_furthest(src.chars@, b as int, old(f)@),
{
    let mut q = b;
    loop
        invariant
            src.wf(),
            b <= q <= src.chars.len(),
            node_items_furthest(src.chars@, q as int, f@) == node_items_furthest(src.chars@, b as int, old(f)@),
            sp_node_items(src.chars@, q as int, values_view(args@), props_view(props@), errs@)
                == sp_node_items(
                src.chars@,
                b as int,
                values_view(old(args)@),
                props_view(old(props)@),
                old(errs)@,
            ),
        decreases src.chars.len() - q,
    {
        proof {
            reveal(node_items_furthest);
        }
        let a = node_spaces(src, q, f);
        if a <= q {
            return q;
        }
        let ghost before = errs@;
        match prop_or_arg(src, a, errs, f) {
            Some((it, e)) => {
                if !(q < e && e <= src.chars.len()) {
                    return q;
                }
                let ghost a0 = values_view(args@);
                match it {
                    Item::Prop(n, v) => {
                        insert_property(props, n, v);
                    },
                    Item::Arg(v) => {
                        args.push(v);
                        assert(values_view(args@) =~= a0.push(v@));
                    },
                    Item::Ignore => {},
                }
                q = e;
            },
            None => {
                return q;
            },
        }
    }
}

/// A node: an optional type name (with the whitespace after it), its name
/// (an identifier), its items, optionally its children in braces (dropped
/// where `/-` comments them out), then space within the node and an
/// optional terminator. Gives the node, the position after it and the errors
/// reported.
pub open spec fn sp_node(s: Seq<char>, p: int) -> Option<(NodeV, int, Seq<ParseError>)>
    decreases s.len() - p, 0int,
{
    if p < 0 || p > s.len() {
        None
    } else {
        let (tn, a, es0) = match sp_type_tag(s, p) {
            Some((t, e, es)) => (Some((span_at(s, p, run(s, e, Class::Ws)), t)), run(s, e, Class::Ws), es),
            None => (None, p, Seq::empty()),
        };
        match crate::grammar::words::sp_ident(s, a) {
            None => None,
            Some((name, b, es1)) => {
                let (args, props, c, es2) = sp_node_items(s, b, Seq::empty(), Seq::empty(), Seq::empty());
                let d0 = sp_node_spaces(s, c);
                let slash = 0 <= d0 && d0 + 1 < s.len() && s[d0] == '/' && s[d0 + 1] == '-';
                let d1 = if slash {
                    sp_line_spaces(s, d0 + 2)
                } else {
                    d0
                };
                let braced = if p < d1 <= s.len() {
                    sp_braced(s, d1)
                } else {
                    None
                };
                let (children, f0, es3) = match braced {
                    Some((kids, e, es)) => (if slash {
                        None
                    } else {
                        Some((span_at(s, d1, e), kids))
                    }, e, es),
                    None => (None, c, Seq::empty()),
                };
                let g0 = sp_node_spaces(s, f0);
                let g = match sp_node_terminator(s, g0) {
                    Some(t) => t,
                    None => g0,
                };
                Some(
                    (
                        NodeV {
                            type_tag: tn,
                            name: (span_at(s, a, b), name),
                            arguments: args,
                            properties: props,
                            children,
                        },
                        g,
                        es0 + es1 + es2 + es3,
                    ),
                )
            },
        }
    }
}

/// Nodes in braces: `{`, nodes, `}`.
pub open spec fn sp_braced(s: Seq<char>, d: int) -> Option<(Seq<(Span, NodeV)>, int, Seq<ParseError>)>
    decreases s.len() - d, 3int,
{
    if 0 <= d < s.len() && s[d] == '{' {
        let (ns, e, es) = sp_nodes(s, d + 1);
        if 0 <= e < s.len() && s[e] == '}' {
            Some((ns, e + 1, es))
        } else {
            None
        }
    } else {
        None
    }
}

/// Nodes: space between nodes, then as many nodes as there are, each
/// optionally commented out by `/-` and followed by space between nodes.
/// Gives the nodes that are not commented out, with their spans, the position
/// after them and the errors reported.
pub open spec fn sp_nodes(s: Seq<char>, p: int) -> (Seq<(Span, NodeV)>, int, Seq<ParseError>)
    decreases s.len() - p, 2int,
{
    let a = sp_line_spaces(s, p);
    if 0 <= p <= a <= s.len() {
        sp_nodes_loop(s, a, Seq::empty(), Seq::empty())
    } else {
        (Seq::empty(), p, Seq::empty())
    }
}

/// The nodes from `q`, after the nodes `acc` and the errors `errs`.
pub open spec fn sp_nodes_loop(s: Seq<char>, q: int, acc: Seq<(Span, NodeV)>, errs: Seq<ParseError>) -> (Seq<(Span, NodeV)>, int, Seq<ParseError>)
    decreases s.len() - q, 1int,
{
    if q < 0 || q > s.len() {
        (acc, q, errs)
    } else {
        let slash = q + 1 < s.len() && s[q] == '/' && s[q + 1] == '-';
        let a = if slash {
            sp_line_spaces(s, q + 2)
        } else {
            q
        };
        if !(q <= a <= s.len()) {
            (acc, q, errs)
        } else {
            match sp_node(s, a) {
                Some((n, e, es)) => if a < e <= s.len() {
                    let acc2 = if slash {
                        acc
                    } else {
                        acc.push((span_at(s, a, e), n))
                    };
                    let b = sp_line_spaces(s, e);
                    if e <= b <= s.len() {
                        sp_nodes_loop(s, b, acc2, errs + es)
                    } else {
                        (acc2, e, errs + es)
                    }
                } else {
                    (acc, q, errs)
                },
                None => (acc, q, errs),
            }
        }
    }
}

/// Where the name of a node read at `p` starts: after its type name and the
/// whitespace after that, if it has a type name.
pub open spec fn node_name_at(s: Seq<char>, p: int) -> int {
    match sp_type_tag(s, p) {
        Some((_, e, _)) => run(s, e, Class::Ws),
        None => p,
    }
}

/// The failure tracker after a node was read at `p`, following the steps
/// of [`sp_node`]: its type name, its name, its items, then the rest (see
/// [`node_end_furthest`]).
pub open spec fn node_furthest(s: Seq<char>, p: int, v: FurthestV) -> FurthestV
    decreases s.len() - p, 1int,
{
    if p < 0 || p > s.len() {
        v
    } else {
        let a = node_name_at(s, p);
        let v2 = ident_furthest(s, a, type_tag_furthest(s, p, v));
        match crate::grammar::words::sp_ident(s, a) {
            None => v2,
            Some((_, b, _)) => node_end_furthest(
                s,
                p,
                sp_node_items(s, b, Seq::empty(), Seq::empty(), Seq::empty()).2,
                node_items_furthest(s, b, v2),
            ),
        }
    }
}

/// The failure tracker after the end of a node read at `p`, whose items end
/// at `c`, was read: the space after the items, an optional `/-`, its
/// children (see [`braced_furthest`]), the space after them and its
/// terminator.
pub open spec fn node_end_furthest(s: Seq<char>, p: int, c: int, v: FurthestV) -> FurthestV
    decreases s.len() - p, 0int,
{
    let d0 = sp_node_spaces(s, c);
    let v4 = node_spaces_furthest(s, c, v);
    let slash = 0 <= d0 && d0 + 1 < s.len() && s[d0] == '/' && s[d0 + 1] == '-';
    let d1 = if slash {
        sp_line_spaces(s, d0 + 2)
    } else {
        d0
    };
    let v5 = if slash {
        line_spaces_furthest(s, d0 + 2, v4)
    } else {
        v4
    };
    let v6 = if p < d1 <= s.len() {
        braced_furthest(s, d1, v5)
    } else {
        v5
    };
    let f0 = match (if p < d1 <= s.len() {
        sp_braced(s, d1)
    } else {
        None
    }) {
        Some((_, e, _)) => e,
        None => c,
    };
    node_terminator_furthest(s, sp_node_spaces(s, f0), node_spaces_furthest(s, f0, v6))
}

/// The failure tracker after a children block was read at `d`: where no
/// `{` is there, it is expected; otherwise the nodes inside change it as
/// [`nodes_furthest`] says, and then [`braced_close_furthest`] does.
pub open spec fn braced_furthest(s: Seq<char>, d: int, v: FurthestV) -> FurthestV
    decreases s.len() - d, 4int,
{
    if 0 <= d < s.len() && s[d] == '{' {
        braced_close_furthest(s, d, nodes_furthest(s, d + 1, v))
    } else {
        expect_v(v, d as usize, Token::Char('{'))
    }
}

/// The failure tracker after nodes were read from `p`, following the steps
/// of [`sp_nodes`].
pub open spec fn nodes_furthest(s: Seq<char>, p: int, v: FurthestV) -> FurthestV
    decreases s.len() - p, 3int,
{
    let a = sp_line_spaces(s, p);
    let v1 = line_spaces_furthest(s, p, v);
    if 0 <= p <= a <= s.len() {
        nodes_loop_furthest(s, a, v1)
    } else {
        v1
    }
}

/// The failure tracker after the nodes from `q` were read, following the
/// steps of [`sp_nodes_loop`].
pub open spec fn nodes_loop_furthest(s: Seq<char>, q: int, v: FurthestV) -> FurthestV
    decreases s.len() - q, 2int,
{
    if q < 0 || q > s.len() {
        v
    } else {
        let slash = q + 1 < s.len() && s[q] == '/' && s[q + 1] == '-';
        let a = if slash {
            sp_line_spaces(s, q + 2)
        } else {
            q
        };
        let v1 = if slash {
            line_spaces_furthest(s, q + 2, v)
        } else {
            v
        };
        if !(q <= a <= s.len()) {
            v1
        } else {
            let v2 = node_furthest(s, a, v1);
            match sp_node(s, a) {
                Some((_, e, _)) => if a < e <= s.len() {
                    let b = sp_line_spaces(s, e);
                    let v3 = line_spaces_furthest(s, e, v2);
                    if e <= b <= s.len() {
                        nodes_loop_furthest(s, b, v3)
                    } else {
                        v3
                    }
                } else {
                    v2
                },
                None => v2,
            }
        }
    }
}

/// The end of a node read at `p` whose items end at `c`, as [`sp_node`]
/// reads it: its children (none where `/-` comments them out), the position
/// after its terminator and the errors reported in its children.
pub open spec fn sp_node_end(s: Seq<char>, p: int, c: int) -> (Option<(Span, Seq<(Span, NodeV)>)>, int, Seq<ParseError>) {
    let d0 = sp_node_spaces(s, c);
    let slash = 0 <= d0 && d0 + 1 < s.len() && s[d0] == '/' && s[d0 + 1] == '-';
    let d1 = if slash {
        sp_line_spaces(s, d0 + 2)
    } else {
        d0
    };
    let braced = if p < d1 <= s.len() {
        sp_braced(s, d1)
    } else {
        None
    };
    let (children, f0, es3) = match braced {
        Some((kids, e, es)) => (if slash {
            None
        } else {
            Some((span_at(s, d1, e), kids))
        }, e, es),
        None => (None, c, Seq::empty()),
    };
    let g0 = sp_node_spaces(s, f0);
    let g = match sp_node_terminator(s, g0) {
        Some(t) => t,
        None => g0,
    };
    (children, g, es3)
}

pub open spec fn node_agrees(
    r: Option<(Node, usize)>,
    sp: Option<(NodeV, int, Seq<ParseError>)>,
    before: Seq<ParseError>,
    after: Seq<ParseError>,
) -> bool {
    match (r, sp) {
        (Some((n, e)), Some((nv, e2, es))) => n@ == nv && e == e2 && after == before + es,
        (None, None) => after == before,
        _ => false,
    }
}

/// The view of the children of a node.
pub open spec fn children_view(c: Option<Spanned<Vec<SpannedNode>>>) -> Option<(Span, Seq<(Span, NodeV)>)> {
    match c {
        Some(ch) => Some((ch.span, nodes_view(ch.value@))),
        None => None,
    }
}

/// [`sp_node`] of a node whose name can be read, in parts: its head, its
/// name, its items and its end (see [`sp_node_end`]).
proof fn lemma_sp_node_named(s: Seq<char>, p: int)
    requires
        0 <= p <= s.len(),
        crate::grammar::words::sp_ident(s, node_name_at(s, p)) is Some,
    ensures
        ({
            let (tn, a, es0) = match sp_type_tag(s, p) {
                Some((t, e, es)) => (Some((span_at(s, p, run(s, e, Class::Ws)), t)), run(s, e, Class::Ws), es),
                None => (None, p, Seq::empty()),
            };
            let (name, b, es1) = crate::grammar::words::sp_ident(s, a).unwrap();
            let (args, props, c, es2) = sp_node_items(s, b, Seq::empty(), Seq::empty(), Seq::empty());
            let (children, g, es3) = sp_node_end(s, p, c);
            sp_node(s, p) == Some(
                (
                    NodeV {
                        type_tag: tn,
                        name: (span_at(s, a, b), name),
                        arguments: args,
                        properties: props,
                        children,
                    },
                    g,
                    es0 + es1 + es2 + es3,
                ),
            )
        }),
{
}

/// [`node_furthest`] of a node whose name was read: the tracker after its
/// items and its end.
proof fn lemma_node_furthest_named(s: Seq<char>, p: int, v: FurthestV, b: int)
    requires
        0 <= p <= s.len(),
        crate::grammar::words::sp_ident(s, node_name_at(s, p)) matches Some((_, bb, _)) && bb == b,
    ensures
        node_furthest(s, p, v) == node_end_furthest(
            s,
            p,
            sp_node_items(s, b, Seq::empty(), Seq::empty(), Seq::empty()).2,
            node_items_furthest(s, b, ident_furthest(s, node_name_at(s, p), type_tag_furthest(s, p, v))),
        ),
{
}

/// [`node_furthest`] of a node whose name could not be read.
proof fn lemma_node_furthest_unnamed(s: Seq<char>, p: int, v: FurthestV)
    requires
        0 <= p <= s.len(),
        crate::grammar::words::sp_ident(s, node_name_at(s, p)) is None,
    ensures
        node_furthest(s, p, v) == ident_furthest(s, node_name_at(s, p), type_tag_furthest(s, p, v)),
{
}

/// The end of a node read at `p` whose items end at `c` (see
/// [`sp_node_end`]): its children, the position after it and the errors
/// reported in its children.
fn node_end(src: &Src, p: usize, c: usize, f: &mut Furthest) -> (r: (
    Option<Spanned<Vec<SpannedNode>>>,
    usize,
    Vec<ParseError>,
))
    requires
        src.wf(),
        p <= c <= src.chars.len(),
    ensures
        children_view(r.0) == sp_node_end(src.chars@, p as int, c as int).0,
        r.1 == sp_node_end(src.chars@, p as int, c as int).1,
        r.2@ == sp_node_end(src.chars@, p as int, c as int).2,
        c <= r.1 <= src.chars.len(),
        final(f)@ == node_end_furthest(src.chars@, p as int, c as int, old(f)@),
    decreases src.chars.len() - p, 0usize,
{
    let s = &src.chars;
    let ghost sv = s@;
    let d0 = node_spaces(src, c, f);
    let slash = d0 + 1 < s.len() && s[d0] == '/' && s[d0 + 1] == '-';
    let d1 = if slash {
        line_spaces(src, d0 + 2, f)
    } else {
        d0
    };
    let mut local2: Vec<ParseError> = Vec::new();
    let br = if p < d1 && d1 <= s.len() {
        braced(src, d1, &mut local2, f)
    } else {
        None
    };
    let ghost spbr = if p < d1 <= sv.len() {
        sp_braced(sv, d1 as int)
    } else {
        None
    };
    assert(nodes_agree(br, spbr, Seq::empty(), local2@));
    let ghost tail = match spbr {
        Some((kids, e, es)) => (if slash {
            None
        } else {
            Some((span_at(sv, d1 as int, e), kids))
        }, e, es),
        None => (None, c as int, Seq::<ParseError>::empty()),
    };
    let (children, f0) = match br {
        Some((kids, e)) => (if slash {
            None
        } else {
            Some(Spanned { span: span_of(src, d1, e), value: kids })
        }, e),
        None => (None, c),
    };
    assert(f0 == tail.1 && local2@ =~= tail.2);
    assert(children_view(children) == tail.0);
    let g0 = node_spaces(src, f0, f);
    let g = match node_terminator(src, g0, f) {
        Some(t) => t,
        None => g0,
    };
    (children, g, local2)
}

/// The items and the end of a node read at `p` whose name ends at `b`.
fn node_named(src: &Src, p: usize, b: usize, f: &mut Furthest) -> (r: (
    Vec<Value>,
    Vec<(SpannedName, Value)>,
    Vec<ParseError>,
    Option<Spanned<Vec<SpannedNode>>>,
    usize,
    Vec<ParseError>,
))
    requires
        src.wf(),
        p < b <= src.chars.len(),
    ensures
        ({
            let items = sp_node_items(src.chars@, b as int, Seq::empty(), Seq::empty(), Seq::empty());
            let tail = sp_node_end(src.chars@, p as int, items.2);
            &&& values_view(r.0@) == items.0
            &&& props_view(r.1@) == items.1
            &&& r.2@ == items.3
            &&& children_view(r.3) == tail.0
            &&& r.4 == tail.1
            &&& r.5@ == tail.2
            &&& b <= r.4 <= src.chars.len()
            &&& final(f)@ == node_end_furthest(
                src.chars@,
                p as int,
                items.2,
                node_items_furthest(src.chars@, b as int, old(f)@),
            )
        }),
    decreases src.chars.len() - p, 1usize,
{
    let mut args: Vec<Value> = Vec::new();
    let mut props: Vec<(SpannedName, Value)> = Vec::new();
    let mut local: Vec<ParseError> = Vec::new();
    proof {
        assert(values_view(args@) =~= Seq::<ValueV>::empty());
        assert(props_view(props@) =~= Seq::<((Span, Seq<char>), ValueV)>::empty());
        assert(local@ =~= Seq::<ParseError>::empty());
    }
    let c = node_items(src, b, &mut args, &mut props, &mut local, f);
    let (children, g, local2) = node_end(src, p, c, f);
    (args, props, local, children, g, local2)
}

#[verifier::rlimit(100)]
#[verifier::spinoff_prover]
pub fn node(src: &Src, p: usize, errs: &mut Vec<ParseError>, f: &mut Furthest) -> (r: Option<(Node, usize)>)
    requires
        src.wf(),
        p <= src.chars.len(),
    ensures
        node_agrees(r, sp_node(src.chars@, p as int), old(errs)@, final(errs)@),
        r matches Some((n, e)) ==> p < e <= src.chars.len(),
        final(f)@ == node_furthest(src.chars@, p as int, old(f)@),
    decreases src.chars.len() - p, 2usize,
{
    let s = &src.chars;
    let ghost sv = s@;
    let mark = errs.len();
    let ghost head = match sp_type_tag(sv, p as int) {
        Some((t, e, es)) => (Some((span_at(sv, p as int, run(sv, e, Class::Ws)), t)), run(sv, e, Class::Ws), es),
        None => (None, p as int, Seq::<ParseError>::empty()),
    };
    let (tn, a) = match type_tag(src, p, errs, f) {
        Some((t, e)) => {
            let e2 = run_of(s, e, Class::Ws);
            (Some(Spanned { span: span_of(src, p, e2), value: t }), e2)
        },
        None => (None, p),
    };
    assert(opt_view(tn) == head.0 && a == head.1 && errs@ == old(errs)@ + head.2);
    let ghost after_head = errs@;
    assert(a == node_name_at(sv, p as int));
    let (name, b) = match crate::grammar::words::ident(src, a, errs, f) {
        Some(x) => x,
        None => {
            errs.truncate(mark);
            assert(errs@ =~= old(errs)@);
            assert(sp_node(sv, p as int) is None);
            proof {
                lemma_node_furthest_unnamed(sv, p as int, old(f)@);
            }
            return None;
        },
    };
    let ghost id = crate::grammar::words::sp_ident(sv, a as int).unwrap();
    assert(name@ == id.0 && b == id.1 && errs@ == after_head + id.2);
    let node_name = Spanned { span: span_of(src, a, b), value: crate::text::string_from_chars(&name) };
    let (args, props, mut local, children, g, mut local2) = node_named(src, p, b, f);
    let ghost items = sp_node_items(sv, b as int, Seq::empty(), Seq::empty(), Seq::empty());
    let ghost tail = sp_node_end(sv, p as int, items.2);
    proof {
        lemma_node_furthest_named(sv, p as int, old(f)@, b as int);
        lemma_sp_node_named(sv, p as int);
    }
    let ghost before_append = errs@;
    errs.append(&mut local);
    errs.append(&mut local2);
    proof {
        assert(errs@ =~= old(errs)@ + (head.2 + id.2 + items.3 + tail.2));
    }
    let n = Node { type_tag: tn, node_name, arguments: args, properties: props, children };
    proof {
        assert(n.arguments@.map_values(|v: Value| v@) =~= values_view(args@));
        assert(n@.children == tail.0);
        assert(n@ == NodeV {
            type_tag: head.0,
            name: (span_at(sv, a as int, b as int), id.0),
            arguments: items.0,
            properties: items.1,
            children: tail.0,
        });
        assert(sp_node(sv, p as int) == Some((n@, g as int, head.2 + id.2 + items.3 + tail.2)));
    }
    Some((n, g))
}

} // verus!

verus! {

pub open spec fn nodes_agree(
    r: Option<(Vec<SpannedNode>, usize)>,
    sp: Option<(Seq<(Span, NodeV)>, int, Seq<ParseError>)>,
    before: Seq<ParseError>,
    after: Seq<ParseError>,
) -> bool {
    match (r, sp) {
        (Some((ns, e)), Some((nv, e2, es))) => nodes_view(ns@) == nv && e == e2 && after == before
            + es,
        (None, None) => after == before,
        _ => false,
    }
}

/// The failure tracker after the children block opened at `d` was closed,
/// given the tracker `v` after its nodes: where the nodes are followed by
/// `}` nothing is added; where the text ends after them, the braces are
/// reported as unclosed at the end; elsewhere `}` is expected there.
pub open spec fn braced_close_furthest(s: Seq<char>, d: int, v: FurthestV) -> FurthestV {
    let e = sp_nodes(s, d + 1).1;
    if 0 <= e < s.len() && s[e] == '}' {
        v
    } else if e == s.len() {
        fail_with_v(
            v,
            e as usize,
            ParseError::Unclosed {
                delimiter: Delimiter::Braces,
                opened_at: span_at(s, d, d + 1),
                expected_at: span_at(s, e, e),
            },
        )
    } else {
        expect_v(v, e as usize, Token::Char('}'))
    }
}

pub fn braced(src: &Src, d: usize, errs: &mut Vec<ParseError>, f: &mut Furthest) -> (r: Option<(Vec<SpannedNode>, usize)>)
    requires
        src.wf(),
        d <= src.chars.len(),
    ensures
        nodes_agree(r, sp_braced(src.chars@, d as int), old(errs)@, final(errs)@),
        r matches Some((ns, e)) ==> d < e <= src.chars.len(),
        final(f)@ == braced_furthest(src.chars@, d as int, old(f)@),
    decreases src.chars.len() - d, 3usize,
{
    let s = &src.chars;
    if !(d < s.len() && s[d] == '{') {
        f.expect(d, Token::Char('{'));
        return None;
    }
    let mark = errs.len();
    let (ns, e) = nodes(src, d + 1, errs, f);
    let ghost mid = f@;
    assert(mid == nodes_furthest(s@, d + 1, old(f)@));
    assert(braced_furthest(s@, d as int, old(f)@) == braced_close_furthest(s@, d as int, mid));
    if e < s.len() && s[e] == '}' {
        assert(f@ == braced_close_furthest(s@, d as int, mid));
        return Some((ns, e + 1));
    }
    if e == s.len() {
        f.fail_with(
            e,
            ParseError::Unclosed {
                delimiter: Delimiter::Braces,
                opened_at: span_of(src, d, d + 1),
                expected_at: span_of(src, e, e),
            },
        );
    } else {
        f.expect(e, Token::Char('}'));
    }
    assert(f@ == braced_close_furthest(s@, d as int, mid));
    errs.truncate(mark);
    assert(errs@ =~= old(errs)@);
    None
}

#[verifier::rlimit(60)]
pub fn nodes(src: &Src, p: usize, errs: &mut Vec<ParseError>, f: &mut Furthest) -> (r: (Vec<SpannedNode>, usize))
    requires
        src.wf(),
        p <= src.chars.len(),
    ensures
        nodes_view(r.0@) == sp_nodes(src.chars@, p as int).0,
        r.1 == sp_nodes(src.chars@, p as int).1,
        final(errs)@ == old(errs)@ + sp_nodes(src.chars@, p as int).2,
        p <= r.1 <= src.chars.len(),
        final(f)@ == nodes_furthest(src.chars@, p as int, old(f)@),
    decreases src.chars.len() - p, 3usize,
{
    let s = &src.chars;
    let a = line_spaces(src, p, f);
    let ghost fa = f@;
    let mut acc: Vec<SpannedNode> = Vec::new();
    let mut local: Vec<ParseError> = Vec::new();
    let mut q = a;
    proof {
        assert(nodes_view(acc@) =~= Seq::<(Span, NodeV)>::empty());
    }
    loop
        invariant_except_break
            nodes_loop_furthest(s@, q as int, f@) == nodes_loop_furthest(s@, a as int, fa),
        invariant
            src.wf(),
            s == &src.chars,
            p <= a <= q <= s.len(),
            a == sp_line_spaces(s@, p as int),
            sp_nodes(s@, p as int) == sp_nodes_loop(s@, a as int, Seq::empty(), Seq::empty()),
            sp_nodes_loop(s@, q as int, nodes_view(acc@), local@) == sp_nodes_loop(
                s@,
                a as int,
                Seq::empty(),
                Seq::empty(),
            ),
            errs@ == old(errs)@,
        ensures
            sp_nodes_loop(s@, q as int, nodes_view(acc@), local@) == (
                nodes_view(acc@),
                q as int,
                local@,
            ),
            f@ == nodes_loop_furthest(s@, a as int, fa),
        decreases s.len() - q,
    {
        let ghost fq = f@;
        let slash = q + 1 < s.len() && s[q] == '/' && s[q + 1] == '-';
        let a2 = if slash {
            line_spaces(src, q + 2, f)
        } else {
            q
        };
        let ghost before = local@;
        let mark = local.len();
        match node(src, a2, &mut local, f) {
            Some((n, e)) => {
                if !(a2 < e && e <= s.len()) {
                    local.truncate(mark);
                    assert(local@ =~= before);
                    assert(f@ == nodes_loop_furthest(s@, q as int, fq));
                    break;
                }
                if !slash {
                    let ghost acc0 = acc@;
                    acc.push(Spanned { span: span_of(src, a2, e), value: n });
                    proof {
                        lemma_nodes_view_push(acc0, acc@.last());
                        assert(acc@ =~= acc0.push(acc@.last()));
                    }
                }
                q = line_spaces(src, e, f);
            },
            None => {
                assert(f@ == nodes_loop_furthest(s@, q as int, fq));
                break;
            },
        }
    }
    errs.append(&mut local);
    (acc, q)
}

} // verus!

verus! {

/// Where the nodes of a document start: after a byte order mark, if any.
pub open spec fn doc_start(s: Seq<char>) -> int {
    if s.len() > 0 && s[0] == '\u{FEFF}' {
        1
    } else {
        0
    }
}

/// The nodes of a document, the position where they end and the errors
/// reported on the way. The document is well-formed where the nodes take the
/// whole text and no error was reported.
pub open spec fn sp_document(s: Seq<char>) -> (Seq<(Span, NodeV)>, int, Seq<ParseError>) {
    sp_nodes(s, doc_start(s))
}

/// What parsing the text `s` gives: the nodes, or the errors reported; where
/// the nodes do not take the whole text, more errors (about the text where
/// parsing got furthest) come after those.
pub open spec fn parse_outcome(s: Seq<char>, r: Result<Seq<(Span, NodeV)>, Seq<ParseError>>) -> bool {
    let (ns, e, es) = sp_document(s);
    if e == s.len() && es.len() == 0 {
        r == Ok::<Seq<(Span, NodeV)>, Seq<ParseError>>(ns)
    } else if e == s.len() {
        r == Err::<Seq<(Span, NodeV)>, Seq<ParseError>>(es)
    } else {
        r matches Err(v) && v.len() > es.len() && v.take(es.len() as int) == es
    }
}

/// The view of a parse result.
pub open spec fn result_view(r: Result<crate::ast::Document, Vec<ParseError>>) -> Result<Seq<(Span, NodeV)>, Seq<ParseError>> {
    match r {
        Ok(d) => Ok(d@),
        Err(v) => Err(v@),
    }
}

/// `r` is the error about the place where the tracker `v` says parsing got
/// furthest: the error found there, or else a report of the token found
/// there (the end of the text where that is past it) and of those that
/// were expected, with the tracker's label.
pub open spec fn is_report(s: Seq<char>, v: FurthestV, r: ParseError) -> bool {
    match v.special {
        Some(e) => r == e,
        None => {
            let n = s.len() as int;
            let at = if v.at <= n {
                v.at as int
            } else {
                n
            };
            &&& r matches ParseError::Unexpected { label, span, found, expected }
            &&& label == v.label
            &&& expected@ == v.expected
            &&& at < n ==> span == span_at(s, at, at + 1) && found == Token::Char(s[at])
            &&& at == n ==> span == span_at(s, n, n) && found == Token::EndOfInput
        },
    }
}

/// The tracker with which [`finish`] reports, given where the rule ended:
/// an end before the end of the text expects the end of the input there.
pub open spec fn finish_v(s: Seq<char>, end: Option<usize>, v: FurthestV) -> FurthestV {
    match end {
        Some(e) => if e != s.len() {
            expect_v(v, e, Token::EndOfInput)
        } else {
            v
        },
        None => v,
    }
}

impl Furthest {
    /// The error about the place where parsing got furthest; the tracker
    /// gives up what it held for it.
    pub(crate) fn take_report(&mut self, src: &Src) -> (r: ParseError)
        requires
            src.wf(),
        ensures
            is_report(src.chars@, old(self)@, r),
    {
        match self.special.take() {
            Some(e) => e,
            None => {
                let n = src.chars.len();
                let at = if self.at <= n {
                    self.at
                } else {
                    n
                };
                let (span, found) = if at < n {
                    (span_of(src, at, at + 1), Token::Char(src.chars[at]))
                } else {
                    (span_of(src, n, n), Token::EndOfInput)
                };
                let mut expected: Vec<Token> = Vec::new();
                std::mem::swap(&mut expected, &mut self.expected);
                ParseError::Unexpected { label: self.label, span, found, expected }
            },
        }
    }
}

/// The errors of a rule applied to a whole text, given where the rule
/// ended (`None` where it did not match) and the errors it reported: those
/// errors where it took the whole text; otherwise those errors, then the
/// errors that the tracker kept from the attempt that got furthest, then
/// the error about the place where that attempt failed.
pub fn finish(src: &Src, end: Option<usize>, errs: Vec<ParseError>, f: &mut Furthest) -> (r: Vec<ParseError>)
    requires
        src.wf(),
    ensures
        end == Some(src.chars.len()) ==> r@ == errs@,
        end != Some(src.chars.len()) ==> {
            let v = finish_v(src.chars@, end, old(f)@);
            &&& r@.len() == errs@.len() + v.before.len() + 1
            &&& r@.take((errs@.len() + v.before.len()) as int) == errs@ + v.before
            &&& is_report(src.chars@, v, r@.last())
        },
{
    let mut errs = errs;
    match end {
        Some(e) => {
            if e == src.chars.len() {
                return errs;
            }
            f.expect(e, Token::EndOfInput);
        },
        None => {},
    }
    let ghost v = f@;
    let ghost first = errs@;
    let mut before: Vec<ParseError> = Vec::new();
    std::mem::swap(&mut before, &mut f.before);
    errs.append(&mut before);
    let last = f.take_report(src);
    errs.push(last);
    assert(errs@.take((first.len() + v.before.len()) as int) =~= first + v.before);
    errs
}

/// `r` is the error list `es`, then the errors that the tracker `v` kept
/// from the attempt that got furthest, then its report (see [`is_report`]).
pub open spec fn trailing_report(
    s: Seq<char>,
    es: Seq<ParseError>,
    r: Result<Seq<(Span, NodeV)>, Seq<ParseError>>,
    v: FurthestV,
) -> bool {
    &&& r matches Err(w)
    &&& w.len() == es.len() + v.before.len() + 1
    &&& w.take((es.len() + v.before.len()) as int) == es + v.before
    &&& is_report(s, v, w.last())
}

/// A failure tracker that has seen no failure.
pub open spec fn fresh_furthest() -> FurthestV {
    FurthestV {
        at: 0,
        label: crate::errors::Label::UnexpectedToken,
        expected: Seq::empty(),
        special: None,
        before: Seq::empty(),
    }
}

/// The failure tracker after the nodes of a document were read.
pub open spec fn document_furthest(s: Seq<char>) -> FurthestV {
    nodes_furthest(s, doc_start(s), fresh_furthest())
}

/// The failure tracker from which a document whose nodes do not take the
/// whole text is reported: after its nodes, with the end of the input
/// expected where they end.
pub open spec fn document_report_v(s: Seq<char>) -> FurthestV {
    finish_v(s, Some(sp_document(s).1 as usize), document_furthest(s))
}

/// What a parse of `s` that fails gives: `v` is the errors reported in the
/// nodes, and, where the nodes do not take the whole text, then the errors
/// that the tracker kept and its report (see [`document_report_v`]).
pub open spec fn parse_failure(s: Seq<char>, v: Seq<ParseError>) -> bool {
    &&& parse_outcome(s, Err(v))
    &&& sp_document(s).1 != s.len() ==> trailing_report(s, sp_document(s).2, Err(v), document_report_v(s))
}

/// Parses a document.
pub fn document(src: &Src) -> (r: Result<crate::ast::Document, Vec<ParseError>>)
    requires
        src.wf(),
    ensures
        parse_outcome(src.chars@, result_view(r)),
        sp_document(src.chars@).1 != src.chars@.len() ==> trailing_report(
            src.chars@,
            sp_document(src.chars@).2,
            result_view(r),
            document_report_v(src.chars@),
        ),
{
    let mut f = Furthest::new();
    let start = if src.chars.len() > 0 && src.chars[0] == '\u{FEFF}' {
        1
    } else {
        0
    };
    let mut errs: Vec<ParseError> = Vec::new();
    let (ns, e) = nodes(src, start, &mut errs, &mut f);
    assert(errs@ =~= sp_document(src.chars@).2);
    assert(f@ == document_furthest(src.chars@));
    if e == src.chars.len() && errs.len() == 0 {
        Ok(crate::ast::Document { nodes: ns })
    } else {
        let ghost es = errs@;
        let ghost w = finish_v(src.chars@, Some(e), f@);
        let out = finish(src, Some(e), errs, &mut f);
        proof {
            if e != src.chars.len() {
                let k = (es.len() + w.before.len()) as int;
                assert(out@.take(k).take(es.len() as int) =~= out@.take(es.len() as int));
                assert((es + w.before).take(es.len() as int) =~= es);
                assert(trailing_report(src.chars@, es, result_view(Err(out)), w));
            }
        }
        Err(out)
    }
}

} // verus!

verus! {

/// A node whose properties, and those of all the nodes inside it, are
/// ordered by name, each name once.
pub open spec fn node_wf(n: NodeV) -> bool
    decreases n,
{
    &&& props_sorted(n.properties)
    &&& match n.children {
        Some(c) => nodes_wf(c.1),
        None => true,
    }
}

/// Nodes that are all well-formed (see [`node_wf`]).
pub open spec fn nodes_wf(ns: Seq<(Span, NodeV)>) -> bool
    decreases ns,
{
    if ns.len() == 0 {
        true
    } else {
        nodes_wf(ns.drop_last()) && node_wf(ns.last().1)
    }
}

/// Well-formed nodes are well-formed one by one.
pub proof fn lemma_nodes_wf_index(ns: Seq<(Span, NodeV)>, i: int)
    requires
        nodes_wf(ns),
        0 <= i < ns.len(),
    ensures
        node_wf(ns[i].1),
    decreases ns.len(),
{
    if i < ns.len() - 1 {
        lemma_nodes_wf_index(ns.drop_last(), i);
    }
}

proof fn lemma_node_items_sorted(
    s: Seq<char>,
    q: int,
    args: Seq<ValueV>,
    props: Seq<((Span, Seq<char>), ValueV)>,
    errs: Seq<ParseError>,
)
    requires
        props_sorted(props),
    ensures
        props_sorted(sp_node_items(s, q, args, props, errs).1),
    decreases s.len() - q,
{
    if 0 <= q <= s.len() {
        let a = sp_node_spaces(s, q);
        if a > q {
            match sp_prop_or_arg(s, a) {
                Some((it, e, es)) => if q < e <= s.len() {
                    match it {
                        ItemV::Prop(n, v) => lemma_props_insert_sorted(props, n, v),
                        _ => {},
                    }
                    let (args2, props2) = apply_item(args, props, it);
                    lemma_node_items_sorted(s, e, args2, props2, errs + es);
                },
                None => {},
            }
        }
    }
}

proof fn lemma_sp_node_wf(s: Seq<char>, p: int)
    ensures
        sp_node(s, p) matches Some((n, _, _)) ==> node_wf(n),
    decreases s.len() - p, 0int,
{
    if 0 <= p <= s.len() {
        let (tn, a, es0) = match sp_type_tag(s, p) {
            Some((t, e, es)) => (Some((span_at(s, p, run(s, e, Class::Ws)), t)), run(s, e, Class::Ws), es),
            None => (None, p, Seq::empty()),
        };
        match crate::grammar::words::sp_ident(s, a) {
            None => {},
            Some((name, b, es1)) => {
                lemma_node_items_sorted(s, b, Seq::empty(), Seq::empty(), Seq::empty());
                let (args, props, c, es2) = sp_node_items(s, b, Seq::empty(), Seq::empty(), Seq::empty());
                let d0 = sp_node_spaces(s, c);
                let slash = 0 <= d0 && d0 + 1 < s.len() && s[d0] == '/' && s[d0 + 1] == '-';
                let d1 = if slash {
                    sp_line_spaces(s, d0 + 2)
                } else {
                    d0
                };
                if p < d1 <= s.len() {
                    lemma_sp_braced_wf(s, d1);
                }
            },
        }
    }
}

proof fn lemma_sp_braced_wf(s: Seq<char>, d: int)
    ensures
        sp_braced(s, d) matches Some((ns, _, _)) ==> nodes_wf(ns),
    decreases s.len() - d, 3int,
{
    if 0 <= d < s.len() && s[d] == '{' {
        lemma_sp_nodes_wf(s, d + 1);
    }
}

proof fn lemma_sp_nodes_wf(s: Seq<char>, p: int)
    ensures
        nodes_wf(sp_nodes(s, p).0),
    decreases s.len() - p, 2int,
{
    let a = sp_line_spaces(s, p);
    if 0 <= p <= a <= s.len() {
        lemma_sp_nodes_loop_wf(s, a, Seq::empty(), Seq::empty());
    }
}

proof fn lemma_sp_nodes_loop_wf(s: Seq<char>, q: int, acc: Seq<(Span, NodeV)>, errs: Seq<ParseError>)
    requires
        nodes_wf(acc),
    ensures
        nodes_wf(sp_nodes_loop(s, q, acc, errs).0),
    decreases s.len() - q, 1int,
{
    if 0 <= q <= s.len() {
        let slash = q + 1 < s.len() && s[q] == '/' && s[q + 1] == '-';
        let a = if slash {
            sp_line_spaces(s, q + 2)
        } else {
            q
        };
        if q <= a <= s.len() {
            lemma_sp_node_wf(s, a);
            match sp_node(s, a) {
                Some((n, e, es)) => if a < e <= s.len() {
                    let acc2 = if slash {
                        acc
                    } else {
                        acc.push((span_at(s, a, e), n))
                    };
                    assert(nodes_wf(acc2)) by {
                        if !slash {
                            assert(acc2.drop_last() =~= acc);
                        }
                    }
                    let b = sp_line_spaces(s, e);
                    if e <= b <= s.len() {
                        lemma_sp_nodes_loop_wf(s, b, acc2, errs + es);
                    }
                },
                None => {},
            }
        }
    }
}

/// In every node of a parsed document, nested ones too, the properties
/// are ordered by name and each name occurs once.
pub proof fn lemma_document_props_sorted(s: Seq<char>)
    ensures
        nodes_wf(sp_document(s).0),
{
    lemma_sp_nodes_wf(s, doc_start(s));
}

} // verus!

verus! {

/// Spans of whole characters of `s`, each ending before the next starts.
pub open spec fn spans_in_order(s: Seq<char>, ns: Seq<(Span, NodeV)>) -> bool {
    &&& forall|i: int| 0 <= i < ns.len() ==> span_in_text((#[trigger] ns[i]).0, s)
    &&& forall|i: int, j: int| 0 <= i < j < ns.len() ==> (#[trigger] ns[i]).0.1 <= (#[trigger] ns[j]).0.0
}

/// The children of a node, and theirs in turn, have spans in order (see
/// [`spans_in_order`]).
pub open spec fn node_spans_ok(s: Seq<char>, n: NodeV) -> bool
    decreases n,
{
    match n.children {
        Some(c) => spans_in_order(s, c.1) && nodes_spans_ok(s, c.1),
        None => true,
    }
}

/// Each of the nodes has children with spans in order, at every depth.
pub open spec fn nodes_spans_ok(s: Seq<char>, ns: Seq<(Span, NodeV)>) -> bool
    decreases ns,
{
    if ns.len() == 0 {
        true
    } else {
        nodes_spans_ok(s, ns.drop_last()) && node_spans_ok(s, ns.last().1)
    }
}

/// Nodes with children in order at every depth are so one by one.
pub proof fn lemma_nodes_spans_ok_index(s: Seq<char>, ns: Seq<(Span, NodeV)>, i: int)
    requires
        nodes_spans_ok(s, ns),
        0 <= i < ns.len(),
    ensures
        node_spans_ok(s, ns[i].1),
    decreases ns.len(),
{
    if i < ns.len() - 1 {
        lemma_nodes_spans_ok_index(s, ns.drop_last(), i);
    }
}

proof fn lemma_sp_node_spans(s: Seq<char>, p: int)
    requires
        bytes_len(s) <= usize::MAX,
    ensures
        sp_node(s, p) matches Some((n, _, _)) ==> node_spans_ok(s, n),
    decreases s.len() - p, 0int,
{
    if 0 <= p <= s.len() {
        let (tn, a, es0) = match sp_type_tag(s, p) {
            Some((t, e, es)) => (Some((span_at(s, p, run(s, e, Class::Ws)), t)), run(s, e, Class::Ws), es),
            None => (None, p, Seq::empty()),
        };
        match crate::grammar::words::sp_ident(s, a) {
            None => {},
            Some((name, b, es1)) => {
                let (args, props, c, es2) = sp_node_items(s, b, Seq::empty(), Seq::empty(), Seq::empty());
                let d0 = sp_node_spaces(s, c);
                let slash = 0 <= d0 && d0 + 1 < s.len() && s[d0] == '/' && s[d0 + 1] == '-';
                let d1 = if slash {
                    sp_line_spaces(s, d0 + 2)
                } else {
                    d0
                };
                if p < d1 <= s.len() {
                    lemma_sp_braced_spans(s, d1);
                }
            },
        }
    }
}

proof fn lemma_sp_braced_spans(s: Seq<char>, d: int)
    requires
        bytes_len(s) <= usize::MAX,
    ensures
        sp_braced(s, d) matches Some((ns, _, _)) ==> spans_in_order(s, ns) && nodes_spans_ok(s, ns),
    decreases s.len() - d, 3int,
{
    if 0 <= d < s.len() && s[d] == '{' {
        lemma_sp_nodes_spans(s, d + 1);
    }
}

proof fn lemma_sp_nodes_spans(s: Seq<char>, p: int)
    requires
        bytes_len(s) <= usize::MAX,
    ensures
        spans_in_order(s, sp_nodes(s, p).0),
        nodes_spans_ok(s, sp_nodes(s, p).0),
    decreases s.len() - p, 2int,
{
    let a = sp_line_spaces(s, p);
    if 0 <= p <= a <= s.len() {
        lemma_sp_nodes_loop_spans(s, a, Seq::empty(), Seq::empty());
    }
}

proof fn lemma_sp_nodes_loop_spans(s: Seq<char>, q: int, acc: Seq<(Span, NodeV)>, errs: Seq<ParseError>)
    requires
        bytes_len(s) <= usize::MAX,
        0 <= q <= s.len(),
        spans_in_order(s, acc),
        nodes_spans_ok(s, acc),
        forall|i: int| 0 <= i < acc.len() ==> (#[trigger] acc[i]).0.1 <= byte_at(s, q),
    ensures
        spans_in_order(s, sp_nodes_loop(s, q, acc, errs).0),
        nodes_spans_ok(s, sp_nodes_loop(s, q, acc, errs).0),
    decreases s.len() - q, 1int,
{
    let slash = q + 1 < s.len() && s[q] == '/' && s[q + 1] == '-';
    let a = if slash {
        sp_line_spaces(s, q + 2)
    } else {
        q
    };
    if q <= a <= s.len() {
        lemma_sp_node_spans(s, a);
        match sp_node(s, a) {
            Some((n, e, es)) => if a < e <= s.len() {
                lemma_byte_at_mono(s, q, a);
                lemma_byte_at_mono(s, a, e);
                lemma_byte_at_mono(s, e, s.len() as int);
                lemma_byte_at_full(s);
                let sp = span_at(s, a, e);
                let acc2 = if slash {
                    acc
                } else {
                    acc.push((sp, n))
                };
                assert(span_in_text(sp, s)) by {
                    assert(0 <= a <= s.len() && byte_at(s, a) == sp.0 as int);
                    assert(0 <= e <= s.len() && byte_at(s, e) == sp.1 as int);
                }
                assert(spans_in_order(s, acc2) && nodes_spans_ok(s, acc2)) by {
                    if !slash {
                        assert(acc2.drop_last() =~= acc);
                        assert forall|i: int| 0 <= i < acc2.len() implies span_in_text((#[trigger] acc2[i]).0, s) by {
                            if i < acc.len() {
                                assert(acc2[i] == acc[i]);
                            }
                        }
                        assert forall|i: int, j: int| 0 <= i < j < acc2.len() implies (#[trigger] acc2[i]).0.1 <= (#[trigger] acc2[j]).0.0 by {
                            assert(acc2[i] == acc[i]);
                            if j < acc.len() {
                                assert(acc2[j] == acc[j]);
                            }
                        }
                    }
                }
                let b = sp_line_spaces(s, e);
                if e <= b <= s.len() {
                    lemma_byte_at_mono(s, e, b);
                    assert forall|i: int| 0 <= i < acc2.len() implies (#[trigger] acc2[i]).0.1 <= byte_at(s, b) by {
                        if i < acc.len() {
                            assert(acc2[i] == acc[i]);
                        }
                    }
                    lemma_sp_nodes_loop_spans(s, b, acc2, errs + es);
                }
            },
            None => {},
        }
    }
}

/// The spans of the nodes of a parsed document, and of the nodes inside
/// them at every depth, are ranges of whole characters of the text, in the
/// order of the text and not overlapping among siblings; so each of them can
/// be turned into lines and columns.
pub proof fn lemma_document_spans(s: Seq<char>)
    requires
        bytes_len(s) <= usize::MAX,
    ensures
        spans_in_order(s, sp_document(s).0),
        nodes_spans_ok(s, sp_document(s).0),
{
    lemma_sp_nodes_spans(s, doc_start(s));
}

} // verus!

