//! Decoding the syntax tree into itself: a document can be decoded into
//! its own nodes, values and literals.
use vstd::prelude::*;

use crate::ast::{
    lemma_nodes_view_pointwise, props_view, Literal, Node, SpannedName, SpannedNode, TypeName,
    Value,
};
use crate::decode::Context;
use crate::errors::DecodeError;
use crate::span::Spanned;
use crate::traits::{Decode, DecodeScalar, DecodeSpan};

verus! {

broadcast use vstd::std_specs::vec::group_vec_axioms;

/// A copy of `node` made through the decoding context, as decoding a node
/// into a `Node` does.
fn decode_node_copy(node: &Node, ctx: &mut Context) -> (r: Result<Node, DecodeError>)
    ensures
        r matches Ok(n) && n@ == node@,
        *final(ctx) == *old(ctx),
    decreases node,
{
    let type_tag = match &node.type_tag {
        Some(n) => Some(n.clone_as(ctx)),
        None => None,
    };
    let node_name = node.node_name.clone_as(ctx);
    let mut arguments: Vec<Value> = Vec::new();
    let mut i: usize = 0;
    while i < node.arguments.len()
        invariant
            i <= node.arguments.len(),
            *ctx == *old(ctx),
            arguments@.len() == i,
            forall|j: int| 0 <= j < i ==> #[trigger] arguments@[j]@ == node.arguments@[j]@,
        decreases node.arguments.len() - i,
    {
        let v = <Value as DecodeScalar>::decode(&node.arguments[i], ctx)?;
        arguments.push(v);
        i = i + 1;
    }
    let mut properties: Vec<(SpannedName, Value)> = Vec::new();
    let mut i: usize = 0;
    while i < node.properties.len()
        invariant
            i <= node.properties.len(),
            *ctx == *old(ctx),
            properties@.len() == i,
            forall|j: int| 0 <= j < i ==> #[trigger] properties@[j].0 == node.properties@[j].0
                && properties@[j].1@ == node.properties@[j].1@,
        decreases node.properties.len() - i,
    {
        let (k, v) = &node.properties[i];
        let k2 = k.clone_as(ctx);
        let v2 = <Value as DecodeScalar>::decode(v, ctx)?;
        properties.push((k2, v2));
        i = i + 1;
    }
    let children = match &node.children {
        None => None,
        Some(sc) => {
            let span = DecodeSpan::decode_span(&sc.span, ctx);
            let mut v: Vec<SpannedNode> = Vec::new();
            let mut i: usize = 0;
            while i < sc.value.len()
                invariant
                    i <= sc.value.len(),
                    node.children == Some(*sc),
                    *ctx == *old(ctx),
                    v@.len() == i,
                    forall|j: int| 0 <= j < i ==> #[trigger] v@[j]@ == sc.value@[j]@,
                decreases sc.value.len() - i,
            {
                let n = &sc.value[i];
                proof {
                    assert(decreases_to!(*node => node.children));
                    assert(decreases_to!(node.children => node.children->0));
                    assert(decreases_to!(*sc => sc.value));
                    assert(decreases_to!(sc.value => sc.value[i as int]));
                    assert(decreases_to!(sc.value[i as int] => n.value));
                }
                let nspan = DecodeSpan::decode_span(&n.span, ctx);
                let value = decode_node_copy(&n.value, ctx)?;
                v.push(Spanned { span: nspan, value });
                i = i + 1;
            }
            proof {
                lemma_nodes_view_pointwise(v@, sc.value@);
            }
            Some(Spanned { span, value: v })
        },
    };
    proof {
        assert(arguments@.map_values(|v: Value| v@) =~= node.arguments@.map_values(|v: Value| v@));
        assert(props_view(properties@) =~= props_view(node.properties@));
    }
    Ok(Node { type_tag, node_name, arguments, properties, children })
}

impl Decode for Node {
    fn decode_node(node: &SpannedNode, ctx: &mut Context) -> (r: Result<Self, DecodeError>)
        ensures
            r matches Ok(n) && n@ == node.value@,
            *final(ctx) == *old(ctx),
    {
        decode_node_copy(&node.value, ctx)
    }
}

impl Decode for SpannedNode {
    fn decode_node(node: &SpannedNode, ctx: &mut Context) -> (r: Result<Self, DecodeError>)
        ensures
            r matches Ok(n) && n@ == node@,
            *final(ctx) == *old(ctx),
    {
        Ok(Spanned {
            span: DecodeSpan::decode_span(&node.span, ctx),
            value: <Node as Decode>::decode_node(node, ctx)?,
        })
    }
}

impl DecodeScalar for Value {
    fn type_check(_type_tag: &Option<Spanned<TypeName>>, _ctx: &mut Context)
        ensures
            *final(_ctx) == *old(_ctx),
    {
    }

    /// A value is decoded whole, with its type name: its literal alone
    /// gives no value.
    fn raw_decode(value: &Spanned<Literal>, _ctx: &mut Context) -> (r: Result<Self, DecodeError>)
        ensures
            r matches Err(e) && e is Unsupported,
            *final(_ctx) == *old(_ctx),
    {
        Err(DecodeError::Unsupported {
            span: value.span,
            message: "called `raw_decode` directly on the `Value`".to_string(),
        })
    }

    fn decode(value: &Value, ctx: &mut Context) -> (r: Result<Self, DecodeError>)
        ensures
            r == Ok::<Value, DecodeError>(*value),
            *final(ctx) == *old(ctx),
    {
        Ok(Value {
            type_tag: match &value.type_tag {
                Some(n) => Some(n.clone_as(ctx)),
                None => None,
            },
            literal: value.literal.clone_as(ctx),
        })
    }
}

impl DecodeScalar for Literal {
    fn type_check(_type_tag: &Option<Spanned<TypeName>>, _ctx: &mut Context)
        ensures
            *final(_ctx) == *old(_ctx),
    {
    }

    fn raw_decode(value: &Spanned<Literal>, _ctx: &mut Context) -> (r: Result<Self, DecodeError>)
        ensures
            r == Ok::<Literal, DecodeError>(value.value),
            *final(_ctx) == *old(_ctx),
    {
        Ok(value.value.clone())
    }
}

} // verus!
