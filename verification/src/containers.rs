//! Decoding into boxes, shared pointers, vectors, options and spanned values.
use std::rc::Rc;
use std::sync::Arc;

use vstd::prelude::*;

use crate::ast::{Literal, SpannedNode, TypeName, Value};
use crate::decode::Context;
use crate::errors::DecodeError;
use crate::span::{Span, Spanned};
use crate::traits::{Decode, DecodeChildren, DecodePartial, DecodeScalar, DecodeSpan};

verus! {

/// `Arc::get_mut`: the value inside `a`, to be changed through the returned
/// reference, or `None`, with `a` left as it was. Whether `None` comes
/// depends on the other pointers to the same value, which this contract
/// does not state.
#[verifier::external_body]
fn arc_get_mut<T>(a: &mut Arc<T>) -> (r: Option<&mut T>)
    ensures
        match r {
            None => *final(a) == *old(a),
            Some(v) => *v == **old(a) && **final(a) == *final(v),
        },
{
    Arc::get_mut(a)
}

/// `Rc::get_mut`: the value inside `a`, to be changed through the returned
/// reference, or `None`, with `a` left as it was. Whether `None` comes
/// depends on the other pointers to the same value, which this contract
/// does not state.
#[verifier::external_body]
fn rc_get_mut<T>(a: &mut Rc<T>) -> (r: Option<&mut T>)
    ensures
        match r {
            None => *final(a) == *old(a),
            Some(v) => *v == **old(a) && **final(a) == *final(v),
        },
{
    Rc::get_mut(a)
}

/// `r` holds in a box what `v` holds, or the same error.
pub open spec fn boxed<T>(r: Result<Box<T>, DecodeError>, v: Result<T, DecodeError>) -> bool {
    match (r, v) {
        (Ok(b), Ok(x)) => *b == x,
        (Err(e1), Err(e2)) => e1 == e2,
        _ => false,
    }
}

/// `r` holds in an `Arc` what `v` holds, or the same error.
pub open spec fn arced<T>(r: Result<Arc<T>, DecodeError>, v: Result<T, DecodeError>) -> bool {
    match (r, v) {
        (Ok(b), Ok(x)) => *b == x,
        (Err(e1), Err(e2)) => e1 == e2,
        _ => false,
    }
}

/// `r` holds in an `Rc` what `v` holds, or the same error.
pub open spec fn rced<T>(r: Result<Rc<T>, DecodeError>, v: Result<T, DecodeError>) -> bool {
    match (r, v) {
        (Ok(b), Ok(x)) => *b == x,
        (Err(e1), Err(e2)) => e1 == e2,
        _ => false,
    }
}

impl<T: Decode> Decode for Box<T> {
    fn decode_node(node: &SpannedNode, ctx: &mut Context) -> (r: Result<Self, DecodeError>)
        ensures
            exists|c: &mut Context, v: Result<T, DecodeError>|
                *c == *old(ctx) && *final(c) == *final(ctx) && #[trigger] call_ensures(T::decode_node, (node, c), v)
                    && boxed(r, v),
    {
        match T::decode_node(node, ctx) {
            Ok(v) => Ok(Box::new(v)),
            Err(e) => Err(e),
        }
    }
}

impl<T: DecodeChildren> DecodeChildren for Box<T> {
    fn decode_children(nodes: &[SpannedNode], ctx: &mut Context) -> (r: Result<Self, DecodeError>)
        ensures
            exists|c: &mut Context, v: Result<T, DecodeError>|
                *c == *old(ctx) && *final(c) == *final(ctx) && #[trigger] call_ensures(T::decode_children, (nodes, c), v)
                    && boxed(r, v),
    {
        match T::decode_children(nodes, ctx) {
            Ok(v) => Ok(Box::new(v)),
            Err(e) => Err(e),
        }
    }
}

impl<T: DecodePartial> DecodePartial for Box<T> {
    fn insert_child(&mut self, node: &SpannedNode, ctx: &mut Context) -> (r: Result<bool, DecodeError>)
        ensures
            exists|s: &mut T, c: &mut Context|
                *s == **old(self) && *final(s) == **final(self) && *c == *old(ctx) && *final(c) == *final(ctx)
                    && #[trigger] call_ensures(T::insert_child, (s, node, c), r),
    {
        let inner: &mut T = &mut **self;
        inner.insert_child(node, ctx)
    }

    fn insert_property(
        &mut self,
        name: &Spanned<String>,
        value: &Value,
        ctx: &mut Context,
    ) -> (r: Result<bool, DecodeError>)
        ensures
            exists|s: &mut T, c: &mut Context|
                *s == **old(self) && *final(s) == **final(self) && *c == *old(ctx) && *final(c) == *final(ctx)
                    && #[trigger] call_ensures(T::insert_property, (s, name, value, c), r),
    {
        let inner: &mut T = &mut **self;
        inner.insert_property(name, value, ctx)
    }
}

impl<T: DecodeScalar> DecodeScalar for Box<T> {
    fn type_check(type_tag: &Option<Spanned<TypeName>>, ctx: &mut Context)
        ensures
            exists|c: &mut Context|
                *c == *old(ctx) && *final(c) == *final(ctx) && #[trigger] call_ensures(T::type_check, (type_tag, c), ()),
    {
        T::type_check(type_tag, ctx)
    }

    fn raw_decode(value: &Spanned<Literal>, ctx: &mut Context) -> (r: Result<Self, DecodeError>)
        ensures
            exists|c: &mut Context, v: Result<T, DecodeError>|
                *c == *old(ctx) && *final(c) == *final(ctx) && #[trigger] call_ensures(T::raw_decode, (value, c), v)
                    && boxed(r, v),
    {
        match T::raw_decode(value, ctx) {
            Ok(v) => Ok(Box::new(v)),
            Err(e) => Err(e),
        }
    }
}

impl<T: Decode> Decode for Arc<T> {
    fn decode_node(node: &SpannedNode, ctx: &mut Context) -> (r: Result<Self, DecodeError>)
        ensures
            exists|c: &mut Context, v: Result<T, DecodeError>|
                *c == *old(ctx) && *final(c) == *final(ctx) && #[trigger] call_ensures(T::decode_node, (node, c), v)
                    && arced(r, v),
    {
        match T::decode_node(node, ctx) {
            Ok(v) => Ok(Arc::new(v)),
            Err(e) => Err(e),
        }
    }
}

impl<T: DecodeChildren> DecodeChildren for Arc<T> {
    fn decode_children(nodes: &[SpannedNode], ctx: &mut Context) -> (r: Result<Self, DecodeError>)
        ensures
            exists|c: &mut Context, v: Result<T, DecodeError>|
                *c == *old(ctx) && *final(c) == *final(ctx) && #[trigger] call_ensures(T::decode_children, (nodes, c), v)
                    && arced(r, v),
    {
        match T::decode_children(nodes, ctx) {
            Ok(v) => Ok(Arc::new(v)),
            Err(e) => Err(e),
        }
    }
}

/// The error of inserting into a value that is shared already: decoding
/// fills a value before any other pointer to it exists.
fn shared_error(span: Span) -> (r: DecodeError)
    ensures
        is_shared_error(Err::<bool, DecodeError>(r), span),
{
    DecodeError::Unsupported { span, message: "cannot insert into a shared value".to_owned() }
}

/// `r` is the error of inserting, at `span`, into a value that is shared.
pub open spec fn is_shared_error(r: Result<bool, DecodeError>, span: Span) -> bool {
    r matches Err(DecodeError::Unsupported { span: s, message: m }) && s == span
        && m@ == "cannot insert into a shared value"@
}

impl<T: DecodePartial> DecodePartial for Arc<T> {
    fn insert_child(&mut self, node: &SpannedNode, ctx: &mut Context) -> (r: Result<bool, DecodeError>)
        ensures
            (is_shared_error(r, node.span) && *final(self) == *old(self) && *final(ctx) == *old(ctx))
                || exists|s: &mut T, c: &mut Context|
                *s == **old(self) && *final(s) == **final(self) && *c == *old(ctx) && *final(c) == *final(ctx)
                    && #[trigger] call_ensures(T::insert_child, (s, node, c), r),
    {
        match arc_get_mut(self) {
            Some(inner) => inner.insert_child(node, ctx),
            None => Err(shared_error(node.span)),
        }
    }

    fn insert_property(
        &mut self,
        name: &Spanned<String>,
        value: &Value,
        ctx: &mut Context,
    ) -> (r: Result<bool, DecodeError>)
        ensures
            (is_shared_error(r, name.span) && *final(self) == *old(self) && *final(ctx) == *old(ctx))
                || exists|s: &mut T, c: &mut Context|
                *s == **old(self) && *final(s) == **final(self) && *c == *old(ctx) && *final(c) == *final(ctx)
                    && #[trigger] call_ensures(T::insert_property, (s, name, value, c), r),
    {
        match arc_get_mut(self) {
            Some(inner) => inner.insert_property(name, value, ctx),
            None => Err(shared_error(name.span)),
        }
    }
}

impl<T: DecodeScalar> DecodeScalar for Arc<T> {
    fn type_check(type_tag: &Option<Spanned<TypeName>>, ctx: &mut Context)
        ensures
            exists|c: &mut Context|
                *c == *old(ctx) && *final(c) == *final(ctx) && #[trigger] call_ensures(T::type_check, (type_tag, c), ()),
    {
        T::type_check(type_tag, ctx)
    }

    fn raw_decode(value: &Spanned<Literal>, ctx: &mut Context) -> (r: Result<Self, DecodeError>)
        ensures
            exists|c: &mut Context, v: Result<T, DecodeError>|
                *c == *old(ctx) && *final(c) == *final(ctx) && #[trigger] call_ensures(T::raw_decode, (value, c), v)
                    && arced(r, v),
    {
        match T::raw_decode(value, ctx) {
            Ok(v) => Ok(Arc::new(v)),
            Err(e) => Err(e),
        }
    }
}

impl<T: Decode> Decode for Rc<T> {
    fn decode_node(node: &SpannedNode, ctx: &mut Context) -> (r: Result<Self, DecodeError>)
        ensures
            exists|c: &mut Context, v: Result<T, DecodeError>|
                *c == *old(ctx) && *final(c) == *final(ctx) && #[trigger] call_ensures(T::decode_node, (node, c), v)
                    && rced(r, v),
    {
        match T::decode_node(node, ctx) {
            Ok(v) => Ok(Rc::new(v)),
            Err(e) => Err(e),
        }
    }
}

impl<T: DecodeChildren> DecodeChildren for Rc<T> {
    fn decode_children(nodes: &[SpannedNode], ctx: &mut Context) -> (r: Result<Self, DecodeError>)
        ensures
            exists|c: &mut Context, v: Result<T, DecodeError>|
                *c == *old(ctx) && *final(c) == *final(ctx) && #[trigger] call_ensures(T::decode_children, (nodes, c), v)
                    && rced(r, v),
    {
        match T::decode_children(nodes, ctx) {
            Ok(v) => Ok(Rc::new(v)),
            Err(e) => Err(e),
        }
    }
}

impl<T: DecodePartial> DecodePartial for Rc<T> {
    fn insert_child(&mut self, node: &SpannedNode, ctx: &mut Context) -> (r: Result<bool, DecodeError>)
        ensures
            (is_shared_error(r, node.span) && *final(self) == *old(self) && *final(ctx) == *old(ctx))
                || exists|s: &mut T, c: &mut Context|
                *s == **old(self) && *final(s) == **final(self) && *c == *old(ctx) && *final(c) == *final(ctx)
                    && #[trigger] call_ensures(T::insert_child, (s, node, c), r),
    {
        match rc_get_mut(self) {
            Some(inner) => inner.insert_child(node, ctx),
            None => Err(shared_error(node.span)),
        }
    }

    fn insert_property(
        &mut self,
        name: &Spanned<String>,
        value: &Value,
        ctx: &mut Context,
    ) -> (r: Result<bool, DecodeError>)
        ensures
            (is_shared_error(r, name.span) && *final(self) == *old(self) && *final(ctx) == *old(ctx))
                || exists|s: &mut T, c: &mut Context|
                *s == **old(self) && *final(s) == **final(self) && *c == *old(ctx) && *final(c) == *final(ctx)
                    && #[trigger] call_ensures(T::insert_property, (s, name, value, c), r),
    {
        match rc_get_mut(self) {
            Some(inner) => inner.insert_property(name, value, ctx),
            None => Err(shared_error(name.span)),
        }
    }
}

impl<T: DecodeScalar> DecodeScalar for Rc<T> {
    fn type_check(type_tag: &Option<Spanned<TypeName>>, ctx: &mut Context)
        ensures
            exists|c: &mut Context|
                *c == *old(ctx) && *final(c) == *final(ctx) && #[trigger] call_ensures(T::type_check, (type_tag, c), ()),
    {
        T::type_check(type_tag, ctx)
    }

    fn raw_decode(value: &Spanned<Literal>, ctx: &mut Context) -> (r: Result<Self, DecodeError>)
        ensures
            exists|c: &mut Context, v: Result<T, DecodeError>|
                *c == *old(ctx) && *final(c) == *final(ctx) && #[trigger] call_ensures(T::raw_decode, (value, c), v)
                    && rced(r, v),
    {
        match T::raw_decode(value, ctx) {
            Ok(v) => Ok(Rc::new(v)),
            Err(e) => Err(e),
        }
    }
}

/// The values among the outcomes `outs`, in order.
pub open spec fn decoded_values<T>(outs: Seq<Result<T, DecodeError>>) -> Seq<T>
    decreases outs.len(),
{
    if outs.len() == 0 {
        Seq::empty()
    } else {
        let rest = decoded_values(outs.drop_last());
        match outs.last() {
            Ok(v) => rest.push(v),
            Err(_) => rest,
        }
    }
}

/// The errors among the outcomes `outs`, in order.
pub open spec fn decode_failures<T>(outs: Seq<Result<T, DecodeError>>) -> Seq<DecodeError>
    decreases outs.len(),
{
    if outs.len() == 0 {
        Seq::empty()
    } else {
        let rest = decode_failures(outs.drop_last());
        match outs.last() {
            Ok(_) => rest,
            Err(e) => rest.push(e),
        }
    }
}

/// Every outcome is a value or an error, never both.
pub proof fn lemma_decoded_counts<T>(outs: Seq<Result<T, DecodeError>>)
    ensures
        decoded_values(outs).len() + decode_failures(outs).len() == outs.len(),
    decreases outs.len(),
{
    if outs.len() > 0 {
        lemma_decoded_counts(outs.drop_last());
    }
}

/// The contexts and outcomes of decoding `n` nodes one after the other,
/// from the context `first` to `last`: there are `n` outcomes `outs`, `n`
/// contexts `mids` that the calls left, and `n + 1` contexts `ctxs` that
/// the calls started from, the first being `first` and the last `last`.
pub open spec fn decode_chain<T>(
    n: nat,
    first: Context,
    last: Context,
    outs: Seq<Result<T, DecodeError>>,
    mids: Seq<Context>,
    ctxs: Seq<Context>,
) -> bool {
    &&& outs.len() == n
    &&& mids.len() == n
    &&& ctxs.len() == n + 1
    &&& ctxs[0] == first
    &&& ctxs[n as int] == last
}

/// After a call of `T::decode_node` that gave `out` and left the context
/// `mid`, the next node starts from `next`: `mid` itself where the call
/// gave a value, `mid` with the error added where it gave one.
pub open spec fn emitted<T>(out: Result<T, DecodeError>, mid: Context, next: Context) -> bool {
    match out {
        Ok(_) => next == mid,
        Err(e) => next.errors() == mid.errors().push(e),
    }
}

/// One call of `T::decode_node`, with the context it left.
fn decode_step<T: Decode>(node: &SpannedNode, ctx: &mut Context) -> (r: (Result<T, DecodeError>, Ghost<Context>))
    ensures
        exists|c: &mut Context|
            #![trigger call_ensures(T::decode_node, (node, c), r.0)]
            *c == *old(ctx) && *final(c) == r.1@ && call_ensures(T::decode_node, (node, c), r.0),
        r.1@ == *final(ctx),
{
    let out: Result<T, DecodeError> = T::decode_node(node, ctx);
    let ghost left = *ctx;
    let res = (out, Ghost(left));
    proof {
        assert(res.0 == out);
    }
    res
}

/// The values of outcomes one after the other are those of each part.
proof fn lemma_decoded_values_concat<T>(a: Seq<Result<T, DecodeError>>, b: Seq<Result<T, DecodeError>>)
    ensures
        decoded_values(a + b) == decoded_values(a) + decoded_values(b),
    decreases b.len(),
{
    if b.len() == 0 {
        assert(a + b =~= a);
        assert(decoded_values(a) + decoded_values(b) =~= decoded_values(a));
    } else {
        lemma_decoded_values_concat(a, b.drop_last());
        assert((a + b).drop_last() =~= a + b.drop_last());
        assert((a + b).last() == b.last());
        match b.last() {
            Ok(v) => {
                assert(decoded_values(a) + decoded_values(b.drop_last()).push(v) =~= (decoded_values(a)
                    + decoded_values(b.drop_last())).push(v));
            },
            Err(_) => {},
        }
    }
}

/// Decodes `nodes` one after the other, keeping the values in `acc` and
/// emitting the errors into the context; gives the outcomes and the
/// contexts on the way (see [`decode_chain`] and [`emitted`]).
fn decode_rest<T: Decode>(nodes: &[SpannedNode], ctx: &mut Context, acc: &mut Vec<T>) -> (r: Ghost<
    (Seq<Result<T, DecodeError>>, Seq<Context>, Seq<Context>),
>)
    ensures
        decode_chain(nodes@.len(), *old(ctx), *final(ctx), r@.0, r@.1, r@.2),
        forall|j: int|
            #![trigger r@.0[j]]
            0 <= j < nodes@.len() ==> emitted(r@.0[j], r@.1[j], r@.2[j + 1]) && exists|c: &mut Context|
                #![trigger call_ensures(T::decode_node, (&nodes@[j], c), r@.0[j])]
                *c == r@.2[j] && *final(c) == r@.1[j] && call_ensures(T::decode_node, (&nodes@[j], c), r@.0[j]),
        final(acc)@ == old(acc)@ + decoded_values(r@.0),
    decreases nodes@.len(),
{
    if nodes.len() == 0 {
        let ghost outs = Seq::<Result<T, DecodeError>>::empty();
        proof {
            assert(acc@ =~= acc@ + decoded_values(outs));
        }
        return Ghost((outs, Seq::<Context>::empty(), seq![*ctx]));
    }
    let ghost pre = *ctx;
    let ghost acc0 = acc@;
    let node: &SpannedNode = &nodes[0];
    let (out, m) = decode_step(node, ctx);
    let ghost g = out;
    let ghost mid = m@;
    match out {
        Ok(v) => acc.push(v),
        Err(e) => ctx.emit_error(e),
    }
    let ghost acc1 = acc@;
    let ghost next = *ctx;
    let (_, tail) = nodes.split_at(1);
    let rest = decode_rest(tail, ctx, acc);
    let ghost outs = seq![g] + rest@.0;
    let ghost mids = seq![mid] + rest@.1;
    let ghost ctxs = seq![pre] + rest@.2;
    proof {
        lemma_decoded_values_concat(seq![g], rest@.0);
        let e0 = Seq::<Result<T, DecodeError>>::empty();
        assert(seq![g].drop_last() =~= e0);
        assert(decoded_values(e0) == Seq::<T>::empty());
        match g {
            Ok(v) => {
                assert(decoded_values(seq![g]) == Seq::<T>::empty().push(v));
            },
            Err(_) => {
                assert(decoded_values(seq![g]) == Seq::<T>::empty());
            },
        }
        assert(acc1 =~= acc0 + decoded_values(seq![g]));
    }
    let res: Ghost<(Seq<Result<T, DecodeError>>, Seq<Context>, Seq<Context>)> = Ghost((outs, mids, ctxs));
    proof {
        assert(nodes@[0] == *node);
        assert(res@.0[0] == g && res@.1[0] == mid && res@.2[0] == pre && res@.2[1] == next);
        assert(emitted(g, mid, next));
        assert forall|j: int| 0 < j < nodes@.len() implies #[trigger] res@.0[j] == rest@.0[j - 1] && res@.1[j]
            == rest@.1[j - 1] && res@.2[j] == rest@.2[j - 1] && res@.2[j + 1] == rest@.2[j] && nodes@[j] == tail@[j - 1] by {}
    }
    res
}

impl<T: Decode> DecodeChildren for Vec<T> {
    /// Decodes each node, in order: node `i` is decoded from the context
    /// `ctxs[i]`, with the outcome `outs[i]`, leaving the context `mids[i]`;
    /// the next node starts from that context, with the error added where
    /// the outcome is one. The values of the others are kept, in order.
    fn decode_children(nodes: &[SpannedNode], ctx: &mut Context) -> (r: Result<Self, DecodeError>)
        ensures
            exists|outs: Seq<Result<T, DecodeError>>, mids: Seq<Context>, ctxs: Seq<Context>|
                #[trigger] decode_chain(nodes@.len(), *old(ctx), *final(ctx), outs, mids, ctxs)
                    && (forall|k: int|
                    #![trigger outs[k]]
                    0 <= k < nodes@.len() ==> emitted(outs[k], mids[k], ctxs[k + 1]) && exists|c: &mut Context|
                        #![trigger call_ensures(T::decode_node, (&nodes@[k], c), outs[k])]
                        *c == ctxs[k] && *final(c) == mids[k] && call_ensures(
                            T::decode_node,
                            (&nodes@[k], c),
                            outs[k],
                        )) && (r matches Ok(v) && v@ == decoded_values(outs)),
    {
        let mut result: Vec<T> = Vec::new();
        let steps = decode_rest(nodes, ctx, &mut result);
        proof {
            assert(result@ =~= decoded_values(steps@.0));
            assert(decode_chain(nodes@.len(), *old(ctx), *ctx, steps@.0, steps@.1, steps@.2));
        }
        Ok(result)
    }
}

impl<T: DecodeScalar> DecodeScalar for Option<T> {
    fn type_check(type_tag: &Option<Spanned<TypeName>>, ctx: &mut Context)
        ensures
            exists|c: &mut Context|
                *c == *old(ctx) && *final(c) == *final(ctx) && #[trigger] call_ensures(T::type_check, (type_tag, c), ()),
    {
        T::type_check(type_tag, ctx)
    }

    /// `#null` is `None`; any other literal is decoded as a `T`.
    fn raw_decode(value: &Spanned<Literal>, ctx: &mut Context) -> (r: Result<Self, DecodeError>)
        ensures
            value.value is Null ==> r == Ok::<Option<T>, DecodeError>(None) && *final(ctx) == *old(ctx),
            !(value.value is Null) ==> exists|c: &mut Context, v: Result<T, DecodeError>|
                *c == *old(ctx) && *final(c) == *final(ctx) && #[trigger] call_ensures(T::raw_decode, (value, c), v)
                    && match (r, v) {
                    (Ok(o), Ok(x)) => o == Some(x),
                    (Err(e1), Err(e2)) => e1 == e2,
                    _ => false,
                },
    {
        match &value.value {
            Literal::Null => Ok(None),
            _ => match T::raw_decode(value, ctx) {
                Ok(v) => Ok(Some(v)),
                Err(e) => Err(e),
            },
        }
    }
}

impl<T: DecodeScalar> DecodeScalar for Spanned<T> {
    fn type_check(type_tag: &Option<Spanned<TypeName>>, ctx: &mut Context)
        ensures
            exists|c: &mut Context|
                *c == *old(ctx) && *final(c) == *final(ctx) && #[trigger] call_ensures(T::type_check, (type_tag, c), ()),
    {
        T::type_check(type_tag, ctx)
    }

    /// The value decoded as a `T`, with the span of the literal.
    fn raw_decode(value: &Spanned<Literal>, ctx: &mut Context) -> (r: Result<Self, DecodeError>)
        ensures
            exists|c: &mut Context, v: Result<T, DecodeError>|
                *c == *old(ctx) && *final(c) == *final(ctx) && #[trigger] call_ensures(T::raw_decode, (value, c), v)
                    && match (r, v) {
                    (Ok(sv), Ok(x)) => sv.span == value.span && sv.value == x,
                    (Err(e1), Err(e2)) => e1 == e2,
                    _ => false,
                },
    {
        match T::raw_decode(value, ctx) {
            Ok(decoded) => Ok(Spanned { span: <Span as DecodeSpan>::decode_span(&value.span, ctx), value: decoded }),
            Err(e) => Err(e),
        }
    }
}

} // verus!
