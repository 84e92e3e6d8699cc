//! Traits used for the library
//!
//! Most users will never implement these manually.
use vstd::prelude::*;

use crate::ast::{Literal, SpannedNode, TypeName, Value};
use crate::decode::Context;
use crate::errors::DecodeError;
use crate::span::{Span, Spanned};

verus! {

/// Trait to decode KDL node from the AST
pub trait Decode: Sized {
    /// Decodes the node from the ast
    fn decode_node(node: &SpannedNode, ctx: &mut Context) -> Result<Self, DecodeError>;
}

/// Trait to decode children of the KDL node, mostly used for root document
pub trait DecodeChildren: Sized {
    /// Decodes from a list of chidren ASTs
    fn decode_children(nodes: &[SpannedNode], ctx: &mut Context) -> Result<Self, DecodeError>;
}

/// The trait is implemented for structures that can be used as part of other
/// structs
pub trait DecodePartial: Sized {
    /// The method is called when unknown child is encountered by parent
    /// structure
    ///
    /// Returns `Ok(true)` if the child is "consumed" (i.e. stored in this
    /// structure).
    fn insert_child(&mut self, node: &SpannedNode, ctx: &mut Context) -> Result<bool, DecodeError>;

    /// The method is called when unknown property is encountered by parent
    /// structure
    ///
    /// Returns `Ok(true)` if the property is "consumed" (i.e. stored in this
    /// structure).
    fn insert_property(
        &mut self,
        name: &Spanned<String>,
        value: &Value,
        ctx: &mut Context,
    ) -> Result<bool, DecodeError>;
}

/// The trait that decodes scalar value and checks its type
pub trait DecodeScalar: Sized {
    /// Typecheck the value
    ///
    /// This method can only emit errors to the context in type mismatch case.
    fn type_check(type_tag: &Option<Spanned<TypeName>>, ctx: &mut Context);

    /// Decode value without typecheck
    fn raw_decode(value: &Spanned<Literal>, ctx: &mut Context) -> Result<Self, DecodeError>;

    /// Decode the value and typecheck: `type_check` followed by `raw_decode`.
    fn decode(value: &Value, ctx: &mut Context) -> (r: Result<Self, DecodeError>)
        default_ensures
            exists|c1: &mut Context, c2: &mut Context|
                *c1 == *old(ctx) && *final(c1) == *c2 && *final(c2) == *final(ctx)
                    && #[trigger] call_ensures(Self::type_check, (&value.type_tag, c1), ())
                    && #[trigger] call_ensures(Self::raw_decode, (&value.literal, c2), r),
    {
        Self::type_check(&value.type_tag, ctx);
        Self::raw_decode(&value.literal, ctx)
    }
}

/// The trait that decodes span into the final structure
pub trait DecodeSpan: Sized {
    /// Decode span
    fn decode_span(span: &Span, ctx: &mut Context) -> Self;
}

impl DecodeSpan for Span {
    fn decode_span(span: &Span, ctx: &mut Context) -> (r: Self)
        ensures
            r == *span,
            *final(ctx) == *old(ctx),
    {
        *span
    }
}

} // verus!
