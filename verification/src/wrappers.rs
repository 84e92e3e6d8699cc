//! Parsing a text into a document, and decoding a document into a value.
use vstd::prelude::*;

use crate::ast::{nodes_view, Document, NodeV, SpannedNode};
use crate::decode::Context;
use crate::errors::{DecodeError, Error, ErrorItem, ParseError};
use crate::grammar::nodes::{
    document, lemma_document_props_sorted, lemma_document_spans, nodes_spans_ok, nodes_wf,
    parse_failure, result_view, sp_document, spans_in_order,
};
use crate::grammar::Src;
use crate::span::Span;
use crate::text::bytes_len;
use crate::traits::DecodeChildren;

verus! {

/// Syntax errors as error items.
pub open spec fn parse_items(es: Seq<ParseError>) -> Seq<ErrorItem> {
    es.map_values(|e: ParseError| ErrorItem::Parse(e))
}

/// Decoding errors as error items.
pub open spec fn decode_items(es: Seq<DecodeError>) -> Seq<ErrorItem> {
    es.map_values(|e: DecodeError| ErrorItem::Decode(e))
}

/// Whether `text` is a well-formed document.
pub open spec fn parses(text: Seq<char>) -> bool {
    let (ns, e, es) = sp_document(text);
    e == text.len() && es.len() == 0
}

/// The nodes of a well-formed document.
pub open spec fn parsed_nodes(text: Seq<char>) -> Seq<(Span, NodeV)> {
    sp_document(text).0
}

fn wrap_parse_errors(v: Vec<ParseError>) -> (r: Vec<ErrorItem>)
    ensures
        r@ == parse_items(v@),
{
    let ghost vs = v@;
    let mut out: Vec<ErrorItem> = Vec::new();
    for e in it: v
        invariant
            it.seq() == vs,
            out@ == parse_items(vs.take(it.index() as int)),
    {
        proof {
            assert(vs.take(it.index() + 1) =~= vs.take(it.index() as int).push(e));
        }
        out.push(ErrorItem::Parse(e));
    }
    assert(vs.take(vs.len() as int) =~= vs);
    out
}

fn wrap_decode_errors(v: Vec<DecodeError>) -> (r: Vec<ErrorItem>)
    ensures
        r@ == decode_items(v@),
{
    let ghost vs = v@;
    let mut out: Vec<ErrorItem> = Vec::new();
    for e in it: v
        invariant
            it.seq() == vs,
            out@ == decode_items(vs.take(it.index() as int)),
    {
        proof {
            assert(vs.take(it.index() + 1) =~= vs.take(it.index() as int).push(e));
        }
        out.push(ErrorItem::Decode(e));
    }
    assert(vs.take(vs.len() as int) =~= vs);
    out
}

/// Parse KDL text and return AST
pub fn parse_ast(file_name: &str, text: &str) -> (r: Result<Document, Error>)
    requires
        bytes_len(text@) + 16 <= usize::MAX,
    ensures
        r is Ok <==> parses(text@),
        match r {
            Ok(d) => {
                &&& d@ == parsed_nodes(text@)
                &&& nodes_wf(d@)
                &&& spans_in_order(text@, d@)
                &&& nodes_spans_ok(text@, d@)
            },
            Err(e) => {
                &&& e.file_name@ == file_name@
                &&& e.source_code@ == text@
                &&& exists|v: Seq<ParseError>| #[trigger] parse_items(v) == e.errors@ && parse_failure(text@, v)
            },
        },
{
    let src = Src::new(text);
    proof {
        lemma_document_props_sorted(text@);
        lemma_document_spans(text@);
    }
    match document(&src) {
        Ok(d) => Ok(d),
        Err(v) => {
            let errors = wrap_parse_errors(v);
            Err(Error { file_name: file_name.to_owned(), source_code: text.to_owned(), errors })
        },
    }
}

/// What decoding gives, from the result of the decoder and the errors that
/// were emitted while it ran: the value, where the decoder succeeded and no
/// error was emitted; otherwise all the errors, the one it returned last.
pub open spec fn decode_outcome<T>(
    res: Result<T, DecodeError>,
    emitted: Seq<DecodeError>,
) -> Result<T, Seq<DecodeError>> {
    match res {
        Ok(v) => if emitted.len() == 0 {
            Ok(v)
        } else {
            Err(emitted)
        },
        Err(e) => Err(emitted.push(e)),
    }
}

/// Turns the result of a decoder, and the context it ran with, into the
/// result of a parse of `text` read from `file_name`.
pub fn finish_decode<T>(res: Result<T, DecodeError>, ctx: Context, file_name: &str, text: &str) -> (r: Result<T, Error>)
    ensures
        match decode_outcome(res, ctx.errors()) {
            Ok(v) => r == Ok::<T, Error>(v),
            Err(es) => r matches Err(e) && e.file_name@ == file_name@ && e.source_code@ == text@
                && e.errors@ == decode_items(es),
        },
{
    let mut ctx = ctx;
    let errors = match res {
        Ok(v) => {
            if !ctx.has_errors() {
                return Ok(v);
            }
            ctx.into_errors()
        },
        Err(e) => {
            ctx.emit_error(e);
            ctx.into_errors()
        },
    };
    Err(Error {
        file_name: file_name.to_owned(),
        source_code: text.to_owned(),
        errors: wrap_decode_errors(errors),
    })
}

/// `r` is what a parse of `text` from `file_name` gives where the decoder
/// returned `res` and the context ended with the errors `errs` (see
/// [`decode_outcome`]).
pub open spec fn decoded_as<T>(
    r: Result<T, Error>,
    res: Result<T, DecodeError>,
    errs: Seq<DecodeError>,
    file_name: Seq<char>,
    text: Seq<char>,
) -> bool {
    match decode_outcome(res, errs) {
        Ok(v) => r == Ok::<T, Error>(v),
        Err(es) => r matches Err(e) && e.file_name@ == file_name && e.source_code@ == text
            && e.errors@ == decode_items(es),
    }
}

/// What [`parse`] and [`parse_with_context`] both promise of their result
/// `r` for `text` read from `file_name`: a text that does not parse gives
/// its syntax errors exactly as [`parse_ast`] does (see [`parse_failure`]);
/// a text that parses gives a value, or a non-empty list of decoding errors,
/// each error with the file name and the text.
pub open spec fn parse_result_shape<T>(r: Result<T, Error>, file_name: Seq<char>, text: Seq<char>) -> bool {
    &&& !parses(text) ==> r is Err
    &&& match r {
        Ok(_) => parses(text),
        Err(e) => {
            &&& e.file_name@ == file_name
            &&& e.source_code@ == text
            &&& if parses(text) {
                exists|v: Seq<DecodeError>| #[trigger] decode_items(v) == e.errors@ && v.len() > 0
            } else {
                exists|v: Seq<ParseError>| #[trigger] parse_items(v) == e.errors@ && parse_failure(text, v)
            }
        },
    }
}

/// Leaves the context as it is: the setter that [`parse`] hands to
/// [`parse_with_context`].
pub fn keep_context(ctx: &mut Context)
    ensures
        *final(ctx) == *old(ctx),
{
}

/// Parse KDL text and decode Rust object
///
/// This is [`parse_with_context`] with [`keep_context`], a function that
/// leaves the context as it is: `parse` promises all that
/// `parse_with_context` promises for that function (the last clause), and
/// so, where the text parses, the decoder gets the parsed nodes and a fresh
/// context.
pub fn parse<T: DecodeChildren>(file_name: &str, text: &str) -> (r: Result<T, Error>)
    requires
        bytes_len(text@) + 16 <= usize::MAX,
    ensures
        parse_result_shape(r, file_name@, text@),
        parses(text@) ==> exists|nodes: &[SpannedNode], c: &mut Context, res: Result<T, DecodeError>|
            nodes_view(nodes@) == parsed_nodes(text@) && (*c).errors() == Seq::<DecodeError>::empty()
                && #[trigger] call_ensures(T::decode_children, (nodes, c), res)
                && decoded_as(r, res, (*final(c)).errors(), file_name@, text@),
        parses(text@) ==> exists|
            nodes: &[SpannedNode],
            c1: &mut Context,
            c2: &mut Context,
            res: Result<T, DecodeError>,
        |
            #![trigger call_ensures(keep_context, (c1,), ()), call_ensures(T::decode_children, (nodes, c2), res)]
            nodes_view(nodes@) == parsed_nodes(text@) && (*c1).errors() == Seq::<DecodeError>::empty()
                && call_ensures(keep_context, (c1,), ()) && *c2 == *final(c1)
                && call_ensures(T::decode_children, (nodes, c2), res)
                && decoded_as(r, res, (*final(c2)).errors(), file_name@, text@),
{
    parse_with_context(file_name, text, keep_context)
}

/// Parse KDL text and decode Rust object providing extra context for the
/// decoder
pub fn parse_with_context<T: DecodeChildren, F: FnOnce(&mut Context)>(
    file_name: &str,
    text: &str,
    set_ctx: F,
) -> (r: Result<T, Error>)
    requires
        bytes_len(text@) + 16 <= usize::MAX,
        forall|c: &mut Context| #[trigger] call_requires(set_ctx, (c,)),
    ensures
        parse_result_shape(r, file_name@, text@),
        parses(text@) ==> exists|
            nodes: &[SpannedNode],
            c1: &mut Context,
            c2: &mut Context,
            res: Result<T, DecodeError>,
        |
            #![trigger call_ensures(set_ctx, (c1,), ()), call_ensures(T::decode_children, (nodes, c2), res)]
            nodes_view(nodes@) == parsed_nodes(text@) && (*c1).errors() == Seq::<DecodeError>::empty()
                && call_ensures(set_ctx, (c1,), ()) && *c2 == *final(c1)
                && call_ensures(T::decode_children, (nodes, c2), res)
                && decoded_as(r, res, (*final(c2)).errors(), file_name@, text@),
{
    let ast = parse_ast(file_name, text)?;
    let mut ctx = Context::new();
    set_ctx(&mut ctx);
    let res = T::decode_children(ast.nodes.as_slice(), &mut ctx);
    finish_decode(res, ctx, file_name, text)
}

} // verus!
