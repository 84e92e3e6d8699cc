use std::path::PathBuf;

use knus::ast::{BuiltinType, Literal, SpannedNode, TypeName};
use knus::decode::Context;
use knus::errors::DecodeError;
use knus::span::Span;
use knus::traits::{Decode, DecodeChildren, DecodeSpan};

fn first_argument(node: &SpannedNode) -> Result<&Literal, DecodeError> {
    match node.arguments.first() {
        Some(v) => Ok(&*v.literal),
        None => Err(DecodeError::Missing { span: node.span, message: "argument is required".into() }),
    }
}

fn string_argument(node: &SpannedNode) -> Result<String, DecodeError> {
    match first_argument(node)? {
        Literal::String(s) => Ok(s.clone()),
        _ => Err(DecodeError::ScalarKind {
            span: node.span,
            expected: "string".into(),
            found: "other".into(),
        }),
    }
}

#[derive(Debug)]
struct AstChildren {
    children: Vec<SpannedNode>,
}

impl Decode for AstChildren {
    fn decode_node(node: &SpannedNode, ctx: &mut Context) -> Result<Self, DecodeError> {
        let mut children = Vec::new();
        for c in node.children() {
            children.push(<SpannedNode as Decode>::decode_node(c, ctx)?);
        }
        Ok(AstChildren { children })
    }
}

fn parse<T: Decode>(text: &str) -> T {
    let mut nodes: Vec<T> = knus::wrappers::parse("<test>", text).unwrap();
    assert_eq!(nodes.len(), 1);
    nodes.remove(0)
}

#[test]
fn ast_parse_node_span() {
    let item = parse::<AstChildren>(r#"node {a; b;}"#);
    assert_eq!(item.children.len(), 2);
}

#[derive(Debug, PartialEq)]
struct MySpan {
    start: usize,
    end: usize,
}

impl DecodeSpan for MySpan {
    fn decode_span(span: &Span, _ctx: &mut Context) -> Self {
        MySpan { start: span.0, end: span.1 }
    }
}

#[derive(Debug, PartialEq)]
struct MyNodeSpan {
    span: MySpan,
}

impl Decode for MyNodeSpan {
    fn decode_node(node: &SpannedNode, ctx: &mut Context) -> Result<Self, DecodeError> {
        Ok(MyNodeSpan { span: MySpan::decode_span(&node.span, ctx) })
    }
}

#[test]
fn custom_span_parse_node_span() {
    assert_eq!(parse::<MyNodeSpan>(r#"node"#), MyNodeSpan { span: MySpan { start: 0, end: 4 } });
    assert_eq!(parse::<MyNodeSpan>(r#"   node  "#), MyNodeSpan { span: MySpan { start: 3, end: 9 } });
}

#[derive(Debug, PartialEq)]
struct Child;

impl Decode for Child {
    fn decode_node(_node: &SpannedNode, _ctx: &mut Context) -> Result<Self, DecodeError> {
        Ok(Child)
    }
}

#[derive(Debug, PartialEq)]
struct NodeSpan {
    span: Span,
    name: String,
    children: Vec<Child>,
}

impl Decode for NodeSpan {
    fn decode_node(node: &SpannedNode, ctx: &mut Context) -> Result<Self, DecodeError> {
        let children = <Vec<Child> as DecodeChildren>::decode_children(node.children(), ctx)?;
        Ok(NodeSpan { span: Span::decode_span(&node.span, ctx), name: string_argument(node)?, children })
    }
}

#[derive(Debug, PartialEq)]
struct NodeType {
    type_tag: String,
}

impl Decode for NodeType {
    fn decode_node(node: &SpannedNode, _ctx: &mut Context) -> Result<Self, DecodeError> {
        match &node.type_tag {
            Some(t) => Ok(NodeType { type_tag: t.as_str().to_string() }),
            None => Err(DecodeError::Missing { span: node.span, message: "type name required".into() }),
        }
    }
}

#[derive(Debug, PartialEq)]
struct NameAndType {
    node_name: String,
    type_tag: Option<TypeName>,
}

impl Decode for NameAndType {
    fn decode_node(node: &SpannedNode, _ctx: &mut Context) -> Result<Self, DecodeError> {
        Ok(NameAndType {
            node_name: node.node_name.value.clone(),
            type_tag: node.type_tag.as_ref().map(|t| t.value.clone()),
        })
    }
}

#[test]
fn extra_parse_node_span() {
    assert_eq!(
        parse::<NodeSpan>(r#"node "hello""#),
        NodeSpan { span: Span(0, 12), name: "hello".into(), children: Vec::new() }
    );
    assert_eq!(
        parse::<NodeSpan>(r#"   node  "hello"     "#),
        NodeSpan { span: Span(3, 21), name: "hello".into(), children: Vec::new() }
    );
    assert_eq!(
        parse::<NodeSpan>(r#"   node  "hello";     "#),
        NodeSpan { span: Span(3, 17), name: "hello".into(), children: Vec::new() }
    );
    assert_eq!(
        parse::<NodeSpan>(r#"   node  "hello"     {   child;   }"#),
        NodeSpan { span: Span(3, 35), name: "hello".into(), children: vec![Child] }
    );
}

#[test]
fn parse_node_type() {
    assert_eq!(parse::<NodeType>(r#"(unknown)node {}"#), NodeType { type_tag: "unknown".into() });
}

#[test]
fn parse_name_and_type() {
    assert_eq!(
        parse::<NameAndType>(r#"(u32)nodexxx"#),
        NameAndType { node_name: "nodexxx".into(), type_tag: Some(BuiltinType::U32.into()) }
    );
    assert_eq!(
        parse::<NameAndType>(r#"yyynode /-{   }"#),
        NameAndType { node_name: "yyynode".into(), type_tag: None }
    );
}

#[derive(Debug, PartialEq)]
struct Scalars {
    str: String,
    u64: u64,
    f64: f64,
    path: PathBuf,
    boolean: bool,
}

fn child<'a>(nodes: &'a [SpannedNode], name: &str) -> Result<&'a SpannedNode, DecodeError> {
    nodes
        .iter()
        .find(|n| n.node_name.as_str() == name)
        .ok_or_else(|| DecodeError::MissingNode { message: format!("child node `{}` is required", name) })
}

fn conversion(node: &SpannedNode, message: &str) -> DecodeError {
    DecodeError::conversion(node, message)
}

impl DecodeChildren for Scalars {
    fn decode_children(nodes: &[SpannedNode], _ctx: &mut Context) -> Result<Self, DecodeError> {
        let str = string_argument(child(nodes, "str")?)?;
        let n = child(nodes, "u64")?;
        let u64 = match first_argument(n)? {
            Literal::Int(i) => i.1.parse::<u64>().map_err(|_| conversion(n, "invalid u64"))?,
            _ => return Err(conversion(n, "integer expected")),
        };
        let n = child(nodes, "f64")?;
        let f64 = match first_argument(n)? {
            Literal::Decimal(d) => d.0.parse::<f64>().map_err(|_| conversion(n, "invalid f64"))?,
            Literal::Int(i) => i.1.parse::<f64>().map_err(|_| conversion(n, "invalid f64"))?,
            _ => return Err(conversion(n, "number expected")),
        };
        let path = PathBuf::from(string_argument(child(nodes, "path")?)?);
        let n = child(nodes, "boolean")?;
        let boolean = match first_argument(n)? {
            Literal::Bool(b) => *b,
            _ => return Err(conversion(n, "boolean expected")),
        };
        Ok(Scalars { str, u64, f64, path, boolean })
    }
}

#[test]
fn parse_enum() {
    assert_eq!(
        knus::wrappers::parse::<Scalars>(
            "<test>",
            r#"
            str "hello"
            u64 1234
            f64 16.125e+1
            path "/hello/world"
            boolean #true
        "#
        )
        .unwrap(),
        Scalars {
            str: "hello".into(),
            u64: 1234,
            f64: 161.25,
            path: PathBuf::from("/hello/world"),
            boolean: true,
        }
    );
}

#[test]
fn decode_errors_are_collected() {
    // a node that does not decode leaves an error in the context, and the
    // parse fails with it
    let r = knus::wrappers::parse::<Vec<NodeSpan>>("<test>", "a \"x\"\nb\nc \"y\"");
    let e = r.unwrap_err();
    assert_eq!(e.file_name, "<test>");
    assert_eq!(e.source_code, "a \"x\"\nb\nc \"y\"");
    assert_eq!(e.errors.len(), 1);
    match &e.errors[0] {
        knus::errors::ErrorItem::Decode(d) => {
            assert_eq!(d.message(), "argument is required");
            assert_eq!(d.span(), Some(Span(6, 8)));
        }
        _ => panic!("decode error expected"),
    }
}

#[test]
fn syntax_errors_come_before_decoding() {
    let e = knus::wrappers::parse::<Vec<NodeSpan>>("f.kdl", "a {").unwrap_err();
    assert_eq!(e.file_name, "f.kdl");
    assert_eq!(e.errors.len(), 1);
    assert!(matches!(e.errors[0], knus::errors::ErrorItem::Parse(_)));
}

#[test]
fn parse_with_context_runs_the_setup() {
    let r = knus::wrappers::parse_with_context::<Vec<Child>, _>("<test>", "a\nb", |ctx| {
        ctx.emit_error(DecodeError::MissingNode { message: "from setup".into() })
    });
    let e = r.unwrap_err();
    assert_eq!(e.errors.len(), 1);
    match &e.errors[0] {
        knus::errors::ErrorItem::Decode(d) => assert_eq!(d.message(), "from setup"),
        _ => panic!("decode error expected"),
    }
    let ok = knus::wrappers::parse_with_context::<Vec<Child>, _>("<test>", "a\nb", |_| {}).unwrap();
    assert_eq!(ok, vec![Child, Child]);
}

#[test]
fn node_decodes_into_itself() {
    let doc = knus::wrappers::parse_ast("<test>", "(t)n 1 k=(u8)2 {\n  c #true\n}").unwrap();
    let mut ctx = Context::new();
    let copy = <SpannedNode as Decode>::decode_node(&doc.nodes[0], &mut ctx).unwrap();
    assert_eq!(copy.span, doc.nodes[0].span);
    assert_eq!(copy.node_name.as_str(), "n");
    assert_eq!(copy.type_tag.as_ref().unwrap().as_str(), "t");
    assert_eq!(*copy.arguments[0].literal, *doc.nodes[0].arguments[0].literal);
    assert_eq!(copy.property("k").unwrap().type_tag.as_ref().unwrap().as_builtin(), Some(&BuiltinType::U8));
    assert_eq!(copy.children().len(), 1);
    assert_eq!(*copy.children()[0].arguments[0].literal, Literal::Bool(true));
    assert!(!ctx.has_errors());
}

struct Noisy;

impl Decode for Noisy {
    fn decode_node(node: &SpannedNode, ctx: &mut Context) -> Result<Self, DecodeError> {
        ctx.emit_error(DecodeError::MissingNode { message: format!("seen {}", node.node_name.as_str()) });
        if node.node_name.as_str() == "bad" {
            Err(DecodeError::unexpected(&node.node_name, "node", "bad node"))
        } else {
            Ok(Noisy)
        }
    }
}

fn messages(errors: Vec<DecodeError>) -> Vec<String> {
    errors.iter().map(|e| e.message()).collect()
}

#[test]
fn vec_decode_children_keeps_every_error_in_order() {
    let doc = knus::wrappers::parse_ast("<test>", "a\nbad\nc\nbad").unwrap();
    let mut ctx = Context::new();
    ctx.emit_error(DecodeError::MissingNode { message: "before".into() });
    let values = <Vec<Noisy> as DecodeChildren>::decode_children(&doc.nodes, &mut ctx).unwrap();
    assert_eq!(values.len(), 2);
    assert_eq!(
        messages(ctx.into_errors()),
        vec!["before", "seen a", "seen bad", "bad node", "seen c", "seen bad", "bad node"]
    );
}

#[test]
fn vec_decode_children_of_no_nodes() {
    let mut ctx = Context::new();
    let values = <Vec<Noisy> as DecodeChildren>::decode_children(&[], &mut ctx).unwrap();
    assert!(values.is_empty());
    assert!(!ctx.has_errors());
}

#[test]
fn unexpected_error_constructor() {
    let doc = knus::wrappers::parse_ast("<test>", "node 1").unwrap();
    let arg = &doc.nodes[0].arguments[0].literal;
    let e = DecodeError::unexpected(arg, "argument", "unexpected argument");
    match &e {
        DecodeError::Unexpected { span, kind, message } => {
            assert_eq!(*span, Span(5, 6));
            assert_eq!(kind, "argument");
            assert_eq!(message, "unexpected argument");
        }
        _ => panic!("unexpected-element error expected"),
    }
    assert_eq!(e.span(), Some(Span(5, 6)));
}

#[test]
fn conversion_error_constructor() {
    let doc = knus::wrappers::parse_ast("<test>", "other").unwrap();
    let name = &doc.nodes[0].node_name;
    let e = DecodeError::conversion(name, "expected `a`, found `other`");
    match &e {
        DecodeError::Conversion { span, message } => {
            assert_eq!(*span, Span(0, 5));
            assert_eq!(message, "expected `a`, found `other`");
        }
        _ => panic!("conversion error expected"),
    }
}

#[test]
fn parse_is_parse_with_keep_context() {
    for text in ["a\nb", "a {", "a \"x\"\nb\nc \"y\""] {
        let plain = knus::wrappers::parse::<Vec<NodeSpan>>("f.kdl", text);
        let kept = knus::wrappers::parse_with_context::<Vec<NodeSpan>, _>("f.kdl", text, knus::wrappers::keep_context);
        match (plain, kept) {
            (Ok(a), Ok(b)) => assert_eq!(a, b),
            (Err(a), Err(b)) => {
                assert_eq!(a.file_name, b.file_name);
                assert_eq!(a.source_code, b.source_code);
                assert_eq!(format!("{:?}", a.errors), format!("{:?}", b.errors));
            }
            _ => panic!("parse and parse_with_context disagree on {:?}", text),
        }
    }
}

#[test]
fn keep_context_leaves_the_context() {
    let mut ctx = Context::new();
    ctx.emit_error(DecodeError::MissingNode { message: "kept".into() });
    knus::wrappers::keep_context(&mut ctx);
    assert_eq!(messages(ctx.into_errors()), vec!["kept"]);
}
