use knus::ast::{Literal, SpannedNode, Value};
use knus::decode::Context;
use knus::errors::{DecodeError, ErrorItem};
use knus::span::Spanned;
use knus::traits::{Decode, DecodeChildren, DecodePartial};

#[derive(Default, Debug, PartialEq)]
struct Prop1 {
    label: Option<String>,
}

fn string_of(v: &Value) -> Result<String, DecodeError> {
    match &*v.literal {
        Literal::String(s) => Ok(s.clone()),
        _ => Err(DecodeError::ScalarKind {
            span: v.literal.span,
            expected: "string".into(),
            found: "other".into(),
        }),
    }
}

impl DecodePartial for Prop1 {
    fn insert_child(&mut self, _node: &SpannedNode, _ctx: &mut Context) -> Result<bool, DecodeError> {
        Ok(false)
    }
    fn insert_property(&mut self, name: &Spanned<String>, value: &Value, _ctx: &mut Context) -> Result<bool, DecodeError> {
        if name.as_str() == "label" {
            self.label = Some(string_of(value)?);
            Ok(true)
        } else {
            Ok(false)
        }
    }
}

#[derive(Debug, PartialEq)]
struct FlatProp {
    props: Prop1,
}

impl Decode for FlatProp {
    fn decode_node(node: &SpannedNode, ctx: &mut Context) -> Result<Self, DecodeError> {
        let mut props = Prop1::default();
        for (name, value) in &node.properties {
            if !props.insert_property(name, value, ctx)? {
                return Err(DecodeError::Unexpected {
                    span: name.span,
                    kind: "property".into(),
                    message: format!("unexpected property `{}`", name.as_str()),
                });
            }
        }
        Ok(FlatProp { props })
    }
}

#[derive(Default, Debug, PartialEq)]
struct Unwrap {
    label: Option<String>,
}

impl DecodePartial for Unwrap {
    fn insert_child(&mut self, node: &SpannedNode, _ctx: &mut Context) -> Result<bool, DecodeError> {
        if node.node_name.as_str() == "label" {
            match node.arguments.first() {
                Some(v) => self.label = Some(string_of(v)?),
                None => {
                    return Err(DecodeError::Missing { span: node.span, message: "argument is required".into() })
                }
            }
            Ok(true)
        } else {
            Ok(false)
        }
    }
    fn insert_property(&mut self, _name: &Spanned<String>, _value: &Value, _ctx: &mut Context) -> Result<bool, DecodeError> {
        Ok(false)
    }
}

#[derive(Debug, PartialEq)]
struct FlatChild {
    children: Unwrap,
}

impl DecodeChildren for FlatChild {
    fn decode_children(nodes: &[SpannedNode], ctx: &mut Context) -> Result<Self, DecodeError> {
        let mut children = Unwrap::default();
        for node in nodes {
            if !children.insert_child(node, ctx)? {
                ctx.emit_error(DecodeError::Unexpected {
                    span: node.node_name.span,
                    kind: "node".into(),
                    message: format!("unexpected node `{}`", node.node_name.as_str()),
                });
            }
        }
        Ok(FlatChild { children })
    }
}

fn messages(errors: &[ErrorItem]) -> String {
    errors
        .iter()
        .map(|e| match e {
            ErrorItem::Parse(p) => p.message(),
            ErrorItem::Decode(d) => d.message(),
        })
        .collect::<Vec<_>>()
        .join("\n")
}

fn parse<T: Decode>(text: &str) -> T {
    let mut nodes: Vec<T> = knus::parse("<test>", text).unwrap();
    assert_eq!(nodes.len(), 1);
    nodes.remove(0)
}

fn parse_err<T: Decode + std::fmt::Debug>(text: &str) -> String {
    let err = knus::parse::<Vec<T>>("<test>", text).unwrap_err();
    messages(&err.errors)
}

fn parse_doc<T: DecodeChildren>(text: &str) -> T {
    knus::parse("<test>", text).unwrap()
}

fn parse_doc_err<T: DecodeChildren + std::fmt::Debug>(text: &str) -> String {
    let err = knus::parse::<T>("<test>", text).unwrap_err();
    messages(&err.errors)
}

#[test]
fn parse_flat_prop() {
    assert_eq!(
        parse::<FlatProp>(r#"node label="hello""#),
        FlatProp { props: Prop1 { label: Some("hello".into()) } }
    );
    assert_eq!(parse_err::<FlatProp>(r#"node something="world""#), "unexpected property `something`");
}

#[test]
fn parse_flat_child() {
    assert_eq!(
        parse_doc::<FlatChild>(r#"label "hello""#),
        FlatChild { children: Unwrap { label: Some("hello".into()) } }
    );
    assert_eq!(parse_doc_err::<FlatChild>(r#"something "world""#), "unexpected node `something`");
}
