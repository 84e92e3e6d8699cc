use std::collections::hash_map::DefaultHasher;
use std::hash::{Hash, Hasher};
use std::rc::Rc;
use std::sync::Arc;

use knus::ast::{BuiltinType, Literal, SpannedNode, TypeName, Value};
use knus::decode::Context;
use knus::errors::DecodeError;
use knus::span::{Span, Spanned};
use knus::traits::{DecodePartial, DecodeScalar};
use knus::wrappers::parse_ast;

#[test]
fn type_name_round_trip() {
    for name in ["u8", "i64", "usize", "isize", "f64", "base64", "custom", ""] {
        let t = TypeName::from_string(name.to_string());
        assert_eq!(t.as_str(), name);
        assert_eq!(&*t, name);
    }
    assert_eq!(TypeName::from_string("u32".into()).as_builtin(), Some(&BuiltinType::U32));
    assert_eq!(TypeName::from_string("custom".into()).as_builtin(), None);
    assert_eq!(TypeName::from_string("usize".into()).as_builtin(), Some(&BuiltinType::Usize));
    assert_eq!("isize".parse::<TypeName>().unwrap().as_builtin(), Some(&BuiltinType::Isize));
    assert_eq!("u128".parse::<TypeName>().unwrap().as_builtin(), Some(&BuiltinType::U128));
    assert_eq!("unknown".parse::<TypeName>().unwrap().as_builtin(), None);
    assert_eq!("f32".parse::<TypeName>().unwrap().as_builtin(), Some(&BuiltinType::F32));
}

#[test]
fn builtin_type_round_trip() {
    let all = [
        BuiltinType::U8,
        BuiltinType::I8,
        BuiltinType::U16,
        BuiltinType::I16,
        BuiltinType::U32,
        BuiltinType::I32,
        BuiltinType::U64,
        BuiltinType::I64,
        BuiltinType::U128,
        BuiltinType::I128,
        BuiltinType::F32,
        BuiltinType::F64,
        BuiltinType::Usize,
        BuiltinType::Isize,
        BuiltinType::Base64,
    ];
    for b in all {
        assert_eq!(b.as_str().parse::<BuiltinType>(), Ok(b));
        assert_eq!(b.as_type().as_builtin(), Some(&b));
        assert_eq!(TypeName::from(b).as_str(), b.as_str());
    }
    assert_eq!(BuiltinType::Usize.as_str(), "usize");
    assert_eq!("usize".parse::<BuiltinType>(), Ok(BuiltinType::Usize));
    assert_eq!("isize".parse::<BuiltinType>(), Ok(BuiltinType::Isize));
    assert_eq!("U8".parse::<BuiltinType>(), Err(()));
    assert_eq!(TypeName::from(BuiltinType::U32), TypeName::from_string("u32".into()));
    assert_eq!(BuiltinType::Isize.as_type().as_builtin(), Some(&BuiltinType::Isize));
}

#[test]
fn node_spans_are_in_order_and_within_the_text() {
    let text = "a 1\n(t)b \"x\" {\n  c\n}\n/-d\ne;f";
    let doc = parse_ast("<test>", text).unwrap();
    let names: Vec<&str> = doc.nodes.iter().map(|n| n.node_name.as_str()).collect();
    assert_eq!(names, vec!["a", "b", "e", "f"]);
    let mut last = 0;
    for n in &doc.nodes {
        assert!(last <= n.span.0 && n.span.0 <= n.span.1 && n.span.1 <= text.len());
        last = n.span.1;
        let ((sl, sc), (el, ec)) = n.span.to_line_column(text);
        assert!(sl < el || (sl == el && sc <= ec));
    }
    assert_eq!(doc.nodes[1].span.to_line_column(text), ((1, 0), (4, 0)));
}

#[test]
fn properties_of_nested_nodes_are_sorted() {
    let doc = parse_ast("<test>", "p z=1 {\n c y=1 x=2 y=3 w=4\n}").unwrap();
    let c = &doc.nodes[0].children()[0];
    let names: Vec<&str> = c.properties.iter().map(|p| p.0.as_str()).collect();
    assert_eq!(names, vec!["w", "x", "y"]);
    assert_eq!(*c.property("y").unwrap().literal, Literal::Int(knus::ast::Integer(knus::ast::Radix::Dec, "3".into())));
}

#[test]
fn spanned_compares_values_only() {
    let a = Spanned { span: Span(0, 1), value: "x".to_string() };
    let b = Spanned { span: Span(5, 6), value: "x".to_string() };
    let c = Spanned { span: Span(0, 1), value: "y".to_string() };
    assert_eq!(a, b);
    assert_ne!(a, c);
    assert!(a < c);
    let hash = |s: &Spanned<String>| {
        let mut h = DefaultHasher::new();
        s.hash(&mut h);
        h.finish()
    };
    assert_eq!(hash(&a), hash(&b));
    let r: &str = a.as_ref();
    assert_eq!(r, "x");
}

#[test]
fn stream_covers_the_text() {
    let text = "kdl ö 🚀";
    let mut st = Span::stream(text);
    let mut end = 0;
    while let Some((_, span)) = st.next() {
        assert_eq!(span.0, end);
        end = span.1;
    }
    assert_eq!(end, text.len());
}

#[derive(Debug, Default)]
struct Counter {
    children: usize,
    props: usize,
}

impl DecodePartial for Counter {
    fn insert_child(&mut self, _node: &SpannedNode, _ctx: &mut Context) -> Result<bool, DecodeError> {
        self.children += 1;
        Ok(true)
    }
    fn insert_property(&mut self, _name: &Spanned<String>, _value: &Value, _ctx: &mut Context) -> Result<bool, DecodeError> {
        self.props += 1;
        Ok(true)
    }
}

#[test]
fn shared_pointers_forward_while_unique() {
    let doc = parse_ast("<test>", "n k=1").unwrap();
    let node = &doc.nodes[0];
    let (name, value) = &node.properties[0];
    let mut ctx = Context::new();

    let mut a = Arc::new(Counter::default());
    assert_eq!(a.insert_child(node, &mut ctx).unwrap(), true);
    assert_eq!(a.insert_property(name, value, &mut ctx).unwrap(), true);
    assert_eq!((a.children, a.props), (1, 1));
    let other = a.clone();
    match a.insert_child(node, &mut ctx) {
        Err(DecodeError::Unsupported { span, .. }) => assert_eq!(span, node.span),
        r => panic!("unexpected {:?}", r),
    }
    drop(other);

    let mut r = Rc::new(Counter::default());
    assert_eq!(r.insert_child(node, &mut ctx).unwrap(), true);
    let other = r.clone();
    assert!(r.insert_property(name, value, &mut ctx).is_err());
    drop(other);
    assert_eq!(r.insert_property(name, value, &mut ctx).unwrap(), true);
    assert_eq!((r.children, r.props), (1, 1));

    let mut b = Box::new(Counter::default());
    assert_eq!(b.insert_child(node, &mut ctx).unwrap(), true);
    assert_eq!(b.children, 1);
}

#[test]
fn scalars_decode() {
    let doc = parse_ast("<test>", "n #null \"s\"").unwrap();
    let args = &doc.nodes[0].arguments;
    let mut ctx = Context::new();
    let none = <Option<Literal> as DecodeScalar>::decode(&args[0], &mut ctx).unwrap();
    assert_eq!(none, None);
    let some = <Option<Literal> as DecodeScalar>::decode(&args[1], &mut ctx).unwrap();
    assert_eq!(some, Some(Literal::String("s".into())));
    let spanned = <Spanned<Literal> as DecodeScalar>::decode(&args[1], &mut ctx).unwrap();
    assert_eq!(spanned.span, args[1].literal.span);
    let v = <Value as DecodeScalar>::raw_decode(&args[1].literal, &mut ctx);
    assert!(matches!(v, Err(DecodeError::Unsupported { .. })));
    let v = <Value as DecodeScalar>::decode(&args[1], &mut ctx).unwrap();
    assert_eq!(*v.literal, Literal::String("s".into()));
    let b = <Box<Literal> as DecodeScalar>::decode(&args[1], &mut ctx).unwrap();
    assert_eq!(*b, Literal::String("s".into()));
}

#[test]
fn multiline_strings_have_only_lf() {
    let doc = parse_ast("<test>", "n \"\"\"\r\n  a\r\n  b\u{2028}  c\r\n  \"\"\"").unwrap();
    assert_eq!(*doc.nodes[0].arguments[0].literal, Literal::String("a\nb\nc".into()));
}

#[test]
fn spanned_as_mut_reaches_the_value() {
    let mut s = Spanned { span: Span(3, 5), value: "ab".to_string() };
    {
        let r: &mut str = s.as_mut();
        r.make_ascii_uppercase();
    }
    assert_eq!(s.value, "AB");
    assert_eq!(s.span, Span(3, 5));
}
