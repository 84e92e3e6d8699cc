use knus::errors::ErrorItem;
use knus::wrappers::parse_ast;

#[test]
fn normal() {
    let doc = parse_ast("embedded.kdl", r#"node "hello""#).unwrap();
    assert_eq!(doc.nodes.len(), 1);
    assert_eq!(&**doc.nodes[0].node_name, "node");
}

#[test]
fn parse_ast_reports_syntax_errors() {
    let e = parse_ast("bad.kdl", "node {").unwrap_err();
    assert_eq!(e.file_name, "bad.kdl");
    assert_eq!(e.source_code, "node {");
    assert_eq!(e.errors.len(), 1);
    match &e.errors[0] {
        ErrorItem::Parse(p) => assert_eq!(p.message(), "unclosed curly braces `{`"),
        _ => panic!("syntax error expected"),
    }
}

#[test]
fn byte_order_mark_is_skipped() {
    let doc = parse_ast("bom.kdl", "\u{FEFF}a").unwrap();
    assert_eq!(doc.nodes.len(), 1);
    assert_eq!(doc.nodes[0].node_name.as_str(), "a");
    assert_eq!(doc.nodes[0].span.0, 3);
}

#[test]
fn empty_document() {
    let doc = parse_ast("e.kdl", "").unwrap();
    assert_eq!(doc.nodes.len(), 0);
    let doc = parse_ast("e.kdl", "  // only a comment\n/* and another */\n").unwrap();
    assert_eq!(doc.nodes.len(), 0);
}

#[test]
fn properties_last_one_wins_and_are_sorted() {
    let doc = parse_ast("p.kdl", "n b=1 a=2 b=3").unwrap();
    let n = &doc.nodes[0];
    assert_eq!(n.properties.len(), 2);
    assert_eq!(n.properties[0].0.as_str(), "a");
    assert_eq!(n.properties[1].0.as_str(), "b");
    assert_eq!(*n.property("b").unwrap().literal, knus::ast::Literal::Int(knus::ast::Integer(knus::ast::Radix::Dec, "3".into())));
    assert!(n.property("c").is_none());
}
