use knus::ast::{Decimal, Integer, Literal, Node, Radix, SpannedNode, TypeName};
use knus::errors::{EscapeError, ParseError};
use knus::grammar::lex::{comment, ml_comment, ws};
use knus::grammar::nodes::{finish, nodes};
use knus::grammar::strings::{escapes, string};
use knus::grammar::words::{ident, literal, number, type_tag};
use knus::grammar::{Furthest, Src};

/// Applies a rule to the whole text, as a parser of that text.
fn parse<T>(
    text: &str,
    rule: impl FnOnce(&Src, usize, &mut Vec<ParseError>, &mut Furthest) -> Option<(T, usize)>,
) -> Result<T, Vec<ParseError>> {
    let src = Src::new(text);
    let mut f = Furthest::new();
    let mut errs = Vec::new();
    let r = rule(&src, 0, &mut errs, &mut f);
    let end = r.as_ref().map(|x| x.1);
    let errs = finish(&src, end, errs, &mut f);
    match r {
        Some((v, _)) if errs.is_empty() => Ok(v),
        _ => Err(errs),
    }
}

fn p_ws(s: &Src, p: usize, _e: &mut Vec<ParseError>, f: &mut Furthest) -> Option<((), usize)> {
    ws(s, p, f).map(|e| ((), e))
}

fn p_comment(s: &Src, p: usize, _e: &mut Vec<ParseError>, f: &mut Furthest) -> Option<((), usize)> {
    comment(s, p, f).map(|e| ((), e))
}

fn p_ml_comment(s: &Src, p: usize, _e: &mut Vec<ParseError>, f: &mut Furthest) -> Option<((), usize)> {
    ml_comment(s, p, f).map(|e| ((), e))
}

fn p_string(s: &Src, p: usize, e: &mut Vec<ParseError>, f: &mut Furthest) -> Option<(String, usize)> {
    string(s, p, e, f).map(|(v, e)| (v.into_iter().collect(), e))
}

fn p_ident(s: &Src, p: usize, e: &mut Vec<ParseError>, f: &mut Furthest) -> Option<(String, usize)> {
    ident(s, p, e, f).map(|(v, e)| (v.into_iter().collect(), e))
}

fn p_literal(s: &Src, p: usize, e: &mut Vec<ParseError>, f: &mut Furthest) -> Option<(Literal, usize)> {
    literal(s, p, e, f)
}

fn p_number(s: &Src, p: usize, _e: &mut Vec<ParseError>, f: &mut Furthest) -> Option<(Literal, usize)> {
    number(s, p, f)
}

fn p_type(s: &Src, p: usize, e: &mut Vec<ParseError>, f: &mut Furthest) -> Option<(TypeName, usize)> {
    type_tag(s, p, e, f)
}

fn p_nodes(s: &Src, p: usize, e: &mut Vec<ParseError>, f: &mut Furthest) -> Option<(Vec<SpannedNode>, usize)> {
    Some(nodes(s, p, e, f))
}

/// What one reported error is expected to say.
struct Expected<'a> {
    message: &'a str,
    labels: &'a [(&'a str, usize, usize)],
    help: Option<&'a str>,
}

fn err_eq<T>(r: Result<T, Vec<ParseError>>, expected: &[Expected]) {
    let errors = match r {
        Ok(_) => panic!("parse succeeded"),
        Err(e) => e,
    };
    for e in &errors {
        println!("{}: {:?}", e.message(), e);
    }
    assert!(errors.len() >= expected.len());
    for (e, x) in errors.iter().zip(expected.iter()) {
        assert_eq!(e.message(), x.message);
        let labels: Vec<(String, usize, usize)> = e
            .labels()
            .into_iter()
            .map(|l| {
                let (offset, length) = l.span.error_span();
                (l.text, offset, length)
            })
            .collect();
        let want: Vec<(String, usize, usize)> =
            x.labels.iter().map(|(t, o, l)| (t.to_string(), *o, *l)).collect();
        assert_eq!(labels, want);
        if let Some(h) = x.help {
            assert_eq!(e.help().as_deref(), Some(h));
        }
    }
}

fn one<'a>(message: &'a str, labels: &'a [(&'a str, usize, usize)]) -> Expected<'a> {
    Expected { message, labels, help: None }
}

fn single(r: Result<Vec<SpannedNode>, Vec<ParseError>>) -> Node {
    let mut v = r.unwrap();
    assert_eq!(v.len(), 1);
    v.remove(0).value
}

#[test]
fn parse_ws() {
    parse("   ", p_ws).unwrap();
    parse("text", p_ws).unwrap_err();
}

#[test]
fn parse_comments() {
    parse("//hello", p_comment).unwrap();
    parse("//hello\n", p_comment).unwrap();
    parse("/*nothing*/", p_ml_comment).unwrap();
    parse("/*nothing**/", p_ml_comment).unwrap();
    parse("/*no*thing*/", p_ml_comment).unwrap();
    parse("/*no/**/thing*/", p_ml_comment).unwrap();
    parse("/*no/*/**/*/thing*/", p_ml_comment).unwrap();
    parse("   // hello", |s: &Src, p, e: &mut Vec<ParseError>, f: &mut Furthest| {
        let (_, q) = p_ws(s, p, e, f)?;
        p_comment(s, q, e, f)
    })
    .unwrap();
    parse("   // hello\n   //world", |s: &Src, p, e: &mut Vec<ParseError>, f: &mut Furthest| {
        let (_, q) = p_ws(s, p, e, f)?;
        let (_, q) = p_comment(s, q, e, f)?;
        let (_, q) = p_ws(s, q, e, f)?;
        p_comment(s, q, e, f)
    })
    .unwrap();
}

#[test]
fn parse_comment_err() {
    err_eq(
        parse(r#"/* comment"#, p_ws),
        &[one("unclosed comment `/*`", &[("opened here", 0, 2), ("expected `*/`", 10, 0)])],
    );
    err_eq(
        parse(r#"/* com/*ment *"#, p_ws),
        &[one("unclosed comment `/*`", &[("opened here", 0, 2), ("expected `*/`", 14, 0)])],
    );
    err_eq(
        parse(r#"/* com/*me*/nt *"#, p_ws),
        &[one("unclosed comment `/*`", &[("opened here", 0, 2), ("expected `*/`", 16, 0)])],
    );
    err_eq(
        parse(r#"/* comment *"#, p_ws),
        &[one("unclosed comment `/*`", &[("opened here", 0, 2), ("expected `*/`", 12, 0)])],
    );
    err_eq(
        parse(r#"/*/"#, p_ws),
        &[one("unclosed comment `/*`", &[("opened here", 0, 2), ("expected `*/`", 3, 0)])],
    );
    // nothing is expected for comment or whitespace
    err_eq(
        parse(r#"xxx"#, p_ws),
        &[one("found `x`, expected whitespace", &[("unexpected token", 0, 1)])],
    );
}

#[test]
fn parse_str() {
    assert_eq!(&*parse(r#""hello""#, p_string).unwrap(), "hello");
    assert_eq!(&*parse(r#""""#, p_string).unwrap(), "");
    assert_eq!(&*parse(r#""hel\"lo""#, p_string).unwrap(), "hel\"lo");
    assert_eq!(&*parse(r#""hello\nworld!""#, p_string).unwrap(), "hello\nworld!");
    assert_eq!(&*parse(r#""\u{1F680}""#, p_string).unwrap(), "🚀");
}

#[test]
fn parse_raw_str() {
    assert_eq!(&*parse(r#""hello""#, p_string).unwrap(), "hello");
    assert_eq!(&*parse(r##"#"world"#"##, p_string).unwrap(), "world");
    assert_eq!(&*parse(r##"#"world"#"##, p_string).unwrap(), "world");
    assert_eq!(&*parse(r####"###"a\n"##b"###"####, p_string).unwrap(), "a\\n\"##b");
}

#[test]
fn parse_str_err() {
    err_eq(
        parse(r#""hello"#, p_string),
        &[one("unclosed string `\"`", &[("opened here", 0, 1), ("expected `\"`", 6, 0)])],
    );
    err_eq(
        parse(r#""he\u{FFFFFF}llo""#, p_string),
        &[one("converted integer out of range for `char`", &[("invalid character code", 5, 8)])],
    );
    err_eq(
        parse(r#""he\u{1234567}llo""#, p_string),
        &[one("found `7`, expected `}`", &[("unexpected token", 12, 1)])],
    );
    err_eq(
        parse(r#""he\u{1gh}llo""#, p_string),
        &[one("found `g`, expected `}` or hexadecimal digit", &[("unexpected character", 7, 1)])],
    );
    err_eq(
        parse(r#""he\x01llo""#, p_string),
        &[one(
            "found `x`, expected `\"`, `\\`, `b`, `f`, `n`, `r`, `s`, `t`, `u` or newline",
            &[("invalid escape char", 4, 1)],
        )],
    );
    // Tests error recovery
    err_eq(
        parse(r#""he\u{FFFFFF}l\!lo""#, p_string),
        &[
            one("converted integer out of range for `char`", &[("invalid character code", 5, 8)]),
            one(
                "found `!`, expected `\"`, `\\`, `b`, `f`, `n`, `r`, `s`, `t`, `u` or newline",
                &[("invalid escape char", 15, 1)],
            ),
        ],
    );
}

#[test]
fn parse_raw_str_err() {
    err_eq(
        parse(r#"#"hello"#, p_string),
        &[one("unclosed raw string `#\"`", &[("opened here", 0, 2), ("expected `\"#`", 7, 0)])],
    );
    err_eq(
        parse(r###"#"hello""###, p_string),
        &[one("unclosed raw string `#\"`", &[("opened here", 0, 2), ("expected `\"#`", 8, 0)])],
    );
    err_eq(
        parse(r####"###"hello"####, p_string),
        &[one("unclosed raw string `###\"`", &[("opened here", 0, 4), ("expected `\"###`", 9, 0)])],
    );
    err_eq(
        parse(r####"###"hello"#world"####, p_string),
        &[one("unclosed raw string `###\"`", &[("opened here", 0, 4), ("expected `\"###`", 16, 0)])],
    );
}

#[test]
fn parse_multiline_str() {
    // Basic multi-line quoted string
    assert_eq!(&*parse("\"\"\"\n    hello\n    \"\"\"", p_string).unwrap(), "hello");
    // Multi-line string with dedentation
    assert_eq!(
        &*parse("\"\"\"\n    line1\n    line2\n    \"\"\"", p_string).unwrap(),
        "line1\nline2"
    );
    // Multi-line string with no indent
    assert_eq!(&*parse("\"\"\"\nline1\nline2\n\"\"\"", p_string).unwrap(), "line1\nline2");
    // Empty multi-line string
    assert_eq!(&*parse("\"\"\"\n\"\"\"", p_string).unwrap(), "");
    // Multi-line string with escape sequences
    assert_eq!(
        &*parse("\"\"\"\n    hello\\nworld\n    \"\"\"", p_string).unwrap(),
        "hello\nworld"
    );
    // Multi-line string with one or two quotes (not three)
    assert_eq!(
        &*parse("\"\"\"\n    say \"hi\"\n    \"\"\"", p_string).unwrap(),
        "say \"hi\""
    );
    assert_eq!(
        &*parse("\"\"\"\n    say \"\"hi\"\"\n    \"\"\"", p_string).unwrap(),
        "say \"\"hi\"\""
    );
    // Multi-line string with whitespace-only lines (become empty)
    assert_eq!(
        &*parse("\"\"\"\n    line1\n    \n    line2\n    \"\"\"", p_string).unwrap(),
        "line1\n\nline2"
    );
}

#[test]
fn parse_multiline_raw_str() {
    // Basic multi-line raw string
    assert_eq!(&*parse("#\"\"\"\n    hello\n    \"\"\"#", p_string).unwrap(), "hello");
    // Multi-line raw string with multiple hashes
    assert_eq!(&*parse("##\"\"\"\n    hello\n    \"\"\"##", p_string).unwrap(), "hello");
    // Multi-line raw string preserves backslashes
    assert_eq!(
        &*parse("#\"\"\"\n    hello\\nworld\n    \"\"\"#", p_string).unwrap(),
        "hello\\nworld"
    );
    // Multi-line raw string with quotes inside
    assert_eq!(
        &*parse("#\"\"\"\n    say \"\"\"hi\"\"\"\n    \"\"\"#", p_string).unwrap(),
        "say \"\"\"hi\"\"\""
    );
    // Empty multi-line raw string
    assert_eq!(&*parse("#\"\"\"\n\"\"\"#", p_string).unwrap(), "");
}

#[test]
fn parse_multiline_str_crlf() {
    // CRLF should be normalized to LF
    assert_eq!(&*parse("\"\"\"\r\n    hello\r\n    \"\"\"", p_string).unwrap(), "hello");
    assert_eq!(
        &*parse("\"\"\"\r\n    line1\r\n    line2\r\n    \"\"\"", p_string).unwrap(),
        "line1\nline2"
    );
}

#[test]
fn parse_multiline_str_err_no_opening_newline() {
    err_eq(
        parse("\"\"\"hello\"\"\"", p_string),
        &[one(
            "opening delimiter must be immediately followed by a newline",
            &[("must be followed by newline", 0, 3)],
        )],
    );
}

#[test]
fn parse_multiline_raw_str_err_no_opening_newline() {
    err_eq(
        parse("##\"\"\"hello\"\"\"##", p_string),
        &[one(
            "opening delimiter must be immediately followed by a newline",
            &[("must be followed by newline", 0, 5)],
        )],
    );
}

#[test]
fn parse_multiline_str_err_closing_not_on_own_line() {
    err_eq(
        parse("\"\"\"\nhello\"\"\"", p_string),
        &[one(
            "closing delimiter must be on its own line with only whitespace prefix",
            &[("must be on its own line", 9, 3)],
        )],
    );
}

#[test]
fn parse_multiline_raw_str_err_closing_not_on_own_line() {
    err_eq(
        parse("##\"\"\"\nhello\"\"\"##", p_string),
        &[one(
            "closing delimiter must be on its own line with only whitespace prefix",
            &[("must be on its own line", 11, 5)],
        )],
    );
}

#[test]
fn parse_multiline_str_err_insufficient_indent() {
    err_eq(
        parse("\"\"\"\n    hello\n\u{00a0}\u{00a0}world\n    \"\"\"", p_string),
        &[one(
            "line must start with the same whitespace as the closing delimiter",
            &[("insufficient indentation", 14, 4)],
        )],
    );
}

#[test]
fn triple_quote_not_single_line() {
    err_eq(
        parse("\"\"\"", p_string),
        &[one(
            "unclosed multi-line string `\"\"\"`",
            &[("opened here", 0, 3), ("expected `\"\"\"`", 3, 0)],
        )],
    );
}

#[test]
fn hash_triple_quote_is_multiline() {
    err_eq(
        parse("#\"\"\"#", p_string),
        &[one(
            "unclosed multi-line raw string `#\"\"\"`",
            &[("opened here", 0, 4), ("expected `\"\"\"#`", 5, 0)],
        )],
    );
}

#[test]
fn parse_ident() {
    assert_eq!(&*parse("abcdef", p_ident).unwrap(), "abcdef");
    assert_eq!(&*parse("xx_cd$yy", p_ident).unwrap(), "xx_cd$yy");
    assert_eq!(&*parse("-", p_ident).unwrap(), "-");
    assert_eq!(&*parse("--hello", p_ident).unwrap(), "--hello");
    assert_eq!(&*parse("--hello1234", p_ident).unwrap(), "--hello1234");
    assert_eq!(&*parse("--1", p_ident).unwrap(), "--1");
    assert_eq!(&*parse("++1", p_ident).unwrap(), "++1");
    assert_eq!(&*parse("-hello", p_ident).unwrap(), "-hello");
    assert_eq!(&*parse("+hello", p_ident).unwrap(), "+hello");
    assert_eq!(&*parse("-A", p_ident).unwrap(), "-A");
    assert_eq!(&*parse("+b", p_ident).unwrap(), "+b");
    let ident_ws = |s: &Src, p, e: &mut Vec<ParseError>, f: &mut Furthest| {
        let (v, q) = p_ident(s, p, e, f)?;
        let (_, q) = p_ws(s, q, e, f)?;
        Some((v, q))
    };
    assert_eq!(&*parse("adef   ", ident_ws).unwrap(), "adef");
    assert_eq!(&*parse("a123@   ", ident_ws).unwrap(), "a123@");
    parse("1abc", p_ident).unwrap_err();
    parse("-1", p_ident).unwrap_err();
    parse("-1test", p_ident).unwrap_err();
    parse("+1", p_ident).unwrap_err();
}

#[test]
fn parse_literal() {
    assert_eq!(parse("#true", p_literal).unwrap(), Literal::Bool(true));
    assert_eq!(parse("#false", p_literal).unwrap(), Literal::Bool(false));
    assert_eq!(parse("#null", p_literal).unwrap(), Literal::Null);
    assert_eq!(parse("#nan", p_literal).unwrap(), Literal::Nan);
    assert_eq!(parse("#inf", p_literal).unwrap(), Literal::Inf);
    assert_eq!(parse("#-inf", p_literal).unwrap(), Literal::NegInf);
}

#[test]
fn exclude_keywords() {
    parse("item #true", p_nodes).unwrap();

    err_eq(
        parse("#true \"item\"", p_nodes),
        &[one("found `t`, expected `\"` or `#`", &[("unexpected token", 1, 1)])],
    );
    err_eq(
        parse("item #false=#true", p_nodes),
        &[one("found keyword, expected identifier or string", &[("unexpected keyword", 5, 6)])],
    );
    err_eq(
        parse("item 2=2", p_nodes),
        &[Expected {
            message: "numbers cannot be used as property names",
            labels: &[("unexpected number", 5, 1)],
            help: Some("consider enclosing in double quotes \"..\""),
        }],
    );
}

#[test]
fn exclude_bare_keywords() {
    err_eq(
        parse("item true", p_nodes),
        &[one("`true` is not allowed as a bare string", &[("illegal identifier", 5, 4)])],
    );
    err_eq(
        parse(r#"true "item""#, p_nodes),
        &[one("`true` is not allowed as a bare string", &[("illegal identifier", 0, 4)])],
    );
    err_eq(
        parse("item false=#true", p_nodes),
        &[one("`false` is not allowed as a bare string", &[("illegal identifier", 5, 5)])],
    );
}

#[test]
fn parse_type() {
    assert_eq!(parse("(abcdef)", p_type).unwrap(), TypeName::from_string("abcdef".into()));
    assert_eq!(parse("(xx_cd$yy)", p_type).unwrap(), TypeName::from_string("xx_cd$yy".into()));
    parse("(1abc)", p_type).unwrap_err();
    assert_eq!(parse("( abc)", p_type).unwrap(), TypeName::from_string("abc".into()));
    assert_eq!(parse("(abc )", p_type).unwrap(), TypeName::from_string("abc".into()));
}

#[test]
fn parse_type_err() {
    err_eq(
        parse("(123)", p_type),
        &[one("found number, expected identifier", &[("unexpected number", 1, 3)])],
    );
    err_eq(
        parse("(-1)", p_type),
        &[one("found number, expected identifier", &[("unexpected number", 1, 2)])],
    );
}

#[test]
fn parse_node() {
    let nval = single(parse("hello", p_nodes));
    assert_eq!(nval.node_name.as_str(), "hello");
    assert_eq!(nval.type_tag.as_ref(), None);

    let nval = single(parse("\"123\"", p_nodes));
    assert_eq!(nval.node_name.as_str(), "123");
    assert_eq!(nval.type_tag.as_ref(), None);

    let nval = single(parse("(typ)other", p_nodes));
    assert_eq!(nval.node_name.as_str(), "other");
    assert_eq!(nval.type_tag.as_ref().map(|x| &***x), Some("typ"));

    let nval = single(parse("(typ) \tafter-ws", p_nodes));
    assert_eq!(nval.node_name.as_str(), "after-ws");
    assert_eq!(nval.type_tag.as_ref().map(|x| &***x), Some("typ"));

    let nval = single(parse("(\"std::duration\")\"timeout\"", p_nodes));
    assert_eq!(nval.node_name.as_str(), "timeout");
    assert_eq!(nval.type_tag.as_ref().map(|x| &***x), Some("std::duration"));

    let nval = single(parse("hello \"arg1\"", p_nodes));
    assert_eq!(nval.node_name.as_str(), "hello");
    assert_eq!(nval.type_tag.as_ref(), None);
    assert_eq!(nval.arguments.len(), 1);
    assert_eq!(nval.properties.len(), 0);
    assert_eq!(&*nval.arguments[0].literal, &Literal::String("arg1".into()));

    let nval = single(parse("node \"true\"", p_nodes));
    assert_eq!(nval.node_name.as_str(), "node");
    assert_eq!(nval.type_tag.as_ref(), None);
    assert_eq!(nval.arguments.len(), 1);
    assert_eq!(nval.properties.len(), 0);
    assert_eq!(&*nval.arguments[0].literal, &Literal::String("true".into()));

    let nval = single(parse("hello (string)\"arg1\"", p_nodes));
    assert_eq!(nval.node_name.as_str(), "hello");
    assert_eq!(nval.type_tag.as_ref(), None);
    assert_eq!(nval.arguments.len(), 1);
    assert_eq!(nval.properties.len(), 0);
    assert_eq!(&***nval.arguments[0].type_tag.as_ref().unwrap(), "string");
    assert_eq!(&*nval.arguments[0].literal, &Literal::String("arg1".into()));

    let nval = single(parse("hello (typ) \t\"after whitespace\"", p_nodes));
    assert_eq!(nval.node_name.as_str(), "hello");
    assert_eq!(nval.type_tag.as_ref(), None);
    assert_eq!(nval.arguments.len(), 1);
    assert_eq!(nval.properties.len(), 0);
    assert_eq!(&***nval.arguments[0].type_tag.as_ref().unwrap(), "typ");
    assert_eq!(&*nval.arguments[0].literal, &Literal::String("after whitespace".into()));

    let nval = single(parse("hello key=(string)\"arg1\"", p_nodes));
    assert_eq!(nval.node_name.as_str(), "hello");
    assert_eq!(nval.type_tag.as_ref(), None);
    assert_eq!(nval.arguments.len(), 0);
    assert_eq!(nval.properties.len(), 1);
    assert_eq!(&***nval.property("key").unwrap().type_tag.as_ref().unwrap(), "string");
    assert_eq!(&*nval.property("key").unwrap().literal, &Literal::String("arg1".into()));

    let nval = single(parse("hello key=\"arg1\"", p_nodes));
    assert_eq!(nval.node_name.as_str(), "hello");
    assert_eq!(nval.type_tag.as_ref(), None);
    assert_eq!(nval.arguments.len(), 0);
    assert_eq!(nval.properties.len(), 1);
    assert_eq!(&*nval.property("key").unwrap().literal, &Literal::String("arg1".into()));

    let nval = single(parse("parent {\nchild\n}", p_nodes));
    assert_eq!(nval.node_name.as_str(), "parent");
    assert_eq!(nval.children().len(), 1);
    assert_eq!(nval.children.as_ref().unwrap()[0].node_name.as_str(), "child");

    let nval = single(parse("parent {\nchild1\nchild2\n}", p_nodes));
    assert_eq!(nval.node_name.as_str(), "parent");
    assert_eq!(nval.children().len(), 2);
    assert_eq!(nval.children.as_ref().unwrap()[0].node_name.as_str(), "child1");
    assert_eq!(nval.children.as_ref().unwrap()[1].node_name.as_str(), "child2");

    let nval = single(parse("parent{\nchild3\n}", p_nodes));
    assert_eq!(nval.node_name.as_str(), "parent");
    assert_eq!(nval.children().len(), 1);
    assert_eq!(nval.children.as_ref().unwrap()[0].node_name.as_str(), "child3");

    let nval = single(parse("parent \"x\"=1 {\nchild4\n}", p_nodes));
    assert_eq!(nval.node_name.as_str(), "parent");
    assert_eq!(nval.properties.len(), 1);
    assert_eq!(nval.children().len(), 1);
    assert_eq!(nval.children.as_ref().unwrap()[0].node_name.as_str(), "child4");

    let nval = single(parse("parent \"x\" {\nchild4\n}", p_nodes));
    assert_eq!(nval.node_name.as_str(), "parent");
    assert_eq!(nval.arguments.len(), 1);
    assert_eq!(nval.children().len(), 1);
    assert_eq!(nval.children.as_ref().unwrap()[0].node_name.as_str(), "child4");

    let nval = single(parse("parent \"x\"{\nchild5\n}", p_nodes));
    assert_eq!(nval.node_name.as_str(), "parent");
    assert_eq!(nval.arguments.len(), 1);
    assert_eq!(nval.children().len(), 1);
    assert_eq!(nval.children.as_ref().unwrap()[0].node_name.as_str(), "child5");

    let nval = single(parse("hello /-\"skip_arg\" \"arg2\"", p_nodes));
    assert_eq!(nval.node_name.as_str(), "hello");
    assert_eq!(nval.type_tag.as_ref(), None);
    assert_eq!(nval.arguments.len(), 1);
    assert_eq!(nval.properties.len(), 0);
    assert_eq!(&*nval.arguments[0].literal, &Literal::String("arg2".into()));

    let nval = single(parse("hello /- \"skip_arg\" \"arg2\"", p_nodes));
    assert_eq!(nval.node_name.as_str(), "hello");
    assert_eq!(nval.type_tag.as_ref(), None);
    assert_eq!(nval.arguments.len(), 1);
    assert_eq!(nval.properties.len(), 0);
    assert_eq!(&*nval.arguments[0].literal, &Literal::String("arg2".into()));

    let nval = single(parse("hello prop1=\"1\" /-prop1=\"2\"", p_nodes));
    assert_eq!(nval.node_name.as_str(), "hello");
    assert_eq!(nval.type_tag.as_ref(), None);
    assert_eq!(nval.arguments.len(), 0);
    assert_eq!(nval.properties.len(), 1);
    assert_eq!(&*nval.property("prop1").unwrap().literal, &Literal::String("1".into()));

    let nval = single(parse("parent /-{\nchild\n}", p_nodes));
    assert_eq!(nval.node_name.as_str(), "parent");
    assert_eq!(nval.children().len(), 0);
}

#[test]
fn parse_node_whitespace() {
    let nval = single(parse("hello  {   }", p_nodes));
    assert_eq!(nval.node_name.as_str(), "hello");
    assert_eq!(nval.type_tag.as_ref(), None);

    let nval = single(parse("hello  {   }  ", p_nodes));
    assert_eq!(nval.node_name.as_str(), "hello");
    assert_eq!(nval.type_tag.as_ref(), None);

    let nval = single(parse("hello ", p_nodes));
    assert_eq!(nval.node_name.as_str(), "hello");
    assert_eq!(nval.type_tag.as_ref(), None);

    let nval = single(parse("hello   ", p_nodes));
    assert_eq!(nval.node_name.as_str(), "hello");
    assert_eq!(nval.type_tag.as_ref(), None);
}

#[test]
fn parse_node_err() {
    err_eq(
        parse("hello{", p_nodes),
        &[one("unclosed curly braces `{`", &[("opened here", 5, 1), ("expected `}`", 6, 0)])],
    );
    err_eq(
        parse("1 + 2", p_nodes),
        &[one("found number, expected identifier", &[("unexpected number", 0, 1)])],
    );
    err_eq(
        parse("-1 +2", p_nodes),
        &[one("found number, expected identifier", &[("unexpected number", 0, 2)])],
    );
}

#[test]
fn parse_nodes() {
    let nval = parse("parent {\n/-  child\n}", p_nodes).unwrap();
    assert_eq!(nval.len(), 1);
    assert_eq!(nval[0].node_name.as_str(), "parent");
    assert_eq!(nval[0].children().len(), 0);

    let nval = parse("/-parent {\n  child\n}\nsecond", p_nodes).unwrap();
    assert_eq!(nval.len(), 1);
    assert_eq!(nval[0].node_name.as_str(), "second");
    assert_eq!(nval[0].children().len(), 0);
}

#[test]
fn parse_number() {
    assert_eq!(parse("12", p_number).unwrap(), Literal::Int(Integer(Radix::Dec, "12".into())));
    assert_eq!(parse("012", p_number).unwrap(), Literal::Int(Integer(Radix::Dec, "012".into())));
    assert_eq!(parse("0", p_number).unwrap(), Literal::Int(Integer(Radix::Dec, "0".into())));
    assert_eq!(parse("-012", p_number).unwrap(), Literal::Int(Integer(Radix::Dec, "-012".into())));
    assert_eq!(parse("+0", p_number).unwrap(), Literal::Int(Integer(Radix::Dec, "+0".into())));
    assert_eq!(
        parse("123_555", p_number).unwrap(),
        Literal::Int(Integer(Radix::Dec, "123555".into()))
    );
    assert_eq!(parse("123.555", p_number).unwrap(), Literal::Decimal(Decimal("123.555".into())));
    assert_eq!(
        parse("+1_23.5_55E-17", p_number).unwrap(),
        Literal::Decimal(Decimal("+123.555E-17".into()))
    );
    assert_eq!(parse("123e+555", p_number).unwrap(), Literal::Decimal(Decimal("123e+555".into())));
}

#[test]
fn parse_radix_number() {
    assert_eq!(parse("0x12", p_number).unwrap(), Literal::Int(Integer(Radix::Hex, "12".into())));
    assert_eq!(parse("0xab_12", p_number).unwrap(), Literal::Int(Integer(Radix::Hex, "ab12".into())));
    assert_eq!(
        parse("-0xab_12", p_number).unwrap(),
        Literal::Int(Integer(Radix::Hex, "-ab12".into()))
    );
    assert_eq!(parse("0o17", p_number).unwrap(), Literal::Int(Integer(Radix::Oct, "17".into())));
    assert_eq!(parse("+0o17", p_number).unwrap(), Literal::Int(Integer(Radix::Oct, "+17".into())));
    assert_eq!(
        parse("0b1010_101", p_number).unwrap(),
        Literal::Int(Integer(Radix::Bin, "1010101".into()))
    );
}

#[test]
fn parse_dashes() {
    let nval = parse("-", p_nodes).unwrap();
    assert_eq!(nval.len(), 1);
    assert_eq!(nval[0].node_name.as_str(), "-");
    assert_eq!(nval[0].children().len(), 0);

    let nval = parse("--", p_nodes).unwrap();
    assert_eq!(nval.len(), 1);
    assert_eq!(nval[0].node_name.as_str(), "--");
    assert_eq!(nval[0].children().len(), 0);

    let nval = parse("--1", p_nodes).unwrap();
    assert_eq!(nval.len(), 1);
    assert_eq!(nval[0].node_name.as_str(), "--1");
    assert_eq!(nval[0].children().len(), 0);

    let nval = parse("-\n-", p_nodes).unwrap();
    assert_eq!(nval.len(), 2);
    assert_eq!(nval[0].node_name.as_str(), "-");
    assert_eq!(nval[0].children().len(), 0);
    assert_eq!(nval[1].node_name.as_str(), "-");
    assert_eq!(nval[1].children().len(), 0);

    let nval = parse("node -1 --x=2", p_nodes).unwrap();
    assert_eq!(nval.len(), 1);
    assert_eq!(nval[0].arguments.len(), 1);
    assert_eq!(nval[0].properties.len(), 1);
    assert_eq!(&*nval[0].arguments[0].literal, &Literal::Int(Integer(Radix::Dec, "-1".into())));
    assert_eq!(
        &*nval[0].property("--x").unwrap().literal,
        &Literal::Int(Integer(Radix::Dec, "2".into()))
    );
}

#[test]
fn parse_property_ws() {
    let variants = ["node a =b", "node a= b", "node a     =       b", "node\ta\t=\tb"];
    for ea_variant in variants {
        let nval = parse(ea_variant, p_nodes).unwrap();
        assert_eq!(nval.len(), 1);
        assert_eq!(nval[0].node_name.as_str(), "node");
        assert_eq!(nval[0].arguments.len(), 0);
        assert_eq!(nval[0].properties.len(), 1);
        assert_eq!(&*nval[0].property("a").unwrap().literal, &Literal::String("b".into()));
    }

    err_eq(
        parse("node a\\\n=b", p_nodes),
        &[one(
            "found `=`, expected `\"`, `#`, `(`, `+`, `-`, `.`, `0`, `;`, `\\`, `{`, `#-inf`, `#false`, `#inf`, `#nan`, `#null`, `#true`, letter, newline, whitespace or end of input",
            &[("unexpected token", 8, 1)],
        )],
    );
}

#[test]
fn escape_errors_carry_offsets() {
    let run = |s: &str| escapes(&s.chars().collect::<Vec<char>>());
    assert_eq!(run("ab\\u{D800}"), Err((2, EscapeError::InvalidCodePoint(0xD800))));
    assert_eq!(run("a\\q"), Err((2, EscapeError::InvalidEscapeChar('q'))));
    assert_eq!(run("ab\\"), Err((2, EscapeError::TrailingBackslash)));
    assert_eq!(run("\\u{1234567}"), Err((0, EscapeError::TooLong)));
    assert_eq!(run("\\u{12g}"), Err((5, EscapeError::InvalidHexChar('g'))));
    assert_eq!(run("\u{e9}\\u{41}\\n"), Ok(vec!['\u{e9}', 'A', '\n']));
}
