use knus::errors::{DecodeError, Delimiter, ErrorItem, EscapeError, Label, ParseError, Token, TokenKind};
use knus::span::Span;
use knus::wrappers::parse_ast;

fn syntax_errors(text: &str) -> Vec<ParseError> {
    parse_ast("<test>", text)
        .unwrap_err()
        .errors
        .into_iter()
        .map(|e| match e {
            ErrorItem::Parse(p) => p,
            ErrorItem::Decode(_) => panic!("syntax error expected"),
        })
        .collect()
}

fn labels(e: &ParseError) -> Vec<(String, Span)> {
    e.labels().into_iter().map(|l| (l.text, l.span)).collect()
}

#[test]
fn unclosed_delimiters_in_documents() {
    let e = syntax_errors("a \"text");
    assert_eq!(e[0].message(), "unclosed string `\"`");
    let e = syntax_errors("a ##\"text\"#");
    assert_eq!(e[0].message(), "unclosed raw string `##\"`");
    assert_eq!(labels(&e[0])[1], ("expected `\"##`".to_string(), Span(11, 11)));
    let e = syntax_errors("a \"\"\"\nx");
    assert_eq!(e[0].message(), "unclosed multi-line string `\"\"\"`");
    let e = syntax_errors("a /* x");
    assert_eq!(e[0].message(), "unclosed comment `/*`");
}

#[test]
fn invalid_escape_in_multiline_string() {
    let e = syntax_errors("a \"\"\"\n  x\\qy\n  \"\"\"");
    assert_eq!(e.len(), 1);
    match &e[0] {
        ParseError::InvalidEscape { error, span } => {
            assert_eq!(*error, EscapeError::InvalidEscapeChar('q'));
            assert_eq!(*span, Span(5, 18));
        }
        other => panic!("unexpected {:?}", other),
    }
    assert_eq!(e[0].message(), "invalid escape character: 'q'");
    assert_eq!(labels(&e[0]), vec![("invalid escape sequence".to_string(), Span(5, 18))]);
}

#[test]
fn bad_code_in_multiline_string() {
    let e = syntax_errors("a \"\"\"\n  \\u{D800}\n  \"\"\"");
    assert_eq!(e.len(), 1);
    assert_eq!(e[0].message(), "invalid unicode code point: 55296");
    assert_eq!(labels(&e[0])[0].0, "invalid escape sequence");
}

#[test]
fn messages_of_each_error() {
    let span = Span(1, 2);
    let cases: Vec<(ParseError, &str)> = vec![
        (
            ParseError::Unexpected {
                label: Label::UnexpectedToken,
                span,
                found: Token::EndOfInput,
                expected: vec![Token::Char('a')],
            },
            "found end of input, expected `a`",
        ),
        (
            ParseError::Unexpected {
                label: Label::UnexpectedToken,
                span,
                found: Token::Kind(TokenKind::String),
                expected: vec![],
            },
            "unexpected string",
        ),
        (
            ParseError::Unclosed { delimiter: Delimiter::Braces, opened_at: span, expected_at: span },
            "unclosed curly braces `{`",
        ),
        (
            ParseError::Unclosed {
                delimiter: Delimiter::MultilineRawString(2),
                opened_at: span,
                expected_at: span,
            },
            "unclosed multi-line raw string `##\"\"\"`",
        ),
        (ParseError::UnexpectedNumber { span }, "found number, expected identifier"),
        (ParseError::KeywordAsPropertyName { span }, "found keyword, expected identifier or string"),
        (ParseError::NumberAsPropertyName { span }, "numbers cannot be used as property names"),
        (ParseError::CharOutOfRange { span }, "converted integer out of range for `char`"),
        (
            ParseError::InvalidEscape { span, error: EscapeError::InvalidHexChar('z') },
            "invalid character 'z' in unicode escape",
        ),
        (
            ParseError::InvalidEscape { span, error: EscapeError::TrailingBackslash },
            "trailing backslash",
        ),
    ];
    for (e, m) in cases {
        assert_eq!(e.message(), m);
        assert!(!e.labels().is_empty());
    }
    assert_eq!(ParseError::UnexpectedNumber { span }.help(), None);
}

#[test]
fn expected_tokens_are_listed_in_order() {
    let e = ParseError::Unexpected {
        label: Label::UnexpectedToken,
        span: Span(0, 1),
        found: Token::Char('x'),
        expected: vec![
            Token::Char('"'),
            Token::Keyword(knus::errors::Keyword::NegInf),
            Token::Kind(TokenKind::Letter),
            Token::EndOfInput,
        ],
    };
    assert_eq!(e.message(), "found `x`, expected `\"`, `#-inf`, letter or end of input");
}

#[test]
fn decode_error_messages() {
    let e = DecodeError::ScalarKind { span: Span(0, 1), expected: "string".into(), found: "integer".into() };
    assert_eq!(e.message(), "expected string, found integer");
    assert_eq!(e.span(), Some(Span(0, 1)));
    let e = DecodeError::MissingNode { message: "child node `a` is required".into() };
    assert_eq!(e.message(), "child node `a` is required");
    assert_eq!(e.span(), None);
}

#[test]
fn escape_errors_in_multiline_strings() {
    let cases: Vec<(&str, EscapeError)> = vec![
        ("x\\u1234", EscapeError::ExpectedBrace),
        ("x\\u{1234567}", EscapeError::TooLong),
        ("x\\u{12g}", EscapeError::InvalidHexChar('g')),
        ("x\\u{12", EscapeError::Unclosed),
        ("x\\u{}", EscapeError::Empty),
        ("x\\u{110000}", EscapeError::InvalidCodePoint(0x110000)),
        ("x\\", EscapeError::TrailingBackslash),
    ];
    for (body, expected) in cases {
        let text = format!("a \"\"\"\n  {}\n  \"\"\"", body);
        let e = syntax_errors(&text);
        assert_eq!(e.len(), 1, "{}", text);
        match &e[0] {
            ParseError::InvalidEscape { error, span } => {
                assert_eq!(*error, expected, "{}", text);
                assert_eq!(*span, Span(5, text.len()));
            }
            other => panic!("unexpected {:?} for {}", other, text),
        }
    }
}
