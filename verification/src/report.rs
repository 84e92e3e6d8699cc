//! The text of error messages: what each error says, and the labels it puts
//! on spans of the source.
use vstd::prelude::*;
use vstd::string::StringExecFns;

use crate::errors::{
    BareKeyword, DecodeError, Delimiter, EscapeError, Keyword, Label, ParseError, Token,
    TokenKind,
};
use crate::grammar::words::keyword_text;
use crate::span::{Span, Spanned};
use crate::text::string_push;

verus! {

/// The name of a class of tokens.
pub open spec fn kind_name(k: TokenKind) -> Seq<char> {
    match k {
        TokenKind::Newline => "newline"@,
        TokenKind::Whitespace => "whitespace"@,
        TokenKind::Letter => "letter"@,
        TokenKind::Identifier => "identifier"@,
        TokenKind::String => "string"@,
        TokenKind::Number => "number"@,
        TokenKind::Keyword => "keyword"@,
        TokenKind::HexDigit => "hexadecimal digit"@,
    }
}

/// How a message names a token.
pub open spec fn token_text(t: Token) -> Seq<char> {
    match t {
        Token::Char(c) => seq!['`', c, '`'],
        Token::Keyword(k) => seq!['`'] + keyword_text(k) + seq!['`'],
        Token::Kind(k) => kind_name(k),
        Token::EndOfInput => "end of input"@,
    }
}

/// Tokens named one after the other, with commas between.
pub open spec fn comma_list(ts: Seq<Token>) -> Seq<char>
    decreases ts.len(),
{
    if ts.len() == 0 {
        Seq::empty()
    } else if ts.len() == 1 {
        token_text(ts[0])
    } else {
        comma_list(ts.drop_last()) + ", "@ + token_text(ts.last())
    }
}

/// Tokens named one after the other, with commas between and `or` before
/// the last.
pub open spec fn token_list(ts: Seq<Token>) -> Seq<char> {
    if ts.len() <= 1 {
        comma_list(ts)
    } else {
        comma_list(ts.drop_last()) + " or "@ + token_text(ts.last())
    }
}

/// `n` times `#`.
pub open spec fn hashes(n: nat) -> Seq<char> {
    Seq::new(n, |i: int| '#')
}

/// What a delimiter is called.
pub open spec fn delimiter_name(d: Delimiter) -> Seq<char> {
    match d {
        Delimiter::Comment => "comment"@,
        Delimiter::String => "string"@,
        Delimiter::RawString(_) => "raw string"@,
        Delimiter::MultilineString => "multi-line string"@,
        Delimiter::MultilineRawString(_) => "multi-line raw string"@,
        Delimiter::Braces => "curly braces"@,
    }
}

/// The text that opens a delimited part.
pub open spec fn opening(d: Delimiter) -> Seq<char> {
    match d {
        Delimiter::Comment => "/*"@,
        Delimiter::String => "\""@,
        Delimiter::RawString(n) => hashes(n as nat) + "\""@,
        Delimiter::MultilineString => "\"\"\""@,
        Delimiter::MultilineRawString(n) => hashes(n as nat) + "\"\"\""@,
        Delimiter::Braces => "{"@,
    }
}

/// The text that closes a delimited part.
pub open spec fn closing(d: Delimiter) -> Seq<char> {
    match d {
        Delimiter::Comment => "*/"@,
        Delimiter::String => "\""@,
        Delimiter::RawString(n) => "\""@ + hashes(n as nat),
        Delimiter::MultilineString => "\"\"\""@,
        Delimiter::MultilineRawString(n) => "\"\"\""@ + hashes(n as nat),
        Delimiter::Braces => "}"@,
    }
}

/// A word that is not allowed as a bare identifier.
pub open spec fn bare_word(w: BareKeyword) -> Seq<char> {
    match w {
        BareKeyword::True => "true"@,
        BareKeyword::False => "false"@,
        BareKeyword::Null => "null"@,
        BareKeyword::Nan => "nan"@,
        BareKeyword::Inf => "inf"@,
        BareKeyword::NegInf => "-inf"@,
    }
}

/// The digit that stands for `d < 10`.
pub open spec fn digit_char(d: nat) -> char {
    if d == 0 {
        '0'
    } else if d == 1 {
        '1'
    } else if d == 2 {
        '2'
    } else if d == 3 {
        '3'
    } else if d == 4 {
        '4'
    } else if d == 5 {
        '5'
    } else if d == 6 {
        '6'
    } else if d == 7 {
        '7'
    } else if d == 8 {
        '8'
    } else {
        '9'
    }
}

/// `n` in decimal digits.
pub open spec fn decimal(n: nat) -> Seq<char>
    decreases n,
{
    if n < 10 {
        seq![digit_char(n)]
    } else {
        decimal(n / 10).push(digit_char(n % 10))
    }
}

/// What an invalid escape sequence is reported as.
pub open spec fn escape_message(e: EscapeError) -> Seq<char> {
    match e {
        EscapeError::ExpectedBrace => "expected '{' after \\u"@,
        EscapeError::TooLong => "unicode escape too long"@,
        EscapeError::InvalidHexChar(c) => "invalid character '"@ + seq![c] + "' in unicode escape"@,
        EscapeError::Unclosed => "unclosed unicode escape"@,
        EscapeError::Empty => "empty unicode escape"@,
        EscapeError::InvalidCodePoint(v) => "invalid unicode code point: "@ + decimal(v as nat),
        EscapeError::InvalidEscapeChar(c) => "invalid escape character: '"@ + seq![c] + "'"@,
        EscapeError::TrailingBackslash => "trailing backslash"@,
    }
}

/// The text of a label.
pub open spec fn label_text(l: Label) -> Seq<char> {
    match l {
        Label::UnexpectedToken => "unexpected token"@,
        Label::InvalidEscapeChar => "invalid escape char"@,
        Label::UnexpectedCharacter => "unexpected character"@,
    }
}

/// The main message of a parse error.
pub open spec fn message_of(e: ParseError) -> Seq<char> {
    match e {
        ParseError::Unexpected { found, expected, .. } => if expected@.len() == 0 {
            "unexpected "@ + token_text(found)
        } else {
            "found "@ + token_text(found) + ", expected "@ + token_list(expected@)
        },
        ParseError::Unclosed { delimiter, .. } => "unclosed "@ + delimiter_name(delimiter) + " `"@
            + opening(delimiter) + "`"@,
        ParseError::IllegalIdentifier { word, .. } => "`"@ + bare_word(word)
            + "` is not allowed as a bare string"@,
        ParseError::UnexpectedNumber { .. } => "found number, expected identifier"@,
        ParseError::KeywordAsPropertyName { .. } => "found keyword, expected identifier or string"@,
        ParseError::NumberAsPropertyName { .. } => "numbers cannot be used as property names"@,
        ParseError::CharOutOfRange { .. } => "converted integer out of range for `char`"@,
        ParseError::NoOpeningNewline { .. } => "opening delimiter must be immediately followed by a newline"@,
        ParseError::ClosingNotOnOwnLine { .. } => "closing delimiter must be on its own line with only whitespace prefix"@,
        ParseError::InsufficientIndent { .. } => "line must start with the same whitespace as the closing delimiter"@,
        ParseError::InvalidEscape { error, .. } => escape_message(error),
    }
}

/// The labels of a parse error: a text and the span it is about.
pub open spec fn labels_of(e: ParseError) -> Seq<(Seq<char>, Span)> {
    match e {
        ParseError::Unexpected { label, span, .. } => seq![(label_text(label), span)],
        ParseError::Unclosed { delimiter, opened_at, expected_at } => seq![
            ("opened here"@, opened_at),
            ("expected `"@ + closing(delimiter) + "`"@, expected_at),
        ],
        ParseError::IllegalIdentifier { span, .. } => seq![("illegal identifier"@, span)],
        ParseError::UnexpectedNumber { span } => seq![("unexpected number"@, span)],
        ParseError::KeywordAsPropertyName { span } => seq![("unexpected keyword"@, span)],
        ParseError::NumberAsPropertyName { span } => seq![("unexpected number"@, span)],
        ParseError::CharOutOfRange { span } => seq![("invalid character code"@, span)],
        ParseError::NoOpeningNewline { span } => seq![("must be followed by newline"@, span)],
        ParseError::ClosingNotOnOwnLine { span } => seq![("must be on its own line"@, span)],
        ParseError::InsufficientIndent { span } => seq![("insufficient indentation"@, span)],
        ParseError::InvalidEscape { span, .. } => seq![("invalid escape sequence"@, span)],
    }
}

/// The hint that comes with a parse error, if any.
pub open spec fn help_of(e: ParseError) -> Option<Seq<char>> {
    match e {
        ParseError::NumberAsPropertyName { .. } => Some("consider enclosing in double quotes \"..\""@),
        _ => None,
    }
}

/// A label of an error: a text about a span of the source.
#[derive(Debug)]
pub struct ErrorLabel {
    /// What the label says.
    pub text: String,
    /// The part of the source it is about.
    pub span: Span,
}

/// Appends the name of a token.
fn push_token(s: &mut String, t: Token)
    ensures
        final(s)@ == old(s)@ + token_text(t),
{
    let ghost start = s@;
    match t {
        Token::Char(c) => {
            string_push(s, '`');
            string_push(s, c);
            string_push(s, '`');
        },
        Token::Keyword(k) => {
            string_push(s, '`');
            proof {
                reveal_strlit("#null");
                reveal_strlit("#true");
                reveal_strlit("#false");
                reveal_strlit("#nan");
                reveal_strlit("#inf");
                reveal_strlit("#-inf");
            }
            match k {
                Keyword::Null => s.append("#null"),
                Keyword::True => s.append("#true"),
                Keyword::False => s.append("#false"),
                Keyword::Nan => s.append("#nan"),
                Keyword::Inf => s.append("#inf"),
                Keyword::NegInf => s.append("#-inf"),
            }
            string_push(s, '`');
        },
        Token::Kind(k) => match k {
            TokenKind::Newline => s.append("newline"),
            TokenKind::Whitespace => s.append("whitespace"),
            TokenKind::Letter => s.append("letter"),
            TokenKind::Identifier => s.append("identifier"),
            TokenKind::String => s.append("string"),
            TokenKind::Number => s.append("number"),
            TokenKind::Keyword => s.append("keyword"),
            TokenKind::HexDigit => s.append("hexadecimal digit"),
        },
        Token::EndOfInput => s.append("end of input"),
    }
    assert(s@ =~= start + token_text(t));
}

/// Appends the names of the tokens, with commas between and `or` before the
/// last.
fn push_token_list(s: &mut String, ts: &Vec<Token>)
    ensures
        final(s)@ == old(s)@ + token_list(ts@),
{
    let ghost start = s@;
    let n = ts.len();
    if n == 0 {
        assert(s@ =~= start + token_list(ts@));
        return;
    }
    let last = if n == 1 {
        1
    } else {
        n - 1
    };
    push_token(s, ts[0]);
    assert(ts@.take(1) =~= seq![ts@[0]]);
    let mut i: usize = 1;
    while i < last
        invariant
            1 <= i <= last <= n,
            n == ts.len(),
            last == (if n == 1 { 1 } else { n - 1 }),
            s@ == start + comma_list(ts@.take(i as int)),
        decreases last - i,
    {
        s.append(", ");
        push_token(s, ts[i]);
        proof {
            assert(ts@.take(i + 1).drop_last() =~= ts@.take(i as int));
        }
        i = i + 1;
        assert(s@ =~= start + comma_list(ts@.take(i as int)));
    }
    if n == 1 {
        assert(ts@.take(1) =~= ts@);
    } else {
        s.append(" or ");
        push_token(s, ts[n - 1]);
        assert(ts@.take((n - 1) as int) =~= ts@.drop_last());
    }
    assert(s@ =~= start + token_list(ts@));
}

/// Appends `n` times `#`.
fn push_hashes(s: &mut String, n: usize)
    ensures
        final(s)@ == old(s)@ + hashes(n as nat),
{
    let ghost start = s@;
    let mut i: usize = 0;
    while i < n
        invariant
            i <= n,
            s@ == start + hashes(i as nat),
        decreases n - i,
    {
        string_push(s, '#');
        i = i + 1;
        assert(s@ =~= start + hashes(i as nat));
    }
}

/// Appends the text that opens a delimited part.
fn push_opening(s: &mut String, d: Delimiter)
    ensures
        final(s)@ == old(s)@ + opening(d),
{
    let ghost start = s@;
    match d {
        Delimiter::Comment => s.append("/*"),
        Delimiter::String => s.append("\""),
        Delimiter::RawString(n) => {
            push_hashes(s, n);
            s.append("\"");
        },
        Delimiter::MultilineString => s.append("\"\"\""),
        Delimiter::MultilineRawString(n) => {
            push_hashes(s, n);
            s.append("\"\"\"");
        },
        Delimiter::Braces => s.append("{"),
    }
    assert(s@ =~= start + opening(d));
}

/// Appends the text that closes a delimited part.
fn push_closing(s: &mut String, d: Delimiter)
    ensures
        final(s)@ == old(s)@ + closing(d),
{
    let ghost start = s@;
    match d {
        Delimiter::Comment => s.append("*/"),
        Delimiter::String => s.append("\""),
        Delimiter::RawString(n) => {
            s.append("\"");
            push_hashes(s, n);
        },
        Delimiter::MultilineString => s.append("\"\"\""),
        Delimiter::MultilineRawString(n) => {
            s.append("\"\"\"");
            push_hashes(s, n);
        },
        Delimiter::Braces => s.append("}"),
    }
    assert(s@ =~= start + closing(d));
}

/// Appends `n` in decimal digits.
fn push_decimal(s: &mut String, n: u32)
    ensures
        final(s)@ == old(s)@ + decimal(n as nat),
    decreases n,
{
    let ghost start = s@;
    if n >= 10 {
        push_decimal(s, n / 10);
    }
    let d = n % 10;
    let c = if d == 0 {
        '0'
    } else if d == 1 {
        '1'
    } else if d == 2 {
        '2'
    } else if d == 3 {
        '3'
    } else if d == 4 {
        '4'
    } else if d == 5 {
        '5'
    } else if d == 6 {
        '6'
    } else if d == 7 {
        '7'
    } else if d == 8 {
        '8'
    } else {
        '9'
    };
    string_push(s, c);
    assert(s@ =~= start + decimal(n as nat));
}

/// A string holding `t`.
fn text(t: &str) -> (r: String)
    ensures
        r@ == t@,
{
    t.to_owned()
}

impl ParseError {
    /// The main message of the error.
    pub fn message(&self) -> (r: String)
        ensures
            r@ == message_of(*self),
    {
        match self {
            ParseError::Unexpected { found, expected, .. } => {
                let mut s = String::new();
                if expected.len() == 0 {
                    s.append("unexpected ");
                    push_token(&mut s, *found);
                } else {
                    s.append("found ");
                    push_token(&mut s, *found);
                    s.append(", expected ");
                    push_token_list(&mut s, expected);
                }
                s
            },
            ParseError::Unclosed { delimiter, .. } => {
                let mut s = String::new();
                s.append("unclosed ");
                match delimiter {
                    Delimiter::Comment => s.append("comment"),
                    Delimiter::String => s.append("string"),
                    Delimiter::RawString(_) => s.append("raw string"),
                    Delimiter::MultilineString => s.append("multi-line string"),
                    Delimiter::MultilineRawString(_) => s.append("multi-line raw string"),
                    Delimiter::Braces => s.append("curly braces"),
                }
                s.append(" `");
                push_opening(&mut s, *delimiter);
                s.append("`");
                s
            },
            ParseError::IllegalIdentifier { word, .. } => {
                let mut s = String::new();
                s.append("`");
                match word {
                    BareKeyword::True => s.append("true"),
                    BareKeyword::False => s.append("false"),
                    BareKeyword::Null => s.append("null"),
                    BareKeyword::Nan => s.append("nan"),
                    BareKeyword::Inf => s.append("inf"),
                    BareKeyword::NegInf => s.append("-inf"),
                }
                s.append("` is not allowed as a bare string");
                s
            },
            ParseError::UnexpectedNumber { .. } => text("found number, expected identifier"),
            ParseError::KeywordAsPropertyName { .. } => text("found keyword, expected identifier or string"),
            ParseError::NumberAsPropertyName { .. } => text("numbers cannot be used as property names"),
            ParseError::CharOutOfRange { .. } => text("converted integer out of range for `char`"),
            ParseError::NoOpeningNewline { .. } => text("opening delimiter must be immediately followed by a newline"),
            ParseError::ClosingNotOnOwnLine { .. } => text("closing delimiter must be on its own line with only whitespace prefix"),
            ParseError::InsufficientIndent { .. } => text("line must start with the same whitespace as the closing delimiter"),
            ParseError::InvalidEscape { error, .. } => match error {
                EscapeError::ExpectedBrace => text("expected '{' after \\u"),
                EscapeError::TooLong => text("unicode escape too long"),
                EscapeError::InvalidHexChar(c) => {
                    let mut s = String::new();
                    s.append("invalid character '");
                    string_push(&mut s, *c);
                    s.append("' in unicode escape");
                    s
                },
                EscapeError::Unclosed => text("unclosed unicode escape"),
                EscapeError::Empty => text("empty unicode escape"),
                EscapeError::InvalidCodePoint(v) => {
                    let mut s = String::new();
                    s.append("invalid unicode code point: ");
                    push_decimal(&mut s, *v);
                    s
                },
                EscapeError::InvalidEscapeChar(c) => {
                    let mut s = String::new();
                    s.append("invalid escape character: '");
                    string_push(&mut s, *c);
                    s.append("'");
                    s
                },
                EscapeError::TrailingBackslash => text("trailing backslash"),
            },
        }
    }
}

impl ParseError {
    /// The labels of the error: what it says about which spans of the source.
    pub fn labels(&self) -> (r: Vec<ErrorLabel>)
        ensures
            r@.len() == labels_of(*self).len(),
            forall|i: int| 0 <= i < r@.len() ==> (#[trigger] r@[i]).text@ == labels_of(*self)[i].0
                && r@[i].span == labels_of(*self)[i].1,
    {
        let mut v: Vec<ErrorLabel> = Vec::new();
        match self {
            ParseError::Unexpected { label, span, .. } => {
                let t = match label {
                    Label::UnexpectedToken => text("unexpected token"),
                    Label::InvalidEscapeChar => text("invalid escape char"),
                    Label::UnexpectedCharacter => text("unexpected character"),
                };
                v.push(ErrorLabel { text: t, span: *span });
            },
            ParseError::Unclosed { delimiter, opened_at, expected_at } => {
                v.push(ErrorLabel { text: text("opened here"), span: *opened_at });
                let mut t = String::new();
                t.append("expected `");
                push_closing(&mut t, *delimiter);
                t.append("`");
                v.push(ErrorLabel { text: t, span: *expected_at });
            },
            ParseError::IllegalIdentifier { span, .. } => {
                v.push(ErrorLabel { text: text("illegal identifier"), span: *span });
            },
            ParseError::UnexpectedNumber { span } => {
                v.push(ErrorLabel { text: text("unexpected number"), span: *span });
            },
            ParseError::KeywordAsPropertyName { span } => {
                v.push(ErrorLabel { text: text("unexpected keyword"), span: *span });
            },
            ParseError::NumberAsPropertyName { span } => {
                v.push(ErrorLabel { text: text("unexpected number"), span: *span });
            },
            ParseError::CharOutOfRange { span } => {
                v.push(ErrorLabel { text: text("invalid character code"), span: *span });
            },
            ParseError::NoOpeningNewline { span } => {
                v.push(ErrorLabel { text: text("must be followed by newline"), span: *span });
            },
            ParseError::ClosingNotOnOwnLine { span } => {
                v.push(ErrorLabel { text: text("must be on its own line"), span: *span });
            },
            ParseError::InsufficientIndent { span } => {
                v.push(ErrorLabel { text: text("insufficient indentation"), span: *span });
            },
            ParseError::InvalidEscape { span, .. } => {
                v.push(ErrorLabel { text: text("invalid escape sequence"), span: *span });
            },
        }
        v
    }

    /// The hint that comes with the error, if any.
    pub fn help(&self) -> (r: Option<String>)
        ensures
            match help_of(*self) {
                Some(h) => r matches Some(t) && t@ == h,
                None => r is None,
            },
    {
        match self {
            ParseError::NumberAsPropertyName { .. } => Some(text("consider enclosing in double quotes \"..\"")),
            _ => None,
        }
    }
}

/// The message of a decoding error.
pub open spec fn decode_message_of(e: DecodeError) -> Seq<char> {
    match e {
        DecodeError::ScalarKind { expected, found, .. } => "expected "@ + expected@ + ", found "@ + found@,
        DecodeError::Missing { message, .. } => message@,
        DecodeError::MissingNode { message } => message@,
        DecodeError::Unexpected { message, .. } => message@,
        DecodeError::Conversion { message, .. } => message@,
        DecodeError::Unsupported { message, .. } => message@,
    }
}

impl DecodeError {
    /// An element that is not expected here: `kind` names what it is (a
    /// node, an argument, a property), at the span of `elem`.
    pub fn unexpected<T>(elem: &Spanned<T>, kind: &str, message: &str) -> (r: DecodeError)
        ensures
            r matches DecodeError::Unexpected { span, kind: k, message: m } && span == elem.span && k@ == kind@
                && m@ == message@,
    {
        DecodeError::Unexpected { span: elem.span, kind: text(kind), message: text(message) }
    }

    /// A value at the span of `elem` that cannot be converted, for the
    /// reason `message`.
    pub fn conversion<T>(elem: &Spanned<T>, message: &str) -> (r: DecodeError)
        ensures
            r matches DecodeError::Conversion { span, message: m } && span == elem.span && m@ == message@,
    {
        DecodeError::Conversion { span: elem.span, message: text(message) }
    }

    /// The message of the error.
    pub fn message(&self) -> (r: String)
        ensures
            r@ == decode_message_of(*self),
    {
        match self {
            DecodeError::ScalarKind { expected, found, .. } => {
                let mut s = String::new();
                s.append("expected ");
                s.append(expected.as_str());
                s.append(", found ");
                s.append(found.as_str());
                s
            },
            DecodeError::Missing { message, .. } => message.clone(),
            DecodeError::MissingNode { message } => message.clone(),
            DecodeError::Unexpected { message, .. } => message.clone(),
            DecodeError::Conversion { message, .. } => message.clone(),
            DecodeError::Unsupported { message, .. } => message.clone(),
        }
    }

    /// The span the error is about, if any.
    pub fn span(&self) -> (r: Option<Span>)
        ensures
            match *self {
                DecodeError::ScalarKind { span, .. } => r == Some(span),
                DecodeError::Missing { span, .. } => r == Some(span),
                DecodeError::MissingNode { .. } => r is None,
                DecodeError::Unexpected { span, .. } => r == Some(span),
                DecodeError::Conversion { span, .. } => r == Some(span),
                DecodeError::Unsupported { span, .. } => r == Some(span),
            },
    {
        match self {
            DecodeError::ScalarKind { span, .. } => Some(*span),
            DecodeError::Missing { span, .. } => Some(*span),
            DecodeError::MissingNode { .. } => None,
            DecodeError::Unexpected { span, .. } => Some(*span),
            DecodeError::Conversion { span, .. } => Some(*span),
            DecodeError::Unsupported { span, .. } => Some(*span),
        }
    }
}

} // verus!
