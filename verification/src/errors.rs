//! Errors of parsing and of decoding.
use vstd::prelude::*;

use crate::span::Span;

verus! {

/// A class of tokens, named in error messages.
#[derive(Copy, Clone, Debug, PartialEq, Eq, Structural)]
pub enum TokenKind {
    Newline,
    Whitespace,
    Letter,
    Identifier,
    String,
    Number,
    Keyword,
    HexDigit,
}

/// The keywords of KDL (`#true`, `#null`, ...).
#[derive(Copy, Clone, Debug, PartialEq, Eq, Structural)]
pub enum Keyword {
    Null,
    True,
    False,
    Nan,
    Inf,
    NegInf,
}

/// A token, as an error message names what was found or expected.
#[derive(Copy, Clone, Debug, PartialEq, Eq, Structural)]
pub enum Token {
    /// A single character.
    Char(char),
    /// A keyword such as `#true`.
    Keyword(Keyword),
    /// A class of tokens.
    Kind(TokenKind),
    /// The end of the input.
    EndOfInput,
}

/// What an error label says about its span.
#[derive(Copy, Clone, Debug, PartialEq, Eq, Structural)]
pub enum Label {
    UnexpectedToken,
    InvalidEscapeChar,
    UnexpectedCharacter,
}

/// A delimiter that was opened and not closed.
#[derive(Copy, Clone, Debug, PartialEq, Eq, Structural)]
pub enum Delimiter {
    /// `/*`
    Comment,
    /// `"`
    String,
    /// `#"` with the given number of `#`
    RawString(usize),
    /// `"""`
    MultilineString,
    /// `#"""` with the given number of `#`
    MultilineRawString(usize),
    /// `{`
    Braces,
}

/// The words that cannot be bare identifiers.
#[derive(Copy, Clone, Debug, PartialEq, Eq, Structural)]
pub enum BareKeyword {
    True,
    False,
    Null,
    Nan,
    Inf,
    NegInf,
}

/// What is wrong with an escape sequence in a multi-line string.
#[derive(Copy, Clone, Debug, PartialEq, Eq, Structural)]
pub enum EscapeError {
    /// `\u` not followed by `{`
    ExpectedBrace,
    /// more than six hexadecimal digits
    TooLong,
    /// a character that is no hexadecimal digit in `\u{..}`
    InvalidHexChar(char),
    /// `\u{` with no closing `}`
    Unclosed,
    /// `\u{}`
    Empty,
    /// a code that is no Unicode scalar value
    InvalidCodePoint(u32),
    /// a backslash followed by this character
    InvalidEscapeChar(char),
    /// a backslash at the end of the string
    TrailingBackslash,
}

/// An error of the parser, with the span of the text it is about.
#[derive(Clone, Debug, PartialEq, Eq)]
pub enum ParseError {
    /// A token that no rule of the grammar accepts at this place.
    Unexpected { label: Label, span: Span, found: Token, expected: Vec<Token> },
    /// An opening delimiter whose closing one never comes.
    Unclosed { delimiter: Delimiter, opened_at: Span, expected_at: Span },
    /// A keyword written as a bare identifier (`true` for `#true`).
    IllegalIdentifier { span: Span, word: BareKeyword },
    /// A number where an identifier is needed.
    UnexpectedNumber { span: Span },
    /// A keyword used as a property name.
    KeywordAsPropertyName { span: Span },
    /// A number used as a property name.
    NumberAsPropertyName { span: Span },
    /// A code in `\u{..}` that is no Unicode scalar value.
    CharOutOfRange { span: Span },
    /// A multi-line string whose opening delimiter is not followed by a newline.
    NoOpeningNewline { span: Span },
    /// A multi-line string whose closing delimiter has more than whitespace before it on its line.
    ClosingNotOnOwnLine { span: Span },
    /// A line of a multi-line string that does not start with the indentation of the closing line.
    InsufficientIndent { span: Span },
    /// An invalid escape sequence in a multi-line string.
    InvalidEscape { span: Span, error: EscapeError },
}

/// An error of decoding a document into a value.
#[derive(Clone, Debug)]
pub enum DecodeError {
    /// A scalar of another kind than the one expected.
    ScalarKind { span: Span, expected: String, found: String },
    /// A required element is missing.
    Missing { span: Span, message: String },
    /// A required child node is missing.
    MissingNode { message: String },
    /// An element that is not expected here.
    Unexpected { span: Span, kind: String, message: String },
    /// A value that cannot be converted.
    Conversion { span: Span, message: String },
    /// An operation that this type does not support.
    Unsupported { span: Span, message: String },
}

/// One error of a parse: either of the syntax or of decoding.
#[derive(Clone, Debug)]
pub enum ErrorItem {
    Parse(ParseError),
    Decode(DecodeError),
}

/// The errors of parsing one document, with its source.
#[derive(Debug)]
pub struct Error {
    /// Name of the source file.
    pub file_name: String,
    /// The source text.
    pub source_code: String,
    /// The errors, in the order they were found.
    pub errors: Vec<ErrorItem>,
}

} // verus!
