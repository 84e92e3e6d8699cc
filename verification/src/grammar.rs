//! The KDL grammar: a parser from characters to the syntax tree.
//!
//! Each rule of the grammar is a spec function on the characters of the
//! text and a position in them; it gives the position after what it accepts
//! (and the value it produces, and the errors it reports while going on),
//! or `None` where the text there does not match. Alternatives are tried
//! in order and repetitions take as much as they can. The executable
//! functions compute exactly these results.
use vstd::prelude::*;

use crate::errors::{Keyword, Label, ParseError, Token, TokenKind};
use crate::span::Span;
use crate::text::{byte_at, byte_offsets, bytes_len, chars_of, lemma_byte_at_full, lemma_byte_at_mono};

pub mod lex;
pub mod strings;
pub mod words;
pub mod nodes;

verus! {

/// The characters of a text with the byte offset of each of them.
pub struct Src {
    pub chars: Vec<char>,
    pub offs: Vec<usize>,
}

impl Src {
    pub open spec fn wf(&self) -> bool {
        &&& self.offs.len() == self.chars.len() + 1
        &&& bytes_len(self.chars@) + 16 <= usize::MAX
        &&& self.chars.len() + 16 <= usize::MAX
        &&& forall|i: int| 0 <= i <= self.chars.len() ==> #[trigger] self.offs[i] == byte_at(self.chars@, i)
    }

    /// The characters of `text`, with their offsets.
    pub fn new(text: &str) -> (r: Src)
        requires
            bytes_len(text@) + 16 <= usize::MAX,
        ensures
            r.wf(),
            r.chars@ == text@,
    {
        let chars = chars_of(text);
        proof {
            crate::text::lemma_bytes_len_ge_len(chars@);
        }
        let offs = byte_offsets(&chars);
        Src { chars, offs }
    }
}

/// The span of the characters `a..b` of `s`, in bytes.
pub open spec fn span_at(s: Seq<char>, a: int, b: int) -> Span {
    Span(byte_at(s, a) as usize, byte_at(s, b) as usize)
}

/// The span of the characters `a..b`.
pub fn span_of(src: &Src, a: usize, b: usize) -> (r: Span)
    requires
        src.wf(),
        a <= b <= src.chars.len(),
    ensures
        r == span_at(src.chars@, a as int, b as int),
{
    Span(src.offs[a], src.offs[b])
}

/// The place of a token in the order in which error messages list
/// expected tokens: characters by code, then keywords and classes of
/// tokens by their names, then the end of the input.
pub open spec fn token_rank(t: Token) -> int {
    match t {
        Token::Char(c) => c as int,
        Token::Keyword(k) => 0x1_0000_0000 + match k {
            Keyword::NegInf => 0int,
            Keyword::False => 1,
            Keyword::Inf => 2,
            Keyword::Nan => 3,
            Keyword::Null => 4,
            Keyword::True => 5,
        },
        Token::Kind(k) => 0x2_0000_0000 + match k {
            TokenKind::HexDigit => 0int,
            TokenKind::Identifier => 1,
            TokenKind::Keyword => 2,
            TokenKind::Letter => 3,
            TokenKind::Newline => 4,
            TokenKind::Number => 5,
            TokenKind::String => 6,
            TokenKind::Whitespace => 7,
        },
        Token::EndOfInput => 0x3_0000_0000,
    }
}

/// The place of a token in the order of error messages ([`token_rank`]).
fn token_key(t: Token) -> (r: u64)
    ensures
        r == token_rank(t),
{
    let class_base: u64 = 0x1_0000_0000;
    match t {
        Token::Char(c) => c as u64,
        Token::Keyword(k) => class_base + match k {
            Keyword::NegInf => 0,
            Keyword::False => 1,
            Keyword::Inf => 2,
            Keyword::Nan => 3,
            Keyword::Null => 4,
            Keyword::True => 5,
        },
        Token::Kind(k) => 2 * class_base + match k {
            TokenKind::HexDigit => 0,
            TokenKind::Identifier => 1,
            TokenKind::Keyword => 2,
            TokenKind::Letter => 3,
            TokenKind::Newline => 4,
            TokenKind::Number => 5,
            TokenKind::String => 6,
            TokenKind::Whitespace => 7,
        },
        Token::EndOfInput => 3 * class_base,
    }
}

/// The index, from `i` on, of the first token of `s` whose rank is not
/// below `k`.
pub open spec fn rank_pos(s: Seq<Token>, k: int, i: int) -> int
    decreases s.len() - i,
{
    if 0 <= i < s.len() && token_rank(s[i]) < k {
        rank_pos(s, k, i + 1)
    } else {
        i
    }
}

/// The tokens `s`, kept in the order of their ranks, with `t` added where
/// no token of the same rank is there yet.
pub open spec fn sorted_insert(s: Seq<Token>, t: Token) -> Seq<Token> {
    let i = rank_pos(s, token_rank(t), 0);
    if 0 <= i < s.len() && token_rank(s[i]) == token_rank(t) {
        s
    } else {
        s.insert(i, t)
    }
}

/// What a failure tracker holds.
pub struct FurthestV {
    pub at: usize,
    pub label: Label,
    pub expected: Seq<Token>,
    pub special: Option<ParseError>,
    pub before: Seq<ParseError>,
}

/// The tracker after `tok` was expected at `at`: a failure further on
/// replaces what was known (so does one at the same place where an error
/// other than a missing token was known there); one at the same place adds
/// `tok` to the expected tokens; one before it changes nothing.
#[verifier::opaque]
pub open spec fn expect_v(v: FurthestV, at: usize, tok: Token) -> FurthestV {
    if at > v.at || (at == v.at && v.special is Some) {
        FurthestV {
            at,
            label: Label::UnexpectedToken,
            expected: seq![tok],
            special: None,
            before: if at > v.at {
                Seq::empty()
            } else {
                v.before
            },
        }
    } else if at == v.at {
        FurthestV {
            at: v.at,
            label: v.label,
            expected: sorted_insert(v.expected, tok),
            special: v.special,
            before: v.before,
        }
    } else {
        v
    }
}

/// The tracker after `tok` was expected at `at` with `label` for the failure
/// (see [`expect_v`]): where the failure is not before the known one, the
/// failure gets `label`.
#[verifier::opaque]
pub open spec fn expect_labelled_v(v: FurthestV, at: usize, tok: Token, label: Label) -> FurthestV {
    let w = expect_v(v, at, tok);
    if at >= v.at {
        FurthestV { at: w.at, label, expected: w.expected, special: w.special, before: w.before }
    } else {
        w
    }
}

/// The tracker after the error `err` was found at `at`: where that is not
/// before the known failure, it becomes the failure.
#[verifier::opaque]
pub open spec fn fail_with_v(v: FurthestV, at: usize, err: ParseError) -> FurthestV {
    if at >= v.at {
        FurthestV {
            at,
            label: v.label,
            expected: v.expected,
            special: Some(err),
            before: if at > v.at {
                Seq::empty()
            } else {
                v.before
            },
        }
    } else {
        v
    }
}

/// The tracker after the errors `kept`, found in an attempt that started
/// at `from` and failed, were kept: where the known failure is not before
/// `from`, they are what is reported before it.
#[verifier::opaque]
pub open spec fn keep_before_v(v: FurthestV, from: usize, kept: Seq<ParseError>) -> FurthestV {
    if v.at >= from {
        FurthestV { at: v.at, label: v.label, expected: v.expected, special: v.special, before: kept }
    } else {
        v
    }
}

/// Where the parser got furthest before failing, and what it expected
/// there. Only the error report of a failed parse reads it.
pub struct Furthest {
    pub at: usize,
    pub label: Label,
    pub expected: Vec<Token>,
    pub special: Option<ParseError>,
    /// Errors found on the way to the furthest failure, in the attempt that
    /// failed there; they are reported before it.
    pub before: Vec<ParseError>,
}

impl View for Furthest {
    type V = FurthestV;

    open spec fn view(&self) -> FurthestV {
        FurthestV {
            at: self.at,
            label: self.label,
            expected: self.expected@,
            special: self.special,
            before: self.before@,
        }
    }
}

proof fn lemma_rank_pos_stop(s: Seq<Token>, k: int, i: int)
    requires
        0 <= i <= s.len(),
        i == s.len() || !(token_rank(s[i]) < k),
    ensures
        rank_pos(s, k, i) == i,
{
}

impl Furthest {
    /// A tracker that has seen no failure.
    pub fn new() -> (r: Furthest)
        ensures
            r@ == (FurthestV {
                at: 0,
                label: Label::UnexpectedToken,
                expected: Seq::empty(),
                special: None,
                before: Seq::empty(),
            }),
    {
        Furthest {
            at: 0,
            label: Label::UnexpectedToken,
            expected: Vec::new(),
            special: None,
            before: Vec::new(),
        }
    }

    /// Records that `tok` was expected at character `at`.
    pub(crate) fn expect(&mut self, at: usize, tok: Token)
        ensures
            final(self)@ == expect_v(old(self)@, at, tok),
    {
        proof {
            reveal(expect_v);
        }
        if at > self.at || (at == self.at && self.special.is_some()) {
            if at > self.at {
                self.before = Vec::new();
            }
            self.at = at;
            self.label = Label::UnexpectedToken;
            self.expected = Vec::new();
            self.expected.push(tok);
            self.special = None;
            assert(self.expected@ =~= seq![tok]);
        } else if at == self.at {
            // The expected tokens are kept in the order error messages list
            // them, each once.
            let key = token_key(tok);
            let mut i: usize = 0;
            while i < self.expected.len() && token_key(self.expected[i]) < key
                invariant
                    i <= self.expected.len(),
                    self@ == old(self)@,
                    key == token_rank(tok),
                    rank_pos(self.expected@, key as int, i as int) == rank_pos(self.expected@, key as int, 0),
                decreases self.expected.len() - i,
            {
                i = i + 1;
            }
            proof {
                lemma_rank_pos_stop(self.expected@, key as int, i as int);
            }
            if i == self.expected.len() || token_key(self.expected[i]) != key {
                self.expected.insert(i, tok);
            }
        }
    }

    /// Records that `tok` was expected at character `at`, with `label` for
    /// the failure.
    pub(crate) fn expect_labelled(&mut self, at: usize, tok: Token, label: Label)
        ensures
            final(self)@ == expect_labelled_v(old(self)@, at, tok, label),
    {
        proof {
            reveal(expect_v);
            reveal(expect_labelled_v);
        }
        let fresh = at > self.at || (at == self.at && self.special.is_some());
        self.expect(at, tok);
        if fresh || at == self.at {
            self.label = label;
        }
    }

    /// Records an error that is more than a missing token, found at `at`.
    pub(crate) fn fail_with(&mut self, at: usize, err: ParseError)
        ensures
            final(self)@ == fail_with_v(old(self)@, at, err),
    {
        proof {
            reveal(fail_with_v);
        }
        if at >= self.at {
            if at > self.at {
                self.before = Vec::new();
            }
            self.at = at;
            self.special = Some(err);
        }
    }

    /// Takes `errs[mark..]`, the errors found in an attempt that started at
    /// character `from` and failed, out of `errs`; they are kept where that
    /// attempt got furthest.
    pub(crate) fn keep_before(&mut self, from: usize, errs: &mut Vec<ParseError>, mark: usize)
        requires
            mark <= old(errs)@.len(),
        ensures
            final(errs)@ == old(errs)@.take(mark as int),
            final(self)@ == keep_before_v(old(self)@, from, old(errs)@.skip(mark as int)),
    {
        proof {
            reveal(keep_before_v);
        }
        let kept = errs.split_off(mark);
        if self.at >= from {
            self.before = kept;
        }
    }
}

} // verus!
