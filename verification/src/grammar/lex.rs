//! Characters, whitespace, newlines and comments.
use vstd::prelude::*;

use crate::errors::{Delimiter, ParseError, Token, TokenKind};
use crate::grammar::{expect_v, fail_with_v, span_at, span_of, Furthest, FurthestV, Src};

verus! {

/// A position as a mathematical integer.
pub open spec fn opt_int(r: Option<usize>) -> Option<int> {
    match r {
        Some(e) => Some(e as int),
        None => None,
    }
}

/// Whitespace within a line.
pub open spec fn is_ws_char(c: char) -> bool {
    c == '\t' || c == ' ' || c == '\u{00a0}' || c == '\u{1680}' || ('\u{2000}' <= c && c
        <= '\u{200A}') || c == '\u{202F}' || c == '\u{205F}' || c == '\u{3000}'
}

/// Characters that start a newline.
pub open spec fn is_newline_char(c: char) -> bool {
    c == '\r' || c == '\n' || c == '\x0C' || c == '\x0B' || c == '\u{0085}' || c == '\u{2028}'
        || c == '\u{2029}'
}

/// Characters that never belong to an identifier (besides the control
/// characters and the space).
pub open spec fn is_non_id_special(c: char) -> bool {
    c == '\\' || c == '/' || c == '(' || c == ')' || c == '{' || c == '}' || c == ';' || c == '['
        || c == ']' || c == '=' || c == '"' || c == '#' || c == '\u{00a0}' || c == '\u{1680}' || (
    '\u{2000}' <= c && c <= '\u{200A}') || c == '\u{202F}' || c == '\u{205F}' || c == '\u{3000}'
        || c == '\u{FEFF}' || c == '\u{0085}' || c == '\u{2028}' || c == '\u{2029}'
}

pub open spec fn is_dec_digit(c: char) -> bool {
    '0' <= c && c <= '9'
}

/// A character of an identifier after its first one.
pub open spec fn is_id_char(c: char) -> bool {
    !(c <= '\u{21}' || is_non_id_special(c))
}

/// A first character of an identifier that starts with a sign or a dot.
pub open spec fn is_id_sans_dig(c: char) -> bool {
    !(is_dec_digit(c) || c <= ' ' || is_non_id_special(c))
}

/// The character after the sign of a signed identifier.
pub open spec fn is_id_sans_dig_point(c: char) -> bool {
    !(is_dec_digit(c) || c == '.' || c <= ' ' || is_non_id_special(c))
}

/// The first character of an identifier without sign.
pub open spec fn is_id_sans_sign_dig_point(c: char) -> bool {
    !(c == '-' || c == '+' || is_dec_digit(c) || c <= ' ' || is_non_id_special(c))
}

/// A digit in the given radix (2, 8, 10 or 16).
pub open spec fn is_digit(radix: u32, c: char) -> bool {
    if radix == 2 {
        c == '0' || c == '1'
    } else if radix == 8 {
        '0' <= c && c <= '7'
    } else if radix == 10 {
        is_dec_digit(c)
    } else {
        is_dec_digit(c) || ('a' <= c && c <= 'f') || ('A' <= c && c <= 'F')
    }
}

pub fn ws_char_p(c: char) -> (r: bool)
    ensures
        r == is_ws_char(c),
{
    c == '\t' || c == ' ' || c == '\u{00a0}' || c == '\u{1680}' || ('\u{2000}' <= c && c
        <= '\u{200A}') || c == '\u{202F}' || c == '\u{205F}' || c == '\u{3000}'
}

pub fn newline_char_p(c: char) -> (r: bool)
    ensures
        r == is_newline_char(c),
{
    c == '\r' || c == '\n' || c == '\x0C' || c == '\x0B' || c == '\u{0085}' || c == '\u{2028}'
        || c == '\u{2029}'
}

fn non_id_special_p(c: char) -> (r: bool)
    ensures
        r == is_non_id_special(c),
{
    c == '\\' || c == '/' || c == '(' || c == ')' || c == '{' || c == '}' || c == ';' || c == '['
        || c == ']' || c == '=' || c == '"' || c == '#' || c == '\u{00a0}' || c == '\u{1680}' || (
    '\u{2000}' <= c && c <= '\u{200A}') || c == '\u{202F}' || c == '\u{205F}' || c == '\u{3000}'
        || c == '\u{FEFF}' || c == '\u{0085}' || c == '\u{2028}' || c == '\u{2029}'
}

pub fn dec_digit_p(c: char) -> (r: bool)
    ensures
        r == is_dec_digit(c),
{
    '0' <= c && c <= '9'
}

pub fn id_char_p(c: char) -> (r: bool)
    ensures
        r == is_id_char(c),
{
    !(c <= '\u{21}' || non_id_special_p(c))
}

pub fn id_sans_dig_p(c: char) -> (r: bool)
    ensures
        r == is_id_sans_dig(c),
{
    !(dec_digit_p(c) || c <= ' ' || non_id_special_p(c))
}

pub fn id_sans_dig_point_p(c: char) -> (r: bool)
    ensures
        r == is_id_sans_dig_point(c),
{
    !(dec_digit_p(c) || c == '.' || c <= ' ' || non_id_special_p(c))
}

pub fn id_sans_sign_dig_point_p(c: char) -> (r: bool)
    ensures
        r == is_id_sans_sign_dig_point(c),
{
    !(c == '-' || c == '+' || dec_digit_p(c) || c <= ' ' || non_id_special_p(c))
}

pub fn digit_p(radix: u32, c: char) -> (r: bool)
    ensures
        r == is_digit(radix, c),
{
    if radix == 2 {
        c == '0' || c == '1'
    } else if radix == 8 {
        '0' <= c && c <= '7'
    } else if radix == 10 {
        dec_digit_p(c)
    } else {
        dec_digit_p(c) || ('a' <= c && c <= 'f') || ('A' <= c && c <= 'F')
    }
}

/// Classes of characters that runs are made of.
#[derive(Copy, Clone)]
pub enum Class {
    /// whitespace within a line
    Ws,
    /// anything but the start of a newline
    NotNewline,
    /// identifier characters
    IdChar,
    /// digits of the radix and `_`
    Digits(u32),
    /// `#`
    Hash,
    /// whitespace within a line, or the start of a newline
    WsNl,
    /// whitespace within a line, or `\n`
    WsLf,
    /// anything but `\n`
    NotLf,
    /// hexadecimal digits
    Hex,
}

pub open spec fn in_class(k: Class, c: char) -> bool {
    match k {
        Class::Ws => is_ws_char(c),
        Class::NotNewline => !is_newline_char(c),
        Class::IdChar => is_id_char(c),
        Class::Digits(radix) => c == '_' || is_digit(radix, c),
        Class::Hash => c == '#',
        Class::WsNl => is_ws_char(c) || is_newline_char(c),
        Class::WsLf => is_ws_char(c) || c == '\n',
        Class::NotLf => c != '\n',
        Class::Hex => is_digit(16, c),
    }
}

fn in_class_p(k: Class, c: char) -> (r: bool)
    ensures
        r == in_class(k, c),
{
    match k {
        Class::Ws => ws_char_p(c),
        Class::NotNewline => !newline_char_p(c),
        Class::IdChar => id_char_p(c),
        Class::Digits(radix) => c == '_' || digit_p(radix, c),
        Class::Hash => c == '#',
        Class::WsNl => ws_char_p(c) || newline_char_p(c),
        Class::WsLf => ws_char_p(c) || c == '\n',
        Class::NotLf => c != '\n',
        Class::Hex => digit_p(16, c),
    }
}

/// The end of the longest run of characters of class `k` from `p`.
pub open spec fn run(s: Seq<char>, p: int, k: Class) -> int
    decreases s.len() - p,
{
    if 0 <= p < s.len() && in_class(k, s[p]) {
        run(s, p + 1, k)
    } else {
        p
    }
}

pub proof fn lemma_run_bounds(s: Seq<char>, p: int, k: Class)
    requires
        0 <= p <= s.len(),
    ensures
        p <= run(s, p, k) <= s.len(),
    decreases s.len() - p,
{
    if p < s.len() && in_class(k, s[p]) {
        lemma_run_bounds(s, p + 1, k);
    }
}

/// Every character of a run is of its class.
pub proof fn lemma_run_all(s: Seq<char>, p: int, k: Class, i: int)
    requires
        0 <= p <= i < run(s, p, k),
    ensures
        in_class(k, s[i]),
    decreases s.len() - p,
{
    if p < i {
        lemma_run_all(s, p + 1, k, i);
    }
}

/// A run ends at the first character from `p` that is not of its class.
pub proof fn lemma_run_exact(s: Seq<char>, p: int, k: Class, e: int)
    requires
        0 <= p <= e <= s.len(),
        forall|i: int| p <= i < e ==> in_class(k, #[trigger] s[i]),
        e < s.len() ==> !in_class(k, s[e]),
    ensures
        run(s, p, k) == e,
    decreases e - p,
{
    if p < e {
        lemma_run_exact(s, p + 1, k, e);
    }
}

pub fn run_of(s: &Vec<char>, p: usize, k: Class) -> (r: usize)
    requires
        p <= s.len(),
    ensures
        r == run(s@, p as int, k),
        p <= r <= s.len(),
{
    let mut i = p;
    while i < s.len() && in_class_p(k, s[i])
        invariant
            p <= i <= s.len(),
            run(s@, i as int, k) == run(s@, p as int, k),
        decreases s.len() - i,
    {
        i = i + 1;
    }
    i
}

/// `p` is a position within `s` and `e` is a later one.
pub open spec fn advances(s: Seq<char>, p: int, e: int) -> bool {
    0 <= p < e <= s.len()
}

/// Newline: `\r\n`, `\n`, `\r`, form feed, vertical tab, NEL, LS or PS.
pub open spec fn sp_newline(s: Seq<char>, p: int) -> Option<int> {
    if 0 <= p < s.len() {
        if s[p] == '\r' && p + 1 < s.len() && s[p + 1] == '\n' {
            Some(p + 2)
        } else if is_newline_char(s[p]) {
            Some(p + 1)
        } else {
            None
        }
    } else {
        None
    }
}

/// The failure tracker after a newline was read at `p`: where there is
/// none, a newline is expected.
#[verifier::opaque]
pub open spec fn newline_furthest(s: Seq<char>, p: int, v: FurthestV) -> FurthestV {
    if sp_newline(s, p) is Some {
        v
    } else {
        expect_v(v, p as usize, Token::Kind(TokenKind::Newline))
    }
}

pub fn newline(src: &Src, p: usize, f: &mut Furthest) -> (r: Option<usize>)
    requires
        src.wf(),
        p <= src.chars.len(),
    ensures
        opt_int(r) == sp_newline(src.chars@, p as int),
        r matches Some(e) ==> p < e <= src.chars.len(),
        final(f)@ == newline_furthest(src.chars@, p as int, old(f)@),
{
    proof {
        reveal(newline_furthest);
    }
    let s = &src.chars;
    if p < s.len() {
        if s[p] == '\r' && p + 1 < s.len() && s[p + 1] == '\n' {
            return Some(p + 2);
        } else if newline_char_p(s[p]) {
            return Some(p + 1);
        }
    }
    f.expect(p, Token::Kind(TokenKind::Newline));
    None
}

/// Whitespace: a run of whitespace characters, or a multi-line comment.
pub open spec fn sp_ws(s: Seq<char>, p: int) -> Option<int> {
    if 0 <= p < s.len() && is_ws_char(s[p]) {
        Some(run(s, p, Class::Ws))
    } else {
        sp_ml_comment(s, p)
    }
}

/// The failure tracker after whitespace was read at `p` (see
/// [`ml_comment_furthest`]); where there is none, whitespace is expected.
pub open spec fn ws_furthest(s: Seq<char>, p: int, v: FurthestV) -> FurthestV {
    if 0 <= p < s.len() && is_ws_char(s[p]) {
        v
    } else if sp_ml_comment(s, p) is Some {
        ml_comment_furthest(s, p, v)
    } else {
        expect_v(ml_comment_furthest(s, p, v), p as usize, Token::Kind(TokenKind::Whitespace))
    }
}

pub fn ws(src: &Src, p: usize, f: &mut Furthest) -> (r: Option<usize>)
    requires
        src.wf(),
        p <= src.chars.len(),
    ensures
        opt_int(r) == sp_ws(src.chars@, p as int),
        final(f)@ == ws_furthest(src.chars@, p as int, old(f)@),
{
    let s = &src.chars;
    if p < s.len() && ws_char_p(s[p]) {
        return Some(run_of(s, p, Class::Ws));
    }
    let r = ml_comment(src, p, f);
    if r.is_none() {
        f.expect(p, Token::Kind(TokenKind::Whitespace));
    }
    r
}

/// Multi-line comment: `/*`, then nested comments and other text, then `*/`.
pub open spec fn sp_ml_comment(s: Seq<char>, p: int) -> Option<int>
    decreases s.len() - p, 0int,
{
    if 0 <= p && p + 1 < s.len() && s[p] == '/' && s[p + 1] == '*' {
        sp_ml_body(s, p + 2)
    } else {
        None
    }
}

/// The rest of a multi-line comment from `q`, up to and with its `*/`.
pub open spec fn sp_ml_body(s: Seq<char>, q: int) -> Option<int>
    decreases s.len() - q, 1int,
{
    if q < 0 || q > s.len() {
        None
    } else {
        match sp_ml_comment(s, q) {
            Some(e) => if advances(s, q, e) {
                sp_ml_body(s, e)
            } else {
                None
            },
            None => if q < s.len() && s[q] != '*' {
                sp_ml_body(s, q + 1)
            } else if q + 1 < s.len() && s[q] == '*' && s[q + 1] != '/' {
                sp_ml_body(s, q + 1)
            } else if q + 1 < s.len() && s[q] == '*' && s[q + 1] == '/' {
                Some(q + 2)
            } else {
                None
            },
        }
    }
}

/// The failure tracker after a multi-line comment was read at `p`: a `/`
/// that no `*` follows expects one; a comment that the text ends inside is
/// reported as unclosed at the end of the text, after what the comments
/// nested in it recorded.
pub open spec fn ml_comment_furthest(s: Seq<char>, p: int, v: FurthestV) -> FurthestV
    decreases s.len() - p, 0int,
{
    if 0 <= p && p + 1 < s.len() && s[p] == '/' && s[p + 1] == '*' {
        ml_body_furthest(s, p, p + 2, v)
    } else if 0 <= p < s.len() && s[p] == '/' {
        expect_v(v, (p + 1) as usize, Token::Char('*'))
    } else {
        v
    }
}

/// The failure tracker after the rest, from `q`, of the multi-line comment
/// opened at `p` was read (see [`ml_comment_furthest`]).
pub open spec fn ml_body_furthest(s: Seq<char>, p: int, q: int, v: FurthestV) -> FurthestV
    decreases s.len() - q, 1int,
{
    if q < 0 || q > s.len() {
        v
    } else {
        let w = ml_comment_furthest(s, q, v);
        match sp_ml_comment(s, q) {
            Some(e) => if advances(s, q, e) {
                ml_body_furthest(s, p, e, w)
            } else {
                w
            },
            None => if q < s.len() && s[q] != '*' {
                ml_body_furthest(s, p, q + 1, w)
            } else if q + 1 < s.len() && s[q] == '*' && s[q + 1] != '/' {
                ml_body_furthest(s, p, q + 1, w)
            } else if q + 1 < s.len() && s[q] == '*' && s[q + 1] == '/' {
                w
            } else {
                fail_with_v(
                    w,
                    s.len() as usize,
                    ParseError::Unclosed {
                        delimiter: Delimiter::Comment,
                        opened_at: span_at(s, p, p + 2),
                        expected_at: span_at(s, s.len() as int, s.len() as int),
                    },
                )
            },
        }
    }
}

pub fn ml_comment(src: &Src, p: usize, f: &mut Furthest) -> (r: Option<usize>)
    requires
        src.wf(),
        p <= src.chars.len(),
    ensures
        opt_int(r) == sp_ml_comment(src.chars@, p as int),
        r matches Some(e) ==> p < e <= src.chars.len(),
        final(f)@ == ml_comment_furthest(src.chars@, p as int, old(f)@),
    decreases src.chars.len() - p,
{
    let s = &src.chars;
    if !(p + 1 < s.len() && s[p] == '/' && s[p + 1] == '*') {
        if p < s.len() && s[p] == '/' {
            f.expect(p + 1, Token::Char('*'));
        }
        return None;
    }
    let mut q = p + 2;
    let ghost f0 = f@;
    assert(sp_ml_comment(s@, p as int) == sp_ml_body(s@, p + 2));
    loop
        invariant
            src.wf(),
            s == &src.chars,
            p + 2 <= q <= s.len(),
            sp_ml_comment(s@, p as int) == sp_ml_body(s@, p + 2),
            sp_ml_body(s@, q as int) == sp_ml_body(s@, p + 2),
            ml_comment_furthest(s@, p as int, f0) == ml_body_furthest(s@, p as int, p + 2, f0),
            ml_body_furthest(s@, p as int, q as int, f@) == ml_body_furthest(s@, p as int, p + 2, f0),
            f0 == old(f)@,
        decreases s.len() - q,
    {
        let ghost fq = f@;
        match ml_comment(src, q, f) {
            Some(e) => {
                q = e;
            },
            None => {
                if q < s.len() && s[q] != '*' {
                    q = q + 1;
                } else if q + 1 < s.len() && s[q] == '*' && s[q + 1] != '/' {
                    q = q + 1;
                } else if q + 1 < s.len() && s[q] == '*' && s[q + 1] == '/' {
                    assert(sp_ml_body(s@, q as int) == Some(q + 2));
                    assert(ml_body_furthest(s@, p as int, q as int, fq) == f@);
                    return Some(q + 2);
                } else {
                    // the text ends inside the comment
                    let end = s.len();
                    f.fail_with(
                        end,
                        ParseError::Unclosed {
                            delimiter: Delimiter::Comment,
                            opened_at: span_of(src, p, p + 2),
                            expected_at: span_of(src, end, end),
                        },
                    );
                    assert(ml_body_furthest(s@, p as int, q as int, fq) == f@);
                    return None;
                }
            },
        }
    }
}

/// Single-line comment: `//` and the rest of the line with its newline.
pub open spec fn sp_comment(s: Seq<char>, p: int) -> Option<int> {
    if 0 <= p && p + 1 < s.len() && s[p] == '/' && s[p + 1] == '/' {
        let q = run(s, p + 2, Class::NotNewline);
        if q == s.len() {
            Some(q)
        } else {
            sp_newline(s, q)
        }
    } else {
        None
    }
}

/// The failure tracker after a single-line comment was read at `p`: a `/`
/// that no `/` follows expects one; the comment's newline is read as
/// [`newline_furthest`] says.
#[verifier::opaque]
pub open spec fn comment_furthest(s: Seq<char>, p: int, v: FurthestV) -> FurthestV {
    if 0 <= p && p + 1 < s.len() && s[p] == '/' && s[p + 1] == '/' {
        let q = run(s, p + 2, Class::NotNewline);
        if q == s.len() {
            v
        } else {
            newline_furthest(s, q, v)
        }
    } else if 0 <= p < s.len() && s[p] == '/' {
        expect_v(v, (p + 1) as usize, Token::Char('/'))
    } else {
        v
    }
}

pub fn comment(src: &Src, p: usize, f: &mut Furthest) -> (r: Option<usize>)
    requires
        src.wf(),
        p <= src.chars.len(),
    ensures
        opt_int(r) == sp_comment(src.chars@, p as int),
        r matches Some(e) ==> p < e <= src.chars.len(),
        final(f)@ == comment_furthest(src.chars@, p as int, old(f)@),
{
    proof {
        reveal(comment_furthest);
    }
    let s = &src.chars;
    if !(p + 1 < s.len() && s[p] == '/' && s[p + 1] == '/') {
        if p < s.len() && s[p] == '/' {
            f.expect(p + 1, Token::Char('/'));
        }
        return None;
    }
    let q = run_of(s, p + 2, Class::NotNewline);
    if q == s.len() {
        Some(q)
    } else {
        newline(src, q, f)
    }
}

/// Space between nodes: a newline, whitespace or a single-line comment.
pub open spec fn sp_line_space(s: Seq<char>, p: int) -> Option<int> {
    match sp_newline(s, p) {
        Some(e) => Some(e),
        None => match sp_ws(s, p) {
            Some(e) => Some(e),
            None => sp_comment(s, p),
        },
    }
}

/// The failure tracker after space between nodes was read at `p`: a
/// newline, whitespace and a comment are tried in turn.
#[verifier::opaque]
pub open spec fn line_space_furthest(s: Seq<char>, p: int, v: FurthestV) -> FurthestV {
    let v1 = newline_furthest(s, p, v);
    if sp_newline(s, p) is Some {
        v1
    } else {
        let v2 = ws_furthest(s, p, v1);
        if sp_ws(s, p) is Some {
            v2
        } else {
            comment_furthest(s, p, v2)
        }
    }
}

pub fn line_space(src: &Src, p: usize, f: &mut Furthest) -> (r: Option<usize>)
    requires
        src.wf(),
        p <= src.chars.len(),
    ensures
        opt_int(r) == sp_line_space(src.chars@, p as int),
        final(f)@ == line_space_furthest(src.chars@, p as int, old(f)@),
{
    proof {
        reveal(line_space_furthest);
    }
    match newline(src, p, f) {
        Some(e) => Some(e),
        None => match ws(src, p, f) {
            Some(e) => Some(e),
            None => comment(src, p, f),
        },
    }
}

/// As much space between nodes as there is from `p`.
pub open spec fn sp_line_spaces(s: Seq<char>, p: int) -> int
    decreases s.len() - p,
{
    match sp_line_space(s, p) {
        Some(e) => if advances(s, p, e) {
            sp_line_spaces(s, e)
        } else {
            p
        },
        None => p,
    }
}

/// The failure tracker after as much space between nodes as there is was
/// read from `p`.
#[verifier::opaque]
pub open spec fn line_spaces_furthest(s: Seq<char>, p: int, v: FurthestV) -> FurthestV
    decreases s.len() - p,
{
    let w = line_space_furthest(s, p, v);
    match sp_line_space(s, p) {
        Some(e) => if advances(s, p, e) {
            line_spaces_furthest(s, e, w)
        } else {
            w
        },
        None => w,
    }
}

pub fn line_spaces(src: &Src, p: usize, f: &mut Furthest) -> (r: usize)
    requires
        src.wf(),
        p <= src.chars.len(),
    ensures
        r == sp_line_spaces(src.chars@, p as int),
        p <= r <= src.chars.len(),
        final(f)@ == line_spaces_furthest(src.chars@, p as int, old(f)@),
{
    proof {
        reveal(line_spaces_furthest);
    }
    let mut q = p;
    loop
        invariant
            src.wf(),
            p <= q <= src.chars.len(),
            sp_line_spaces(src.chars@, q as int) == sp_line_spaces(src.chars@, p as int),
            line_spaces_furthest(src.chars@, q as int, f@) == line_spaces_furthest(src.chars@, p as int, old(f)@),
        decreases src.chars.len() - q,
    {
        proof {
            reveal(line_spaces_furthest);
        }
        match line_space(src, q, f) {
            Some(e) => {
                if q < e && e <= src.chars.len() {
                    q = e;
                } else {
                    return q;
                }
            },
            None => {
                return q;
            },
        }
    }
}

/// As much whitespace as there is from `p`.
pub open spec fn sp_ws_many(s: Seq<char>, p: int) -> int
    decreases s.len() - p,
{
    match sp_ws(s, p) {
        Some(e) => if advances(s, p, e) {
            sp_ws_many(s, e)
        } else {
            p
        },
        None => p,
    }
}

/// The failure tracker after as much whitespace as there is was read from
/// `p`.
#[verifier::opaque]
pub open spec fn ws_many_furthest(s: Seq<char>, p: int, v: FurthestV) -> FurthestV
    decreases s.len() - p,
{
    let w = ws_furthest(s, p, v);
    match sp_ws(s, p) {
        Some(e) => if advances(s, p, e) {
            ws_many_furthest(s, e, w)
        } else {
            w
        },
        None => w,
    }
}

pub fn ws_many(src: &Src, p: usize, f: &mut Furthest) -> (r: usize)
    requires
        src.wf(),
        p <= src.chars.len(),
    ensures
        r == sp_ws_many(src.chars@, p as int),
        p <= r <= src.chars.len(),
        final(f)@ == ws_many_furthest(src.chars@, p as int, old(f)@),
{
    proof {
        reveal(ws_many_furthest);
    }
    let mut q = p;
    loop
        invariant
            src.wf(),
            p <= q <= src.chars.len(),
            sp_ws_many(src.chars@, q as int) == sp_ws_many(src.chars@, p as int),
            ws_many_furthest(src.chars@, q as int, f@) == ws_many_furthest(src.chars@, p as int, old(f)@),
        decreases src.chars.len() - q,
    {
        proof {
            reveal(ws_many_furthest);
        }
        match ws(src, q, f) {
            Some(e) => {
                if q < e && e <= src.chars.len() {
                    q = e;
                } else {
                    return q;
                }
            },
            None => {
                return q;
            },
        }
    }
}

/// Escaped line: `\`, whitespace, then a comment, a newline or the end.
pub open spec fn sp_esc_line(s: Seq<char>, p: int) -> Option<int> {
    if 0 <= p < s.len() && s[p] == '\\' {
        let q = sp_ws_many(s, p + 1);
        match sp_comment(s, q) {
            Some(e) => Some(e),
            None => match sp_newline(s, q) {
                Some(e) => Some(e),
                None => if q == s.len() {
                    Some(q)
                } else {
                    None
                },
            },
        }
    } else {
        None
    }
}

/// The failure tracker after an escaped line was read at `p`: a missing `\\`
/// is expected; after the whitespace, a comment and a newline are tried, and
/// where neither comes and the text does not end, its end is expected.
#[verifier::opaque]
pub open spec fn esc_line_furthest(s: Seq<char>, p: int, v: FurthestV) -> FurthestV {
    if 0 <= p < s.len() && s[p] == '\\' {
        let q = sp_ws_many(s, p + 1);
        let v2 = comment_furthest(s, q, ws_many_furthest(s, p + 1, v));
        if sp_comment(s, q) is Some {
            v2
        } else {
            let v3 = newline_furthest(s, q, v2);
            if sp_newline(s, q) is Some || q == s.len() {
                v3
            } else {
                expect_v(v3, q as usize, Token::EndOfInput)
            }
        }
    } else {
        expect_v(v, p as usize, Token::Char('\\'))
    }
}

pub fn esc_line(src: &Src, p: usize, f: &mut Furthest) -> (r: Option<usize>)
    requires
        src.wf(),
        p <= src.chars.len(),
    ensures
        opt_int(r) == sp_esc_line(src.chars@, p as int),
        final(f)@ == esc_line_furthest(src.chars@, p as int, old(f)@),
{
    proof {
        reveal(esc_line_furthest);
    }
    let s = &src.chars;
    if !(p < s.len() && s[p] == '\\') {
        f.expect(p, Token::Char('\\'));
        return None;
    }
    let q = ws_many(src, p + 1, f);
    match comment(src, q, f) {
        Some(e) => Some(e),
        None => match newline(src, q, f) {
            Some(e) => Some(e),
            None => if q == s.len() {
                Some(q)
            } else {
                f.expect(q, Token::EndOfInput);
                None
            },
        },
    }
}

/// Space within a node: whitespace or an escaped line.
pub open spec fn sp_node_space(s: Seq<char>, p: int) -> Option<int> {
    match sp_ws(s, p) {
        Some(e) => Some(e),
        None => sp_esc_line(s, p),
    }
}

/// The failure tracker after space within a node was read at `p`.
#[verifier::opaque]
pub open spec fn node_space_furthest(s: Seq<char>, p: int, v: FurthestV) -> FurthestV {
    let v1 = ws_furthest(s, p, v);
    if sp_ws(s, p) is Some {
        v1
    } else {
        esc_line_furthest(s, p, v1)
    }
}

pub fn node_space(src: &Src, p: usize, f: &mut Furthest) -> (r: Option<usize>)
    requires
        src.wf(),
        p <= src.chars.len(),
    ensures
        opt_int(r) == sp_node_space(src.chars@, p as int),
        final(f)@ == node_space_furthest(src.chars@, p as int, old(f)@),
{
    proof {
        reveal(node_space_furthest);
    }
    match ws(src, p, f) {
        Some(e) => Some(e),
        None => esc_line(src, p, f),
    }
}

/// As much space within a node as there is from `p`.
pub open spec fn sp_node_spaces(s: Seq<char>, p: int) -> int
    decreases s.len() - p,
{
    match sp_node_space(s, p) {
        Some(e) => if advances(s, p, e) {
            sp_node_spaces(s, e)
        } else {
            p
        },
        None => p,
    }
}

/// The failure tracker after as much space within a node as there is was
/// read from `p`.
#[verifier::opaque]
pub open spec fn node_spaces_furthest(s: Seq<char>, p: int, v: FurthestV) -> FurthestV
    decreases s.len() - p,
{
    let w = node_space_furthest(s, p, v);
    match sp_node_space(s, p) {
        Some(e) => if advances(s, p, e) {
            node_spaces_furthest(s, e, w)
        } else {
            w
        },
        None => w,
    }
}

pub fn node_spaces(src: &Src, p: usize, f: &mut Furthest) -> (r: usize)
    requires
        src.wf(),
        p <= src.chars.len(),
    ensures
        r == sp_node_spaces(src.chars@, p as int),
        p <= r <= src.chars.len(),
        final(f)@ == node_spaces_furthest(src.chars@, p as int, old(f)@),
{
    proof {
        reveal(node_spaces_furthest);
    }
    let mut q = p;
    loop
        invariant
            src.wf(),
            p <= q <= src.chars.len(),
            sp_node_spaces(src.chars@, q as int) == sp_node_spaces(src.chars@, p as int),
            node_spaces_furthest(src.chars@, q as int, f@) == node_spaces_furthest(src.chars@, p as int, old(f)@),
        decreases src.chars.len() - q,
    {
        proof {
            reveal(node_spaces_furthest);
        }
        match node_space(src, q, f) {
            Some(e) => {
                if q < e && e <= src.chars.len() {
                    q = e;
                } else {
                    return q;
                }
            },
            None => {
                return q;
            },
        }
    }
}

/// The end of a node: a newline, a comment, `;` or the end of the text.
pub open spec fn sp_node_terminator(s: Seq<char>, p: int) -> Option<int> {
    match sp_newline(s, p) {
        Some(e) => Some(e),
        None => match sp_comment(s, p) {
            Some(e) => Some(e),
            None => if 0 <= p < s.len() && s[p] == ';' {
                Some(p + 1)
            } else if p == s.len() {
                Some(p)
            } else {
                None
            },
        },
    }
}

/// The failure tracker after the end of a node was read at `p`: a newline
/// and a comment are tried; where neither comes nor `;` nor the end of the
/// text, `;` and the end are expected.
#[verifier::opaque]
pub open spec fn node_terminator_furthest(s: Seq<char>, p: int, v: FurthestV) -> FurthestV {
    let v1 = newline_furthest(s, p, v);
    if sp_newline(s, p) is Some {
        v1
    } else {
        let v2 = comment_furthest(s, p, v1);
        if sp_comment(s, p) is Some || (0 <= p < s.len() && s[p] == ';') || p == s.len() {
            v2
        } else {
            expect_v(expect_v(v2, p as usize, Token::Char(';')), p as usize, Token::EndOfInput)
        }
    }
}

pub fn node_terminator(src: &Src, p: usize, f: &mut Furthest) -> (r: Option<usize>)
    requires
        src.wf(),
        p <= src.chars.len(),
    ensures
        opt_int(r) == sp_node_terminator(src.chars@, p as int),
        r matches Some(e) ==> p <= e <= src.chars.len(),
        final(f)@ == node_terminator_furthest(src.chars@, p as int, old(f)@),
{
    proof {
        reveal(node_terminator_furthest);
    }
    match newline(src, p, f) {
        Some(e) => Some(e),
        None => match comment(src, p, f) {
            Some(e) => Some(e),
            None => if p < src.chars.len() && src.chars[p] == ';' {
                Some(p + 1)
            } else if p == src.chars.len() {
                Some(p)
            } else {
                f.expect(p, Token::Char(';'));
                f.expect(p, Token::EndOfInput);
                None
            },
        },
    }
}

} // verus!
