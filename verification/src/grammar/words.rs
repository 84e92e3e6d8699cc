//! Numbers, keywords, identifiers, literals and type names.
use vstd::prelude::*;

use crate::ast::{
    builtin_from_chars, type_name_of, Decimal, Integer, Literal, LiteralV, Radix, TypeName,
    TypeNameV,
};
use crate::errors::{BareKeyword, Keyword, ParseError, Token, TokenKind};
use crate::grammar::lex::{
    digit_p, id_char_p, id_sans_dig_point_p, id_sans_sign_dig_point_p, is_digit,
    in_class, is_id_sans_dig_point, is_id_sans_sign_dig_point, is_newline_char, is_ws_char, lemma_run_bounds,
    lemma_run_exact, run, run_of, Class,
};
use crate::grammar::strings::{sp_string, str_agrees, string, string_furthest};
use crate::grammar::{expect_v, fail_with_v, span_at, span_of, Furthest, FurthestV, Src};
use crate::text::string_from_chars;

verus! {

/// `t` without its underscores.
pub open spec fn strip_underscores(t: Seq<char>) -> Seq<char>
    decreases t.len(),
{
    if t.len() == 0 {
        t
    } else if t.last() == '_' {
        strip_underscores(t.drop_last())
    } else {
        strip_underscores(t.drop_last()).push(t.last())
    }
}

/// The characters `s[a..b]` without underscores, after `acc`.
fn strip_range(s: &Vec<char>, a: usize, b: usize, acc: &mut Vec<char>)
    requires
        a <= b <= s.len(),
    ensures
        final(acc)@ == old(acc)@ + strip_underscores(s@.subrange(a as int, b as int)),
{
    let mut i = a;
    assert(s@.subrange(a as int, a as int) =~= Seq::<char>::empty());
    while i < b
        invariant
            a <= i <= b <= s.len(),
            acc@ == old(acc)@ + strip_underscores(s@.subrange(a as int, i as int)),
        decreases b - i,
    {
        assert(s@.subrange(a as int, i + 1).drop_last() =~= s@.subrange(a as int, i as int));
        if s[i] != '_' {
            acc.push(s[i]);
            assert(acc@ =~= old(acc)@ + strip_underscores(s@.subrange(a as int, i + 1)));
        }
        i = i + 1;
    }
}

/// The end of an optional sign at `p`.
pub open spec fn after_sign(s: Seq<char>, p: int) -> int {
    if 0 <= p < s.len() && (s[p] == '-' || s[p] == '+') {
        p + 1
    } else {
        p
    }
}

/// A decimal number: optional sign, digit, digits and `_`, an optional
/// fraction (`.`, digit, digits and `_`) and an optional exponent (`e` or
/// `E`, optional sign, digits and `_`). With a fraction or an exponent it is
/// a decimal, else an integer; its text loses the underscores.
#[verifier::opaque]
pub open spec fn sp_decimal(s: Seq<char>, p: int) -> Option<(LiteralV, int)> {
    let a = after_sign(s, p);
    if 0 <= p && a < s.len() && is_digit(10, s[a]) {
        let b = run(s, a + 1, Class::Digits(10));
        let c = if b + 1 < s.len() && s[b] == '.' && is_digit(10, s[b + 1]) {
            run(s, b + 2, Class::Digits(10))
        } else {
            b
        };
        let e = if c < s.len() && (s[c] == 'e' || s[c] == 'E') {
            run(s, after_sign(s, c + 1), Class::Digits(10))
        } else {
            c
        };
        let text = strip_underscores(s.subrange(p, e));
        if c > b || e > c {
            Some((LiteralV::Decimal(text), e))
        } else {
            Some((LiteralV::Int(Radix::Dec, text), e))
        }
    } else {
        None
    }
}

/// The radix that the letter after `0` introduces.
pub open spec fn radix_of(c: char) -> Option<(Radix, u32)> {
    if c == 'b' {
        Some((Radix::Bin, 2))
    } else if c == 'o' {
        Some((Radix::Oct, 8))
    } else if c == 'x' {
        Some((Radix::Hex, 16))
    } else {
        None
    }
}

/// The radix (as a number) that the letter after `0` introduces.
pub open spec fn radix_digits(c: char) -> u32 {
    match radix_of(c) {
        Some((_, r)) => r,
        None => 10,
    }
}

/// A number with a radix: optional sign, `0`, `b`, `o` or `x`, a digit of
/// that radix, then digits and `_`. Its text is the sign and the digits.
#[verifier::opaque]
pub open spec fn sp_radix(s: Seq<char>, p: int) -> Option<(LiteralV, int)> {
    let a = after_sign(s, p);
    if 0 <= p && a + 2 < s.len() && s[a] == '0' && radix_of(s[a + 1]) is Some && is_digit(
        radix_digits(s[a + 1]),
        s[a + 2],
    ) {
        let (radix, r) = radix_of(s[a + 1]).unwrap();
        let e = run(s, a + 3, Class::Digits(r));
        let sign = s.subrange(p, a);
        Some((LiteralV::Int(radix, sign + strip_underscores(s.subrange(a + 2, e))), e))
    } else {
        None
    }
}

/// A number: one with a radix, else a decimal one.
#[verifier::opaque]
pub open spec fn sp_number(s: Seq<char>, p: int) -> Option<(LiteralV, int)> {
    match sp_radix(s, p) {
        Some(x) => Some(x),
        None => sp_decimal(s, p),
    }
}

/// The executable result of a rule that produces a literal agrees with its
/// mathematical one.
pub open spec fn lit_agrees(r: Option<(Literal, usize)>, sp: Option<(LiteralV, int)>) -> bool {
    match (r, sp) {
        (Some((l, e)), Some((lv, e2))) => l@ == lv && e == e2,
        (None, None) => true,
        _ => false,
    }
}

fn sign_end(s: &Vec<char>, p: usize) -> (r: usize)
    requires
        p <= s.len(),
    ensures
        r == after_sign(s@, p as int),
{
    if p < s.len() && (s[p] == '-' || s[p] == '+') {
        p + 1
    } else {
        p
    }
}

/// The failure tracker after a decimal number was read at `p`: where no
/// digit comes after the optional sign, a sign is expected.
#[verifier::opaque]
pub open spec fn decimal_furthest(s: Seq<char>, p: int, v: FurthestV) -> FurthestV {
    let a = after_sign(s, p);
    if a < s.len() && is_digit(10, s[a]) {
        v
    } else {
        expect_v(expect_v(v, p as usize, Token::Char('-')), p as usize, Token::Char('+'))
    }
}

pub fn decimal(src: &Src, p: usize, f: &mut Furthest) -> (r: Option<(Literal, usize)>)
    requires
        src.wf(),
        p <= src.chars.len(),
    ensures
        lit_agrees(r, sp_decimal(src.chars@, p as int)),
        r matches Some((l, e)) ==> p < e <= src.chars.len(),
        final(f)@ == decimal_furthest(src.chars@, p as int, old(f)@),
{
    proof {
        reveal(decimal_furthest);
    }
    proof {
        reveal(sp_decimal);
    }
    let s = &src.chars;
    let a = sign_end(s, p);
    if !(a < s.len() && digit_p(10, s[a])) {
        f.expect(p, Token::Char('-'));
        f.expect(p, Token::Char('+'));
        return None;
    }
    let b = run_of(s, a + 1, Class::Digits(10));
    let c = if b + 1 < s.len() && s[b] == '.' && digit_p(10, s[b + 1]) {
        run_of(s, b + 2, Class::Digits(10))
    } else {
        b
    };
    let e = if c < s.len() && (s[c] == 'e' || s[c] == 'E') {
        let d = sign_end(s, c + 1);
        run_of(s, d, Class::Digits(10))
    } else {
        c
    };
    let mut t: Vec<char> = Vec::new();
    strip_range(s, p, e, &mut t);
    let text = string_from_chars(&t);
    if c > b || e > c {
        Some((Literal::Decimal(Decimal(text)), e))
    } else {
        Some((Literal::Int(Integer(Radix::Dec, text)), e))
    }
}

/// The failure tracker after a number with a radix was read at `p`: where
/// no `0` and two more characters come after the optional sign, `0` is
/// expected.
#[verifier::opaque]
pub open spec fn radix_furthest(s: Seq<char>, p: int, v: FurthestV) -> FurthestV {
    let a = after_sign(s, p);
    if a + 2 < s.len() && s[a] == '0' {
        v
    } else {
        expect_v(v, a as usize, Token::Char('0'))
    }
}

pub fn radix_number(src: &Src, p: usize, f: &mut Furthest) -> (r: Option<(Literal, usize)>)
    requires
        src.wf(),
        p <= src.chars.len(),
    ensures
        lit_agrees(r, sp_radix(src.chars@, p as int)),
        r matches Some((l, e)) ==> p < e <= src.chars.len(),
        final(f)@ == radix_furthest(src.chars@, p as int, old(f)@),
{
    proof {
        reveal(radix_furthest);
    }
    proof {
        reveal(sp_radix);
    }
    let s = &src.chars;
    let a = sign_end(s, p);
    if !(a + 2 < s.len() && s[a] == '0') {
        f.expect(a, Token::Char('0'));
        return None;
    }
    let (radix, rd) = if s[a + 1] == 'b' {
        (Radix::Bin, 2u32)
    } else if s[a + 1] == 'o' {
        (Radix::Oct, 8u32)
    } else if s[a + 1] == 'x' {
        (Radix::Hex, 16u32)
    } else {
        return None;
    };
    if !digit_p(rd, s[a + 2]) {
        return None;
    }
    let e = run_of(s, a + 3, Class::Digits(rd));
    let mut t: Vec<char> = Vec::new();
    let mut i = p;
    while i < a
        invariant
            p <= i <= a,
            a <= s.len(),
            t@ == s@.subrange(p as int, i as int),
        decreases a - i,
    {
        t.push(s[i]);
        i = i + 1;
        assert(t@ =~= s@.subrange(p as int, i as int));
    }
    strip_range(s, a + 2, e, &mut t);
    let text = string_from_chars(&t);
    Some((Literal::Int(Integer(radix, text)), e))
}

/// The failure tracker after a number was read at `p`: one with a radix is
/// tried, then a decimal one.
#[verifier::opaque]
pub open spec fn number_furthest(s: Seq<char>, p: int, v: FurthestV) -> FurthestV {
    let v1 = radix_furthest(s, p, v);
    if sp_radix(s, p) is Some {
        v1
    } else {
        decimal_furthest(s, p, v1)
    }
}

pub fn number(src: &Src, p: usize, f: &mut Furthest) -> (r: Option<(Literal, usize)>)
    requires
        src.wf(),
        p <= src.chars.len(),
    ensures
        lit_agrees(r, sp_number(src.chars@, p as int)),
        r matches Some((l, e)) ==> p < e <= src.chars.len(),
        final(f)@ == number_furthest(src.chars@, p as int, old(f)@),
{
    proof {
        reveal(number_furthest);
    }
    proof {
        reveal(sp_number);
    }
    match radix_number(src, p, f) {
        Some(x) => Some(x),
        None => decimal(src, p, f),
    }
}

} // verus!

verus! {

/// `s` has the characters of `t` from `p` on.
pub open spec fn text_at(s: Seq<char>, p: int, t: Seq<char>) -> bool {
    0 <= p && p + t.len() <= s.len() && s.subrange(p, p + t.len()) == t
}

fn text_at_p(s: &Vec<char>, p: usize, lit: &str) -> (r: bool)
    requires
        p <= s.len(),
    ensures
        r == text_at(s@, p as int, lit@),
{
    let l = crate::text::chars_of(lit);
    if l.len() > s.len() - p {
        return false;
    }
    let mut i: usize = 0;
    while i < l.len()
        invariant
            i <= l.len(),
            p + l.len() <= s.len(),
            l@ == lit@,
            forall|k: int| 0 <= k < i ==> s@[p + k] == l@[k],
        decreases l.len() - i,
    {
        if s[p + i] != l[i] {
            assert(s@.subrange(p as int, p + l.len())[i as int] != l@[i as int]);
            return false;
        }
        i = i + 1;
    }
    assert(s@.subrange(p as int, p + l.len()) =~= l@);
    true
}

/// The text of a keyword.
pub open spec fn keyword_text(k: Keyword) -> Seq<char> {
    match k {
        Keyword::Null => seq!['#', 'n', 'u', 'l', 'l'],
        Keyword::True => seq!['#', 't', 'r', 'u', 'e'],
        Keyword::False => seq!['#', 'f', 'a', 'l', 's', 'e'],
        Keyword::Nan => seq!['#', 'n', 'a', 'n'],
        Keyword::Inf => seq!['#', 'i', 'n', 'f'],
        Keyword::NegInf => seq!['#', '-', 'i', 'n', 'f'],
    }
}

/// The literal a keyword stands for.
pub open spec fn keyword_literal(k: Keyword) -> LiteralV {
    match k {
        Keyword::Null => LiteralV::Null,
        Keyword::True => LiteralV::Bool(true),
        Keyword::False => LiteralV::Bool(false),
        Keyword::Nan => LiteralV::Nan,
        Keyword::Inf => LiteralV::Inf,
        Keyword::NegInf => LiteralV::NegInf,
    }
}

/// The first keyword (in the order `#null`, `#true`, `#false`, `#nan`,
/// `#inf`, `#-inf`) whose text is at `p`.
#[verifier::opaque]
pub open spec fn sp_keyword(s: Seq<char>, p: int) -> Option<(LiteralV, int)> {
    if text_at(s, p, keyword_text(Keyword::Null)) {
        Some((LiteralV::Null, p + 5))
    } else if text_at(s, p, keyword_text(Keyword::True)) {
        Some((LiteralV::Bool(true), p + 5))
    } else if text_at(s, p, keyword_text(Keyword::False)) {
        Some((LiteralV::Bool(false), p + 6))
    } else if text_at(s, p, keyword_text(Keyword::Nan)) {
        Some((LiteralV::Nan, p + 4))
    } else if text_at(s, p, keyword_text(Keyword::Inf)) {
        Some((LiteralV::Inf, p + 4))
    } else if text_at(s, p, keyword_text(Keyword::NegInf)) {
        Some((LiteralV::NegInf, p + 5))
    } else {
        None
    }
}

/// The failure tracker after a keyword was read at `p`: where there is
/// none, each keyword is expected.
#[verifier::opaque]
pub open spec fn keyword_furthest(s: Seq<char>, p: int, v: FurthestV) -> FurthestV {
    if sp_keyword(s, p) is Some {
        v
    } else {
        let q = p as usize;
        let v1 = expect_v(expect_v(v, q, Token::Keyword(Keyword::Null)), q, Token::Keyword(Keyword::True));
        let v2 = expect_v(expect_v(v1, q, Token::Keyword(Keyword::False)), q, Token::Keyword(Keyword::Nan));
        expect_v(expect_v(v2, q, Token::Keyword(Keyword::Inf)), q, Token::Keyword(Keyword::NegInf))
    }
}

pub fn keyword(src: &Src, p: usize, f: &mut Furthest) -> (r: Option<(Literal, usize)>)
    requires
        src.wf(),
        p <= src.chars.len(),
    ensures
        lit_agrees(r, sp_keyword(src.chars@, p as int)),
        r matches Some((l, e)) ==> p < e <= src.chars.len(),
        final(f)@ == keyword_furthest(src.chars@, p as int, old(f)@),
{
    proof {
        reveal(keyword_furthest);
    }
    proof {
        reveal(sp_keyword);
    }
    let s = &src.chars;
    proof {
        reveal_strlit("#null");
        reveal_strlit("#true");
        reveal_strlit("#false");
        reveal_strlit("#nan");
        reveal_strlit("#inf");
        reveal_strlit("#-inf");
        assert("#null"@ =~= keyword_text(Keyword::Null));
        assert("#true"@ =~= keyword_text(Keyword::True));
        assert("#false"@ =~= keyword_text(Keyword::False));
        assert("#nan"@ =~= keyword_text(Keyword::Nan));
        assert("#inf"@ =~= keyword_text(Keyword::Inf));
        assert("#-inf"@ =~= keyword_text(Keyword::NegInf));
    }
    if text_at_p(s, p, "#null") {
        Some((Literal::Null, p + 5))
    } else if text_at_p(s, p, "#true") {
        Some((Literal::Bool(true), p + 5))
    } else if text_at_p(s, p, "#false") {
        Some((Literal::Bool(false), p + 6))
    } else if text_at_p(s, p, "#nan") {
        Some((Literal::Nan, p + 4))
    } else if text_at_p(s, p, "#inf") {
        Some((Literal::Inf, p + 4))
    } else if text_at_p(s, p, "#-inf") {
        Some((Literal::NegInf, p + 5))
    } else {
        f.expect(p, Token::Keyword(Keyword::Null));
        f.expect(p, Token::Keyword(Keyword::True));
        f.expect(p, Token::Keyword(Keyword::False));
        f.expect(p, Token::Keyword(Keyword::Nan));
        f.expect(p, Token::Keyword(Keyword::Inf));
        f.expect(p, Token::Keyword(Keyword::NegInf));
        None
    }
}

/// The end of a bare identifier at `p`: one that starts with neither a sign
/// nor a digit; or a sign, optionally followed by a character that is no
/// digit nor `.`, and identifier characters; or `.`, optionally followed by
/// a character that is no digit, and identifier characters.
pub open spec fn bare_end(s: Seq<char>, p: int) -> Option<int> {
    if 0 <= p < s.len() && is_id_sans_sign_dig_point(s[p]) {
        Some(run(s, p + 1, Class::IdChar))
    } else if 0 <= p < s.len() && (s[p] == '+' || s[p] == '-') {
        if p + 1 < s.len() && is_id_sans_dig_point(s[p + 1]) {
            Some(run(s, p + 2, Class::IdChar))
        } else {
            Some(p + 1)
        }
    } else if 0 <= p < s.len() && s[p] == '.' {
        if p + 1 < s.len() && crate::grammar::lex::is_id_sans_dig(s[p + 1]) {
            Some(run(s, p + 2, Class::IdChar))
        } else {
            Some(p + 1)
        }
    } else {
        None
    }
}

/// The words that may not stand as bare identifiers.
pub open spec fn bare_keyword_of(t: Seq<char>) -> Option<BareKeyword> {
    if t == seq!['t', 'r', 'u', 'e'] {
        Some(BareKeyword::True)
    } else if t == seq!['f', 'a', 'l', 's', 'e'] {
        Some(BareKeyword::False)
    } else if t == seq!['n', 'u', 'l', 'l'] {
        Some(BareKeyword::Null)
    } else if t == seq!['n', 'a', 'n'] {
        Some(BareKeyword::Nan)
    } else if t == seq!['i', 'n', 'f'] {
        Some(BareKeyword::Inf)
    } else if t == seq!['-', 'i', 'n', 'f'] {
        Some(BareKeyword::NegInf)
    } else {
        None
    }
}

/// A bare identifier, which may not be one of the words of
/// [`bare_keyword_of`].
#[verifier::opaque]
pub open spec fn sp_bare_ident(s: Seq<char>, p: int) -> Option<(Seq<char>, int)> {
    match bare_end(s, p) {
        Some(e) => if bare_keyword_of(s.subrange(p, e)) is Some {
            None
        } else {
            Some((s.subrange(p, e), e))
        },
        None => None,
    }
}

fn bare_keyword_p(s: &Vec<char>, p: usize, e: usize) -> (r: Option<BareKeyword>)
    requires
        p <= e <= s.len(),
    ensures
        r == bare_keyword_of(s@.subrange(p as int, e as int)),
{
    let ghost t = s@.subrange(p as int, e as int);
    proof {
        reveal_strlit("true");
        reveal_strlit("false");
        reveal_strlit("null");
        reveal_strlit("nan");
        reveal_strlit("inf");
        reveal_strlit("-inf");
        assert("true"@ =~= seq!['t', 'r', 'u', 'e']);
        assert("false"@ =~= seq!['f', 'a', 'l', 's', 'e']);
        assert("null"@ =~= seq!['n', 'u', 'l', 'l']);
        assert("nan"@ =~= seq!['n', 'a', 'n']);
        assert("inf"@ =~= seq!['i', 'n', 'f']);
        assert("-inf"@ =~= seq!['-', 'i', 'n', 'f']);
    }
    let len = e - p;
    if len == 4 && text_at_p(s, p, "true") {
        assert(s@.subrange(p as int, p + 4) == t);
        Some(BareKeyword::True)
    } else if len == 5 && text_at_p(s, p, "false") {
        assert(s@.subrange(p as int, p + 5) == t);
        Some(BareKeyword::False)
    } else if len == 4 && text_at_p(s, p, "null") {
        assert(s@.subrange(p as int, p + 4) == t);
        Some(BareKeyword::Null)
    } else if len == 3 && text_at_p(s, p, "nan") {
        assert(s@.subrange(p as int, p + 3) == t);
        Some(BareKeyword::Nan)
    } else if len == 3 && text_at_p(s, p, "inf") {
        assert(s@.subrange(p as int, p + 3) == t);
        Some(BareKeyword::Inf)
    } else if len == 4 && text_at_p(s, p, "-inf") {
        assert(s@.subrange(p as int, p + 4) == t);
        Some(BareKeyword::NegInf)
    } else {
        proof {
            if t == seq!['t', 'r', 'u', 'e'] {
                assert(s@.subrange(p as int, p + 4) == t);
            }
            if t == seq!['f', 'a', 'l', 's', 'e'] {
                assert(s@.subrange(p as int, p + 5) == t);
            }
            if t == seq!['n', 'u', 'l', 'l'] {
                assert(s@.subrange(p as int, p + 4) == t);
            }
            if t == seq!['n', 'a', 'n'] {
                assert(s@.subrange(p as int, p + 3) == t);
            }
            if t == seq!['i', 'n', 'f'] {
                assert(s@.subrange(p as int, p + 3) == t);
            }
            if t == seq!['-', 'i', 'n', 'f'] {
                assert(s@.subrange(p as int, p + 4) == t);
            }
        }
        None
    }
}

/// The failure tracker after a bare identifier was read at `p`: where none
/// starts, a sign, a point or a letter is expected; where the word is one
/// that may not stand bare, it is reported as an illegal identifier at its
/// end.
pub open spec fn bare_ident_furthest(s: Seq<char>, p: usize, v: FurthestV) -> FurthestV {
    match bare_end(s, p as int) {
        Some(e) => match bare_keyword_of(s.subrange(p as int, e)) {
            Some(word) => fail_with_v(
                v,
                e as usize,
                ParseError::IllegalIdentifier { span: span_at(s, p as int, e), word },
            ),
            None => v,
        },
        None => expect_v(
            expect_v(expect_v(expect_v(v, p, Token::Char('+')), p, Token::Char('-')), p, Token::Char('.')),
            p,
            Token::Kind(TokenKind::Letter),
        ),
    }
}

pub fn bare_ident(src: &Src, p: usize, f: &mut Furthest) -> (r: Option<(Vec<char>, usize)>)
    requires
        src.wf(),
        p <= src.chars.len(),
    ensures
        match (r, sp_bare_ident(src.chars@, p as int)) {
            (Some((v, e)), Some((t, e2))) => v@ == t && e == e2,
            (None, None) => true,
            _ => false,
        },
        r matches Some((v, e)) ==> p < e <= src.chars.len(),
        final(f)@ == bare_ident_furthest(src.chars@, p, old(f)@),
{
    proof {
        reveal(sp_bare_ident);
    }
    let s = &src.chars;
    let e = if p < s.len() && id_sans_sign_dig_point_p(s[p]) {
        run_of(s, p + 1, Class::IdChar)
    } else if p < s.len() && (s[p] == '+' || s[p] == '-') {
        if p + 1 < s.len() && id_sans_dig_point_p(s[p + 1]) {
            run_of(s, p + 2, Class::IdChar)
        } else {
            p + 1
        }
    } else if p < s.len() && s[p] == '.' {
        if p + 1 < s.len() && crate::grammar::lex::id_sans_dig_p(s[p + 1]) {
            run_of(s, p + 2, Class::IdChar)
        } else {
            p + 1
        }
    } else {
        f.expect(p, Token::Char('+'));
        f.expect(p, Token::Char('-'));
        f.expect(p, Token::Char('.'));
        f.expect(p, Token::Kind(TokenKind::Letter));
        return None;
    };
    match bare_keyword_p(s, p, e) {
        Some(word) => {
            f.fail_with(e, ParseError::IllegalIdentifier { span: span_of(src, p, e), word });
            None
        },
        None => {
            let mut v: Vec<char> = Vec::new();
            let mut i = p;
            while i < e
                invariant
                    p <= i <= e <= s.len(),
                    v@ == s@.subrange(p as int, i as int),
                decreases e - i,
            {
                v.push(s[i]);
                i = i + 1;
                assert(v@ =~= s@.subrange(p as int, i as int));
            }
            Some((v, e))
        },
    }
}

/// An identifier: a bare one or a string. A number is taken too, so that no
/// identifier starts inside it, but it is reported and stands for the empty
/// identifier.
#[verifier::opaque]
pub open spec fn sp_ident(s: Seq<char>, p: int) -> Option<(Seq<char>, int, Seq<ParseError>)> {
    match sp_number(s, p) {
        Some((_, e)) => Some(
            (Seq::empty(), e, seq![ParseError::UnexpectedNumber { span: span_at(s, p, e) }]),
        ),
        None => match sp_bare_ident(s, p) {
            Some((t, e)) => Some((t, e, Seq::empty())),
            None => sp_string(s, p),
        },
    }
}

/// The failure tracker after an identifier was read at `p`: a number, a
/// bare identifier and a string are tried in turn.
#[verifier::opaque]
pub open spec fn ident_furthest(s: Seq<char>, p: int, v: FurthestV) -> FurthestV {
    let v1 = number_furthest(s, p, v);
    if sp_number(s, p) is Some {
        v1
    } else {
        let v2 = bare_ident_furthest(s, p as usize, v1);
        if sp_bare_ident(s, p) is Some {
            v2
        } else {
            string_furthest(s, p as usize, v2)
        }
    }
}

pub fn ident(src: &Src, p: usize, errs: &mut Vec<ParseError>, f: &mut Furthest) -> (r: Option<(Vec<char>, usize)>)
    requires
        src.wf(),
        p <= src.chars.len(),
    ensures
        str_agrees(r, sp_ident(src.chars@, p as int), old(errs)@, final(errs)@),
        r matches Some((v, e)) ==> p < e <= src.chars.len(),
        final(f)@ == ident_furthest(src.chars@, p as int, old(f)@),
{
    proof {
        reveal(ident_furthest);
    }
    proof {
        reveal(sp_ident);
    }
    match number(src, p, f) {
        Some((_, e)) => {
            let rep = ParseError::UnexpectedNumber { span: span_of(src, p, e) };
            errs.push(rep);
            assert(errs@ =~= old(errs)@ + seq![rep]);
            return Some((Vec::new(), e));
        },
        None => {},
    }
    match bare_ident(src, p, f) {
        Some((v, e)) => {
            assert(errs@ =~= old(errs)@ + Seq::<ParseError>::empty());
            Some((v, e))
        },
        None => string(src, p, errs, f),
    }
}

/// A literal: a keyword, a number, or an identifier (a string).
#[verifier::opaque]
pub open spec fn sp_literal(s: Seq<char>, p: int) -> Option<(LiteralV, int, Seq<ParseError>)> {
    match sp_keyword(s, p) {
        Some((l, e)) => Some((l, e, Seq::empty())),
        None => match sp_number(s, p) {
            Some((l, e)) => Some((l, e, Seq::empty())),
            None => match sp_ident(s, p) {
                Some((t, e, es)) => Some((LiteralV::String(t), e, es)),
                None => None,
            },
        },
    }
}

/// The executable result of a rule that produces a literal and may report
/// errors agrees with its mathematical one.
pub open spec fn lit_errs_agree(
    r: Option<(Literal, usize)>,
    sp: Option<(LiteralV, int, Seq<ParseError>)>,
    before: Seq<ParseError>,
    after: Seq<ParseError>,
) -> bool {
    match (r, sp) {
        (Some((l, e)), Some((lv, e2, es))) => l@ == lv && e == e2 && after == before + es,
        (None, None) => after == before,
        _ => false,
    }
}

/// The failure tracker after a literal was read at `p`: a keyword, a number
/// and an identifier are tried in turn.
#[verifier::opaque]
pub open spec fn literal_furthest(s: Seq<char>, p: int, v: FurthestV) -> FurthestV {
    let v1 = keyword_furthest(s, p, v);
    if sp_keyword(s, p) is Some {
        v1
    } else {
        let v2 = number_furthest(s, p, v1);
        if sp_number(s, p) is Some {
            v2
        } else {
            ident_furthest(s, p, v2)
        }
    }
}

pub fn literal(src: &Src, p: usize, errs: &mut Vec<ParseError>, f: &mut Furthest) -> (r: Option<(Literal, usize)>)
    requires
        src.wf(),
        p <= src.chars.len(),
    ensures
        lit_errs_agree(r, sp_literal(src.chars@, p as int), old(errs)@, final(errs)@),
        r matches Some((l, e)) ==> p < e <= src.chars.len(),
        final(f)@ == literal_furthest(src.chars@, p as int, old(f)@),
{
    proof {
        reveal(literal_furthest);
    }
    proof {
        reveal(sp_literal);
    }
    match keyword(src, p, f) {
        Some(x) => {
            assert(errs@ =~= old(errs)@ + Seq::<ParseError>::empty());
            return Some(x);
        },
        None => {},
    }
    match number(src, p, f) {
        Some(x) => {
            assert(errs@ =~= old(errs)@ + Seq::<ParseError>::empty());
            return Some(x);
        },
        None => {},
    }
    match ident(src, p, errs, f) {
        Some((v, e)) => Some((Literal::String(string_from_chars(&v)), e)),
        None => None,
    }
}

/// A type name: `(`, whitespace, an identifier, whitespace, `)`.
#[verifier::opaque]
pub open spec fn sp_type_tag(s: Seq<char>, p: int) -> Option<(TypeNameV, int, Seq<ParseError>)> {
    if 0 <= p < s.len() && s[p] == '(' {
        let a = run(s, p + 1, Class::Ws);
        match sp_ident(s, a) {
            Some((t, e, es)) => {
                let b = run(s, e, Class::Ws);
                if b < s.len() && s[b] == ')' {
                    Some((type_name_of(t), b + 1, es))
                } else {
                    None
                }
            },
            None => None,
        }
    } else {
        None
    }
}

/// The failure tracker after a type name was read at `p`: a missing `(` is
/// expected; after the identifier, so is a missing `)`.
#[verifier::opaque]
pub open spec fn type_tag_furthest(s: Seq<char>, p: int, v: FurthestV) -> FurthestV {
    if 0 <= p < s.len() && s[p] == '(' {
        let a = run(s, p + 1, Class::Ws);
        let v1 = ident_furthest(s, a, v);
        match sp_ident(s, a) {
            Some((_, e, _)) => {
                let b = run(s, e, Class::Ws);
                if b < s.len() && s[b] == ')' {
                    v1
                } else {
                    expect_v(v1, b as usize, Token::Char(')'))
                }
            },
            None => v1,
        }
    } else {
        expect_v(v, p as usize, Token::Char('('))
    }
}

pub fn type_tag(src: &Src, p: usize, errs: &mut Vec<ParseError>, f: &mut Furthest) -> (r: Option<(TypeName, usize)>)
    requires
        src.wf(),
        p <= src.chars.len(),
    ensures
        match (r, sp_type_tag(src.chars@, p as int)) {
            (Some((t, e)), Some((tv, e2, es))) => t@ == tv && e == e2 && final(errs)@ == old(
                errs,
            )@ + es,
            (None, None) => final(errs)@ == old(errs)@,
            _ => false,
        },
        r matches Some((t, e)) ==> p < e <= src.chars.len(),
        final(f)@ == type_tag_furthest(src.chars@, p as int, old(f)@),
{
    proof {
        reveal(type_tag_furthest);
    }
    proof {
        reveal(sp_type_tag);
    }
    let s = &src.chars;
    if !(p < s.len() && s[p] == '(') {
        f.expect(p, Token::Char('('));
        return None;
    }
    let a = run_of(s, p + 1, Class::Ws);
    let mark = errs.len();
    match ident(src, a, errs, f) {
        Some((t, e)) => {
            let b = run_of(s, e, Class::Ws);
            if b < s.len() && s[b] == ')' {
                let name = TypeName::from_string(string_from_chars(&t));
                Some((name, b + 1))
            } else {
                f.expect(b, Token::Char(')'));
                errs.truncate(mark);
                assert(errs@ =~= old(errs)@);
                None
            }
        },
        None => None,
    }
}

/// A number written `0x` and a hexadecimal digit (`0`-`9`, `a`-`f` or
/// `A`-`F`), then hexadecimal digits and `_`, after an optional sign, is a
/// hexadecimal integer that ends at the first other character; its text is
/// the sign and the digits without the underscores.
pub proof fn lemma_hex_number(s: Seq<char>, p: int, a: int, e: int)
    requires
        0 <= p <= a,
        a + 2 < e <= s.len(),
        a == p || (a == p + 1 && (s[p] == '-' || s[p] == '+')),
        s[a] == '0',
        s[a + 1] == 'x',
        forall|i: int|
            a + 2 <= i < e ==> ('0' <= #[trigger] s[i] && s[i] <= '9') || ('a' <= s[i] && s[i] <= 'f') || (
            'A' <= s[i] && s[i] <= 'F') || (i > a + 2 && s[i] == '_'),
        e < s.len() ==> !(('0' <= s[e] && s[e] <= '9') || ('a' <= s[e] && s[e] <= 'f') || ('A' <= s[e]
            && s[e] <= 'F') || s[e] == '_'),
    ensures
        sp_number(s, p) == Some(
            (LiteralV::Int(Radix::Hex, s.subrange(p, a) + strip_underscores(s.subrange(a + 2, e))), e),
        ),
{
    reveal(sp_number);
    reveal(sp_radix);
    assert(after_sign(s, p) == a);
    assert(is_digit(16, s[a + 2]));
    assert forall|i: int| a + 3 <= i < e implies in_class(Class::Digits(16), #[trigger] s[i]) by {}
    lemma_run_exact(s, a + 3, Class::Digits(16), e);
}

/// A bare identifier reads up to the first character that cannot be in
/// one: every character but the control characters, space and `!`, the
/// punctuation `\ / ( ) { } ; [ ] = " #`, whitespace, newlines and the
/// byte order mark is an identifier character, non-ASCII letters included.
/// So one that starts with neither a sign, a dot nor a digit, and is no
/// reserved word, is the whole run of such characters.
pub proof fn lemma_bare_ident_extent(s: Seq<char>, p: int, e: int)
    requires
        0 <= p < e <= s.len(),
        forall|i: int|
            #![trigger s[i]]
            p <= i < e ==> s[i] > '!' && s[i] != '\\' && s[i] != '/' && s[i] != '(' && s[i] != ')' && s[i]
                != '{' && s[i] != '}' && s[i] != ';' && s[i] != '[' && s[i] != ']' && s[i] != '=' && s[i]
                != '"' && s[i] != '#' && !is_ws_char(s[i]) && !is_newline_char(s[i]) && s[i] != '\u{FEFF}',
        e < s.len() ==> s[e] <= '!' || s[e] == '\\' || s[e] == '/' || s[e] == '(' || s[e] == ')' || s[e]
            == '{' || s[e] == '}' || s[e] == ';' || s[e] == '[' || s[e] == ']' || s[e] == '=' || s[e]
            == '"' || s[e] == '#',
        !('0' <= s[p] && s[p] <= '9'),
        s[p] != '+' && s[p] != '-' && s[p] != '.',
        bare_keyword_of(s.subrange(p, e)) is None,
    ensures
        sp_bare_ident(s, p) == Some((s.subrange(p, e), e)),
{
    reveal(sp_bare_ident);
    assert forall|i: int| p + 1 <= i < e implies in_class(Class::IdChar, #[trigger] s[i]) by {}
    lemma_run_exact(s, p + 1, Class::IdChar, e);
}

} // verus!
