//! Strings: quoted, raw and multi-line, with escapes and dedentation.
use vstd::prelude::*;

use crate::errors::{Delimiter, EscapeError, Label, ParseError, Token, TokenKind};
use crate::grammar::lex::{advances, digit_p, is_digit, in_class, is_newline_char, is_ws_char, lemma_run_all, lemma_run_bounds, lemma_run_exact, newline_char_p, opt_int, run, run_of, ws_char_p, Class};
use crate::grammar::{expect_labelled_v, expect_v, fail_with_v, keep_before_v, span_at, span_of, Furthest, FurthestV, Src};
use crate::span::{sat_sub, Span};
use crate::text::{byte_at, bytes_len, char_len, char_len_utf8, lemma_byte_at_mono, lemma_bytes_len_take_step};

verus! {

// ----- UTF-8 lengths of pieces -----

pub proof fn lemma_bytes_len_concat(a: Seq<char>, b: Seq<char>)
    ensures
        bytes_len(a + b) == bytes_len(a) + bytes_len(b),
    decreases b.len(),
{
    if b.len() > 0 {
        lemma_bytes_len_concat(a, b.drop_last());
        assert((a + b).drop_last() =~= a + b.drop_last());
        assert((a + b).last() == b.last());
    } else {
        assert(a + b =~= a);
    }
}

/// The bytes of `s[a..b]` are the difference of the offsets of its ends.
pub proof fn lemma_bytes_len_subrange(s: Seq<char>, a: int, b: int)
    requires
        0 <= a <= b <= s.len(),
    ensures
        bytes_len(s.subrange(a, b)) == byte_at(s, b) - byte_at(s, a),
{
    assert(s.take(b) =~= s.take(a) + s.subrange(a, b));
    lemma_bytes_len_concat(s.take(a), s.subrange(a, b));
}

pub proof fn lemma_bytes_len_push(a: Seq<char>, c: char)
    ensures
        bytes_len(a.push(c)) == bytes_len(a) + char_len(c),
{
    assert(a.push(c).drop_last() =~= a);
}

// ----- newline normalization -----

pub open spec fn is_other_newline(c: char) -> bool {
    c == '\x0C' || c == '\x0B' || c == '\u{0085}' || c == '\u{2028}' || c == '\u{2029}'
}

/// `acc` followed by `s[i..]` with every newline (`\r\n` too) turned into `\n`.
pub open spec fn sp_normalize(s: Seq<char>, i: int, acc: Seq<char>) -> Seq<char>
    decreases s.len() - i,
{
    if i < 0 || i >= s.len() {
        acc
    } else if s[i] == '\r' {
        if i + 1 < s.len() && s[i + 1] == '\n' {
            sp_normalize(s, i + 2, acc.push('\n'))
        } else {
            sp_normalize(s, i + 1, acc.push('\n'))
        }
    } else if is_other_newline(s[i]) {
        sp_normalize(s, i + 1, acc.push('\n'))
    } else {
        sp_normalize(s, i + 1, acc.push(s[i]))
    }
}

/// `s` with every newline turned into `\n`.
pub open spec fn normalize_newlines(s: Seq<char>) -> Seq<char> {
    sp_normalize(s, 0, Seq::empty())
}

/// No newline but `\n` in `t`.
pub open spec fn lf_only(t: Seq<char>) -> bool {
    forall|k: int| 0 <= k < t.len() ==> #[trigger] t[k] != '\r' && !is_other_newline(t[k])
}

/// Normalization leaves no other newline than `\n`.
pub proof fn lemma_normalize_only_lf(s: Seq<char>, i: int, acc: Seq<char>)
    requires
        lf_only(acc),
    ensures
        lf_only(sp_normalize(s, i, acc)),
    decreases s.len() - i,
{
    if 0 <= i < s.len() {
        let c = if s[i] == '\r' || is_other_newline(s[i]) {
            '\n'
        } else {
            s[i]
        };
        assert(lf_only(acc.push(c))) by {
            assert forall|k: int| 0 <= k < acc.push(c).len() implies #[trigger] acc.push(c)[k]
                != '\r' && !is_other_newline(acc.push(c)[k]) by {
                if k < acc.len() {
                    assert(acc.push(c)[k] == acc[k]);
                }
            }
        }
        if s[i] == '\r' {
            if i + 1 < s.len() && s[i + 1] == '\n' {
                lemma_normalize_only_lf(s, i + 2, acc.push(c));
            } else {
                lemma_normalize_only_lf(s, i + 1, acc.push(c));
            }
        } else {
            lemma_normalize_only_lf(s, i + 1, acc.push(c));
        }
    }
}

/// Normalization never makes the text longer in bytes.
pub proof fn lemma_normalize_bytes(s: Seq<char>, i: int, acc: Seq<char>)
    requires
        0 <= i <= s.len(),
    ensures
        bytes_len(sp_normalize(s, i, acc)) <= bytes_len(acc) + bytes_len(s.skip(i)),
    decreases s.len() - i,
{
    if i < s.len() {
        assert(s.skip(i) =~= seq![s[i]] + s.skip(i + 1));
        lemma_bytes_len_concat(seq![s[i]], s.skip(i + 1));
        assert(seq![s[i]].drop_last() =~= Seq::<char>::empty());
        if s[i] == '\r' {
            if i + 1 < s.len() && s[i + 1] == '\n' {
                assert(s.skip(i + 1) =~= seq![s[i + 1]] + s.skip(i + 2));
                lemma_bytes_len_concat(seq![s[i + 1]], s.skip(i + 2));
                assert(seq![s[i + 1]].drop_last() =~= Seq::<char>::empty());
                lemma_normalize_bytes(s, i + 2, acc.push('\n'));
            } else {
                lemma_normalize_bytes(s, i + 1, acc.push('\n'));
            }
            lemma_bytes_len_push(acc, '\n');
        } else if is_other_newline(s[i]) {
            lemma_normalize_bytes(s, i + 1, acc.push('\n'));
            lemma_bytes_len_push(acc, '\n');
        } else {
            lemma_normalize_bytes(s, i + 1, acc.push(s[i]));
            lemma_bytes_len_push(acc, s[i]);
        }
    } else {
        assert(s.skip(i) =~= Seq::<char>::empty());
    }
}

/// Newline normalization: every newline (`\r\n`, `\r`, form feed, vertical
/// tab, NEL, LS, PS) becomes `\n`.
pub fn normalize(s: &Vec<char>) -> (r: Vec<char>)
    ensures
        r@ == normalize_newlines(s@),
{
    let mut r: Vec<char> = Vec::new();
    let mut i: usize = 0;
    while i < s.len()
        invariant
            i <= s.len(),
            sp_normalize(s@, i as int, r@) == normalize_newlines(s@),
        decreases s.len() - i,
    {
        let c = s[i];
        if c == '\r' {
            r.push('\n');
            if i + 1 < s.len() && s[i + 1] == '\n' {
                i = i + 2;
            } else {
                i = i + 1;
            }
        } else if c == '\x0C' || c == '\x0B' || c == '\u{0085}' || c == '\u{2028}' || c
            == '\u{2029}' {
            r.push('\n');
            i = i + 1;
        } else {
            r.push(c);
            i = i + 1;
        }
    }
    r
}

// ----- dedentation -----

/// Why a multi-line string is malformed.
pub enum MlError {
    /// the opening delimiter is not followed by a newline
    NoOpeningNewline,
    /// the closing delimiter has more than whitespace before it on its line
    ClosingNotOnOwnLine,
    /// a line does not start with the indentation of the closing line:
    /// byte offset of the line in the content and length of its whitespace
    InsufficientIndent(nat, nat),
}

/// The index of the last `\n` before index `i`.
pub open spec fn last_lf(n: Seq<char>, i: int) -> Option<int>
    decreases i,
{
    if i <= 0 || i > n.len() {
        None
    } else if n[i - 1] == '\n' {
        Some(i - 1)
    } else {
        last_lf(n, i - 1)
    }
}

/// Dedents the lines of `c` from index `i` (whose byte offset is `off`),
/// appending them to `acc`: lines of whitespace only become empty, others
/// lose the prefix `ind`, and a line without that prefix is an error.
pub open spec fn sp_dedent_lines(c: Seq<char>, ind: Seq<char>, i: int, off: nat, acc: Seq<char>) -> Result<Seq<char>, MlError>
    decreases c.len() - i,
{
    if i < 0 || i > c.len() {
        Ok(acc)
    } else {
        proof {
            lemma_run_bounds(c, i, Class::NotLf);
        }
        let j = run(c, i, Class::NotLf);
        let w = run(c, i, Class::Ws);
        let line = c.subrange(i, j);
        let kept = if w >= j {
            Ok(Seq::<char>::empty())
        } else if j - i >= ind.len() && c.subrange(i, i + ind.len()) == ind {
            Ok(c.subrange(i + ind.len(), j))
        } else {
            Err(MlError::InsufficientIndent(1 + off, bytes_len(c.subrange(i, w))))
        };
        match kept {
            Err(e) => Err(e),
            Ok(t) => if j >= c.len() {
                Ok(acc + t)
            } else {
                sp_dedent_lines(c, ind, j + 1, off + bytes_len(line) + 1, (acc + t).push('\n'))
            },
        }
    }
}

/// Dedents a multi-line string: its newlines are normalized, the first line
/// (after the opening delimiter) must be empty, and the last line holds the
/// indentation that the other lines lose.
#[verifier::opaque]
pub open spec fn sp_dedent(s: Seq<char>) -> Result<Seq<char>, MlError> {
    let n = normalize_newlines(s);
    match last_lf(n, n.len() as int) {
        None => Err(MlError::NoOpeningNewline),
        Some(l) => {
            let indent = n.skip(l + 1);
            if run(n, l + 1, Class::Ws) < n.len() {
                Err(MlError::ClosingNotOnOwnLine)
            } else if l == 0 {
                Ok(Seq::empty())
            } else if n[0] != '\n' {
                Err(MlError::NoOpeningNewline)
            } else {
                sp_dedent_lines(n.subrange(1, l), indent, 0, 0, Seq::empty())
            }
        },
    }
}

proof fn lemma_dedent_lines_bytes(c: Seq<char>, ind: Seq<char>, i: int, off: nat, acc: Seq<char>)
    requires
        0 <= i <= c.len(),
    ensures
        sp_dedent_lines(c, ind, i, off, acc) matches Ok(t) ==> bytes_len(t) <= bytes_len(acc)
            + bytes_len(c.skip(i)),
    decreases c.len() - i,
{
    lemma_run_bounds(c, i, Class::NotLf);
    let j = run(c, i, Class::NotLf);
    let w = run(c, i, Class::Ws);
    let line = c.subrange(i, j);
    lemma_bytes_len_subrange(c, i, c.len() as int);
    assert(c.skip(i) =~= c.subrange(i, c.len() as int));
    lemma_bytes_len_subrange(c, i, j);
    let kept = if w >= j {
        Ok(Seq::<char>::empty())
    } else if j - i >= ind.len() && c.subrange(i, i + ind.len()) == ind {
        Ok(c.subrange(i + ind.len(), j))
    } else {
        Err(MlError::InsufficientIndent(1 + off, bytes_len(c.subrange(i, w))))
    };
    match kept {
        Err(e) => {},
        Ok(t) => {
            if j - i >= ind.len() && w < j {
                lemma_bytes_len_subrange(c, i + ind.len(), j);
                lemma_byte_at_mono(c, i, i + ind.len());
            }
            assert(bytes_len(t) <= bytes_len(line));
            lemma_bytes_len_concat(acc, t);
            lemma_byte_at_mono(c, j, c.len() as int);
            if j < c.len() {
                lemma_run_stop(c, i, Class::NotLf);
                lemma_bytes_len_take_step(c, j);
                lemma_bytes_len_push(acc + t, '\n');
                lemma_bytes_len_subrange(c, j + 1, c.len() as int);
                assert(c.skip(j + 1) =~= c.subrange(j + 1, c.len() as int));
                lemma_dedent_lines_bytes(c, ind, j + 1, off + bytes_len(line) + 1, (acc + t).push('\n'));
            }
        },
    }
}

proof fn lemma_last_lf_bounds(n: Seq<char>, i: int)
    ensures
        last_lf(n, i) matches Some(l) ==> 0 <= l < i && i <= n.len(),
    decreases i,
{
    if 0 < i <= n.len() && n[i - 1] != '\n' {
        lemma_last_lf_bounds(n, i - 1);
    }
}

/// Dedenting never makes the text longer in bytes.
proof fn lemma_dedent_bytes(s: Seq<char>)
    ensures
        sp_dedent(s) matches Ok(t) ==> bytes_len(t) <= bytes_len(s),
{
    reveal(sp_dedent);
    let n = normalize_newlines(s);
    lemma_normalize_bytes(s, 0, Seq::empty());
    assert(s.skip(0) =~= s);
    lemma_last_lf_bounds(n, n.len() as int);
    match last_lf(n, n.len() as int) {
        None => {},
        Some(l) => {
            if 0 < l < n.len() && n[0] == '\n' && run(n, l + 1, Class::Ws) >= n.len() {
                let c = n.subrange(1, l);
                lemma_dedent_lines_bytes(c, n.skip(l + 1), 0, 0, Seq::empty());
                assert(c.skip(0) =~= c);
                lemma_bytes_len_range_le(n, 1, l);
            }
        },
    }
}

fn copy_range(v: &Vec<char>, a: usize, b: usize) -> (r: Vec<char>)
    requires
        a <= b <= v.len(),
    ensures
        r@ == v@.subrange(a as int, b as int),
{
    let mut r: Vec<char> = Vec::new();
    let mut i = a;
    while i < b
        invariant
            a <= i <= b <= v.len(),
            r@ == v@.subrange(a as int, i as int),
        decreases b - i,
    {
        r.push(v[i]);
        i = i + 1;
        assert(r@ =~= v@.subrange(a as int, i as int));
    }
    r
}

/// Byte length of `v[a..b]`.
fn bytes_of_range(v: &Vec<char>, a: usize, b: usize) -> (r: usize)
    requires
        a <= b <= v.len(),
        bytes_len(v@) <= usize::MAX,
    ensures
        r == bytes_len(v@.subrange(a as int, b as int)),
{
    let mut r: usize = 0;
    let mut i = a;
    proof {
        assert(v@.subrange(a as int, a as int) =~= Seq::<char>::empty());
    }
    while i < b
        invariant
            a <= i <= b <= v.len(),
            bytes_len(v@) <= usize::MAX,
            r == bytes_len(v@.subrange(a as int, i as int)),
        decreases b - i,
    {
        proof {
            lemma_bytes_len_subrange(v@, a as int, i + 1);
            lemma_bytes_len_subrange(v@, a as int, i as int);
            lemma_bytes_len_take_step(v@, i as int);
            lemma_byte_at_mono(v@, i + 1, v.len() as int);
            lemma_byte_at_mono(v@, a as int, i as int);
            assert(v@.take(v.len() as int) =~= v@);
        }
        r = r + char_len_utf8(v[i]);
        i = i + 1;
    }
    r
}

pub proof fn lemma_run_le(s: Seq<char>, p: int, k: Class, j: int)
    requires
        0 <= p <= j <= s.len(),
        j < s.len() ==> !in_class(k, s[j]),
    ensures
        run(s, p, k) <= j,
    decreases s.len() - p,
{
    if p < j && in_class(k, s[p]) {
        lemma_run_le(s, p + 1, k, j);
    }
}

/// Whether `v[i..]` starts with `w`.
fn same_range(v: &Vec<char>, i: usize, w: &Vec<char>) -> (r: bool)
    requires
        i + w.len() <= v.len(),
    ensures
        r == (v@.subrange(i as int, i + w.len()) == w@),
{
    let mut k: usize = 0;
    while k < w.len()
        invariant
            k <= w.len(),
            i + w.len() <= v.len(),
            forall|m: int| 0 <= m < k ==> v@[i + m] == w@[m],
        decreases w.len() - k,
    {
        if v[i + k] != w[k] {
            proof {
                assert(v@.subrange(i as int, i + w.len())[k as int] != w@[k as int]);
            }
            return false;
        }
        k = k + 1;
    }
    assert(v@.subrange(i as int, i + w.len()) =~= w@);
    true
}

/// Where a run stops inside the text, the character there is not of its class.
pub proof fn lemma_run_stop(s: Seq<char>, p: int, k: Class)
    requires
        0 <= p <= s.len(),
    ensures
        run(s, p, k) < s.len() ==> !in_class(k, s[run(s, p, k)]),
    decreases s.len() - p,
{
    if p < s.len() && in_class(k, s[p]) {
        lemma_run_stop(s, p + 1, k);
    }
}

/// Dedents the lines of `c` (see [`sp_dedent_lines`]).
#[verifier::rlimit(40)]
fn dedent_lines(c: &Vec<char>, ind: &Vec<char>) -> (r: Result<Vec<char>, (usize, usize)>)
    requires
        bytes_len(c@) + 1 <= usize::MAX,
    ensures
        match (r, sp_dedent_lines(c@, ind@, 0, 0, Seq::empty())) {
            (Ok(v), Ok(w)) => v@ == w,
            (Err((o, l)), Err(MlError::InsufficientIndent(o2, l2))) => o == o2 && l == l2 && o + l
                <= bytes_len(c@) + 1,
            _ => false,
        },
{
    let mut acc: Vec<char> = Vec::new();
    let mut i: usize = 0;
    let mut off: usize = 0;
    proof {
        assert(c@.take(0) =~= Seq::<char>::empty());
    }
    loop
        invariant
            i <= c.len(),
            off == byte_at(c@, i as int),
            bytes_len(c@) + 1 <= usize::MAX,
            sp_dedent_lines(c@, ind@, i as int, off as nat, acc@) == sp_dedent_lines(
                c@,
                ind@,
                0,
                0,
                Seq::empty(),
            ),
        decreases c.len() - i,
    {
        let j = run_of(c, i, Class::NotLf);
        let w = run_of(c, i, Class::Ws);
        proof {
            assert(c@.take(c.len() as int) =~= c@);
            lemma_byte_at_mono(c@, i as int, j as int);
            lemma_byte_at_mono(c@, j as int, c.len() as int);
            lemma_bytes_len_subrange(c@, i as int, j as int);
        }
        if w >= j {
        } else if j - i >= ind.len() && same_range(c, i, ind) {
            let ghost acc0 = acc@;
            let mut k = i + ind.len();
            while k < j
                invariant
                    i + ind.len() <= k <= j <= c.len(),
                    acc@ == acc0 + c@.subrange(i + ind.len(), k as int),
                decreases j - k,
            {
                acc.push(c[k]);
                k = k + 1;
                assert(acc@ =~= acc0 + c@.subrange(i + ind.len(), k as int));
            }
        } else {
            let len = bytes_of_range(c, i, w);
            proof {
                if w > j {
                    lemma_run_le(c@, i as int, Class::Ws, j as int);
                }
                lemma_bytes_len_subrange(c@, i as int, w as int);
                lemma_byte_at_mono(c@, w as int, c.len() as int);
            }
            return Err((1 + off, len));
        }
        if j >= c.len() {
            return Ok(acc);
        }
        proof {
            lemma_run_stop(c@, i as int, Class::NotLf);
            lemma_bytes_len_take_step(c@, j as int);
            lemma_byte_at_mono(c@, j + 1, c.len() as int);
        }
        acc.push('\n');
        off = off + bytes_of_range(c, i, j) + 1;
        i = j + 1;
    }
}

} // verus!

verus! {

/// Why a multi-line string is malformed (with byte offsets in its content).
#[derive(Copy, Clone, Debug, PartialEq, Eq)]
pub enum DedentError {
    NoOpeningNewline,
    ClosingNotOnOwnLine,
    InsufficientIndent { offset: usize, length: usize },
}

/// The executable form of a dedentation error agrees with the mathematical one.
pub open spec fn dedent_error_is(e: DedentError, m: MlError) -> bool {
    match (e, m) {
        (DedentError::NoOpeningNewline, MlError::NoOpeningNewline) => true,
        (DedentError::ClosingNotOnOwnLine, MlError::ClosingNotOnOwnLine) => true,
        (
            DedentError::InsufficientIndent { offset, length },
            MlError::InsufficientIndent(o, l),
        ) => offset == o && length == l,
        _ => false,
    }
}

/// Dedents a multi-line string (see [`sp_dedent`]).
pub fn dedent(s: &Vec<char>) -> (r: Result<Vec<char>, DedentError>)
    requires
        bytes_len(s@) <= usize::MAX,
    ensures
        match (r, sp_dedent(s@)) {
            (Ok(v), Ok(w)) => v@ == w,
            (Err(e), Err(m)) => dedent_error_is(e, m),
            _ => false,
        },
        r matches Err(DedentError::InsufficientIndent { offset, length }) ==> offset + length
            <= bytes_len(s@),
        r matches Ok(v) ==> bytes_len(v@) <= bytes_len(s@),
{
    proof {
        reveal(sp_dedent);
        lemma_dedent_bytes(s@);
    }
    let n = normalize(s);
    proof {
        lemma_normalize_bytes(s@, 0, Seq::empty());
        assert(s@.skip(0) =~= s@);
        assert(Seq::<char>::empty().len() == 0);
    }
    let mut k = n.len();
    while k > 0 && n[k - 1] != '\n'
        invariant
            k <= n.len(),
            last_lf(n@, k as int) == last_lf(n@, n.len() as int),
        decreases k,
    {
        k = k - 1;
    }
    if k == 0 {
        return Err(DedentError::NoOpeningNewline);
    }
    let l = k - 1;
    if run_of(&n, l + 1, Class::Ws) < n.len() {
        return Err(DedentError::ClosingNotOnOwnLine);
    }
    if l == 0 {
        return Ok(Vec::new());
    }
    if n[0] != '\n' {
        return Err(DedentError::NoOpeningNewline);
    }
    let c = copy_range(&n, 1, l);
    let ind = copy_range(&n, l + 1, n.len());
    proof {
        assert(ind@ =~= n@.skip(l + 1));
        lemma_bytes_len_subrange(n@, 1, l as int);
        lemma_byte_at_mono(n@, l as int, n.len() as int);
        lemma_bytes_len_take_step(n@, 0);
        assert(n@.take(0) =~= Seq::<char>::empty());
        assert(n@.take(n.len() as int) =~= n@);
    }
    match dedent_lines(&c, &ind) {
        Ok(v) => Ok(v),
        Err((o, len)) => Err(DedentError::InsufficientIndent { offset: o, length: len }),
    }
}

// ----- escapes -----

/// The character that a one-letter escape (`\n`, `\t`, ...) stands for.
pub open spec fn simple_escape(d: char) -> Option<char> {
    if d == '"' {
        Some('"')
    } else if d == '\\' {
        Some('\\')
    } else if d == 'b' {
        Some('\u{0008}')
    } else if d == 'f' {
        Some('\u{000C}')
    } else if d == 'n' {
        Some('\n')
    } else if d == 'r' {
        Some('\r')
    } else if d == 't' {
        Some('\t')
    } else if d == 's' {
        Some(' ')
    } else {
        None
    }
}

fn simple_escape_p(d: char) -> (r: Option<char>)
    ensures
        r == simple_escape(d),
{
    if d == '"' {
        Some('"')
    } else if d == '\\' {
        Some('\\')
    } else if d == 'b' {
        Some('\u{0008}')
    } else if d == 'f' {
        Some('\u{000C}')
    } else if d == 'n' {
        Some('\n')
    } else if d == 'r' {
        Some('\r')
    } else if d == 't' {
        Some('\t')
    } else if d == 's' {
        Some(' ')
    } else {
        None
    }
}

/// The value of a hexadecimal digit.
pub open spec fn hex_val(c: char) -> u32 {
    if '0' <= c && c <= '9' {
        (c as u32 - '0' as u32) as u32
    } else if 'a' <= c && c <= 'f' {
        (c as u32 - 'a' as u32 + 10) as u32
    } else {
        (c as u32 - 'A' as u32 + 10) as u32
    }
}

fn hex_val_p(c: char) -> (r: u32)
    requires
        is_digit(16, c),
    ensures
        r == hex_val(c),
        r < 16,
{
    let v = c as u32;
    if '0' <= c && c <= '9' {
        v - 48
    } else if 'a' <= c && c <= 'f' {
        v - 97 + 10
    } else {
        v - 65 + 10
    }
}

/// A Unicode scalar value: the code of some `char`.
pub open spec fn is_scalar_value(v: u32) -> bool {
    v <= 0xD7FF || (0xE000 <= v && v <= 0x10FFFF)
}

/// `char::from_u32`: the character with code `v`, where `v` is a Unicode
/// scalar value.
#[verifier::external_body]
pub(crate) fn char_from_u32(v: u32) -> (r: Option<char>)
    ensures
        r is Some <==> is_scalar_value(v),
        r matches Some(c) ==> c as u32 == v,
{
    char::from_u32(v)
}

/// The hexadecimal code of a `\u{..}` escape from index `k`, after `count`
/// digits worth `val`: the code and the index after `}`; or the index where
/// the escape went wrong, and how.
pub open spec fn sp_uhex(s: Seq<char>, k: int, count: nat, val: u32) -> Result<(u32, int), (int, EscapeError)>
    decreases s.len() - k,
{
    if k < 0 || k >= s.len() {
        Err((k, EscapeError::Unclosed))
    } else if s[k] == '}' {
        if count == 0 {
            Err((k, EscapeError::Empty))
        } else {
            Ok((val, k + 1))
        }
    } else if is_digit(16, s[k]) {
        if count >= 6 {
            Err((k, EscapeError::TooLong))
        } else {
            sp_uhex(s, k + 1, count + 1, (val * 16 + hex_val(s[k])) as u32)
        }
    } else {
        Err((k, EscapeError::InvalidHexChar(s[k])))
    }
}

/// Processes the escapes of `s` from index `i`, appending to `acc`; or the
/// index of the character an error is reported at, and the error: the
/// invalid character for an unknown escape or a bad digit, the backslash
/// for the others.
pub open spec fn sp_escapes(s: Seq<char>, i: int, acc: Seq<char>) -> Result<Seq<char>, (int, EscapeError)>
    decreases s.len() - i,
{
    if i < 0 || i >= s.len() {
        Ok(acc)
    } else if s[i] != '\\' {
        sp_escapes(s, i + 1, acc.push(s[i]))
    } else if i + 1 >= s.len() {
        Err((i, EscapeError::TrailingBackslash))
    } else {
        let d = s[i + 1];
        match simple_escape(d) {
            Some(e) => sp_escapes(s, i + 2, acc.push(e)),
            None => if d == 'u' {
                if i + 2 >= s.len() || s[i + 2] != '{' {
                    Err((i, EscapeError::ExpectedBrace))
                } else {
                    match sp_uhex(s, i + 3, 0, 0) {
                        Err((k, e)) => if e is InvalidHexChar {
                            Err((k, e))
                        } else {
                            Err((i, e))
                        },
                        Ok((v, k)) => if !is_scalar_value(v) {
                            Err((i, EscapeError::InvalidCodePoint(v)))
                        } else if advances(s, i, k) {
                            sp_escapes(s, k, acc.push(v as char))
                        } else {
                            Ok(acc)
                        },
                    }
                }
            } else if is_ws_char(d) || d == '\n' {
                proof {
                    lemma_run_bounds(s, i + 2, Class::WsLf);
                }
                sp_escapes(s, run(s, i + 2, Class::WsLf), acc.push(' '))
            } else {
                Err((i + 1, EscapeError::InvalidEscapeChar(d)))
            },
        }
    }
}

/// The result of processing the escapes of a whole string: the text, or the
/// byte offset in `s` where an error is reported, and the error.
#[verifier::opaque]
pub open spec fn process_escapes(s: Seq<char>) -> Result<Seq<char>, (nat, EscapeError)> {
    match sp_escapes(s, 0, Seq::empty()) {
        Ok(t) => Ok(t),
        Err((k, e)) => Err((byte_at(s, k), e)),
    }
}

fn uhex(s: &Vec<char>, k0: usize) -> (r: Result<(u32, usize), (usize, EscapeError)>)
    requires
        k0 <= s.len(),
    ensures
        match (r, sp_uhex(s@, k0 as int, 0, 0)) {
            (Ok((v, k)), Ok((v2, k2))) => v == v2 && k == k2 && k0 < k <= s.len(),
            (Err((k, e)), Err((k2, e2))) => k == k2 && e == e2 && k <= s.len(),
            _ => false,
        },
{
    let mut k = k0;
    let mut count: usize = 0;
    let mut val: u32 = 0;
    while k < s.len() && s[k] != '}' && digit_p(16, s[k]) && count < 6
        invariant
            k0 <= k <= s.len(),
            count == k - k0,
            count <= 6,
            val < pow16(count as nat),
            sp_uhex(s@, k as int, count as nat, val) == sp_uhex(s@, k0 as int, 0, 0),
        decreases s.len() - k,
    {
        let d = hex_val_p(s[k]);
        proof {
            assert(val * 16 + d < pow16(count as nat) * 16) by (nonlinear_arith)
                requires
                    val < pow16(count as nat),
                    d < 16,
            ;
            assert(pow16((count + 1) as nat) == pow16(count as nat) * 16);
            assert(pow16(count as nat) <= 0x1000000) by {
                lemma_pow16_le(count as nat);
            }
        }
        val = val * 16 + d;
        count = count + 1;
        k = k + 1;
    }
    if k >= s.len() {
        return Err((k, EscapeError::Unclosed));
    }
    if s[k] == '}' {
        if count == 0 {
            return Err((k, EscapeError::Empty));
        }
        return Ok((val, k + 1));
    }
    if digit_p(16, s[k]) {
        return Err((k, EscapeError::TooLong));
    }
    Err((k, EscapeError::InvalidHexChar(s[k])))
}

pub open spec fn pow16(n: nat) -> nat
    decreases n,
{
    if n == 0 {
        1
    } else {
        16 * pow16((n - 1) as nat)
    }
}

proof fn lemma_pow16_le(n: nat)
    requires
        n <= 6,
    ensures
        pow16(n) <= 0x1000000,
{
    reveal_with_fuel(pow16, 7);
}

/// Processes the escape sequences of a string (see [`process_escapes`]).
pub fn escapes(s: &Vec<char>) -> (r: Result<Vec<char>, (usize, EscapeError)>)
    requires
        bytes_len(s@) <= usize::MAX,
    ensures
        match (r, process_escapes(s@)) {
            (Ok(v), Ok(w)) => v@ == w,
            (Err((o, e)), Err((o2, e2))) => o == o2 && e == e2,
            _ => false,
        },
{
    proof {
        reveal(process_escapes);
    }
    match escapes_at(s) {
        Ok(v) => Ok(v),
        Err((k, e)) => {
            proof {
                assert(s@.subrange(0, k as int) =~= s@.take(k as int));
            }
            Err((bytes_of_range(s, 0, k), e))
        },
    }
}

/// Processes the escape sequences of a string; an error comes with the index
/// of the character it is reported at.
fn escapes_at(s: &Vec<char>) -> (r: Result<Vec<char>, (usize, EscapeError)>)
    ensures
        match (r, sp_escapes(s@, 0, Seq::empty())) {
            (Ok(v), Ok(w)) => v@ == w,
            (Err((k, e)), Err((k2, e2))) => k == k2 && e == e2 && k <= s.len(),
            _ => false,
        },
{
    let mut acc: Vec<char> = Vec::new();
    let mut i: usize = 0;
    while i < s.len()
        invariant
            i <= s.len(),
            sp_escapes(s@, i as int, acc@) == sp_escapes(s@, 0, Seq::empty()),
        decreases s.len() - i,
    {
        let c = s[i];
        if c != '\\' {
            acc.push(c);
            i = i + 1;
            continue;
        }
        if i + 1 >= s.len() {
            return Err((i, EscapeError::TrailingBackslash));
        }
        let d = s[i + 1];
        match simple_escape_p(d) {
            Some(e) => {
                acc.push(e);
                i = i + 2;
            },
            None => {
                if d == 'u' {
                    if i + 2 >= s.len() || s[i + 2] != '{' {
                        return Err((i, EscapeError::ExpectedBrace));
                    }
                    match uhex(s, i + 3) {
                        Err((k, e)) => {
                            if let EscapeError::InvalidHexChar(_) = e {
                                return Err((k, e));
                            }
                            return Err((i, e));
                        },
                        Ok((v, k)) => {
                            match char_from_u32(v) {
                                None => {
                                    return Err((i, EscapeError::InvalidCodePoint(v)));
                                },
                                Some(ch) => {
                                    proof {
                                        vstd::utf8::char_u32_cast(ch, v);
                                    }
                                    acc.push(ch);
                                    i = k;
                                },
                            }
                        },
                    }
                } else if ws_char_p(d) || d == '\n' {
                    acc.push(' ');
                    i = run_of(s, i + 2, Class::WsLf);
                } else {
                    return Err((i + 1, EscapeError::InvalidEscapeChar(d)));
                }
            },
        }
    }
    Ok(acc)
}

} // verus!

verus! {

// ----- string literals -----

/// The executable result of a rule that produces text agrees with its
/// mathematical one, and the errors it appended are the ones the rule reports.
pub open spec fn str_agrees(
    r: Option<(Vec<char>, usize)>,
    sp: Option<(Seq<char>, int, Seq<ParseError>)>,
    before: Seq<ParseError>,
    after: Seq<ParseError>,
) -> bool {
    match (r, sp) {
        (Some((v, e)), Some((w, e2, es))) => v@ == w && e == e2 && after == before + es,
        (None, None) => after == before,
        _ => false,
    }
}

/// The number written by the hexadecimal digits `s[a..b]`.
pub open spec fn hex_num(s: Seq<char>, a: int, b: int) -> u32
    decreases b - a,
{
    if b <= a {
        0
    } else {
        (hex_num(s, a, b - 1) * 16 + hex_val(s[b - 1])) as u32
    }
}

/// The character that an escape (after its backslash, at `q`) stands for.
/// A `\u{..}` code that is no Unicode scalar value is reported and stands
/// for `\0`.
#[verifier::opaque]
pub open spec fn sp_esc_char(s: Seq<char>, q: int) -> Option<(char, int, Seq<ParseError>)> {
    if q < 0 || q >= s.len() {
        None
    } else {
        match simple_escape(s[q]) {
            Some(c) => Some((c, q + 1, Seq::empty())),
            None => if s[q] == 'u' && q + 1 < s.len() && s[q + 1] == '{' {
                let h0 = run(s, q + 2, Class::Hex);
                let h = if h0 > q + 8 {
                    q + 8
                } else {
                    h0
                };
                if h > q + 2 && h < s.len() && s[h] == '}' {
                    let v = hex_num(s, q + 2, h);
                    if is_scalar_value(v) {
                        Some((v as char, h + 1, Seq::empty()))
                    } else {
                        Some(
                            (
                                '\0',
                                h + 1,
                                seq![ParseError::CharOutOfRange { span: span_at(s, q + 1, h + 1) }],
                            ),
                        )
                    }
                } else {
                    None
                }
            } else {
                None
            },
        }
    }
}

proof fn lemma_hex_num_bound(s: Seq<char>, a: int, b: int)
    requires
        a <= b,
        b - a <= 6,
        forall|i: int| a <= i < b ==> is_digit(16, #[trigger] s[i]),
    ensures
        hex_num(s, a, b) < pow16((b - a) as nat),
    decreases b - a,
{
    if b > a {
        lemma_hex_num_bound(s, a, b - 1);
        let x = hex_num(s, a, b - 1);
        let d = hex_val(s[b - 1]);
        assert(d < 16);
        assert(pow16((b - a) as nat) == 16 * pow16((b - a - 1) as nat));
        assert(x * 16 + d < pow16((b - a) as nat)) by (nonlinear_arith)
            requires
                x < pow16((b - a - 1) as nat),
                d < 16,
                pow16((b - a) as nat) == 16 * pow16((b - a - 1) as nat),
        ;
        lemma_pow16_le((b - a) as nat);
    }
}

/// The tracker after what an escape could have been was expected at `q`.
pub open spec fn expect_escape_v(v: FurthestV, q: usize) -> FurthestV {
    let l = Label::InvalidEscapeChar;
    let v1 = expect_labelled_v(v, q, Token::Char('"'), l);
    let v2 = expect_labelled_v(v1, q, Token::Char('\\'), l);
    let v3 = expect_labelled_v(v2, q, Token::Char('b'), l);
    let v4 = expect_labelled_v(v3, q, Token::Char('f'), l);
    let v5 = expect_labelled_v(v4, q, Token::Char('n'), l);
    let v6 = expect_labelled_v(v5, q, Token::Char('r'), l);
    let v7 = expect_labelled_v(v6, q, Token::Char('s'), l);
    let v8 = expect_labelled_v(v7, q, Token::Char('t'), l);
    let v9 = expect_labelled_v(v8, q, Token::Char('u'), l);
    expect_labelled_v(v9, q, Token::Kind(TokenKind::Newline), l)
}

/// Records what an escape could have been, where it is none.
fn expect_escape(f: &mut Furthest, q: usize)
    ensures
        final(f)@ == expect_escape_v(old(f)@, q),
{
    f.expect_labelled(q, Token::Char('"'), Label::InvalidEscapeChar);
    f.expect_labelled(q, Token::Char('\\'), Label::InvalidEscapeChar);
    f.expect_labelled(q, Token::Char('b'), Label::InvalidEscapeChar);
    f.expect_labelled(q, Token::Char('f'), Label::InvalidEscapeChar);
    f.expect_labelled(q, Token::Char('n'), Label::InvalidEscapeChar);
    f.expect_labelled(q, Token::Char('r'), Label::InvalidEscapeChar);
    f.expect_labelled(q, Token::Char('s'), Label::InvalidEscapeChar);
    f.expect_labelled(q, Token::Char('t'), Label::InvalidEscapeChar);
    f.expect_labelled(q, Token::Char('u'), Label::InvalidEscapeChar);
    f.expect_labelled(q, Token::Kind(TokenKind::Newline), Label::InvalidEscapeChar);
}

/// The failure tracker after an escape was read at `q` (after its
/// backslash): where no escape starts there, what could have come is
/// expected; in `\u{..}`, a missing digit or `}` is expected where the
/// hexadecimal digits end.
pub open spec fn esc_char_furthest(s: Seq<char>, q: usize, v: FurthestV) -> FurthestV {
    if q >= s.len() {
        expect_escape_v(v, q)
    } else if simple_escape(s[q as int]) is Some {
        v
    } else if !(s[q as int] == 'u' && q + 1 < s.len() && s[q + 1] == '{') {
        if s[q as int] == 'u' {
            expect_v(v, (q + 1) as usize, Token::Char('{'))
        } else {
            expect_escape_v(v, q)
        }
    } else {
        let h0 = run(s, q + 2, Class::Hex);
        let h = if h0 > q + 8 {
            q + 8
        } else {
            h0
        };
        if h > q + 2 && h < s.len() && s[h] == '}' {
            v
        } else if h == q + 2 {
            expect_labelled_v(v, h as usize, Token::Kind(TokenKind::HexDigit), Label::UnexpectedCharacter)
        } else if h - q < 8 {
            expect_labelled_v(
                expect_labelled_v(v, h as usize, Token::Char('}'), Label::UnexpectedCharacter),
                h as usize,
                Token::Kind(TokenKind::HexDigit),
                Label::UnexpectedCharacter,
            )
        } else {
            expect_v(v, h as usize, Token::Char('}'))
        }
    }
}

/// An escape after its backslash (see [`sp_esc_char`]).
pub fn esc_char(src: &Src, q: usize, errs: &mut Vec<ParseError>, f: &mut Furthest) -> (r: Option<(char, usize)>)
    requires
        src.wf(),
        q <= src.chars.len(),
    ensures
        match (r, sp_esc_char(src.chars@, q as int)) {
            (Some((c, e)), Some((c2, e2, es))) => c == c2 && e == e2 && final(errs)@ == old(errs)@
                + es && q < e <= src.chars.len(),
            (None, None) => final(errs)@ == old(errs)@,
            _ => false,
        },
        final(f)@ == esc_char_furthest(src.chars@, q, old(f)@),
{
    proof {
        reveal(sp_esc_char);
    }
    let s = &src.chars;
    if q >= s.len() {
        expect_escape(f, q);
        return None;
    }
    match simple_escape_p(s[q]) {
        Some(c) => {
            return Some((c, q + 1));
        },
        None => {},
    }
    if !(s[q] == 'u' && q + 1 < s.len() && s[q + 1] == '{') {
        if s[q] == 'u' {
            f.expect(q + 1, Token::Char('{'));
        } else {
            expect_escape(f, q);
        }
        return None;
    }
    let h0 = run_of(s, q + 2, Class::Hex);
    let h = if h0 - q > 8 {
        q + 8
    } else {
        h0
    };
    if !(h > q + 2 && h < s.len() && s[h] == '}') {
        if h == q + 2 {
            f.expect_labelled(h, Token::Kind(TokenKind::HexDigit), Label::UnexpectedCharacter);
        } else if h - q < 8 {
            f.expect_labelled(h, Token::Char('}'), Label::UnexpectedCharacter);
            f.expect_labelled(h, Token::Kind(TokenKind::HexDigit), Label::UnexpectedCharacter);
        } else {
            f.expect(h, Token::Char('}'));
        }
        return None;
    }
    let mut v: u32 = 0;
    let mut k = q + 2;
    proof {
        assert forall|i: int| q + 2 <= i < h implies is_digit(16, #[trigger] s@[i]) by {
            lemma_run_all(s@, q + 2, Class::Hex, i);
        }
    }
    while k < h
        invariant
            q + 2 <= k <= h <= q + 8,
            h < s.len(),
            v == hex_num(s@, q + 2, k as int),
            forall|i: int| q + 2 <= i < h ==> is_digit(16, #[trigger] s@[i]),
        decreases h - k,
    {
        proof {
            lemma_hex_num_bound(s@, q + 2, k as int);
            lemma_pow16_le((k - (q + 2)) as nat);
        }
        let d = hex_val_p(s[k]);
        v = v * 16 + d;
        k = k + 1;
    }
    match char_from_u32(v) {
        Some(c) => {
            proof {
                vstd::utf8::char_u32_cast(c, v);
            }
            Some((c, h + 1))
        },
        None => {
            errs.push(ParseError::CharOutOfRange { span: span_of(src, q + 1, h + 1) });
            Some(('\0', h + 1))
        },
    }
}

/// The rest of a quoted string from `q`: plain characters, escapes and
/// escaped whitespace (which stands for one space), up to the closing `"`.
pub open spec fn sp_esc_body(s: Seq<char>, q: int, acc: Seq<char>, errs: Seq<ParseError>) -> Option<(Seq<char>, int, Seq<ParseError>)>
    decreases s.len() - q,
{
    if q < 0 || q > s.len() {
        None
    } else if q < s.len() && s[q] != '"' && s[q] != '\\' {
        sp_esc_body(s, q + 1, acc.push(s[q]), errs)
    } else if q < s.len() && s[q] == '\\' && sp_esc_char(s, q + 1) is Some {
        let (c, e, es) = sp_esc_char(s, q + 1).unwrap();
        if advances(s, q, e) {
            sp_esc_body(s, e, acc.push(c), errs + es)
        } else {
            None
        }
    } else if q + 1 < s.len() && s[q] == '\\' && in_class(Class::WsNl, s[q + 1]) {
        proof {
            lemma_run_bounds(s, q + 1, Class::WsNl);
        }
        sp_esc_body(s, run(s, q + 1, Class::WsNl), acc.push(' '), errs)
    } else if q < s.len() && s[q] == '"' {
        Some((acc, q + 1, errs))
    } else {
        None
    }
}

/// A quoted string: `"`, not followed by two more, then its body.
#[verifier::opaque]
pub open spec fn sp_escaped_string(s: Seq<char>, p: int) -> Option<(Seq<char>, int, Seq<ParseError>)> {
    if 0 <= p < s.len() && s[p] == '"' && !(p + 2 < s.len() && s[p + 1] == '"' && s[p + 2]
        == '"') {
        sp_esc_body(s, p + 1, Seq::empty(), Seq::empty())
    } else {
        None
    }
}

/// The failure tracker after the rest, from `q`, of the quoted string
/// opened at `p` was read, given the errors `es` reported in it so far:
/// each escape changes it as [`esc_char_furthest`] says; where the string is
/// not closed, the text's end is reported as unclosed or a `"` is expected,
/// and the errors reported in the string are kept (see [`keep_before_v`]).
pub open spec fn esc_body_furthest(s: Seq<char>, p: usize, q: int, v: FurthestV, es: Seq<ParseError>) -> FurthestV
    decreases s.len() - q,
{
    if q < 0 || q > s.len() {
        v
    } else if q < s.len() && s[q] != '"' && s[q] != '\\' {
        esc_body_furthest(s, p, q + 1, v, es)
    } else {
        let w = if q < s.len() && s[q] == '\\' {
            esc_char_furthest(s, (q + 1) as usize, v)
        } else {
            v
        };
        if q < s.len() && s[q] == '\\' && sp_esc_char(s, q + 1) is Some {
            let (c, e, es2) = sp_esc_char(s, q + 1).unwrap();
            if advances(s, q, e) {
                esc_body_furthest(s, p, e, w, es + es2)
            } else {
                w
            }
        } else if q + 1 < s.len() && s[q] == '\\' && in_class(Class::WsNl, s[q + 1]) {
            proof {
                lemma_run_bounds(s, q + 1, Class::WsNl);
            }
            esc_body_furthest(s, p, run(s, q + 1, Class::WsNl), w, es)
        } else if q < s.len() && s[q] == '"' {
            w
        } else {
            let w2 = if q == s.len() {
                fail_with_v(
                    w,
                    q as usize,
                    ParseError::Unclosed {
                        delimiter: Delimiter::String,
                        opened_at: span_at(s, p as int, p + 1),
                        expected_at: span_at(s, q, q),
                    },
                )
            } else {
                expect_v(w, q as usize, Token::Char('"'))
            };
            keep_before_v(w2, p, es)
        }
    }
}

/// The failure tracker after a quoted string was read at `p` (see
/// [`esc_body_furthest`]); where none starts, `"` is expected.
pub open spec fn escaped_string_furthest(s: Seq<char>, p: usize, v: FurthestV) -> FurthestV {
    if p < s.len() && s[p as int] == '"' && !(p + 2 < s.len() && s[p + 1] == '"' && s[p + 2] == '"') {
        esc_body_furthest(s, p, p + 1, v, Seq::empty())
    } else {
        expect_v(v, p, Token::Char('"'))
    }
}

pub fn escaped_string(src: &Src, p: usize, errs: &mut Vec<ParseError>, f: &mut Furthest) -> (r: Option<(Vec<char>, usize)>)
    requires
        src.wf(),
        p <= src.chars.len(),
    ensures
        str_agrees(r, sp_escaped_string(src.chars@, p as int), old(errs)@, final(errs)@),
        r matches Some((v, e)) ==> p < e <= src.chars.len(),
        final(f)@ == escaped_string_furthest(src.chars@, p, old(f)@),
{
    proof {
        reveal(sp_escaped_string);
    }
    let s = &src.chars;
    if !(p < s.len() && s[p] == '"' && !(p + 2 < s.len() && s[p + 1] == '"' && s[p + 2] == '"')) {
        f.expect(p, Token::Char('"'));
        return None;
    }
    let ghost before = errs@;
    let mark = errs.len();
    let mut acc: Vec<char> = Vec::new();
    let mut q = p + 1;
    let ghost f0 = f@;
    proof {
        assert(errs@.skip(before.len() as int) =~= Seq::<ParseError>::empty());
        assert(errs@.take(before.len() as int) =~= before);
        assert(acc@ =~= Seq::<char>::empty());
    }
    loop
        invariant
            src.wf(),
            s == &src.chars,
            p < q <= s.len(),
            errs@.len() >= before.len(),
            before == old(errs)@,
            mark == before.len(),
            errs@.take(before.len() as int) == before,
            sp_esc_body(s@, q as int, acc@, errs@.skip(before.len() as int)) == sp_escaped_string(
                s@,
                p as int,
            ),
            p < s.len() && s[p as int] == '"' && !(p + 2 < s.len() && s[p + 1] == '"' && s[p + 2] == '"'),
            f0 == old(f)@,
            esc_body_furthest(s@, p, q as int, f@, errs@.skip(before.len() as int))
                == escaped_string_furthest(s@, p, f0),
        decreases s.len() - q,
    {
        let ghost fq = f@;
        let ghost esq = errs@.skip(before.len() as int);
        if q < s.len() && s[q] != '"' && s[q] != '\\' {
            acc.push(s[q]);
            q = q + 1;
            continue;
        }
        if q < s.len() && s[q] == '\\' {
            let ghost mid = errs@;
            match esc_char(src, q + 1, errs, f) {
                Some((c, e)) => {
                    proof {
                        let (_, _, es) = sp_esc_char(s@, q + 1)->0;
                        assert(errs@.skip(before.len() as int) =~= mid.skip(before.len() as int)
                            + es);
                        assert(errs@.take(before.len() as int) =~= before);
                    }
                    acc.push(c);
                    q = e;
                    continue;
                },
                None => {},
            }
            if q + 1 < s.len() && (ws_char_p(s[q + 1]) || newline_char_p(s[q + 1])) {
                acc.push(' ');
                q = run_of(s, q + 1, Class::WsNl);
                continue;
            }
        }
        if q < s.len() && s[q] == '"' {
            proof {
                assert(errs@ =~= before + errs@.skip(before.len() as int));
                assert(sp_esc_body(s@, q as int, acc@, errs@.skip(before.len() as int)) == Some((acc@, q + 1, errs@.skip(before.len() as int))));
            }
            return Some((acc, q + 1));
        }
        if q == s.len() {
            f.fail_with(
                q,
                ParseError::Unclosed {
                    delimiter: Delimiter::String,
                    opened_at: span_of(src, p, p + 1),
                    expected_at: span_of(src, q, q),
                },
            );
        } else {
            f.expect(q, Token::Char('"'));
        }
        assert(sp_esc_body(s@, q as int, acc@, errs@.skip(before.len() as int)) is None);
        f.keep_before(p, errs, mark);
        assert(errs@ =~= before);
        return None;
    }
}

} // verus!

verus! {

/// The first `r >= i` where `"` and `n` hashes close a raw string.
pub open spec fn sp_raw_close(s: Seq<char>, r: int, n: int) -> Option<int>
    decreases s.len() - r,
{
    if r < 0 || r >= s.len() {
        None
    } else if s[r] == '"' && run(s, r + 1, Class::Hash) >= r + 1 + n {
        Some(r)
    } else {
        sp_raw_close(s, r + 1, n)
    }
}

/// A raw string: `n >= 1` hashes, `"` (not followed by two more), the text
/// as it stands, `"` and `n` hashes.
#[verifier::opaque]
pub open spec fn sp_raw_string(s: Seq<char>, p: int) -> Option<(Seq<char>, int, Seq<ParseError>)> {
    if 0 <= p < s.len() && s[p] == '#' {
        let q = run(s, p, Class::Hash);
        let n = q - p;
        if q < s.len() && s[q] == '"' && !(q + 2 < s.len() && s[q + 1] == '"' && s[q + 2] == '"') {
            match sp_raw_close(s, q + 1, n) {
                Some(r) => Some((s.subrange(q + 1, r), r + 1 + n, Seq::empty())),
                None => None,
            }
        } else {
            None
        }
    } else {
        None
    }
}

/// The failure tracker after a raw string was read at `p`: a missing `#`
/// or `"` is expected; a raw string that the text ends inside is reported
/// as unclosed at the end of the text.
pub open spec fn raw_string_furthest(s: Seq<char>, p: usize, v: FurthestV) -> FurthestV {
    if !(p < s.len() && s[p as int] == '#') {
        expect_v(v, p, Token::Char('#'))
    } else {
        let q = run(s, p as int, Class::Hash);
        let n = q - p;
        if !(q < s.len() && s[q] == '"' && !(q + 2 < s.len() && s[q + 1] == '"' && s[q + 2] == '"')) {
            expect_v(expect_v(v, q as usize, Token::Char('"')), q as usize, Token::Char('#'))
        } else if sp_raw_close(s, q + 1, n) is Some {
            v
        } else {
            let b = span_at(s, q + 1, q + 1).0;
            fail_with_v(
                v,
                s.len() as usize,
                ParseError::Unclosed {
                    delimiter: Delimiter::RawString(n as usize),
                    opened_at: Span(sat_sub(b, (n + 2) as usize), b),
                    expected_at: span_at(s, s.len() as int, s.len() as int),
                },
            )
        }
    }
}

pub fn raw_string(src: &Src, p: usize, errs: &mut Vec<ParseError>, f: &mut Furthest) -> (r: Option<(Vec<char>, usize)>)
    requires
        src.wf(),
        p <= src.chars.len(),
    ensures
        str_agrees(r, sp_raw_string(src.chars@, p as int), old(errs)@, final(errs)@),
        r matches Some((v, e)) ==> p < e <= src.chars.len(),
        final(f)@ == raw_string_furthest(src.chars@, p, old(f)@),
{
    proof {
        reveal(sp_raw_string);
    }
    let s = &src.chars;
    if !(p < s.len() && s[p] == '#') {
        f.expect(p, Token::Char('#'));
        return None;
    }
    let q = run_of(s, p, Class::Hash);
    let n = q - p;
    if !(q < s.len() && s[q] == '"' && !(q + 2 < s.len() && s[q + 1] == '"' && s[q + 2] == '"')) {
        f.expect(q, Token::Char('"'));
        f.expect(q, Token::Char('#'));
        return None;
    }
    proof {
        lemma_run_bounds(s@, p as int, Class::Hash);
    }
    let ghost whole = sp_raw_string(s@, p as int);
    assert(whole == match sp_raw_close(s@, q + 1, n as int) {
        Some(r) => Some((s@.subrange(q + 1, r), r + 1 + n, Seq::<ParseError>::empty())),
        None => None,
    });
    let mut r = q + 1;
    let ghost f0 = f@;
    loop
        invariant
            src.wf(),
            s == &src.chars,
            q < r <= s.len(),
            f@ == f0,
            f0 == old(f)@,
            q == run(s@, p as int, Class::Hash),
            p < s.len() && s[p as int] == '#',
            q < s.len() && s[q as int] == '"' && !(q + 2 < s.len() && s[q + 1] == '"' && s[q + 2] == '"'),
            n == q - p,
            p < q,
            errs@ == old(errs)@,
            whole == sp_raw_string(s@, p as int),
            whole == match sp_raw_close(s@, q + 1, n as int) {
                Some(r) => Some((s@.subrange(q + 1, r), r + 1 + n, Seq::<ParseError>::empty())),
                None => None,
            },
            sp_raw_close(s@, r as int, n as int) == sp_raw_close(s@, q + 1, n as int),
        decreases s.len() - r,
    {
        if r >= s.len() {
            assert(sp_raw_close(s@, r as int, n as int) is None);
            assert(sp_raw_close(s@, q + 1, n as int) is None);
            f.fail_with(
                r,
                ParseError::Unclosed {
                    delimiter: Delimiter::RawString(n),
                    opened_at: span_of(src, q + 1, q + 1).before_start(n + 2),
                    expected_at: span_of(src, r, r),
                },
            );
            return None;
        }
        if s[r] == '"' {
            let h = run_of(s, r + 1, Class::Hash);
            if h - (r + 1) >= n {
                assert(sp_raw_close(s@, r as int, n as int) == Some(r as int));
                let v = copy_range(s, q + 1, r);
                assert(errs@ =~= old(errs)@ + Seq::<ParseError>::empty());
                return Some((v, r + 1 + n));
            }
        }
        r = r + 1;
    }
}

/// The first `r >= i` where `"""` starts.
pub open spec fn sp_triple_close(s: Seq<char>, r: int) -> Option<int>
    decreases s.len() - r,
{
    if r < 0 || r >= s.len() {
        None
    } else if r + 2 < s.len() && s[r] == '"' && s[r + 1] == '"' && s[r + 2] == '"' {
        Some(r)
    } else {
        sp_triple_close(s, r + 1)
    }
}

/// The first `r >= i` where `"""` and `n` hashes close a raw multi-line string.
pub open spec fn sp_triple_raw_close(s: Seq<char>, r: int, n: int) -> Option<int>
    decreases s.len() - r,
{
    if r < 0 || r >= s.len() {
        None
    } else if r + 2 < s.len() && s[r] == '"' && s[r + 1] == '"' && s[r + 2] == '"' && run(
        s,
        r + 3,
        Class::Hash,
    ) >= r + 3 + n {
        Some(r)
    } else {
        sp_triple_raw_close(s, r + 1, n)
    }
}

/// The error reported for a malformed multi-line string whose opening
/// delimiter starts at `p`, whose content starts at `c` and whose closing
/// delimiter spans `r..e`.
pub open spec fn ml_report(m: MlError, s: Seq<char>, p: int, c: int, r: int, e: int) -> ParseError {
    match m {
        MlError::NoOpeningNewline => ParseError::NoOpeningNewline { span: span_at(s, p, c) },
        MlError::ClosingNotOnOwnLine => ParseError::ClosingNotOnOwnLine { span: span_at(s, r, e) },
        MlError::InsufficientIndent(o, l) => ParseError::InsufficientIndent {
            span: Span((byte_at(s, c) + o) as usize, (byte_at(s, c) + o + l) as usize),
        },
    }
}

fn ml_report_of(d: DedentError, src: &Src, p: usize, c: usize, r: usize, e: usize, content: &Vec<char>) -> (rep: ParseError)
    requires
        src.wf(),
        p <= c <= r <= e <= src.chars.len(),
        content@ == src.chars@.subrange(c as int, r as int),
        d matches DedentError::InsufficientIndent { offset, length } ==> offset + length
            <= bytes_len(content@),
    ensures
        forall|m: MlError| dedent_error_is(d, m) ==> rep == ml_report(m, src.chars@, p as int, c as int, r as int, e as int),
{
    match d {
        DedentError::NoOpeningNewline => ParseError::NoOpeningNewline { span: span_of(src, p, c) },
        DedentError::ClosingNotOnOwnLine => ParseError::ClosingNotOnOwnLine {
            span: span_of(src, r, e),
        },
        DedentError::InsufficientIndent { offset, length } => {
            proof {
                lemma_bytes_len_subrange(src.chars@, c as int, r as int);
                lemma_byte_at_mono(src.chars@, r as int, src.chars.len() as int);
                crate::text::lemma_byte_at_full(src.chars@);
            }
            let start = src.offs[c] + offset;
            ParseError::InsufficientIndent { span: Span(start, start + length) }
        },
    }
}

/// A multi-line quoted string: `"""`, the text up to the next `"""`, and
/// that `"""`. The text is dedented, then its escapes are processed; where
/// either fails, the error is reported and the string is empty.
#[verifier::opaque]
pub open spec fn sp_ml_escaped(s: Seq<char>, p: int) -> Option<(Seq<char>, int, Seq<ParseError>)> {
    if 0 <= p && p + 2 < s.len() && s[p] == '"' && s[p + 1] == '"' && s[p + 2] == '"' {
        match sp_triple_close(s, p + 3) {
            None => None,
            Some(r) => {
                let content = s.subrange(p + 3, r);
                let e = r + 3;
                match sp_dedent(content) {
                    Err(m) => Some((Seq::empty(), e, seq![ml_report(m, s, p, p + 3, r, e)])),
                    Ok(d) => match process_escapes(d) {
                        Ok(v) => Some((v, e, Seq::empty())),
                        Err((_, x)) => Some(
                            (
                                Seq::empty(),
                                e,
                                seq![ParseError::InvalidEscape { span: span_at(s, p + 3, e), error: x }],
                            ),
                        ),
                    },
                }
            },
        }
    } else {
        None
    }
}

proof fn lemma_bytes_len_range_le(s: Seq<char>, a: int, b: int)
    requires
        0 <= a <= b <= s.len(),
    ensures
        bytes_len(s.subrange(a, b)) <= bytes_len(s),
{
    lemma_bytes_len_subrange(s, a, b);
    lemma_byte_at_mono(s, b, s.len() as int);
    lemma_byte_at_mono(s, 0, a);
    crate::text::lemma_byte_at_full(s);
}

/// The failure tracker after a multi-line string was read at `p`: a
/// missing `"` is expected; a string that the text ends inside is reported
/// as unclosed at the end of the text.
pub open spec fn ml_escaped_furthest(s: Seq<char>, p: usize, v: FurthestV) -> FurthestV {
    if !(p + 2 < s.len() && s[p as int] == '"' && s[p + 1] == '"' && s[p + 2] == '"') {
        expect_v(v, p, Token::Char('"'))
    } else if sp_triple_close(s, p + 3) is Some {
        v
    } else {
        fail_with_v(
            v,
            s.len() as usize,
            ParseError::Unclosed {
                delimiter: Delimiter::MultilineString,
                opened_at: span_at(s, p as int, p + 3),
                expected_at: span_at(s, s.len() as int, s.len() as int),
            },
        )
    }
}

pub fn ml_escaped(src: &Src, p: usize, errs: &mut Vec<ParseError>, f: &mut Furthest) -> (r: Option<(Vec<char>, usize)>)
    requires
        src.wf(),
        p <= src.chars.len(),
    ensures
        str_agrees(r, sp_ml_escaped(src.chars@, p as int), old(errs)@, final(errs)@),
        r matches Some((v, e)) ==> p < e <= src.chars.len(),
        final(f)@ == ml_escaped_furthest(src.chars@, p, old(f)@),
{
    proof {
        reveal(sp_ml_escaped);
    }
    let s = &src.chars;
    if !(p + 2 < s.len() && s[p] == '"' && s[p + 1] == '"' && s[p + 2] == '"') {
        f.expect(p, Token::Char('"'));
        return None;
    }
    let mut r = p + 3;
    loop
        invariant_except_break
            src.wf(),
            s == &src.chars,
            p + 3 <= r <= s.len(),
            f@ == old(f)@,
            p + 2 < s.len() && s[p as int] == '"' && s[p + 1] == '"' && s[p + 2] == '"',
            errs@ == old(errs)@,
            sp_triple_close(s@, r as int) == sp_triple_close(s@, p + 3),
        ensures
            p + 3 <= r,
            r + 2 < s.len(),
            sp_triple_close(s@, p + 3) == Some(r as int),
            f@ == old(f)@,
        decreases s.len() - r,
    {
        if r >= s.len() {
            assert(sp_triple_close(s@, r as int) is None);
            f.fail_with(
                r,
                ParseError::Unclosed {
                    delimiter: Delimiter::MultilineString,
                    opened_at: span_of(src, p, p + 3),
                    expected_at: span_of(src, r, r),
                },
            );
            proof {
                reveal(sp_ml_escaped);
            }
            assert(sp_triple_close(s@, p + 3) is None);
            return None;
        }
        if r + 2 < s.len() && s[r] == '"' && s[r + 1] == '"' && s[r + 2] == '"' {
            break;
        }
        r = r + 1;
    }
    let content = copy_range(s, p + 3, r);
    let e = r + 3;
    proof {
        lemma_bytes_len_range_le(s@, p + 3, r as int);
    }
    match dedent(&content) {
        Err(d) => {
            let rep = ml_report_of(d, src, p, p + 3, r, e, &content);
            errs.push(rep);
            assert(errs@ =~= old(errs)@ + seq![rep]);
            Some((Vec::new(), e))
        },
        Ok(d) => match escapes(&d) {
            Ok(v) => {
                assert(errs@ =~= old(errs)@ + Seq::<ParseError>::empty());
                Some((v, e))
            },
            Err((_, x)) => {
                let rep = ParseError::InvalidEscape { span: span_of(src, p + 3, e), error: x };
                errs.push(rep);
                assert(errs@ =~= old(errs)@ + seq![rep]);
                Some((Vec::new(), e))
            },
        },
    }
}

/// A multi-line raw string: `n >= 1` hashes, `"""`, the text up to the next
/// `"""` followed by `n` hashes, and those. The text is dedented (escapes
/// stay as they stand); where that fails, the error is reported and the
/// string is empty.
#[verifier::opaque]
pub open spec fn sp_ml_raw(s: Seq<char>, p: int) -> Option<(Seq<char>, int, Seq<ParseError>)> {
    if 0 <= p < s.len() && s[p] == '#' {
        let q = run(s, p, Class::Hash);
        let n = q - p;
        if q + 2 < s.len() && s[q] == '"' && s[q + 1] == '"' && s[q + 2] == '"' {
            match sp_triple_raw_close(s, q + 3, n) {
                None => None,
                Some(r) => {
                    let content = s.subrange(q + 3, r);
                    let e = r + 3 + n;
                    match sp_dedent(content) {
                        Err(m) => Some((Seq::empty(), e, seq![ml_report(m, s, p, q + 3, r, e)])),
                        Ok(d) => Some((d, e, Seq::empty())),
                    }
                },
            }
        } else {
            None
        }
    } else {
        None
    }
}

/// The failure tracker after a multi-line raw string was read at `p`: a
/// missing `#` or `"` is expected; a string that the text ends inside is
/// reported as unclosed at the end of the text.
pub open spec fn ml_raw_furthest(s: Seq<char>, p: usize, v: FurthestV) -> FurthestV {
    if !(p < s.len() && s[p as int] == '#') {
        expect_v(v, p, Token::Char('#'))
    } else {
        let q = run(s, p as int, Class::Hash);
        let n = q - p;
        if !(q + 2 < s.len() && s[q] == '"' && s[q + 1] == '"' && s[q + 2] == '"') {
            expect_v(expect_v(v, q as usize, Token::Char('"')), q as usize, Token::Char('#'))
        } else if sp_triple_raw_close(s, q + 3, n) is Some {
            v
        } else {
            let b = span_at(s, q + 3, q + 3).0;
            fail_with_v(
                v,
                s.len() as usize,
                ParseError::Unclosed {
                    delimiter: Delimiter::MultilineRawString(n as usize),
                    opened_at: Span(sat_sub(b, (n + 4) as usize), b),
                    expected_at: span_at(s, s.len() as int, s.len() as int),
                },
            )
        }
    }
}

pub fn ml_raw(src: &Src, p: usize, errs: &mut Vec<ParseError>, f: &mut Furthest) -> (r: Option<(Vec<char>, usize)>)
    requires
        src.wf(),
        p <= src.chars.len(),
    ensures
        str_agrees(r, sp_ml_raw(src.chars@, p as int), old(errs)@, final(errs)@),
        r matches Some((v, e)) ==> p < e <= src.chars.len(),
        final(f)@ == ml_raw_furthest(src.chars@, p, old(f)@),
{
    proof {
        reveal(sp_ml_raw);
    }
    let s = &src.chars;
    if !(p < s.len() && s[p] == '#') {
        f.expect(p, Token::Char('#'));
        return None;
    }
    let q = run_of(s, p, Class::Hash);
    let n = q - p;
    if !(q + 2 < s.len() && s[q] == '"' && s[q + 1] == '"' && s[q + 2] == '"') {
        f.expect(q, Token::Char('"'));
        f.expect(q, Token::Char('#'));
        return None;
    }
    proof {
        lemma_run_bounds(s@, p as int, Class::Hash);
    }
    let mut r = q + 3;
    loop
        invariant_except_break
            src.wf(),
            s == &src.chars,
            q + 3 <= r <= s.len(),
            f@ == old(f)@,
            p < s.len() && s[p as int] == '#',
            q + 2 < s.len() && s[q as int] == '"' && s[q + 1] == '"' && s[q + 2] == '"',
            p < q,
            n == q - p,
            q == run(s@, p as int, Class::Hash),
            errs@ == old(errs)@,
            sp_triple_raw_close(s@, r as int, n as int) == sp_triple_raw_close(s@, q + 3, n as int),
        ensures
            q + 3 <= r,
            r + 3 + n <= s.len(),
            sp_triple_raw_close(s@, q + 3, n as int) == Some(r as int),
            f@ == old(f)@,
        decreases s.len() - r,
    {
        if r >= s.len() {
            assert(sp_triple_raw_close(s@, r as int, n as int) is None);
            assert(sp_triple_raw_close(s@, q + 3, n as int) is None);
            f.fail_with(
                r,
                ParseError::Unclosed {
                    delimiter: Delimiter::MultilineRawString(n),
                    opened_at: span_of(src, q + 3, q + 3).before_start(n + 4),
                    expected_at: span_of(src, r, r),
                },
            );
            proof {
                reveal(sp_ml_raw);
            }
            return None;
        }
        if r + 2 < s.len() && s[r] == '"' && s[r + 1] == '"' && s[r + 2] == '"' {
            let h = run_of(s, r + 3, Class::Hash);
            if h - (r + 3) >= n {
                assert(sp_triple_raw_close(s@, r as int, n as int) == Some(r as int));
                break;
            }
        }
        r = r + 1;
    }
    let content = copy_range(s, q + 3, r);
    let e = r + 3 + n;
    proof {
        lemma_bytes_len_range_le(s@, q + 3, r as int);
        assert(sp_ml_raw(s@, p as int) == match sp_dedent(content@) {
            Err(m) => Some((Seq::<char>::empty(), e as int, seq![ml_report(m, s@, p as int, q + 3, r as int, e as int)])),
            Ok(d) => Some((d, e as int, Seq::<ParseError>::empty())),
        });
    }
    match dedent(&content) {
        Err(d) => {
            let rep = ml_report_of(d, src, p, q + 3, r, e, &content);
            errs.push(rep);
            assert(errs@ =~= old(errs)@ + seq![rep]);
            Some((Vec::new(), e))
        },
        Ok(d) => {
            assert(errs@ =~= old(errs)@ + Seq::<ParseError>::empty());
            Some((d, e))
        },
    }
}

/// A string in any of its forms; multi-line ones are tried first.
#[verifier::opaque]
pub open spec fn sp_string(s: Seq<char>, p: int) -> Option<(Seq<char>, int, Seq<ParseError>)> {
    match sp_ml_raw(s, p) {
        Some(x) => Some(x),
        None => match sp_raw_string(s, p) {
            Some(x) => Some(x),
            None => match sp_ml_escaped(s, p) {
                Some(x) => Some(x),
                None => sp_escaped_string(s, p),
            },
        },
    }
}

/// The failure tracker after a string was read at `p`: the forms are tried
/// in the order of [`sp_string`], each changing it as its own rule says,
/// until one matches.
pub open spec fn string_furthest(s: Seq<char>, p: usize, v: FurthestV) -> FurthestV {
    let v1 = ml_raw_furthest(s, p, v);
    if sp_ml_raw(s, p as int) is Some {
        v1
    } else {
        let v2 = raw_string_furthest(s, p, v1);
        if sp_raw_string(s, p as int) is Some {
            v2
        } else {
            let v3 = ml_escaped_furthest(s, p, v2);
            if sp_ml_escaped(s, p as int) is Some {
                v3
            } else {
                escaped_string_furthest(s, p, v3)
            }
        }
    }
}

pub fn string(src: &Src, p: usize, errs: &mut Vec<ParseError>, f: &mut Furthest) -> (r: Option<(Vec<char>, usize)>)
    requires
        src.wf(),
        p <= src.chars.len(),
    ensures
        str_agrees(r, sp_string(src.chars@, p as int), old(errs)@, final(errs)@),
        r matches Some((v, e)) ==> p < e <= src.chars.len(),
        final(f)@ == string_furthest(src.chars@, p, old(f)@),
{
    proof {
        reveal(sp_string);
    }
    match ml_raw(src, p, errs, f) {
        Some(x) => Some(x),
        None => match raw_string(src, p, errs, f) {
            Some(x) => Some(x),
            None => match ml_escaped(src, p, errs, f) {
                Some(x) => Some(x),
                None => escaped_string(src, p, errs, f),
            },
        },
    }
}

/// Plain characters of a quoted string are kept as they are.
proof fn lemma_esc_body_plain(s: Seq<char>, q: int, k: int, acc: Seq<char>, errs: Seq<ParseError>)
    requires
        0 <= q <= k <= s.len(),
        forall|i: int| q <= i < k ==> #[trigger] s[i] != '"' && s[i] != '\\',
    ensures
        sp_esc_body(s, q, acc, errs) == sp_esc_body(s, k, acc + s.subrange(q, k), errs),
    decreases k - q,
{
    if q < k {
        lemma_esc_body_plain(s, q + 1, k, acc.push(s[q]), errs);
        assert(acc.push(s[q]) + s.subrange(q + 1, k) =~= acc + s.subrange(q, k));
    } else {
        assert(acc + s.subrange(q, k) =~= acc);
    }
}

/// A one-letter escape in a quoted string stands for the character that
/// KDL gives it: `\n` a line feed, `\r` a carriage return, `\t` a tab
/// (U+0009), `\b` a backspace, `\f` a form feed, `\s` a space, `\"` and
/// `\\` themselves. The string `"` x `\`d y `"`, where x and y hold no
/// quote nor backslash, is x, that character, then y.
pub proof fn lemma_quoted_escape(s: Seq<char>, p: int, q: int, e: int, d: char, c: char)
    requires
        (d == 'n' && c == '\n') || (d == 'r' && c == '\r') || (d == 't' && c == '\t') || (d == 'b' && c
            == '\u{0008}') || (d == 'f' && c == '\u{000C}') || (d == 's' && c == ' ') || (d == '"' && c
            == '"') || (d == '\\' && c == '\\'),
        0 <= p < q,
        q + 1 < e < s.len(),
        s[p] == '"',
        s[q] == '\\',
        s[q + 1] == d,
        s[e] == '"',
        forall|i: int| (p < i < q || q + 1 < i < e) ==> #[trigger] s[i] != '"' && s[i] != '\\',
    ensures
        sp_escaped_string(s, p) == Some((s.subrange(p + 1, q).push(c) + s.subrange(q + 2, e), e + 1, Seq::<ParseError>::empty())),
{
    reveal(sp_escaped_string);
    reveal(sp_esc_char);
    let none = Seq::<ParseError>::empty();
    let empty = Seq::<char>::empty();
    lemma_esc_body_plain(s, p + 1, q, empty, none);
    let acc = empty + s.subrange(p + 1, q);
    assert(acc =~= s.subrange(p + 1, q));
    assert(sp_esc_char(s, q + 1) == Some((c, q + 2, none)));
    assert(none + none =~= none);
    assert(sp_esc_body(s, q, acc, none) == sp_esc_body(s, q + 2, acc.push(c), none));
    lemma_esc_body_plain(s, q + 2, e, acc.push(c), none);
    assert(sp_esc_body(s, e, acc.push(c) + s.subrange(q + 2, e), none) == Some((acc.push(c) + s.subrange(q + 2, e), e + 1, none)));
}

/// Characters other than a backslash are kept as they are.
proof fn lemma_escapes_plain(s: Seq<char>, i: int, k: int, acc: Seq<char>)
    requires
        0 <= i <= k <= s.len(),
        forall|j: int| i <= j < k ==> #[trigger] s[j] != '\\',
    ensures
        sp_escapes(s, i, acc) == sp_escapes(s, k, acc + s.subrange(i, k)),
    decreases k - i,
{
    if i < k {
        lemma_escapes_plain(s, i + 1, k, acc.push(s[i]));
        assert(acc.push(s[i]) + s.subrange(i + 1, k) =~= acc + s.subrange(i, k));
    } else {
        assert(acc + s.subrange(i, k) =~= acc);
    }
}

/// The escapes of a multi-line string are those of a quoted one: in a text
/// whose only escape is `\`d at `q`, d one of the letters above, the escape
/// gives the same character and the rest is kept.
pub proof fn lemma_text_escape(s: Seq<char>, q: int, d: char, c: char)
    requires
        (d == 'n' && c == '\n') || (d == 'r' && c == '\r') || (d == 't' && c == '\t') || (d == 'b' && c
            == '\u{0008}') || (d == 'f' && c == '\u{000C}') || (d == 's' && c == ' ') || (d == '"' && c
            == '"') || (d == '\\' && c == '\\'),
        0 <= q,
        q + 1 < s.len(),
        s[q] == '\\',
        s[q + 1] == d,
        forall|i: int| 0 <= i < s.len() && i != q && i != q + 1 ==> #[trigger] s[i] != '\\',
    ensures
        process_escapes(s) == Ok::<Seq<char>, (nat, EscapeError)>(s.subrange(0, q).push(c) + s.subrange(q + 2, s.len() as int)),
{
    reveal(process_escapes);
    let empty = Seq::<char>::empty();
    lemma_escapes_plain(s, 0, q, empty);
    let acc = empty + s.subrange(0, q);
    assert(acc =~= s.subrange(0, q));
    assert(sp_escapes(s, q, acc) == sp_escapes(s, q + 2, acc.push(c)));
    lemma_escapes_plain(s, q + 2, s.len() as int, acc.push(c));
}

/// In a multi-line string, a line that is not blank loses exactly the
/// indentation of the closing line and nothing more: a line at `i` made of
/// `ind` then `x`, where `x` holds a character that is no whitespace, gives
/// `x` whole, whitespace at its start beyond the indentation included; the
/// lines after it are dedented in turn.
pub proof fn lemma_dedent_line(c: Seq<char>, ind: Seq<char>, x: Seq<char>, i: int, off: nat, acc: Seq<char>)
    requires
        0 <= i,
        i + ind.len() + x.len() <= c.len(),
        c.subrange(i, i + ind.len()) == ind,
        c.subrange(i + ind.len(), i + ind.len() + x.len()) == x,
        forall|k: int| 0 <= k < ind.len() ==> #[trigger] ind[k] != '\n',
        forall|k: int| 0 <= k < x.len() ==> #[trigger] x[k] != '\n',
        exists|k: int| 0 <= k < x.len() && !is_ws_char(#[trigger] x[k]),
        i + ind.len() + x.len() == c.len() || c[i + ind.len() + x.len()] == '\n',
    ensures
        sp_dedent_lines(c, ind, i, off, acc) == if i + ind.len() + x.len() == c.len() {
            Ok::<Seq<char>, MlError>(acc + x)
        } else {
            sp_dedent_lines(
                c,
                ind,
                i + ind.len() + x.len() + 1,
                off + bytes_len(ind + x) + 1,
                (acc + x).push('\n'),
            )
        },
{
    let m = i + ind.len();
    let j = m + x.len();
    assert forall|t: int| i <= t < j implies in_class(Class::NotLf, #[trigger] c[t]) by {
        if t < m {
            assert(c[t] == c.subrange(i, m)[t - i]);
        } else {
            assert(c[t] == c.subrange(m, j)[t - m]);
        }
    }
    lemma_run_exact(c, i, Class::NotLf, j);
    let k = choose|k: int| 0 <= k < x.len() && !is_ws_char(#[trigger] x[k]);
    assert(c[m + k] == c.subrange(m, j)[k]);
    lemma_run_le(c, i, Class::Ws, m + k);
    assert(c.subrange(i, j) =~= ind + x);
}

/// `s` is kept as it is where its only newlines are `\n`.
proof fn lemma_normalize_lf_only(s: Seq<char>, i: int, acc: Seq<char>)
    requires
        0 <= i <= s.len(),
        lf_only(s),
    ensures
        sp_normalize(s, i, acc) == acc + s.subrange(i, s.len() as int),
    decreases s.len() - i,
{
    if i < s.len() {
        lemma_normalize_lf_only(s, i + 1, acc.push(s[i]));
        assert(acc.push(s[i]) + s.subrange(i + 1, s.len() as int) =~= acc + s.subrange(i, s.len() as int));
    } else {
        assert(acc + s.subrange(i, s.len() as int) =~= acc);
    }
}

/// The last `\n` before `i` is at `l` where none comes between.
proof fn lemma_last_lf_at(n: Seq<char>, i: int, l: int)
    requires
        0 <= l < i <= n.len(),
        n[l] == '\n',
        forall|k: int| l < k < i ==> #[trigger] n[k] != '\n',
    ensures
        last_lf(n, i) == Some(l),
    decreases i,
{
    if i - 1 > l {
        lemma_last_lf_at(n, i - 1, l);
    }
}

/// A multi-line string with one line, `ind` then `x`, closed on a line
/// that holds the whitespace `ind` alone, is `x`: whitespace beyond the
/// closing line's indentation stays.
pub proof fn lemma_dedent_one_line(ind: Seq<char>, x: Seq<char>)
    requires
        forall|k: int| 0 <= k < ind.len() ==> is_ws_char(#[trigger] ind[k]),
        lf_only(x),
        forall|k: int| 0 <= k < x.len() ==> #[trigger] x[k] != '\n',
        exists|k: int| 0 <= k < x.len() && !is_ws_char(#[trigger] x[k]),
    ensures
        sp_dedent(seq!['\n'] + ind + x + seq!['\n'] + ind) == Ok::<Seq<char>, MlError>(x),
{
    reveal(sp_dedent);
    let s = seq!['\n'] + ind + x + seq!['\n'] + ind;
    let l: int = (1 + ind.len() + x.len()) as int;
    assert forall|k: int| 0 <= k < s.len() implies #[trigger] s[k] != '\r' && !is_other_newline(s[k]) by {
        if 1 <= k < 1 + ind.len() {
            assert(s[k] == ind[k - 1]);
        } else if 1 + ind.len() <= k < l {
            assert(s[k] == x[k - 1 - ind.len()]);
        } else if k > l {
            assert(s[k] == ind[k - l - 1]);
        }
    }
    lemma_normalize_lf_only(s, 0, Seq::empty());
    assert(Seq::<char>::empty() + s.subrange(0, s.len() as int) =~= s);
    let n = normalize_newlines(s);
    assert(n == s);
    assert forall|k: int| l < k < s.len() implies #[trigger] s[k] != '\n' by {
        assert(s[k] == ind[k - l - 1]);
    }
    lemma_last_lf_at(s, s.len() as int, l);
    assert(s.skip(l + 1) =~= ind);
    assert forall|k: int| l + 1 <= k < s.len() implies in_class(Class::Ws, #[trigger] s[k]) by {
        assert(s[k] == ind[k - l - 1]);
    }
    lemma_run_exact(s, l + 1, Class::Ws, s.len() as int);
    let k0 = choose|k: int| 0 <= k < x.len() && !is_ws_char(#[trigger] x[k]);
    let c = s.subrange(1, l);
    assert(c.subrange(0, ind.len() as int) =~= ind);
    assert(c.subrange(ind.len() as int, (ind.len() + x.len()) as int) =~= x);
    assert forall|k: int| 0 <= k < ind.len() implies #[trigger] ind[k] != '\n' by {}
    assert(!is_ws_char(x[k0]));
    lemma_dedent_line(c, ind, x, 0, 0, Seq::empty());
    assert(Seq::<char>::empty() + x =~= x);
}

} // verus!
