//! Spans are byte offsets into the source text. The parser attaches one to
//! every value it produces ([`Spanned`]); line and column numbers are only
//! computed on demand ([`Span::to_line_column`]).
use vstd::prelude::*;
use vstd::std_specs::cmp::{PartialEqSpec, PartialOrdSpec};

use crate::decode::Context;
use crate::text::{
    byte_at, byte_offsets, bytes_len, char_index_of, char_len, char_len_utf8, chars_of,
    display_width, is_boundary, lemma_byte_at_full, lemma_byte_at_mono, lemma_bytes_len_take_step,
    lemma_char_index_of, str_width, string_from_chars,
};

verus! {

/// A span based on byte offsets: start (inclusive) and end (exclusive).
#[derive(Copy, Clone, Debug, Default, PartialEq, Eq, Structural, PartialOrd, Ord, Hash)]
pub struct Span(pub usize, pub usize);

/// `a - b`, or zero where `b > a`.
pub open spec fn sat_sub(a: usize, b: usize) -> usize {
    if a >= b {
        (a - b) as usize
    } else {
        0
    }
}

impl Span {
    /// The span from `start` to `end`.
    pub fn new(start: usize, end: usize) -> (r: Span)
        ensures
            r == Span(start, end),
    {
        Span(start, end)
    }

    /// Start offset.
    pub fn start(&self) -> (r: usize)
        ensures
            r == self.0,
    {
        self.0
    }

    /// End offset.
    pub fn end(&self) -> (r: usize)
        ensures
            r == self.1,
    {
        self.1
    }

    /// The first `chars` bytes of the span (the text there is assumed to be
    /// ASCII without newlines).
    pub fn at_start(&self, chars: usize) -> (r: Self)
        requires
            self.0 + chars <= usize::MAX,
        ensures
            r == Span(self.0, (self.0 + chars) as usize),
    {
        Span(self.0, self.0 + chars)
    }

    /// The empty span at the end of this one.
    pub fn at_end(&self) -> (r: Self)
        ensures
            r == Span(self.1, self.1),
    {
        Span(self.1, self.1)
    }

    /// The `chars` bytes just before the span (fewer where the span starts
    /// closer than that to the beginning of the text).
    pub fn before_start(&self, chars: usize) -> (r: Self)
        ensures
            r == Span(sat_sub(self.0, chars), self.0),
    {
        let start = if self.0 >= chars {
            self.0 - chars
        } else {
            0
        };
        Span(start, self.0)
    }

    /// Length of the span; zero for a span that ends before it starts.
    pub fn length(&self) -> (r: usize)
        ensures
            r == sat_sub(self.1, self.0),
    {
        if self.1 >= self.0 {
            self.1 - self.0
        } else {
            0
        }
    }

    /// Offset and length, the form in which error reports take a span.
    pub fn error_span(&self) -> (r: (usize, usize))
        ensures
            r == (self.0, sat_sub(self.1, self.0)),
    {
        (self.0, self.length())
    }

    /// The characters of `text`, each with the span of its bytes.
    pub fn stream(text: &str) -> (r: SpannedChars)
        requires
            bytes_len(text@) <= usize::MAX,
        ensures
            r.rest() == text@,
            r.offset() == 0,
            r.total() == bytes_len(text@),
            r.wf(),
    {
        let chars = chars_of(text);
        proof {
            assert(chars@.take(0) =~= Seq::<char>::empty());
            lemma_byte_at_full(chars@);
        }
        SpannedChars { chars, pos: 0, tracker: OffsetTracker { offset: 0 } }
    }

    /// Zero-based (line, column) of the start and of the end of the span in
    /// `text`. A line ends at `\r`, `\n` (`\r\n` counts once), form feed,
    /// NEL, LS or PS; a column counts the displayed width of the text before
    /// it on its line.
    pub fn to_line_column(&self, text: &str) -> (r: ((usize, usize), (usize, usize)))
        requires
            span_in_text(*self, text@),
            line_column_fits(*self, text@),
        ensures
            r == spec_to_line_column(*self, text@),
    {
        let v = chars_of(text);
        let offs = byte_offsets(&v);
        let k0 = char_index(&v, &offs, self.0);
        let k1 = char_index(&v, &offs, self.1);
        proof {
            if k1 < k0 {
                lemma_byte_at_mono(v@, k1 as int, k0 as int);
            }
        }
        let (sl, sc) = line_column_of_end(&v, 0, k0);
        let (el, ec) = line_column_of_end(&v, k0, k1);
        proof {
            assert(v@.subrange(0, k0 as int) =~= v@.take(k0 as int));
            lemma_lines_bound(v@.take(k0 as int), k0 as int);
            lemma_lines_bound(v@.subrange(k0 as int, k1 as int), (k1 - k0) as int);
        }
        let end_col = if el == 0 {
            sc + ec
        } else {
            ec
        };
        ((sl, sc), (sl + el, end_col))
    }

    /// [`Span::to_line_column`], or `None` where a column would not fit in
    /// a `usize` (or the span is not a character range of `text`).
    pub fn try_to_line_column(&self, text: &str) -> (r: Option<((usize, usize), (usize, usize))>)
        requires
            bytes_len(text@) <= usize::MAX,
        ensures
            r matches Some(lc) ==> span_in_text(*self, text@) && lc == spec_to_line_column(
                *self,
                text@,
            ),
            r is None ==> !(span_in_text(*self, text@) && line_column_fits(*self, text@)),
    {
        let v = chars_of(text);
        let offs = byte_offsets(&v);
        if self.0 > self.1 || self.1 > offs[v.len()] {
            proof {
                lemma_byte_at_full(v@);
                if self.1 > offs[v.len() as int] {
                    assert forall|k: int| 0 <= k <= v.len() implies byte_at(v@, k) != self.1 by {
                        lemma_byte_at_mono(v@, k, v.len() as int);
                    }
                }
            }
            return None;
        }
        let k0 = match find_char_index(&v, &offs, self.0) {
            Some(k) => k,
            None => return None,
        };
        let k1 = match find_char_index(&v, &offs, self.1) {
            Some(k) => k,
            None => return None,
        };
        proof {
            lemma_byte_at_mono(v@, k0 as int, v.len() as int);
            lemma_byte_at_mono(v@, k1 as int, v.len() as int);
            lemma_char_index_of(v@, k0 as int);
            lemma_char_index_of(v@, k1 as int);
            if k1 < k0 {
                lemma_byte_at_mono(v@, k1 as int, k0 as int);
            }
        }
        let (sl, sc) = line_column_of_end(&v, 0, k0);
        let (el, ec) = line_column_of_end(&v, k0, k1);
        proof {
            assert(v@.subrange(0, k0 as int) =~= v@.take(k0 as int));
            lemma_lines_bound(v@.take(k0 as int), k0 as int);
            lemma_lines_bound(v@.subrange(k0 as int, k1 as int), (k1 - k0) as int);
            lemma_byte_at_full(v@);
        }
        if el == 0 && sc > usize::MAX - ec {
            return None;
        }
        let end_col = if el == 0 {
            sc + ec
        } else {
            ec
        };
        Some(((sl, sc), (sl + el, end_col)))
    }
}

/// The span at the start of another one is as long as asked, the span at
/// its end is empty, and the span before its start ends where it starts.
pub proof fn lemma_span_parts(sp: Span, n: usize)
    requires
        sp.0 + n <= usize::MAX,
    ensures
        sat_sub((sp.0 + n) as usize, sp.0) == n,
        sat_sub(sp.1, sp.1) == 0,
        sat_sub(sp.0, sat_sub(sp.0, n)) <= n,
{
}

/// `sp` is a range of whole characters of `text`.
pub open spec fn span_in_text(sp: Span, text: Seq<char>) -> bool {
    &&& sp.0 <= sp.1
    &&& bytes_len(text) <= usize::MAX
    &&& is_boundary(text, sp.0 as int)
    &&& is_boundary(text, sp.1 as int)
}

/// Ends a line (for line and column numbers).
pub open spec fn is_line_break(c: char) -> bool {
    c == '\r' || c == '\n' || c == '\x0C' || c == '\u{0085}' || c == '\u{2028}' || c == '\u{2029}'
}

/// Line breaks among the first `i` characters of `s`, and the index where the
/// last line begins. `\n` right after `\r` ends no new line.
pub open spec fn line_scan(s: Seq<char>, i: int) -> (int, int)
    decreases i,
{
    if i <= 0 {
        (0, 0)
    } else {
        let (l, st) = line_scan(s, i - 1);
        let c = s[i - 1];
        if c == '\n' && i >= 2 && s[i - 2] == '\r' {
            (l, st)
        } else if is_line_break(c) {
            (l + 1, i)
        } else {
            (l, st)
        }
    }
}

/// Zero-based line and column of the end of `s`.
pub open spec fn spec_line_column_of_end(s: Seq<char>) -> (int, int) {
    let (l, st) = line_scan(s, s.len() as int);
    (l, display_width(s.skip(st)) as int)
}

/// Line and column of both ends of `sp` in `text`.
pub open spec fn spec_to_line_column(sp: Span, text: Seq<char>) -> (
    (usize, usize),
    (usize, usize),
) {
    let k0 = char_index_of(text, sp.0 as int);
    let k1 = char_index_of(text, sp.1 as int);
    let (sl, sc) = spec_line_column_of_end(text.take(k0));
    let (el, ec) = spec_line_column_of_end(text.subrange(k0, k1));
    (
        (sl as usize, sc as usize),
        ((sl + el) as usize, if el == 0 {
            (sc + ec) as usize
        } else {
            ec as usize
        }),
    )
}

/// The end column of `sp` fits in a `usize`.
pub open spec fn line_column_fits(sp: Span, text: Seq<char>) -> bool {
    let k0 = char_index_of(text, sp.0 as int);
    let k1 = char_index_of(text, sp.1 as int);
    let (sl, sc) = spec_line_column_of_end(text.take(k0));
    let (el, ec) = spec_line_column_of_end(text.subrange(k0, k1));
    el == 0 ==> sc + ec <= usize::MAX
}

/// The end of a span is never before its start: it is on a later line, or
/// on the same line at a column not before the start's.
pub proof fn lemma_line_column_ordered(sp: Span, text: Seq<char>)
    requires
        span_in_text(sp, text),
        line_column_fits(sp, text),
    ensures
        ({
            let ((sl, sc), (el, ec)) = spec_to_line_column(sp, text);
            sl < el || (sl == el && sc <= ec)
        }),
{
    let k0 = char_index_of(text, sp.0 as int);
    let k1 = char_index_of(text, sp.1 as int);
    lemma_char_index_bounds(text, sp);
    assert(text.take(k0).len() == k0);
    lemma_lines_bound(text.take(k0), k0);
    lemma_lines_bound(text.subrange(k0, k1), k1 - k0);
    crate::text::lemma_bytes_len_ge_len(text);
}

proof fn lemma_line_scan_prefix(s1: Seq<char>, s2: Seq<char>, i: int)
    requires
        0 <= i <= s1.len(),
        i <= s2.len(),
        s1.take(i) == s2.take(i),
    ensures
        line_scan(s1, i) == line_scan(s2, i),
    decreases i,
{
    if i > 0 {
        assert(s1.take(i - 1) =~= s2.take(i - 1));
        lemma_line_scan_prefix(s1, s2, i - 1);
        assert(s1[i - 1] == s1.take(i)[i - 1]);
        assert(s2[i - 1] == s2.take(i)[i - 1]);
        if i >= 2 {
            assert(s1[i - 2] == s1.take(i)[i - 2]);
            assert(s2[i - 2] == s2.take(i)[i - 2]);
        }
    }
}

/// Line breaks of `a + b` up to `a.len() + j`: those of `a`, then those of
/// `b` up to `j`, where `b` does not start with a `\n` that a `\r` at the
/// end of `a` takes with it.
proof fn lemma_line_scan_concat(a: Seq<char>, b: Seq<char>, j: int)
    requires
        0 <= j <= b.len(),
        !(a.len() > 0 && b.len() > 0 && a.last() == '\r' && b[0] == '\n'),
    ensures
        ({
            let (l1, st1) = line_scan(a, a.len() as int);
            let (l2, st2) = line_scan(b, j);
            line_scan(a + b, a.len() + j) == (l1 + l2, if l2 == 0 {
                st1
            } else {
                a.len() + st2
            })
        }),
    decreases j,
{
    let t = a + b;
    if j == 0 {
        assert(t.take(a.len() as int) =~= a.take(a.len() as int));
        lemma_line_scan_prefix(t, a, a.len() as int);
    } else {
        lemma_line_scan_concat(a, b, j - 1);
        lemma_lines_bound(b, j - 1);
        assert(t[a.len() + j - 1] == b[j - 1]);
        if j >= 2 {
            assert(t[a.len() + j - 2] == b[j - 2]);
        } else if a.len() > 0 {
            assert(t[a.len() - 1] == a.last());
        }
    }
}

/// With no line break, the last line starts at the beginning.
proof fn lemma_line_scan_no_break(s: Seq<char>, i: int)
    requires
        0 <= i <= s.len(),
        line_scan(s, i).0 == 0,
    ensures
        line_scan(s, i).1 == 0,
    decreases i,
{
    if i > 0 {
        lemma_lines_bound(s, i - 1);
        lemma_line_scan_no_break(s, i - 1);
    }
}

/// Where a span does not start between a `\r` and the `\n` after it, its
/// end is placed where the end of the text up to it is: the line always;
/// the column where the end is on a later line than the start, and also on
/// the same line where the displayed width of the start's line up to the
/// start and of the span adds up to that of both together (the widths of
/// `unicode-width` need not add up, as combined characters show).
pub proof fn lemma_line_column_of_span_end(sp: Span, text: Seq<char>)
    requires
        span_in_text(sp, text),
        line_column_fits(sp, text),
        ({
            let k0 = char_index_of(text, sp.0 as int);
            let k1 = char_index_of(text, sp.1 as int);
            !(0 < k0 < k1 && text[k0 - 1] == '\r' && text[k0] == '\n')
        }),
    ensures
        ({
            let k0 = char_index_of(text, sp.0 as int);
            let k1 = char_index_of(text, sp.1 as int);
            let ((sl, sc), (el, ec)) = spec_to_line_column(sp, text);
            &&& sl == spec_line_column_of_end(text.take(k0)).0 as usize
            &&& sc == spec_line_column_of_end(text.take(k0)).1 as usize
            &&& el == spec_line_column_of_end(text.take(k1)).0 as usize
            &&& spec_to_line_column(Span(sp.1, sp.1), text).0 == (
                spec_line_column_of_end(text.take(k1)).0 as usize,
                spec_line_column_of_end(text.take(k1)).1 as usize,
            )
            &&& sl < el ==> ec == spec_line_column_of_end(text.take(k1)).1 as usize
            &&& ({
                let head = text.take(k0).skip(line_scan(text.take(k0), k0).1);
                let span_text = text.subrange(k0, k1);
                sl == el && display_width(head + span_text) == display_width(head) + display_width(
                    span_text,
                ) ==> ec == spec_line_column_of_end(text.take(k1)).1 as usize
            })
        }),
{
    let k0 = char_index_of(text, sp.0 as int);
    let k1 = char_index_of(text, sp.1 as int);
    lemma_char_index_bounds(text, sp);
    crate::text::lemma_bytes_len_ge_len(text);
    let a = text.take(k0);
    let b = text.subrange(k0, k1);
    assert(a + b =~= text.take(k1));
    if a.len() > 0 && b.len() > 0 {
        assert(a.last() == text[k0 - 1]);
        assert(b[0] == text[k0]);
    }
    lemma_line_scan_concat(a, b, b.len() as int);
    lemma_lines_bound(a, k0);
    lemma_lines_bound(b, k1 - k0);
    let (l2, st2) = line_scan(b, b.len() as int);
    if l2 != 0 {
        assert(text.take(k1).skip(k0 + st2) =~= b.skip(st2));
    } else {
        lemma_line_scan_no_break(b, b.len() as int);
        let st1 = line_scan(a, k0).1;
        assert(b.skip(0) =~= b);
        assert(text.take(k1).skip(st1) =~= a.skip(st1) + b);
    }
}

proof fn lemma_char_index_bounds(text: Seq<char>, sp: Span)
    requires
        span_in_text(sp, text),
    ensures
        0 <= char_index_of(text, sp.0 as int) <= char_index_of(text, sp.1 as int) <= text.len(),
{
    let k0 = char_index_of(text, sp.0 as int);
    let k1 = char_index_of(text, sp.1 as int);
    if k1 < k0 {
        lemma_byte_at_mono(text, k1, k0);
    }
}

proof fn lemma_lines_bound(s: Seq<char>, i: int)
    requires
        0 <= i <= s.len(),
    ensures
        0 <= line_scan(s, i).0 <= i,
        0 <= line_scan(s, i).1 <= i,
    decreases i,
{
    if i > 0 {
        lemma_lines_bound(s, i - 1);
    }
}

/// The index of the character that starts at byte `b`.
fn char_index(v: &Vec<char>, offs: &Vec<usize>, b: usize) -> (k: usize)
    requires
        offs.len() == v.len() + 1,
        forall|i: int| 0 <= i <= v.len() ==> #[trigger] offs[i] == byte_at(v@, i),
        is_boundary(v@, b as int),
    ensures
        k <= v.len(),
        k == char_index_of(v@, b as int),
        byte_at(v@, k as int) == b,
{
    let ghost kk = char_index_of(v@, b as int);
    let mut i: usize = 0;
    while offs[i] < b
        invariant
            0 <= i <= kk,
            0 <= kk <= v.len(),
            byte_at(v@, kk) == b,
            offs.len() == v.len() + 1,
            forall|j: int| 0 <= j <= v.len() ==> #[trigger] offs[j] == byte_at(v@, j),
        decreases kk - i,
    {
        proof {
            if i == kk {
                assert(false);
            }
        }
        i = i + 1;
    }
    proof {
        if i < kk {
            lemma_byte_at_mono(v@, i as int, kk);
        }
        lemma_char_index_of(v@, i as int);
    }
    i
}

/// The index of the character that starts at byte `b`, if one does.
fn find_char_index(v: &Vec<char>, offs: &Vec<usize>, b: usize) -> (r: Option<usize>)
    requires
        offs.len() == v.len() + 1,
        forall|i: int| 0 <= i <= v.len() ==> #[trigger] offs[i] == byte_at(v@, i),
    ensures
        r is Some <==> is_boundary(v@, b as int),
        r matches Some(k) ==> k == char_index_of(v@, b as int) && k <= v.len(),
{
    let mut i: usize = 0;
    while i <= v.len() && offs[i] < b
        invariant
            0 <= i <= v.len() + 1,
            offs.len() == v.len() + 1,
            forall|j: int| 0 <= j <= v.len() ==> #[trigger] offs[j] == byte_at(v@, j),
            forall|j: int| 0 <= j < i ==> byte_at(v@, j) < b,
        decreases v.len() + 1 - i,
    {
        i = i + 1;
    }
    if i <= v.len() && offs[i] == b {
        proof { lemma_char_index_of(v@, i as int); }
        Some(i)
    } else {
        proof {
            assert forall|k: int| 0 <= k <= v.len() implies byte_at(v@, k) != b by {
                if k >= i {
                    lemma_byte_at_mono(v@, i as int, k);
                }
            }
        }
        None
    }
}

/// Line and column of the end of `v[from..to]`.
fn line_column_of_end(v: &Vec<char>, from: usize, to: usize) -> (r: (usize, usize))
    requires
        from <= to <= v.len(),
    ensures
        r.0 == spec_line_column_of_end(v@.subrange(from as int, to as int)).0,
        r.1 == spec_line_column_of_end(v@.subrange(from as int, to as int)).1,
{
    let ghost s = v@.subrange(from as int, to as int);
    let mut caret_return = false;
    let mut line: usize = 0;
    let mut last: usize = from;
    let mut i: usize = from;
    while i < to
        invariant
            from <= i <= to <= v.len(),
            s == v@.subrange(from as int, to as int),
            line == line_scan(s, i - from).0,
            last - from == line_scan(s, i - from).1,
            from <= last <= i,
            line <= i - from,
            caret_return == (i > from && v@[i - 1] == '\r'),
        decreases to - i,
    {
        let c = v[i];
        proof {
            lemma_lines_bound(s, i - from);
            assert(s[i - from] == c);
            if i - from >= 1 {
                assert(s[i - from - 1] == v@[i - 1]);
            }
        }
        if c == '\n' && caret_return {
        } else if c == '\r' || c == '\n' || c == '\x0C' || c == '\u{0085}' || c == '\u{2028}' || c
            == '\u{2029}' {
            line = line + 1;
            last = i + 1;
        }
        caret_return = c == '\r';
        i = i + 1;
    }
    let mut rest: Vec<char> = Vec::new();
    let mut j: usize = last;
    while j < to
        invariant
            last <= j <= to <= v.len(),
            rest@ == v@.subrange(last as int, j as int),
        decreases to - j,
    {
        rest.push(v[j]);
        j = j + 1;
        assert(rest@ =~= v@.subrange(last as int, j as int));
    }
    let text = string_from_chars(&rest);
    let width = str_width(text.as_str());
    proof {
        assert(s.skip(last - from) =~= v@.subrange(last as int, to as int));
    }
    (line, width)
}

/// Produces the spans of successive characters from their UTF-8 lengths.
#[derive(Debug)]
pub struct OffsetTracker {
    offset: usize,
}

impl OffsetTracker {
    /// Current byte offset.
    pub closed spec fn offset(&self) -> usize {
        self.offset
    }

    /// A tracker at offset zero.
    pub fn new() -> (r: OffsetTracker)
        ensures
            r.offset() == 0,
    {
        OffsetTracker { offset: 0 }
    }

    /// The span of `c`, which starts at the current offset; the offset moves
    /// to its end.
    pub fn next_span(&mut self, c: char) -> (r: Span)
        requires
            old(self).offset() + char_len(c) <= usize::MAX,
        ensures
            r == Span(old(self).offset(), (old(self).offset() + char_len(c)) as usize),
            final(self).offset() == r.1,
        no_unwind
    {
        let offset = self.offset;
        self.offset = self.offset + char_len_utf8(c);
        Span(offset, self.offset)
    }
}

/// The characters of a text, handed out one at a time with their spans.
#[allow(missing_debug_implementations)]
pub struct SpannedChars {
    chars: Vec<char>,
    pos: usize,
    tracker: OffsetTracker,
}

impl SpannedChars {
    /// The position and offset agree with the characters.
    pub closed spec fn wf(&self) -> bool {
        &&& self.pos <= self.chars.len()
        &&& bytes_len(self.chars@) <= usize::MAX
        &&& self.tracker.offset == byte_at(self.chars@, self.pos as int)
    }

    /// The characters not yet handed out.
    pub closed spec fn rest(&self) -> Seq<char> {
        self.chars@.skip(self.pos as int)
    }

    /// Byte offset of the next character.
    pub closed spec fn offset(&self) -> usize {
        self.tracker.offset
    }

    /// Length in bytes of the whole text.
    pub closed spec fn total(&self) -> nat {
        bytes_len(self.chars@)
    }

    /// The next character and its span.
    pub fn next(&mut self) -> (r: Option<(char, Span)>)
        requires
            old(self).wf(),
        ensures
            final(self).wf(),
            final(self).total() == old(self).total(),
            old(self).rest().len() == 0 ==> r is None && final(self).rest() == old(self).rest(),
            old(self).rest().len() > 0 ==> {
                &&& r == Some(
                    (
                        old(self).rest()[0],
                        Span(
                            old(self).offset(),
                            (old(self).offset() + char_len(old(self).rest()[0])) as usize,
                        ),
                    ),
                )
                &&& final(self).rest() == old(self).rest().drop_first()
                &&& final(self).offset() == (r->0).1.1
            },
    {
        if self.pos >= self.chars.len() {
            return None;
        }
        let c = self.chars[self.pos];
        proof {
            lemma_bytes_len_take_step(self.chars@, self.pos as int);
            lemma_byte_at_mono(self.chars@, self.pos + 1, self.chars.len() as int);
            lemma_byte_at_full(self.chars@);
            assert(self.chars@.skip(self.pos + 1) =~= self.chars@.skip(self.pos as int).drop_first());
        }
        let span = self.tracker.next_span(c);
        self.pos = self.pos + 1;
        Some((c, span))
    }
}

/// The spans handed out so far and those of the characters left cover the
/// text: the offset of the next character and the bytes left add up to the
/// length of the text. Once no character is left, the last span ended at
/// the end of the text.
pub proof fn lemma_stream_covers(sc: SpannedChars)
    requires
        sc.wf(),
    ensures
        sc.offset() + bytes_len(sc.rest()) == sc.total(),
{
    let s = sc.chars@;
    let k = sc.pos as int;
    assert(s =~= s.take(k) + s.skip(k));
    crate::grammar::strings::lemma_bytes_len_concat(s.take(k), s.skip(k));
}

/// A value with the span of the source text it came from.
#[derive(Copy, Debug, Default)]
pub struct Spanned<T> {
    /// Where the value is in the source text.
    pub span: Span,
    /// The value.
    pub value: T,
}

impl<T: View> View for Spanned<T> {
    type V = (Span, T::V);

    open spec fn view(&self) -> (Span, T::V) {
        (self.span, self.value@)
    }
}

impl<T> Spanned<T> {
    /// Converts the value but keeps the same span.
    pub fn map<R, F: FnOnce(T) -> R>(self, f: F) -> (r: Spanned<R>)
        requires
            f.requires((self.value,)),
        ensures
            r.span == self.span,
            f.ensures((self.value,), r.value),
    {
        Spanned { span: self.span, value: f(self.value) }
    }

    /// A copy of the value, with its span decoded through the context.
    pub fn clone_as(&self, ctx: &mut Context) -> (r: Spanned<T>) where T: Clone
        ensures
            r.span == self.span,
            cloned(self.value, r.value),
            *final(ctx) == *old(ctx),
    {
        Spanned { span: crate::traits::DecodeSpan::decode_span(&self.span, ctx), value: self.value.clone() }
    }

    /// The span of the value.
    pub fn span(&self) -> (r: &Span)
        ensures
            *r == self.span,
    {
        &self.span
    }
}

impl<T> std::ops::Deref for Spanned<T> {
    type Target = T;

    fn deref(&self) -> (r: &T)
        ensures
            *r == self.value,
    {
        &self.value
    }
}

impl<T: PartialEq> PartialEq for Spanned<T> {
    /// Spanned values are equal where their values are: spans are not
    /// compared.
    fn eq(&self, other: &Spanned<T>) -> (r: bool) {
        self.value == other.value
    }
}

impl<T: PartialEq> vstd::std_specs::cmp::PartialEqSpecImpl for Spanned<T> {
    open spec fn obeys_eq_spec() -> bool {
        T::obeys_eq_spec()
    }

    open spec fn eq_spec(&self, other: &Spanned<T>) -> bool {
        self.value.eq_spec(&other.value)
    }
}

impl<T: Eq> Eq for Spanned<T> {
}

impl<T: PartialOrd> PartialOrd for Spanned<T> {
    /// Spanned values are ordered by their values: spans are not compared.
    fn partial_cmp(&self, other: &Spanned<T>) -> (r: Option<std::cmp::Ordering>) {
        self.value.partial_cmp(&other.value)
    }
}

impl<T: PartialOrd> vstd::std_specs::cmp::PartialOrdSpecImpl for Spanned<T> {
    open spec fn obeys_partial_cmp_spec() -> bool {
        T::obeys_partial_cmp_spec()
    }

    open spec fn partial_cmp_spec(&self, other: &Spanned<T>) -> Option<std::cmp::Ordering> {
        self.value.partial_cmp_spec(&other.value)
    }
}

/// Spanned values compare as their values do: equality and order never
/// look at the spans, so that values at different places of a text are
/// equal where the values are. Spanned values obey these specifications
/// exactly where their values obey theirs, so `==` and `partial_cmp` on
/// them give what the specifications say wherever they do on the values.
pub proof fn lemma_spanned_compare_ignores_span<T: PartialOrd>(a: Spanned<T>, b: Spanned<T>, s1: Span, s2: Span)
    ensures
        Spanned::<T>::obeys_eq_spec() == T::obeys_eq_spec(),
        Spanned::<T>::obeys_partial_cmp_spec() == T::obeys_partial_cmp_spec(),
        a.eq_spec(&b) == a.value.eq_spec(&b.value),
        a.partial_cmp_spec(&b) == a.value.partial_cmp_spec(&b.value),
        (Spanned { span: s1, value: a.value }).eq_spec(&(Spanned { span: s2, value: b.value }))
            == a.eq_spec(&b),
        (Spanned { span: s1, value: a.value }).partial_cmp_spec(&(Spanned { span: s2, value: b.value }))
            == a.partial_cmp_spec(&b),
{
}

/// `Hash::hash` of `v` into `state`; nothing is claimed of the state after.
#[verifier::external_body]
fn hash_into<T: std::hash::Hash, H: std::hash::Hasher>(v: &T, state: &mut H) {
    v.hash(state)
}

impl<T: std::hash::Hash> std::hash::Hash for Spanned<T> {
    /// Only the value is hashed, as only the value is compared.
    fn hash<H: std::hash::Hasher>(&self, state: &mut H) {
        hash_into(&self.value, state)
    }
}

/// `AsRef::as_ref` of `v`; nothing is claimed of the reference it gives.
#[verifier::external_body]
fn as_ref_of<U: ?Sized, T: AsRef<U>>(v: &T) -> &U {
    v.as_ref()
}

impl<U: ?Sized, T: AsRef<U>> AsRef<U> for Spanned<T> {
    fn as_ref(&self) -> &U {
        as_ref_of(&self.value)
    }
}

/// `AsMut::as_mut` of `v`; nothing is claimed of the reference it gives.
#[verifier::external_body]
fn as_mut_of<U: ?Sized, T: AsMut<U>>(v: &mut T) -> &mut U {
    v.as_mut()
}

impl<U: ?Sized, T: AsMut<U>> AsMut<U> for Spanned<T> {
    fn as_mut(&mut self) -> &mut U {
        as_mut_of(&mut self.value)
    }
}

impl<T> std::borrow::Borrow<T> for Spanned<T> {
    fn borrow(&self) -> &T {
        &self.value
    }
}

impl<T: Clone> Clone for Spanned<T> {
    fn clone(&self) -> (r: Self)
        ensures
            r.span == self.span,
            cloned(self.value, r.value),
    {
        Spanned { span: self.span, value: self.value.clone() }
    }
}

} // verus!
