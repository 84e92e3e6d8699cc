//! Character-level helpers: UTF-8 lengths, byte offsets of characters,
//! collecting the characters of a string and building strings.
use vstd::prelude::*;
use vstd::std_specs::iter::IteratorSpec;

verus! {

/// Number of bytes of the UTF-8 encoding of `c`.
pub open spec fn char_len(c: char) -> nat {
    let v = c as u32;
    if v < 0x80 {
        1
    } else if v < 0x800 {
        2
    } else if v < 0x10000 {
        3
    } else {
        4
    }
}

/// Number of bytes of the UTF-8 encoding of `s`.
pub open spec fn bytes_len(s: Seq<char>) -> nat
    decreases s.len(),
{
    if s.len() == 0 {
        0
    } else {
        bytes_len(s.drop_last()) + char_len(s.last())
    }
}

/// Byte offset of the character at index `i` of `s`.
pub open spec fn byte_at(s: Seq<char>, i: int) -> nat {
    bytes_len(s.take(i))
}

/// `b` is the byte offset of some character boundary of `s`.
pub open spec fn is_boundary(s: Seq<char>, b: int) -> bool {
    exists|k: int| 0 <= k <= s.len() && byte_at(s, k) == b
}

/// The index of the character that starts at byte offset `b`.
pub open spec fn char_index_of(s: Seq<char>, b: int) -> int {
    choose|k: int| 0 <= k <= s.len() && byte_at(s, k) == b
}

/// Every character takes at least one byte.
pub proof fn lemma_bytes_len_ge_len(s: Seq<char>)
    ensures
        bytes_len(s) >= s.len(),
    decreases s.len(),
{
    if s.len() > 0 {
        lemma_bytes_len_ge_len(s.drop_last());
    }
}

pub proof fn lemma_bytes_len_take_step(s: Seq<char>, i: int)
    requires
        0 <= i < s.len(),
    ensures
        bytes_len(s.take(i + 1)) == bytes_len(s.take(i)) + char_len(s[i]),
{
    assert(s.take(i + 1).drop_last() =~= s.take(i));
}

/// Byte offsets grow strictly with the character index.
pub proof fn lemma_byte_at_mono(s: Seq<char>, i: int, j: int)
    requires
        0 <= i <= j <= s.len(),
    ensures
        byte_at(s, i) <= byte_at(s, j),
        i < j ==> byte_at(s, i) < byte_at(s, j),
    decreases j - i,
{
    if i < j {
        lemma_byte_at_mono(s, i, j - 1);
        lemma_bytes_len_take_step(s, j - 1);
    }
}

pub proof fn lemma_byte_at_full(s: Seq<char>)
    ensures
        byte_at(s, s.len() as int) == bytes_len(s),
{
    assert(s.take(s.len() as int) =~= s);
}

/// Distinct character indices have distinct byte offsets.
pub proof fn lemma_char_index_of(s: Seq<char>, k: int)
    requires
        0 <= k <= s.len(),
    ensures
        is_boundary(s, byte_at(s, k) as int),
        char_index_of(s, byte_at(s, k) as int) == k,
{
    let b = byte_at(s, k) as int;
    assert(0 <= k <= s.len() && byte_at(s, k) == b);
    let k2 = char_index_of(s, b);
    if k2 < k {
        lemma_byte_at_mono(s, k2, k);
    } else if k < k2 {
        lemma_byte_at_mono(s, k, k2);
    }
}

/// UTF-8 length of a character, as `char::len_utf8` computes it.
pub fn char_len_utf8(c: char) -> (n: usize)
    ensures
        n == char_len(c),
    no_unwind
{
    let v = c as u32;
    if v < 0x80 {
        1
    } else if v < 0x800 {
        2
    } else if v < 0x10000 {
        3
    } else {
        4
    }
}

/// The characters of `s`, in order.
pub fn chars_of(s: &str) -> (v: Vec<char>)
    ensures
        v@ == s@,
{
    broadcast use vstd::string::group_string_axioms;

    let mut it = s.chars();
    let mut v: Vec<char> = Vec::new();
    loop
        invariant
            it.remaining() == s@.skip(v.len() as int),
            v@ == s@.take(v.len() as int),
            it.obeys_prophetic_iter_laws(),
            v.len() <= s@.len(),
        ensures
            v@ == s@,
        decreases s@.len() - v.len(),
    {
        let ghost before = it.remaining();
        match it.next() {
            Some(c) => {
                assert(before.len() > 0);
                v.push(c);
                assert(v@ =~= s@.take(v.len() as int));
            },
            None => {
                assert(s@.skip(v.len() as int).len() == 0);
                assert(v@ =~= s@);
                break;
            },
        }
    }
    v
}

/// Byte offsets of every character boundary of `s`: element `i` is the
/// offset of character `i`, and the last element is the byte length.
pub fn byte_offsets(s: &Vec<char>) -> (offs: Vec<usize>)
    requires
        bytes_len(s@) <= usize::MAX,
    ensures
        offs.len() == s.len() + 1,
        forall|i: int| 0 <= i <= s.len() ==> #[trigger] offs[i] == byte_at(s@, i),
{
    let mut offs: Vec<usize> = Vec::new();
    let mut acc: usize = 0;
    let mut i: usize = 0;
    proof {
        assert(s@.take(0) =~= Seq::<char>::empty());
        lemma_byte_at_full(s@);
    }
    while i < s.len()
        invariant
            i <= s.len(),
            offs.len() == i,
            acc == byte_at(s@, i as int),
            bytes_len(s@) <= usize::MAX,
            byte_at(s@, s.len() as int) == bytes_len(s@),
            forall|j: int| 0 <= j < i ==> #[trigger] offs[j] == byte_at(s@, j),
        decreases s.len() - i,
    {
        offs.push(acc);
        proof {
            lemma_bytes_len_take_step(s@, i as int);
            lemma_byte_at_mono(s@, i + 1, s.len() as int);
        }
        acc = acc + char_len_utf8(s[i]);
        i = i + 1;
    }
    offs.push(acc);
    offs
}

/// Appends `c` to `s` (`String::push`).
#[verifier::external_body]
pub(crate) fn string_push(s: &mut String, c: char)
    ensures
        final(s)@ == old(s)@.push(c),
{
    s.push(c);
}

/// A string holding exactly the characters of `v`.
pub fn string_from_chars(v: &Vec<char>) -> (s: String)
    ensures
        s@ == v@,
{
    let mut s = String::new();
    let mut i: usize = 0;
    while i < v.len()
        invariant
            i <= v.len(),
            s@ == v@.take(i as int),
        decreases v.len() - i,
    {
        string_push(&mut s, v[i]);
        i = i + 1;
        assert(s@ =~= v@.take(i as int));
    }
    assert(v@.take(v.len() as int) =~= v@);
    s
}

/// The characters of a `String`, in order.
pub fn chars_of_string(s: &String) -> (v: Vec<char>)
    ensures
        v@ == s@,
{
    chars_of(s.as_str())
}

/// Whether two strings hold the same characters.
pub fn same_text(a: &String, b: &String) -> (r: bool)
    ensures
        r == (a@ == b@),
{
    a.eq(b)
}

/// Displayed width of a string, in terminal columns, as the `unicode-width`
/// crate computes it.
pub uninterp spec fn display_width(s: Seq<char>) -> nat;

/// `UnicodeWidthStr::width` of `unicode-width`: the contract only names the
/// result; it claims that the width depends on the characters alone.
#[verifier::external_body]
pub(crate) fn str_width(s: &str) -> (w: usize)
    ensures
        w == display_width(s@),
{
    unicode_width::UnicodeWidthStr::width(s)
}

} // verus!
