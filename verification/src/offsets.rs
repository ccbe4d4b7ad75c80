//! A model of byte offsets into UTF-8 text: a line is viewed as a sequence of
//! characters, and a byte offset is a character boundary when it is the UTF-8
//! length of some prefix of the line.

use vstd::prelude::*;
use vstd::utf8::*;

verus! {

/// Number of bytes of the UTF-8 encoding of `c`.
pub open spec fn char_utf8_len(c: char) -> nat {
    encode_scalar(c as u32).len()
}

/// Number of bytes of the UTF-8 encoding of `s`.
pub open spec fn utf8_len(s: Seq<char>) -> nat
    decreases s.len(),
{
    if s.len() == 0 {
        0
    } else {
        utf8_len(s.drop_last()) + char_utf8_len(s.last())
    }
}

/// Byte offset at which the character with index `k` starts (or the end of
/// the text when `k == s.len()`).
pub open spec fn byte_offset(s: Seq<char>, k: int) -> nat {
    utf8_len(s.take(k))
}

/// `b` is the byte offset of a character boundary of `s` (its end included).
pub open spec fn is_boundary(s: Seq<char>, b: int) -> bool {
    exists|k: int| 0 <= k <= s.len() && #[trigger] byte_offset(s, k) == b
}

/// The index of the character that starts at byte offset `b`.
pub open spec fn char_index(s: Seq<char>, b: int) -> int {
    choose|k: int| 0 <= k <= s.len() && #[trigger] byte_offset(s, k) == b
}

pub proof fn lemma_char_utf8_len_bounds(c: char)
    ensures
        1 <= char_utf8_len(c) <= 4,
        (c as u32) < 0x80 ==> char_utf8_len(c) == 1,
{
}

pub proof fn lemma_utf8_len_concat(a: Seq<char>, b: Seq<char>)
    ensures
        utf8_len(a + b) == utf8_len(a) + utf8_len(b),
    decreases b.len(),
{
    if b.len() == 0 {
        assert(a + b =~= a);
    } else {
        assert((a + b).drop_last() =~= a + b.drop_last());
        assert((a + b).last() == b.last());
        lemma_utf8_len_concat(a, b.drop_last());
    }
}

pub proof fn lemma_utf8_len_single(c: char)
    ensures
        utf8_len(seq![c]) == char_utf8_len(c),
{
    assert(seq![c].drop_last() =~= Seq::<char>::empty());
    assert(utf8_len(Seq::<char>::empty()) == 0);
    assert(seq![c].last() == c);
}

/// The model agrees with the byte length that `str::len` reports.
pub proof fn lemma_utf8_len_encoding(s: Seq<char>)
    ensures
        encode_utf8(s).len() == utf8_len(s),
    decreases s.len(),
{
    if s.len() > 0 {
        lemma_utf8_len_encoding(s.drop_first());
        assert(s =~= seq![s[0]] + s.drop_first());
        lemma_utf8_len_concat(seq![s[0]], s.drop_first());
        lemma_utf8_len_single(s[0]);
    }
}

pub proof fn lemma_byte_offset_step(s: Seq<char>, k: int)
    requires
        0 <= k < s.len(),
    ensures
        byte_offset(s, k + 1) == byte_offset(s, k) + char_utf8_len(s[k]),
{
    assert(s.take(k + 1).drop_last() =~= s.take(k));
}

pub proof fn lemma_byte_offset_ends(s: Seq<char>)
    ensures
        byte_offset(s, 0) == 0,
        byte_offset(s, s.len() as int) == utf8_len(s),
{
    assert(s.take(0) =~= Seq::<char>::empty());
    assert(s.take(s.len() as int) =~= s);
}

/// Byte offsets grow strictly with the character index.
pub proof fn lemma_byte_offset_strict(s: Seq<char>, i: int, j: int)
    requires
        0 <= i < j <= s.len(),
    ensures
        byte_offset(s, i) < byte_offset(s, j),
    decreases j - i,
{
    lemma_byte_offset_step(s, j - 1);
    lemma_char_utf8_len_bounds(s[j - 1]);
    if i < j - 1 {
        lemma_byte_offset_strict(s, i, j - 1);
    }
}

pub proof fn lemma_byte_offset_le(s: Seq<char>, i: int, j: int)
    requires
        0 <= i <= j <= s.len(),
    ensures
        byte_offset(s, i) <= byte_offset(s, j),
        byte_offset(s, j) <= utf8_len(s),
{
    if i < j {
        lemma_byte_offset_strict(s, i, j);
    }
    if j < s.len() {
        lemma_byte_offset_strict(s, j, s.len() as int);
    }
    lemma_byte_offset_ends(s);
}

/// The character index of a boundary is the one index with that offset.
pub proof fn lemma_char_index(s: Seq<char>, k: int)
    requires
        0 <= k <= s.len(),
    ensures
        is_boundary(s, byte_offset(s, k) as int),
        char_index(s, byte_offset(s, k) as int) == k,
{
    let b = byte_offset(s, k) as int;
    assert(0 <= k <= s.len() && byte_offset(s, k) == b);
    let j = char_index(s, b);
    if j < k {
        lemma_byte_offset_strict(s, j, k);
    } else if k < j {
        lemma_byte_offset_strict(s, k, j);
    }
}

pub proof fn lemma_boundary(s: Seq<char>, b: int)
    requires
        is_boundary(s, b),
    ensures
        0 <= char_index(s, b) <= s.len(),
        byte_offset(s, char_index(s, b)) == b,
        0 <= b <= utf8_len(s),
{
    let k = char_index(s, b);
    lemma_byte_offset_le(s, 0, k);
    lemma_byte_offset_ends(s);
}

/// Offsets within a prefix do not depend on what follows it.
pub proof fn lemma_byte_offset_prefix(a: Seq<char>, b: Seq<char>, k: int)
    requires
        0 <= k <= a.len(),
    ensures
        byte_offset(a + b, k) == byte_offset(a, k),
{
    assert((a + b).take(k) =~= a.take(k));
}

/// Replacing the bytes `start..end` of `s` by `with`: where the boundaries of
/// the result lie, and its length.
pub proof fn lemma_replace(s: Seq<char>, start: int, end: int, with: Seq<char>)
    requires
        is_boundary(s, start),
        is_boundary(s, end),
        start <= end,
    ensures
        ({
            let r = s.take(char_index(s, start)) + with + s.skip(char_index(s, end));
            &&& is_boundary(r, start)
            &&& is_boundary(r, start + utf8_len(with))
            &&& utf8_len(r) == utf8_len(s) - (end - start) + utf8_len(with)
            &&& char_index(s, start) <= char_index(s, end)
        }),
{
    lemma_boundary(s, start);
    lemma_boundary(s, end);
    let ks = char_index(s, start);
    let ke = char_index(s, end);
    if ke < ks {
        lemma_byte_offset_strict(s, ke, ks);
    }
    let a = s.take(ks);
    let r = a + with + s.skip(ke);
    assert(r.take(ks) =~= a);
    assert(r.take(ks + with.len()) =~= a + with);
    lemma_utf8_len_concat(a, with);
    lemma_utf8_len_concat(a + with, s.skip(ke));
    assert(s =~= s.take(ke) + s.skip(ke));
    lemma_utf8_len_concat(s.take(ke), s.skip(ke));
    lemma_char_index(r, ks);
    lemma_char_index(r, ks + with.len());
}

} // verus!
