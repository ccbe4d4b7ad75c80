//! Operations on text that come from std and from the Unicode crates, with
//! what their documentation and source promise, stated over the model of
//! `offsets`.

use unicode_segmentation::GraphemeCursor;
use unicode_width::UnicodeWidthStr;
use vstd::prelude::*;

use crate::offsets::{
    lemma_boundary, lemma_byte_offset_ends, lemma_char_index, byte_offset, char_index, char_utf8_len, is_boundary, lemma_byte_offset_le, lemma_byte_offset_step,
    lemma_utf8_len_encoding, utf8_len,
};

verus! {

/// The Unicode `White_Space` property of a character: the control
/// characters tab to carriage return, space, next line, no-break space, ogham
/// space mark, the spaces from en quad to hair space, the line and paragraph
/// separators, the narrow no-break space, the medium mathematical space and
/// the ideographic space.
pub open spec fn white_space(c: char) -> bool {
    let v = c as u32;
    ||| 0x9 <= v <= 0xD
    ||| v == 0x20
    ||| v == 0x85
    ||| v == 0xA0
    ||| v == 0x1680
    ||| 0x2000 <= v <= 0x200A
    ||| v == 0x2028
    ||| v == 0x2029
    ||| v == 0x202F
    ||| v == 0x205F
    ||| v == 0x3000
}

/// The next legacy grapheme-cluster boundary after byte `offset` of the text,
/// `None` at its end.
pub uninterp spec fn next_grapheme_boundary(s: Seq<char>, offset: usize) -> Option<usize>;

/// The previous legacy grapheme-cluster boundary before byte `offset` of the
/// text, `None` at its start.
pub uninterp spec fn prev_grapheme_boundary(s: Seq<char>, offset: usize) -> Option<usize>;

/// Every character of the text is ASCII and none is a carriage return.
pub open spec fn ascii_without_cr(s: Seq<char>) -> bool {
    forall|i: int| 0 <= i < s.len() ==> (#[trigger] s[i] as u32) < 0x80 && s[i] != '\r'
}

/// Every character is printable ASCII, U+0020 to U+007E.
pub open spec fn printable_ascii(s: Seq<char>) -> bool {
    forall|i: int| 0 <= i < s.len() ==> 0x20 <= (#[trigger] s[i] as u32) && (s[i] as u32) < 0x7F
}

/// The number of terminal columns the text takes.
pub uninterp spec fn display_width(s: Seq<char>) -> usize;

/// `s` without its leading white space.
pub open spec fn trim_start(s: Seq<char>) -> Seq<char>
    decreases s.len(),
{
    if s.len() > 0 && white_space(s[0]) {
        trim_start(s.drop_first())
    } else {
        s
    }
}

/// `s` without its trailing white space.
pub open spec fn trim_end(s: Seq<char>) -> Seq<char>
    decreases s.len(),
{
    if s.len() > 0 && white_space(s.last()) {
        trim_end(s.drop_last())
    } else {
        s
    }
}

/// Whether `c` has the Unicode `White_Space` property, as `char::is_whitespace`
/// decides.
pub fn is_whitespace(c: char) -> (r: bool)
    ensures
        r == white_space(c),
{
    let v: u32 = c as u32;
    (0x9 <= v && v <= 0xD) || v == 0x20 || v == 0x85 || v == 0xA0 || v == 0x1680 || (0x2000 <= v
        && v <= 0x200A) || v == 0x2028 || v == 0x2029 || v == 0x202F || v == 0x205F || v == 0x3000
}

/// `str::trim`: the text without its leading and trailing white space, where
/// white space is what `char::is_whitespace` accepts.
#[verifier::external_body]
pub(crate) fn trim(s: &str) -> (r: &str)
    ensures
        r@ == trim_end(trim_start(s@)),
{
    s.trim()
}

/// `str::ends_with` with a character pattern: whether the last character of
/// the text is `c`.
#[verifier::external_body]
pub(crate) fn ends_with_char(s: &str, c: char) -> (r: bool)
    ensures
        r == (s@.len() > 0 && s@.last() == c),
{
    s.ends_with(c)
}

/// `String::insert`: puts `c` at byte position `idx`, which must be a
/// character boundary (the call panics otherwise).
#[verifier::external_body]
pub(crate) fn string_insert(s: &mut String, idx: usize, c: char)
    requires
        is_boundary(old(s)@, idx as int),
    ensures
        final(s)@ == old(s)@.take(char_index(old(s)@, idx as int)).push(c) + old(s)@.skip(
            char_index(old(s)@, idx as int),
        ),
{
    s.insert(idx, c)
}

/// `String::replace_range`: replaces the bytes `start..end`, both character
/// boundaries with `start <= end` (the call panics otherwise), by `with`.
#[verifier::external_body]
pub(crate) fn string_replace_range(s: &mut String, start: usize, end: usize, with: &str)
    requires
        is_boundary(old(s)@, start as int),
        is_boundary(old(s)@, end as int),
        start <= end,
    ensures
        final(s)@ == old(s)@.take(char_index(old(s)@, start as int)) + with@ + old(s)@.skip(
            char_index(old(s)@, end as int),
        ),
{
    s.replace_range(start..end, with)
}

/// `UnicodeWidthStr::width` of unicode-width: the displayed width of the text
/// in columns. The contract names that width; of its value it states that the
/// empty text has width 0 and that printable ASCII text (U+0020 to U+007E)
/// is one column per character: the source adds 1 for each character up to
/// U+00A0 other than a line feed and a carriage return before one.
#[verifier::external_body]
pub(crate) fn str_width(s: &str) -> (r: usize)
    ensures
        r == display_width(s@),
        s@.len() == 0 ==> r == 0,
        printable_ascii(s@) ==> r == s@.len(),
{
    s.width()
}

/// `GraphemeCursor::new(offset, s.len(), false)` followed by
/// `next_boundary(s, 0)` of unicode-segmentation, with the whole text as the
/// chunk: the next legacy grapheme boundary after `offset`. `offset` must be a
/// character boundary (the call slices the text there). With the whole text
/// given, the source returns `Ok(None)` exactly at the end and otherwise a
/// later offset reached by stepping over whole characters; no error arises.
/// Between two ASCII characters other than a carriage return and a line feed
/// the grapheme rules always break, so in ASCII text without carriage returns
/// the next boundary is one byte on.
#[verifier::external_body]
pub(crate) fn grapheme_next(s: &str, offset: usize) -> (r: Option<usize>)
    requires
        is_boundary(s@, offset as int),
    ensures
        r == next_grapheme_boundary(s@, offset),
        r is None <==> offset == utf8_len(s@),
        r matches Some(p) ==> offset < p && is_boundary(s@, p as int),
        ascii_without_cr(s@) && offset < utf8_len(s@) ==> r == Some((offset + 1) as usize),
{
    let mut cursor = GraphemeCursor::new(offset, s.len(), false);
    match cursor.next_boundary(s, 0) {
        Ok(r) => r,
        Err(_) => None,
    }
}

/// `GraphemeCursor::new(offset, s.len(), false)` followed by
/// `prev_boundary(s, 0)` of unicode-segmentation, with the whole text as the
/// chunk: the previous legacy grapheme boundary before `offset`. `offset` must
/// be a character boundary. With the whole text given, the source returns
/// `Ok(None)` exactly at offset 0 and otherwise an earlier offset reached by
/// stepping back over whole characters; no error arises. In ASCII text
/// without carriage returns the previous boundary is one byte back.
#[verifier::external_body]
pub(crate) fn grapheme_prev(s: &str, offset: usize) -> (r: Option<usize>)
    requires
        is_boundary(s@, offset as int),
    ensures
        r == prev_grapheme_boundary(s@, offset),
        r is None <==> offset == 0,
        r matches Some(p) ==> p < offset && is_boundary(s@, p as int),
        ascii_without_cr(s@) && offset > 0 ==> r == Some((offset - 1) as usize),
{
    let mut cursor = GraphemeCursor::new(offset, s.len(), false);
    match cursor.prev_boundary(s, 0) {
        Ok(r) => r,
        Err(_) => None,
    }
}

/// Byte length of the text.
pub fn text_len(s: &str) -> (n: usize)
    ensures
        n == utf8_len(s@),
{
    proof {
        lemma_utf8_len_encoding(s@);
    }
    let bytes = s.as_bytes();
    bytes.len()
}

/// Number of UTF-8 bytes of `c`.
pub fn char_len_utf8(c: char) -> (n: usize)
    ensures
        n == char_utf8_len(c),
{
    let v: u32 = c as u32;
    if v < 0x80 {
        1
    } else if v < 0x800 {
        2
    } else if v < 0x10000 {
        3
    } else {
        4
    }
}

/// The characters of the text with the byte offset at which each starts.
pub fn char_table(s: &str) -> (r: (Vec<char>, Vec<usize>))
    ensures
        r.0@ == s@,
        r.1@.len() == s@.len(),
        forall|k: int| 0 <= k < s@.len() ==> r.1@[k] == byte_offset(s@, k),
{
    let mut chars: Vec<char> = Vec::new();
    let mut offsets: Vec<usize> = Vec::new();
    let total = text_len(s);
    let mut pos: usize = 0;
    for c in it: s.chars()
        invariant
            total == utf8_len(s@),
            chars@ == it.seq().take(it.index() as int),
            offsets@.len() == chars@.len(),
            forall|k: int| 0 <= k < offsets@.len() ==> offsets@[k] == byte_offset(s@, k),
            pos == byte_offset(s@, chars@.len() as int),
            it.seq() == s@,
    {
        proof {
            lemma_byte_offset_step(s@, chars@.len() as int);
            lemma_byte_offset_le(s@, (chars@.len() + 1) as int, (chars@.len() + 1) as int);
        }
        offsets.push(pos);
        chars.push(c);
        let w = char_len_utf8(c);
        pos = pos + w;
    }
    (chars, offsets)
}

/// Whether byte offset `b` is a character boundary of the text.
pub fn is_char_boundary_at(s: &str, b: usize) -> (r: bool)
    ensures
        r == is_boundary(s@, b as int),
{
    let (chars, offsets) = char_table(s);
    let n = offsets.len();
    let total = text_len(s);
    proof {
        lemma_byte_offset_ends(s@);
    }
    if b == total {
        proof {
            lemma_char_index(s@, s@.len() as int);
        }
        return true;
    }
    let mut k: usize = 0;
    while k < n
        invariant
            n == s@.len(),
            k <= n,
            offsets@.len() == n,
            forall|j: int| 0 <= j < n ==> offsets@[j] == byte_offset(s@, j),
            forall|j: int| 0 <= j < k ==> byte_offset(s@, j) != b,
        decreases n - k,
    {
        if offsets[k] == b {
            proof {
                lemma_char_index(s@, k as int);
            }
            return true;
        }
        k = k + 1;
    }
    proof {
        if is_boundary(s@, b as int) {
            let j = char_index(s@, b as int);
            lemma_boundary(s@, b as int);
            assert(byte_offset(s@, j) == b);
        }
    }
    false
}

/// Whether the text is empty or ends with an ASCII character.
pub fn ends_ascii_or_empty(s: &str) -> (r: bool)
    ensures
        r == (s@.len() == 0 || (s@.last() as u32) < 0x80),
{
    let (chars, offsets) = char_table(s);
    let n = chars.len();
    if n == 0 {
        true
    } else {
        let last: u32 = chars[n - 1] as u32;
        last < 0x80
    }
}

/// `&s[..end]`: the text before byte `end`, which must be a character
/// boundary (the slicing panics otherwise).
#[verifier::external_body]
pub(crate) fn str_prefix(s: &str, end: usize) -> (r: &str)
    requires
        is_boundary(s@, end as int),
    ensures
        r@ == s@.take(char_index(s@, end as int)),
{
    &s[..end]
}

/// What the grapheme boundaries of `s` are known to be at byte `o`: the next
/// boundary lies further on, and is missing only at the end; the previous one
/// lies before, and is missing only at the start; in ASCII text without
/// carriage returns both are one byte away.
pub open spec fn grapheme_steps_at(s: Seq<char>, o: usize) -> bool {
    &&& (next_grapheme_boundary(s, o) is None <==> o == utf8_len(s))
    &&& (next_grapheme_boundary(s, o) matches Some(p) ==> o < p && is_boundary(s, p as int))
    &&& (prev_grapheme_boundary(s, o) is None <==> o == 0)
    &&& (prev_grapheme_boundary(s, o) matches Some(p) ==> p < o && is_boundary(s, p as int))
    &&& (ascii_without_cr(s) && o < utf8_len(s) ==> next_grapheme_boundary(s, o) == Some(
        (o + 1) as usize,
    ))
    &&& (ascii_without_cr(s) && o > 0 ==> prev_grapheme_boundary(s, o) == Some((o - 1) as usize))
}

/// The grapheme steps of `s` are known at every character boundary.
pub open spec fn grapheme_steps_known(s: Seq<char>) -> bool {
    forall|o: usize| #[trigger] is_boundary(s, o as int) ==> grapheme_steps_at(s, o)
}

/// Looks up the grapheme steps of `s` at every character boundary, so that
/// what the grapheme boundaries are known to be holds of all of them.
pub fn learn_grapheme_steps(s: &str)
    ensures
        grapheme_steps_known(s@),
{
    let (chars, offsets) = char_table(s);
    let n = offsets.len();
    let total = text_len(s);
    let mut k: usize = 0;
    while k < n
        invariant
            n == s@.len() == offsets@.len(),
            total == utf8_len(s@),
            k <= n,
            forall|j: int| 0 <= j < n ==> offsets@[j] == byte_offset(s@, j),
            forall|j: int| 0 <= j < k ==> grapheme_steps_at(s@, #[trigger] offsets@[j]),
        decreases n - k,
    {
        proof {
            lemma_char_index(s@, k as int);
        }
        let _ = grapheme_next(s, offsets[k]);
        let _ = grapheme_prev(s, offsets[k]);
        k = k + 1;
    }
    proof {
        lemma_byte_offset_ends(s@);
        lemma_char_index(s@, n as int);
    }
    let _ = grapheme_next(s, total);
    let _ = grapheme_prev(s, total);
    proof {
        assert forall|o: usize| #[trigger] is_boundary(s@, o as int) implies grapheme_steps_at(
            s@,
            o,
        ) by {
            lemma_boundary(s@, o as int);
            let j = char_index(s@, o as int);
            if j < n {
                assert(offsets@[j] == o);
            }
        }
    }
}

} // verus!
