//! Where the cursor of a prompt line goes: by grapheme cluster, by word, or to
//! either end of the line.

use vstd::prelude::*;

use crate::offsets::{
    byte_offset, char_index, is_boundary, lemma_boundary, lemma_byte_offset_ends,
    lemma_byte_offset_step, lemma_char_index, lemma_char_utf8_len_bounds, utf8_len,
};
use crate::text::{
    char_table, grapheme_next, grapheme_prev, is_whitespace, next_grapheme_boundary,
    prev_grapheme_boundary, text_len, white_space,
};

verus! {

/// A movement of the cursor; the counts say how many steps to take.
#[derive(Debug, Clone, Copy)]
pub enum Movement {
    BackwardChar(usize),
    BackwardWord(usize),
    ForwardChar(usize),
    ForwardWord(usize),
    StartOfLine,
    EndOfLine,
    NoMovement,
}

/// The offset reached from `pos` after up to `rep` steps back to the previous
/// grapheme boundary, stopping at the start of the text.
pub open spec fn graphemes_back(s: Seq<char>, pos: usize, rep: nat) -> usize
    decreases rep,
{
    if rep == 0 {
        pos
    } else {
        match prev_grapheme_boundary(s, pos) {
            Some(p) => graphemes_back(s, p, (rep - 1) as nat),
            None => pos,
        }
    }
}

/// The offset reached from `pos` after up to `rep` steps forward to the next
/// grapheme boundary, stopping at the end of the text.
pub open spec fn graphemes_forward(s: Seq<char>, pos: usize, rep: nat) -> usize
    decreases rep,
{
    if rep == 0 {
        pos
    } else {
        match next_grapheme_boundary(s, pos) {
            Some(p) => graphemes_forward(s, p, (rep - 1) as nat),
            None => pos,
        }
    }
}

/// Index of the last white-space character with index below `hi`, or -1.
pub open spec fn last_space_before(s: Seq<char>, hi: int) -> int
    decreases hi,
{
    if hi <= 0 {
        -1
    } else if white_space(s[hi - 1]) {
        hi - 1
    } else {
        last_space_before(s, hi - 1)
    }
}

/// One step back by word from character index `p`: just after the last white
/// space that comes before index `p - 1`, or the start of the line.
pub open spec fn word_back_step(s: Seq<char>, p: int) -> int {
    last_space_before(s, p - 1) + 1
}

/// Up to `rep` steps back by word from character index `p`, stopping at 0.
pub open spec fn words_back(s: Seq<char>, p: int, rep: nat) -> int
    decreases rep,
{
    if rep == 0 || p == 0 {
        p
    } else {
        words_back(s, word_back_step(s, p), (rep - 1) as nat)
    }
}

/// First index at or after `p` that is the end or holds white space.
pub open spec fn skip_word(s: Seq<char>, p: int) -> int
    decreases s.len() - p,
{
    if 0 <= p < s.len() && !white_space(s[p]) {
        skip_word(s, p + 1)
    } else {
        p
    }
}

/// First index at or after `p` that is the end or holds no white space.
pub open spec fn skip_space(s: Seq<char>, p: int) -> int
    decreases s.len() - p,
{
    if 0 <= p < s.len() && white_space(s[p]) {
        skip_space(s, p + 1)
    } else {
        p
    }
}

/// `rep` steps forward by word from character index `p`: each step passes the
/// rest of a word and the white space after it, reaching the next word start.
pub open spec fn words_forward(s: Seq<char>, p: int, rep: nat) -> int
    decreases rep,
{
    if rep == 0 {
        p
    } else {
        words_forward(s, skip_space(s, skip_word(s, p)), (rep - 1) as nat)
    }
}

/// The line is empty or its last character is ASCII: only then can the
/// end-of-line movement look at the line's last byte.
pub open spec fn end_reachable(s: Seq<char>) -> bool {
    s.len() == 0 || (s.last() as u32) < 0x80
}

/// The index of the character that starts at byte `cursor`, or the length of
/// the line where no character starts there.
pub open spec fn cursor_char(s: Seq<char>, cursor: int) -> int {
    if exists|k: int| 0 <= k < s.len() && #[trigger] byte_offset(s, k) == cursor {
        choose|k: int| 0 <= k < s.len() && #[trigger] byte_offset(s, k) == cursor
    } else {
        s.len() as int
    }
}

/// On a character boundary, `cursor_char` is the index of the boundary.
pub proof fn lemma_cursor_char(s: Seq<char>, cursor: int)
    requires
        is_boundary(s, cursor),
    ensures
        cursor_char(s, cursor) == char_index(s, cursor),
{
    lemma_boundary(s, cursor);
    let c = char_index(s, cursor);
    if exists|k: int| 0 <= k < s.len() && #[trigger] byte_offset(s, k) == cursor {
        let k = choose|k: int| 0 <= k < s.len() && #[trigger] byte_offset(s, k) == cursor;
        lemma_char_index(s, k);
    } else {
        if c < s.len() {
            assert(byte_offset(s, c) == cursor);
        }
    }
}

/// The byte offset that `movement` gives from cursor `cursor` on line `s`.
pub open spec fn movement_target(s: Seq<char>, cursor: usize, movement: Movement) -> int {
    match movement {
        Movement::BackwardChar(rep) => graphemes_back(s, cursor, rep as nat) as int,
        Movement::ForwardChar(rep) => graphemes_forward(s, cursor, rep as nat) as int,
        Movement::BackwardWord(rep) => if s.len() == 0 {
            cursor as int
        } else {
            let start = if cursor_char(s, cursor as int) < s.len() {
                cursor_char(s, cursor as int)
            } else {
                s.len() - 1
            };
            byte_offset(s, words_back(s, start, rep as nat)) as int
        },
        Movement::ForwardWord(rep) => if s.len() == 0 {
            cursor as int
        } else {
            byte_offset(s, words_forward(s, cursor_char(s, cursor as int), rep as nat)) as int
        },
        Movement::StartOfLine => 0,
        Movement::EndOfLine => if s.len() == 0 {
            cursor as int
        } else {
            utf8_len(s) as int
        },
        Movement::NoMovement => cursor as int,
    }
}

/// What a movement asks of the line and the cursor: the end-of-line movement
/// needs `end_reachable`, and a grapheme step needs the cursor on a character
/// boundary.
pub open spec fn movement_allowed(s: Seq<char>, cursor: usize, movement: Movement) -> bool {
    match movement {
        Movement::EndOfLine => end_reachable(s),
        Movement::BackwardChar(rep) => rep > 0 ==> is_boundary(s, cursor as int),
        Movement::ForwardChar(rep) => rep > 0 ==> is_boundary(s, cursor as int),
        _ => true,
    }
}

pub proof fn lemma_last_space_before(s: Seq<char>, hi: int)
    requires
        0 <= hi <= s.len(),
    ensures
        -1 <= last_space_before(s, hi) < hi,
        hi <= 0 ==> last_space_before(s, hi) == -1,
        last_space_before(s, hi) >= 0 ==> white_space(s[last_space_before(s, hi)]),
    decreases hi,
{
    if hi > 0 && !white_space(s[hi - 1]) {
        lemma_last_space_before(s, hi - 1);
    }
}

proof fn lemma_words_back(s: Seq<char>, p: int, rep: nat)
    requires
        0 <= p <= s.len(),
    ensures
        0 <= words_back(s, p, rep) <= p,
    decreases rep,
{
    if rep > 0 && p > 0 {
        lemma_last_space_before(s, p - 1);
        lemma_words_back(s, word_back_step(s, p), (rep - 1) as nat);
    }
}

/// The character index at which `cursor` lies, found by scanning the offsets.
fn find_char_index(offsets: &Vec<usize>, cursor: usize, Ghost(s): Ghost<Seq<char>>) -> (k: usize)
    requires
        offsets@.len() == s.len(),
        forall|j: int| 0 <= j < s.len() ==> offsets@[j] == byte_offset(s, j),
    ensures
        k == cursor_char(s, cursor as int),
        k <= s.len(),
{
    let n = offsets.len();
    let mut k: usize = 0;
    while k < n && offsets[k] != cursor
        invariant
            n == offsets@.len() == s.len(),
            k <= n,
            forall|j: int| 0 <= j < s.len() ==> offsets@[j] == byte_offset(s, j),
            forall|j: int| 0 <= j < k ==> byte_offset(s, j) != cursor,
        decreases n - k,
    {
        k = k + 1;
    }
    proof {
        if k < n {
            assert(byte_offset(s, k as int) == cursor);
            let j = choose|j: int| 0 <= j < s.len() && #[trigger] byte_offset(s, j) == cursor;
            if j < k {
                crate::offsets::lemma_byte_offset_strict(s, j, k as int);
            } else if k < j {
                crate::offsets::lemma_byte_offset_strict(s, k as int, j);
            }
        }
    }
    k
}

fn back_by_graphemes(line: &str, cursor: usize, rep: usize) -> (r: usize)
    requires
        rep > 0 ==> is_boundary(line@, cursor as int),
    ensures
        r == graphemes_back(line@, cursor, rep as nat),
        is_boundary(line@, cursor as int) ==> is_boundary(line@, r as int) && r <= cursor,
{
    if rep == 0 {
        return cursor;
    }
    let mut position = cursor;
    let mut i: usize = 0;
    while i < rep
        invariant
            i <= rep,
            is_boundary(line@, position as int),
            position <= cursor,
            graphemes_back(line@, cursor, rep as nat) == graphemes_back(
                line@,
                position,
                (rep - i) as nat,
            ),
        decreases rep - i,
    {
        match grapheme_prev(line, position) {
            Some(p) => {
                position = p;
            },
            None => {
                return position;
            },
        }
        i = i + 1;
    }
    position
}

fn forward_by_graphemes(line: &str, cursor: usize, rep: usize) -> (r: usize)
    requires
        rep > 0 ==> is_boundary(line@, cursor as int),
    ensures
        r == graphemes_forward(line@, cursor, rep as nat),
        is_boundary(line@, cursor as int) ==> is_boundary(line@, r as int) && r >= cursor,
{
    if rep == 0 {
        return cursor;
    }
    let mut position = cursor;
    let mut i: usize = 0;
    while i < rep
        invariant
            i <= rep,
            is_boundary(line@, position as int),
            position >= cursor,
            graphemes_forward(line@, cursor, rep as nat) == graphemes_forward(
                line@,
                position,
                (rep - i) as nat,
            ),
        decreases rep - i,
    {
        match grapheme_next(line, position) {
            Some(p) => {
                position = p;
            },
            None => {
                return position;
            },
        }
        i = i + 1;
    }
    position
}

fn back_by_words(line: &str, cursor: usize, rep: usize) -> (r: usize)
    ensures
        r == movement_target(line@, cursor, Movement::BackwardWord(rep)),
        is_boundary(line@, cursor as int) ==> is_boundary(line@, r as int) && r <= cursor,
{
    let ghost s = line@;
    let (chars, offsets) = char_table(line);
    let n = chars.len();
    if n == 0 {
        return cursor;
    }
    let k = find_char_index(&offsets, cursor, Ghost(s));
    let start = if k < n {
        k
    } else {
        n - 1
    };
    let mut p = start;
    let mut i: usize = 0;
    while i < rep
        invariant
            i <= rep,
            n == chars@.len() == s.len(),
            chars@ == s,
            p < n,
            words_back(s, start as int, rep as nat) == words_back(s, p as int, (rep - i) as nat),
        ensures
            p == words_back(s, start as int, rep as nat),
        decreases rep - i,
    {
        if p == 0 {
            break;
        }
        // Scan back from index `p - 2` for white space; the step ends just
        // after it, or at the start of the line.
        let mut j: usize = p - 1;
        while j > 0 && !is_whitespace(chars[j - 1])
            invariant
                j <= p - 1,
                p < n,
                chars@ == s,
                n == s.len(),
                last_space_before(s, p - 1) == last_space_before(s, j as int),
            decreases j,
        {
            j = j - 1;
        }
        proof {
            lemma_last_space_before(s, j as int);
            assert(word_back_step(s, p as int) == j);
        }
        p = j;
        i = i + 1;
    }
    proof {
        lemma_words_back(s, start as int, rep as nat);
        lemma_words_back(s, p as int, (rep - i) as nat);
        lemma_char_index(s, p as int);
        if is_boundary(s, cursor as int) {
            lemma_boundary(s, cursor as int);
            lemma_cursor_char(s, cursor as int);
            crate::offsets::lemma_byte_offset_le(s, p as int, k as int);
        }
    }
    offsets[p]
}

fn forward_by_words(line: &str, cursor: usize, rep: usize) -> (r: usize)
    ensures
        r == movement_target(line@, cursor, Movement::ForwardWord(rep)),
        is_boundary(line@, cursor as int) ==> is_boundary(line@, r as int) && r >= cursor,
{
    let ghost s = line@;
    let (chars, offsets) = char_table(line);
    let n = chars.len();
    if n == 0 {
        return cursor;
    }
    let k = find_char_index(&offsets, cursor, Ghost(s));
    let mut p = k;
    let mut i: usize = 0;
    while i < rep
        invariant
            i <= rep,
            n == chars@.len() == s.len(),
            chars@ == s,
            k <= p <= n,
            words_forward(s, k as int, rep as nat) == words_forward(
                s,
                p as int,
                (rep - i) as nat,
            ),
        decreases rep - i,
    {
        let ghost p0 = p as int;
        // Pass the rest of the current word.
        while p < n && !is_whitespace(chars[p])
            invariant
                k <= p <= n,
                n == s.len(),
                chars@ == s,
                skip_word(s, p0) == skip_word(s, p as int),
            decreases n - p,
        {
            p = p + 1;
        }
        let ghost p1 = p as int;
        // Pass the white space after it.
        while p < n && is_whitespace(chars[p])
            invariant
                k <= p <= n,
                n == s.len(),
                chars@ == s,
                skip_space(s, p1) == skip_space(s, p as int),
            decreases n - p,
        {
            p = p + 1;
        }
        i = i + 1;
    }
    proof {
        lemma_char_index(s, p as int);
        lemma_byte_offset_ends(s);
        if is_boundary(s, cursor as int) {
            lemma_boundary(s, cursor as int);
            lemma_cursor_char(s, cursor as int);
            crate::offsets::lemma_byte_offset_le(s, k as int, p as int);
        }
    }
    if p < n {
        offsets[p]
    } else {
        text_len(line)
    }
}

/// The byte offset that `movement` takes the cursor to.
pub fn eval_movement(line: &str, cursor: usize, movement: Movement) -> (r: usize)
    requires
        movement_allowed(line@, cursor, movement),
    ensures
        r == movement_target(line@, cursor, movement),
        is_boundary(line@, cursor as int) ==> is_boundary(line@, r as int),
        is_boundary(line@, cursor as int) && (movement is BackwardChar
            || movement is BackwardWord) ==> r <= cursor,
        is_boundary(line@, cursor as int) && (movement is ForwardChar || movement is ForwardWord)
            ==> r >= cursor,
{
    match movement {
        Movement::BackwardChar(rep) => back_by_graphemes(line, cursor, rep),
        Movement::BackwardWord(rep) => back_by_words(line, cursor, rep),
        Movement::ForwardWord(rep) => forward_by_words(line, cursor, rep),
        Movement::ForwardChar(rep) => forward_by_graphemes(line, cursor, rep),
        Movement::StartOfLine => {
            proof {
                lemma_char_index(line@, 0);
                lemma_byte_offset_ends(line@);
            }
            0
        },
        Movement::EndOfLine => {
            let len = text_len(line);
            proof {
                lemma_byte_offset_ends(line@);
                lemma_char_index(line@, line@.len() as int);
            }
            if len == 0 {
                cursor
            } else {
                // The last character is ASCII, so the line's last byte starts it.
                proof {
                    let s = line@;
                    let m = s.len() - 1;
                    lemma_byte_offset_step(s, m);
                    lemma_char_utf8_len_bounds(s[m]);
                    assert(s.take(m + 1) =~= s);
                    lemma_char_index(s, m);
                }
                match grapheme_next(line, len - 1) {
                    Some(pos) => {
                        proof {
                            lemma_boundary(line@, pos as int);
                        }
                        pos
                    },
                    None => cursor,
                }
            }
        },
        Movement::NoMovement => cursor,
    }
}

} // verus!
