//! Properties that hold across the operations of the prompt.

use vstd::prelude::*;

use crate::event::{command_allowed, event_allowed, key_command, Command, Event};
use crate::layout::{
    doc_request, len_u16, longest_completion, rect_inner, rect_intersection, Margin, BASE_WIDTH,
    completion_area, layout_allowed, menu_capacity, menu_count, menu_item, menu_offset,
    menu_shape, Rect,
};
use crate::movement::{
    cursor_char, end_reachable, graphemes_back, graphemes_forward, lemma_cursor_char,
    last_space_before, lemma_last_space_before, movement_target, skip_space, skip_word,
    word_back_step, words_back, words_forward, Movement,
};
use crate::offsets::{
    byte_offset, char_index, char_utf8_len, is_boundary, lemma_boundary, lemma_byte_offset_ends,
    lemma_byte_offset_prefix,
    lemma_byte_offset_step, lemma_char_index, utf8_len,
};
use crate::prompt::{
    after_completion_step, after_delete_back, completion_step_allowed, after_insert, after_kill, line_with_char,
    next_selection, well_formed, CompletionDirection, PromptView,
};
use crate::info::{
    entry_line, info_text, info_width, joined_keys, keymaps_width, keys_sum, keys_width,
    lemma_keymaps_width, shown_description, spaces, width_u16,
};
use crate::text::{
    ascii_without_cr, grapheme_steps_at, grapheme_steps_known, next_grapheme_boundary,
    prev_grapheme_boundary, printable_ascii, trim_end, trim_start, white_space,
};

verus! {

/// Backspace undoes the insertion of a character that stands as a grapheme
/// cluster of its own: the line and the cursor are as before the insertion.
pub proof fn law_backspace_undoes_insert(
    old: PromptView,
    c: char,
    mid: PromptView,
    new: PromptView,
)
    requires
        well_formed(old),
        old.cursor + char_utf8_len(c) <= usize::MAX,
        after_insert(old, c, mid),
        next_grapheme_boundary(line_with_char(old, c), old.cursor) == Some(
            (old.cursor + char_utf8_len(c)) as usize,
        ),
        prev_grapheme_boundary(line_with_char(old, c), (old.cursor + char_utf8_len(c)) as usize)
            == Some(old.cursor),
        after_delete_back(
            mid,
            movement_target(mid.line, mid.cursor, Movement::BackwardChar(1)),
            new,
        ),
    ensures
        new.line == old.line,
        new.cursor == old.cursor,
{
    let s = old.line;
    lemma_boundary(s, old.cursor as int);
    let k = char_index(s, old.cursor as int);
    let pre = s.take(k);
    let l = line_with_char(old, c);
    assert(l =~= pre + (seq![c] + s.skip(k)));
    assert(s =~= pre + s.skip(k));
    lemma_byte_offset_prefix(pre, seq![c] + s.skip(k), k);
    lemma_byte_offset_prefix(pre, s.skip(k), k);
    assert(l[k] == c);
    lemma_byte_offset_step(l, k);
    lemma_char_index(l, k);
    lemma_char_index(l, k + 1);
    reveal_with_fuel(graphemes_back, 2);
    assert(mid.line == l);
    assert(mid.cursor == old.cursor + char_utf8_len(c));
    assert(byte_offset(l, k + 1) == old.cursor + char_utf8_len(c));
    assert(movement_target(mid.line, mid.cursor, Movement::BackwardChar(1)) == old.cursor);
    assert(char_index(l, old.cursor as int) == k);
    assert(char_index(l, mid.cursor as int) == k + 1);
    assert(l.take(k) =~= pre);
    assert(l.skip(k + 1) =~= s.skip(k));
    assert(new.line =~= pre + s.skip(k));
}

/// Moving the completion selection back undoes moving it forward, and the
/// other way round.
pub proof fn law_selection_steps_undo(i: usize, len: nat)
    requires
        i < len,
        len <= usize::MAX,
    ensures
        next_selection(
            Some(next_selection(Some(i), len, CompletionDirection::Forward) as usize),
            len,
            CompletionDirection::Backward,
        ) == i,
        next_selection(
            Some(next_selection(Some(i), len, CompletionDirection::Backward) as usize),
            len,
            CompletionDirection::Forward,
        ) == i,
{
    let n = len as int;
    let f = (i + 1) % n;
    let b = (i + n - 1) % n;
    if i + 1 < n {
        vstd::arithmetic::div_mod::lemma_small_mod((i + 1) as nat, len);
        vstd::arithmetic::div_mod::lemma_fundamental_div_mod_converse_mod(f + n - 1, n, 1, i as int);
    } else {
        vstd::arithmetic::div_mod::lemma_mod_self_0(n);
        vstd::arithmetic::div_mod::lemma_small_mod((n - 1) as nat, len);
    }
    if i > 0 {
        vstd::arithmetic::div_mod::lemma_fundamental_div_mod_converse_mod(i + n - 1, n, 1, i - 1);
        vstd::arithmetic::div_mod::lemma_small_mod(i as nat, len);
    } else {
        vstd::arithmetic::div_mod::lemma_small_mod((n - 1) as nat, len);
        vstd::arithmetic::div_mod::lemma_mod_self_0(n);
    }
}

/// After deleting to the end of the line, the cursor is at the end of the
/// line.
pub proof fn law_kill_leaves_cursor_at_end(old: PromptView, new: PromptView)
    requires
        well_formed(old),
        after_kill(old, new),
    ensures
        new.cursor == utf8_len(new.line),
{
    lemma_boundary(old.line, old.cursor as int);
}

/// The end-of-line movement and moving to the end agree.
pub proof fn law_end_of_line_is_move_end(v: PromptView)
    requires
        well_formed(v),
        end_reachable(v.line),
    ensures
        movement_target(v.line, v.cursor, Movement::EndOfLine) == utf8_len(v.line),
        movement_target(v.line, v.cursor, Movement::StartOfLine) == 0,
{
}

/// The selected completion is always among those shown, marked selected.
pub proof fn law_selection_is_shown(v: PromptView, area: Rect)
    requires
        well_formed(v),
        layout_allowed(v, area),
        v.selection is Some,
    ensures
        exists|j: int|
            0 <= j < menu_count(v, area) && (#[trigger] menu_item(v, area, j)).index
                == v.selection->0 && menu_item(v, area, j).selected,
{
    let s = v.selection->0 as int;
    let cap = menu_capacity(v, area);
    let shape = menu_shape(v, area);
    assert(shape.height > 0);
    assert(shape.cols >= 1);
    assert(cap > 0) by (nonlinear_arith)
        requires
            cap == shape.height * shape.cols,
            shape.height > 0,
            shape.cols >= 1,
    ;
    vstd::arithmetic::div_mod::lemma_fundamental_div_mod(s, cap);
    vstd::arithmetic::div_mod::lemma_mod_pos_bound(s, cap);
    assert(s / cap * cap == cap * (s / cap)) by (nonlinear_arith);
    let j = s - menu_offset(v, area);
    assert(0 <= j < menu_count(v, area));
    assert(menu_item(v, area, j).index == v.selection->0);
}

/// Every completion shown lies within the area: its text, cut to its width,
/// ends before the right edge, and its row is one of the menu's rows.
pub proof fn law_menu_items_inside(v: PromptView, area: Rect, j: int)
    requires
        well_formed(v),
        layout_allowed(v, area),
        0 <= j < menu_count(v, area),
    ensures
        menu_item(v, area, j).x + menu_item(v, area, j).max_width < area.x + area.width,
        completion_area(v, area).y <= menu_item(v, area, j).y < completion_area(v, area).y
            + completion_area(v, area).height,
        menu_item(v, area, j).index < v.completion.len(),
{
    let shape = menu_shape(v, area);
    let h = shape.height;
    let cols = shape.cols;
    let cw = shape.col_width;
    let w = area.width as int;
    let cap = menu_capacity(v, area);
    let count = menu_count(v, area);
    assert(h > 0) by (nonlinear_arith)
        requires
            cap == h * cols,
            0 <= j < count,
            count <= cap,
            cols >= 1,
            h >= 0,
    ;
    vstd::arithmetic::div_mod::lemma_fundamental_div_mod(j, h);
    vstd::arithmetic::div_mod::lemma_mod_pos_bound(j, h);
    let col = j / h;
    assert(col < cols) by (nonlinear_arith)
        requires
            j == h * col + j % h,
            j % h >= 0,
            j < cap,
            cap == h * cols,
            h > 0,
    ;
    assert(cols * (1 + cw) <= w) by (nonlinear_arith)
        requires
            cw == (w - cols) / cols,
            cols >= 1,
            w >= cols,
    ;
    assert(col * (1 + cw) + cw < w) by (nonlinear_arith)
        requires
            0 <= col < cols,
            cols * (1 + cw) <= w,
            cw >= 0,
    ;
    assert(0 <= col * (1 + cw)) by (nonlinear_arith)
        requires
            col >= 0,
            cw >= 0,
    ;
    vstd::arithmetic::div_mod::lemma_div_is_ordered(j, count - 1, h);
    vstd::arithmetic::mul::lemma_mul_inequality(col, (count - 1) / h, 1 + cw);
}

proof fn lemma_skip_word_stop(s: Seq<char>, p: int)
    requires
        0 <= p <= s.len(),
    ensures
        p <= skip_word(s, p) <= s.len(),
        skip_word(s, p) < s.len() ==> white_space(s[skip_word(s, p)]),
        skip_word(s, p) > p ==> !white_space(s[skip_word(s, p) - 1]),
    decreases s.len() - p,
{
    if p < s.len() && !white_space(s[p]) {
        lemma_skip_word_stop(s, p + 1);
    }
}

proof fn lemma_skip_space_stop(s: Seq<char>, p: int)
    requires
        0 <= p <= s.len(),
    ensures
        p <= skip_space(s, p) <= s.len(),
        skip_space(s, p) < s.len() ==> !white_space(s[skip_space(s, p)]),
        skip_space(s, p) > p ==> white_space(s[skip_space(s, p) - 1]),
    decreases s.len() - p,
{
    if p < s.len() && white_space(s[p]) {
        lemma_skip_space_stop(s, p + 1);
    }
}

proof fn lemma_words_forward_start(s: Seq<char>, p: int, rep: nat)
    requires
        0 <= p <= s.len(),
        rep >= 1,
    ensures
        p <= words_forward(s, p, rep) <= s.len(),
        ({
            let q = words_forward(s, p, rep);
            q == s.len() || (0 < q && !white_space(s[q]) && white_space(s[q - 1]))
        }),
    decreases rep,
{
    let a = skip_word(s, p);
    lemma_skip_word_stop(s, p);
    lemma_skip_space_stop(s, a);
    let b = skip_space(s, a);
    if b < s.len() {
        assert(b > a) by {
            if b == a && a < s.len() {
                assert(white_space(s[a]));
            }
        }
    }
    assert(words_forward(s, p, rep) == words_forward(s, b, (rep - 1) as nat));
    if rep > 1 {
        lemma_words_forward_start(s, b, (rep - 1) as nat);
    } else {
        assert(words_forward(s, b, 0) == b);
    }
}

proof fn lemma_words_back_start(s: Seq<char>, p: int, rep: nat)
    requires
        0 <= p <= s.len(),
        rep >= 1,
    ensures
        0 <= words_back(s, p, rep) <= p,
        ({
            let q = words_back(s, p, rep);
            q == 0 || white_space(s[q - 1])
        }),
    decreases rep,
{
    if p > 0 {
        lemma_last_space_before(s, p - 1);
        let q = word_back_step(s, p);
        assert(words_back(s, p, rep) == words_back(s, q, (rep - 1) as nat));
        if rep > 1 {
            lemma_words_back_start(s, q, (rep - 1) as nat);
        } else {
            assert(words_back(s, q, 0) == q);
        }
    }
}

/// A forward word movement ends at the end of the line or at the start of a
/// word: a character that is not white space, right after one that is.
pub proof fn law_forward_word_reaches_word_start(s: Seq<char>, cursor: usize, rep: usize)
    requires
        is_boundary(s, cursor as int),
        rep >= 1,
    ensures
        ({
            let q = char_index(s, movement_target(s, cursor, Movement::ForwardWord(rep)));
            &&& 0 <= q <= s.len()
            &&& q == s.len() || (0 < q && !white_space(s[q]) && white_space(s[q - 1]))
        }),
{
    lemma_boundary(s, cursor as int);
    if s.len() == 0 {
        lemma_char_index(s, 0);
    } else {
        lemma_cursor_char(s, cursor as int);
        let k = char_index(s, cursor as int);
        lemma_words_forward_start(s, k, rep as nat);
        lemma_char_index(s, words_forward(s, k, rep as nat));
    }
}

/// A backward word movement ends at the start of the line or just after
/// white space, and never to the right of the cursor.
pub proof fn law_backward_word_reaches_word_start(s: Seq<char>, cursor: usize, rep: usize)
    requires
        is_boundary(s, cursor as int),
        rep >= 1,
    ensures
        ({
            let target = movement_target(s, cursor, Movement::BackwardWord(rep));
            let q = char_index(s, target);
            &&& target <= cursor
            &&& 0 <= q <= s.len()
            &&& q == 0 || white_space(s[q - 1])
        }),
{
    lemma_boundary(s, cursor as int);
    if s.len() == 0 {
        lemma_char_index(s, 0);
    } else {
        lemma_cursor_char(s, cursor as int);
        let k = char_index(s, cursor as int);
        let start = if k < s.len() {
            k
        } else {
            s.len() - 1
        };
        lemma_words_back_start(s, start, rep as nat);
        let q = words_back(s, start, rep as nat);
        lemma_char_index(s, q);
        crate::offsets::lemma_byte_offset_le(s, q, k);
    }
}

/// Number of newline characters in a text.
pub open spec fn newlines(s: Seq<char>) -> nat
    decreases s.len(),
{
    if s.len() == 0 {
        0
    } else {
        newlines(s.drop_last()) + if s.last() == '\n' {
            1nat
        } else {
            0nat
        }
    }
}

proof fn lemma_newlines_concat(a: Seq<char>, b: Seq<char>)
    ensures
        newlines(a + b) == newlines(a) + newlines(b),
    decreases b.len(),
{
    if b.len() == 0 {
        assert(a + b =~= a);
    } else {
        assert((a + b).drop_last() =~= a + b.drop_last());
        lemma_newlines_concat(a, b.drop_last());
    }
}

proof fn lemma_no_newlines(s: Seq<char>)
    requires
        !s.contains('\n'),
    ensures
        newlines(s) == 0,
    decreases s.len(),
{
    if s.len() > 0 {
        assert(s.last() == s[s.len() - 1]);
        assert(!s.drop_last().contains('\n')) by {
            if s.drop_last().contains('\n') {
                let i = choose|i: int| 0 <= i < s.drop_last().len() && s.drop_last()[i] == '\n';
                assert(s[i] == '\n');
            }
        }
        lemma_no_newlines(s.drop_last());
    }
}

proof fn lemma_joined_no_newline(keys: Seq<Seq<char>>)
    requires
        forall|j: int| 0 <= j < keys.len() ==> !(#[trigger] keys[j]).contains('\n'),
    ensures
        newlines(joined_keys(keys)) == 0,
    decreases keys.len(),
{
    if keys.len() == 0 {
    } else if keys.len() == 1 {
        lemma_no_newlines(keys[0]);
    } else {
        let init = keys.drop_last();
        assert forall|j: int| 0 <= j < init.len() implies !(#[trigger] init[j]).contains('\n') by {
            assert(init[j] == keys[j]);
        }
        lemma_joined_no_newline(init);
        lemma_newlines_concat(joined_keys(init), seq![',', ' ']);
        lemma_newlines_concat(joined_keys(init) + seq![',', ' '], keys.last());
        lemma_no_newlines(keys.last());
        assert(seq![',', ' '].drop_last() =~= seq![',']);
        assert(seq![','].drop_last() =~= Seq::<char>::empty());
        assert(newlines(Seq::<char>::empty()) == 0);
        assert(newlines(seq![',']) == 0);
        assert(newlines(seq![',', ' ']) == 0);
    }
}

proof fn lemma_spaces_no_newline(n: int)
    ensures
        newlines(spaces(n)) == 0,
{
    let s = spaces(n);
    assert(!s.contains('\n'));
    lemma_no_newlines(s);
}

/// The help box has one line per entry: when no key holds a newline and no
/// description holds one once trimmed, the text holds exactly as many
/// newlines as there are entries, which is the box's height.
pub proof fn law_one_line_per_entry(kw: int, entries: Seq<(Seq<Seq<char>>, Seq<char>)>)
    requires
        forall|i: int, j: int|
            0 <= i < entries.len() && 0 <= j < entries[i].0.len() ==> !(
            #[trigger] entries[i].0[j]).contains('\n'),
        forall|i: int| 0 <= i < entries.len() ==> !shown_description((#[trigger] entries[i]).1).contains('\n'),
    ensures
        newlines(info_text(kw, entries)) == entries.len(),
    decreases entries.len(),
{
    if entries.len() > 0 {
        let init = entries.drop_last();
        let e = entries.last();
        assert(e == entries[entries.len() - 1]);
        assert forall|i: int, j: int|
            0 <= i < init.len() && 0 <= j < init[i].0.len() implies !(
            #[trigger] init[i].0[j]).contains('\n') by {
            assert(init[i] == entries[i]);
        }
        assert forall|i: int| 0 <= i < init.len() implies !shown_description((#[trigger] init[i]).1).contains('\n') by {
            assert(init[i] == entries[i]);
        }
        law_one_line_per_entry(kw, init);
        assert forall|j: int| 0 <= j < e.0.len() implies !(#[trigger] e.0[j]).contains('\n') by {
            assert(e.0[j] == entries[entries.len() - 1].0[j]);
        }
        lemma_joined_no_newline(e.0);
        lemma_spaces_no_newline(kw - keys_width(e.0) + 2);
        lemma_no_newlines(shown_description(e.1));
        let a = seq![' '];
        let b = joined_keys(e.0);
        let c = spaces(kw - keys_width(e.0) + 2);
        let d = shown_description(e.1);
        let nl = seq!['\n'];
        assert(a.drop_last() =~= Seq::<char>::empty());
        assert(nl.drop_last() =~= Seq::<char>::empty());
        assert(newlines(Seq::<char>::empty()) == 0);
        assert(newlines(a) == 0);
        assert(newlines(nl) == 1);
        assert(info_text(kw, entries) == info_text(kw, init) + entry_line(kw, e));
        assert(entry_line(kw, e) == a + b + c + d + nl);
        lemma_newlines_concat(a, b);
        lemma_newlines_concat(a + b, c);
        lemma_newlines_concat(a + b + c, d);
        lemma_newlines_concat(a + b + c + d, nl);
        lemma_newlines_concat(info_text(kw, init), entry_line(kw, e));
    }
}

/// `m` with its count replaced by `n`.
pub open spec fn with_count(m: Movement, n: usize) -> Movement {
    match m {
        Movement::BackwardChar(_) => Movement::BackwardChar(n),
        Movement::ForwardChar(_) => Movement::ForwardChar(n),
        Movement::BackwardWord(_) => Movement::BackwardWord(n),
        Movement::ForwardWord(_) => Movement::ForwardWord(n),
        _ => m,
    }
}

/// The movements that take a count.
pub open spec fn counted(m: Movement) -> bool {
    m is BackwardChar || m is ForwardChar || m is BackwardWord || m is ForwardWord
}

proof fn lemma_cursor_char_at(s: Seq<char>, q: int)
    requires
        0 <= q <= s.len(),
    ensures
        cursor_char(s, byte_offset(s, q) as int) == q,
        is_boundary(s, byte_offset(s, q) as int),
{
    lemma_char_index(s, q);
    lemma_cursor_char(s, byte_offset(s, q) as int);
}

proof fn lemma_graphemes_back_compose(s: Seq<char>, p: usize, a: nat, b: nat)
    ensures
        graphemes_back(s, p, a + b) == graphemes_back(s, graphemes_back(s, p, a), b),
    decreases a,
{
    if a > 0 {
        match prev_grapheme_boundary(s, p) {
            Some(q) => {
                lemma_graphemes_back_compose(s, q, (a - 1) as nat, b);
                assert((a - 1) as nat + b == (a + b - 1) as nat);
            },
            None => {
                if b > 0 {
                    assert(graphemes_back(s, p, b) == p);
                }
            },
        }
    }
}

proof fn lemma_graphemes_forward_compose(s: Seq<char>, p: usize, a: nat, b: nat)
    ensures
        graphemes_forward(s, p, a + b) == graphemes_forward(s, graphemes_forward(s, p, a), b),
    decreases a,
{
    if a > 0 {
        match next_grapheme_boundary(s, p) {
            Some(q) => {
                lemma_graphemes_forward_compose(s, q, (a - 1) as nat, b);
                assert((a - 1) as nat + b == (a + b - 1) as nat);
            },
            None => {
                if b > 0 {
                    assert(graphemes_forward(s, p, b) == p);
                }
            },
        }
    }
}

proof fn lemma_words_back_compose(s: Seq<char>, p: int, a: nat, b: nat)
    ensures
        words_back(s, p, a + b) == words_back(s, words_back(s, p, a), b),
    decreases a,
{
    if a > 0 && p != 0 {
        lemma_words_back_compose(s, word_back_step(s, p), (a - 1) as nat, b);
        assert((a - 1) as nat + b == (a + b - 1) as nat);
    } else if p == 0 && b > 0 {
        assert(words_back(s, 0, b) == 0);
    }
}

proof fn lemma_words_forward_compose(s: Seq<char>, p: int, a: nat, b: nat)
    ensures
        words_forward(s, p, a + b) == words_forward(s, words_forward(s, p, a), b),
    decreases a,
{
    if a > 0 {
        lemma_words_forward_compose(s, skip_space(s, skip_word(s, p)), (a - 1) as nat, b);
        assert((a - 1) as nat + b == (a + b - 1) as nat);
    }
}

proof fn lemma_words_forward_range(s: Seq<char>, p: int, rep: nat)
    requires
        0 <= p <= s.len(),
    ensures
        p <= words_forward(s, p, rep) <= s.len(),
    decreases rep,
{
    if rep > 0 {
        lemma_skip_word_stop(s, p);
        lemma_skip_space_stop(s, skip_word(s, p));
        lemma_words_forward_range(s, skip_space(s, skip_word(s, p)), (rep - 1) as nat);
    }
}

proof fn lemma_words_back_range(s: Seq<char>, p: int, rep: nat)
    requires
        0 <= p <= s.len(),
    ensures
        0 <= words_back(s, p, rep) <= p,
    decreases rep,
{
    if rep > 0 && p > 0 {
        lemma_last_space_before(s, p - 1);
        lemma_words_back_range(s, word_back_step(s, p), (rep - 1) as nat);
    }
}

/// Moving by `a` and then by `b` is moving by `a + b`, for each kind of counted
/// movement.
pub proof fn law_moves_compose(s: Seq<char>, cursor: usize, m: Movement, a: usize, b: usize)
    requires
        is_boundary(s, cursor as int),
        utf8_len(s) <= usize::MAX,
        counted(m),
        a + b <= usize::MAX,
    ensures
        movement_target(
            s,
            movement_target(s, cursor, with_count(m, a)) as usize,
            with_count(m, b),
        ) == movement_target(s, cursor, with_count(m, (a + b) as usize)),
{
    lemma_boundary(s, cursor as int);
    lemma_cursor_char(s, cursor as int);
    match m {
        Movement::BackwardChar(_) => {
            lemma_graphemes_back_compose(s, cursor, a as nat, b as nat);
        },
        Movement::ForwardChar(_) => {
            lemma_graphemes_forward_compose(s, cursor, a as nat, b as nat);
        },
        Movement::BackwardWord(_) => {
            if s.len() > 0 {
                let k = char_index(s, cursor as int);
                let start = if k < s.len() {
                    k
                } else {
                    s.len() - 1
                };
                lemma_words_back_range(s, start, a as nat);
                let q = words_back(s, start, a as nat);
                lemma_cursor_char_at(s, q);
                crate::offsets::lemma_byte_offset_le(s, q, s.len() as int);
                lemma_words_back_compose(s, start, a as nat, b as nat);
            }
        },
        Movement::ForwardWord(_) => {
            if s.len() > 0 {
                let k = char_index(s, cursor as int);
                lemma_words_forward_range(s, k, a as nat);
                let q = words_forward(s, k, a as nat);
                lemma_cursor_char_at(s, q);
                crate::offsets::lemma_byte_offset_le(s, q, s.len() as int);
                lemma_words_forward_compose(s, k, a as nat, b as nat);
            }
        },
        _ => {},
    }
}

/// Word movements go further the larger their count: back never past the
/// start, forward never past the end, and never the wrong way.
pub proof fn law_word_moves_monotone(s: Seq<char>, cursor: usize, r1: usize, r2: usize)
    requires
        is_boundary(s, cursor as int),
        r1 <= r2,
    ensures
        0 <= movement_target(s, cursor, Movement::BackwardWord(r2)) <= movement_target(
            s,
            cursor,
            Movement::BackwardWord(r1),
        ) <= cursor,
        cursor <= movement_target(s, cursor, Movement::ForwardWord(r1)) <= movement_target(
            s,
            cursor,
            Movement::ForwardWord(r2),
        ) <= utf8_len(s),
{
    lemma_boundary(s, cursor as int);
    lemma_cursor_char(s, cursor as int);
    lemma_byte_offset_ends(s);
    if s.len() > 0 {
        let k = char_index(s, cursor as int);
        let start = if k < s.len() {
            k
        } else {
            s.len() - 1
        };
        lemma_words_back_range(s, start, r1 as nat);
        let q1 = words_back(s, start, r1 as nat);
        lemma_words_back_compose(s, start, r1 as nat, (r2 - r1) as nat);
        assert(r1 as nat + (r2 - r1) as nat == r2 as nat);
        lemma_words_back_range(s, q1, (r2 - r1) as nat);
        let q2 = words_back(s, start, r2 as nat);
        crate::offsets::lemma_byte_offset_le(s, 0, q2);
        crate::offsets::lemma_byte_offset_le(s, q2, q1);
        crate::offsets::lemma_byte_offset_le(s, q1, k);
        lemma_words_forward_range(s, k, r1 as nat);
        let f1 = words_forward(s, k, r1 as nat);
        lemma_words_forward_compose(s, k, r1 as nat, (r2 - r1) as nat);
        lemma_words_forward_range(s, f1, (r2 - r1) as nat);
        let f2 = words_forward(s, k, r2 as nat);
        crate::offsets::lemma_byte_offset_le(s, k, f1);
        crate::offsets::lemma_byte_offset_le(s, f1, f2);
        crate::offsets::lemma_byte_offset_le(s, f2, s.len() as int);
    }
}

proof fn lemma_graphemes_back_known(s: Seq<char>, p: usize, rep: nat)
    requires
        grapheme_steps_known(s),
        is_boundary(s, p as int),
    ensures
        graphemes_back(s, p, rep) <= p,
        is_boundary(s, graphemes_back(s, p, rep) as int),
    decreases rep,
{
    if rep > 0 {
        assert(grapheme_steps_at(s, p));
        if let Some(q) = prev_grapheme_boundary(s, p) {
            lemma_graphemes_back_known(s, q, (rep - 1) as nat);
        }
    }
}

proof fn lemma_graphemes_forward_known(s: Seq<char>, p: usize, rep: nat)
    requires
        grapheme_steps_known(s),
        is_boundary(s, p as int),
    ensures
        graphemes_forward(s, p, rep) >= p,
        is_boundary(s, graphemes_forward(s, p, rep) as int),
    decreases rep,
{
    if rep > 0 {
        assert(grapheme_steps_at(s, p));
        if let Some(q) = next_grapheme_boundary(s, p) {
            lemma_graphemes_forward_known(s, q, (rep - 1) as nat);
        }
    }
}

/// Grapheme movements go further the larger their count, once the grapheme
/// steps of the line are known (`learn_grapheme_steps` makes them known).
pub proof fn law_char_moves_monotone(s: Seq<char>, cursor: usize, r1: usize, r2: usize)
    requires
        grapheme_steps_known(s),
        is_boundary(s, cursor as int),
        r1 <= r2,
    ensures
        movement_target(s, cursor, Movement::BackwardChar(r2)) <= movement_target(
            s,
            cursor,
            Movement::BackwardChar(r1),
        ) <= cursor,
        cursor <= movement_target(s, cursor, Movement::ForwardChar(r1)) <= movement_target(
            s,
            cursor,
            Movement::ForwardChar(r2),
        ) <= utf8_len(s),
{
    assert(r1 as nat + (r2 - r1) as nat == r2 as nat);
    lemma_graphemes_back_known(s, cursor, r1 as nat);
    let b1 = graphemes_back(s, cursor, r1 as nat);
    lemma_graphemes_back_compose(s, cursor, r1 as nat, (r2 - r1) as nat);
    lemma_graphemes_back_known(s, b1, (r2 - r1) as nat);
    lemma_graphemes_forward_known(s, cursor, r1 as nat);
    let f1 = graphemes_forward(s, cursor, r1 as nat);
    lemma_graphemes_forward_compose(s, cursor, r1 as nat, (r2 - r1) as nat);
    lemma_graphemes_forward_known(s, f1, (r2 - r1) as nat);
    lemma_boundary(s, graphemes_forward(s, cursor, r2 as nat) as int);
}

/// In ASCII text every byte offset up to the end is a character boundary.
proof fn lemma_ascii_offsets(s: Seq<char>, k: int)
    requires
        forall|i: int| 0 <= i < s.len() ==> (#[trigger] s[i] as u32) < 0x80,
        0 <= k <= s.len(),
    ensures
        byte_offset(s, k) == k,
        is_boundary(s, k),
    decreases k,
{
    if k > 0 {
        lemma_ascii_offsets(s, k - 1);
        lemma_byte_offset_step(s, k - 1);
        crate::offsets::lemma_char_utf8_len_bounds(s[k - 1]);
    } else {
        lemma_byte_offset_ends(s);
    }
    assert(0 <= k <= s.len() && byte_offset(s, k) == k);
}

/// In ASCII text without carriage returns whose grapheme steps are known,
/// the grapheme boundaries next to a character index are one byte away.
proof fn lemma_ascii_steps(l: Seq<char>, k: int)
    requires
        ascii_without_cr(l),
        grapheme_steps_known(l),
        0 <= k < l.len(),
        k < usize::MAX,
    ensures
        byte_offset(l, k) == k,
        next_grapheme_boundary(l, k as usize) == Some((k + 1) as usize),
        prev_grapheme_boundary(l, (k + 1) as usize) == Some(k as usize),
{
    let a = k as usize;
    let b = (k + 1) as usize;
    lemma_ascii_offsets(l, k);
    lemma_ascii_offsets(l, k + 1);
    crate::offsets::lemma_byte_offset_le(l, k + 1, l.len() as int);
    assert(is_boundary(l, a as int));
    assert(grapheme_steps_at(l, a));
    assert(is_boundary(l, b as int));
    assert(grapheme_steps_at(l, b));
}

/// Inserting an ASCII character other than a carriage return into such a
/// line keeps it so.
proof fn lemma_insert_keeps_ascii(old: PromptView, c: char)
    requires
        is_boundary(old.line, old.cursor as int),
        ascii_without_cr(old.line),
        (c as u32) < 0x80 && c != '\r',
    ensures
        ascii_without_cr(line_with_char(old, c)),
        char_index(old.line, old.cursor as int) < line_with_char(old, c).len(),
{
    let s = old.line;
    lemma_boundary(s, old.cursor as int);
    let k = char_index(s, old.cursor as int);
    let l = line_with_char(old, c);
    assert(l =~= s.take(k) + (seq![c] + s.skip(k)));
    assert forall|i: int| 0 <= i < l.len() implies (#[trigger] l[i] as u32) < 0x80 && l[i] != '\r' by {
        if i < k {
            assert(l[i] == s[i]);
        } else if i > k {
            assert(l[i] == s[i - 1]);
        } else {
            assert(l[i] == c);
        }
    }
}

/// Backspace undoes typing an ASCII character (other than a carriage return)
/// into an ASCII line without carriage returns, once the grapheme steps of
/// the line after typing are known (`learn_grapheme_steps` makes them known).
pub proof fn law_backspace_undoes_ascii_insert(
    old: PromptView,
    c: char,
    mid: PromptView,
    new: PromptView,
)
    requires
        well_formed(old),
        ascii_without_cr(old.line),
        (c as u32) < 0x80 && c != '\r',
        old.cursor < usize::MAX,
        grapheme_steps_known(line_with_char(old, c)),
        after_insert(old, c, mid),
        after_delete_back(
            mid,
            movement_target(mid.line, mid.cursor, Movement::BackwardChar(1)),
            new,
        ),
    ensures
        new.line == old.line,
        new.cursor == old.cursor,
{
    let s = old.line;
    lemma_boundary(s, old.cursor as int);
    let k = char_index(s, old.cursor as int);
    lemma_ascii_offsets(s, k);
    lemma_insert_keeps_ascii(old, c);
    lemma_ascii_steps(line_with_char(old, c), k);
    crate::offsets::lemma_char_utf8_len_bounds(c);
    law_backspace_undoes_insert(old, c, mid, new);
}

/// Taking the next completion and then the previous one gives back the line,
/// cursor and selection: when all completions replace the line from the same
/// character boundary, and the line is that prefix followed by the selected
/// completion with the cursor at its end.
pub proof fn law_completion_steps_restore(
    old: PromptView,
    mid: PromptView,
    new: PromptView,
    start: usize,
)
    requires
        well_formed(old),
        old.completion.len() > 0,
        old.completion.len() <= usize::MAX,
        old.selection is Some,
        forall|j: int| 0 <= j < old.completion.len() ==> (#[trigger] old.completion[j]).0 == start,
        is_boundary(old.line, start as int),
        old.line == old.line.take(char_index(old.line, start as int)) + old.completion[old.selection->0 as int].1,
        old.cursor == utf8_len(old.line),
        after_completion_step(old, CompletionDirection::Forward, mid),
        after_completion_step(mid, CompletionDirection::Backward, new),
    ensures
        new == old,
{
    let n = old.completion.len();
    let i = old.selection->0;
    law_selection_steps_undo(i, n);
    let f = next_selection(Some(i), n, CompletionDirection::Forward);
    assert(0 <= f < n) by {
        vstd::arithmetic::div_mod::lemma_mod_pos_bound(i + 1, n as int);
    }
    let s = old.line;
    lemma_boundary(s, start as int);
    lemma_byte_offset_ends(s);
    lemma_char_index(s, s.len() as int);
    let ks = char_index(s, start as int);
    let pre = s.take(ks);
    assert(s.skip(s.len() as int) =~= Seq::<char>::empty());
    let m = mid.line;
    assert(m =~= pre + old.completion[f].1);
    assert(m.take(ks) =~= pre);
    crate::offsets::lemma_replace(s, start as int, utf8_len(s) as int, old.completion[f].1);
    lemma_boundary(m, start as int);
    lemma_byte_offset_prefix(pre, old.completion[f].1, ks);
    lemma_byte_offset_prefix(pre, old.completion[i as int].1, ks);
    assert(pre =~= s.take(ks));
    lemma_char_index(m, ks);
    lemma_byte_offset_ends(m);
    lemma_char_index(m, m.len() as int);
    assert(m.skip(m.len() as int) =~= Seq::<char>::empty());
    assert(new.line =~= pre + old.completion[i as int].1);
    assert(new.line =~= old.line);
}

/// On an ASCII line whose completions all start within it, every key can be
/// handled, provided the backward completion index fits in a `usize`.
pub proof fn law_ascii_keys_allowed(v: PromptView, event: Event)
    requires
        well_formed(v),
        forall|i: int| 0 <= i < v.line.len() ==> (#[trigger] v.line[i] as u32) < 0x80,
        forall|j: int| 0 <= j < v.completion.len() ==> (#[trigger] v.completion[j]).0 <= v.line.len(),
        (match v.selection {
            Some(i) => i as int,
            None => 0,
        }) + v.completion.len() <= usize::MAX,
    ensures
        event_allowed(v, event),
{
    if let Event::Key(key) = event {
        let cmd = key_command(key);
        assert(end_reachable(v.line)) by {
            if v.line.len() > 0 {
                assert((v.line[v.line.len() - 1] as u32) < 0x80);
            }
        }
        if let Command::Complete(d) = cmd {
            let n = v.completion.len();
            if n > 0 {
                let sel: int = match v.selection {
                    Some(i) => i as int,
                    None => 0,
                };
                let raw: int = match d {
                    CompletionDirection::Forward => match v.selection {
                        Some(i) => i + 1,
                        None => 0,
                    },
                    CompletionDirection::Backward => sel + n - 1,
                };
                let idx = next_selection(v.selection, n, d);
                assert(idx == raw % (n as int));
                vstd::arithmetic::div_mod::lemma_mod_pos_bound(raw, n as int);
                assert(0 <= idx < n);
                let start = v.completion[idx].0;
                assert(start <= v.line.len());
                lemma_ascii_offsets(v.line, start as int);
                assert(completion_step_allowed(v, d));
            }
        }
        assert(command_allowed(v, cmd));
    }
}

/// `r` is empty or lies inside `outer`.
pub open spec fn within(r: Rect, outer: Rect) -> bool {
    r.width > 0 && r.height > 0 ==> {
        &&& outer.x <= r.x
        &&& r.x + r.width <= outer.x + outer.width
        &&& outer.y <= r.y
        &&& r.y + r.height <= outer.y + outer.height
    }
}

/// The documentation box lies inside the prompt's area and inside the box it
/// asked for, and its text lies inside the box.
pub proof fn law_doc_box_inside(v: PromptView, area: Rect)
    ensures
        within(rect_intersection(area, doc_request(v, area)), area),
        within(rect_intersection(area, doc_request(v, area)), doc_request(v, area)),
        within(
            rect_inner(rect_intersection(area, doc_request(v, area)), Margin { vertical: 1, horizontal: 1 }),
            rect_intersection(area, doc_request(v, area)),
        ),
{
}

/// The part of an entry's line before its description: a space, the keys,
/// and the padding up to the description column.
pub open spec fn key_column(kw: int, entry: (Seq<Seq<char>>, Seq<char>)) -> Seq<char> {
    seq![' '] + joined_keys(entry.0) + spaces(kw - keys_width(entry.0) + 2)
}

proof fn lemma_joined_len(keys: Seq<Seq<char>>)
    requires
        keys.len() > 0,
        forall|j: int| 0 <= j < keys.len() ==> width_u16(#[trigger] keys[j]) == keys[j].len(),
    ensures
        joined_keys(keys).len() == keys_width(keys),
        (forall|j: int| 0 <= j < keys.len() ==> printable_ascii(#[trigger] keys[j])) ==> printable_ascii(
            joined_keys(keys),
        ),
    decreases keys.len(),
{
    if keys.len() == 1 {
        assert(keys.drop_last() =~= Seq::<Seq<char>>::empty());
        assert(keys_sum(keys.drop_last()) == 0);
        assert(keys.last() == keys[0]);
        assert(width_u16(keys[0]) == keys[0].len());
    } else {
        let init = keys.drop_last();
        assert forall|j: int| 0 <= j < init.len() implies width_u16(#[trigger] init[j]) == init[j].len() by {
            assert(init[j] == keys[j]);
        }
        lemma_joined_len(init);
        assert(keys.last() == keys[keys.len() - 1]);
        assert(width_u16(keys[keys.len() - 1]) == keys[keys.len() - 1].len());
        assert(keys_sum(keys) == keys_sum(init) + width_u16(keys.last()) + 2);
        assert(joined_keys(keys) == joined_keys(init) + seq![',', ' '] + keys.last());
        if forall|j: int| 0 <= j < keys.len() ==> printable_ascii(#[trigger] keys[j]) {
            assert forall|j: int| 0 <= j < init.len() implies printable_ascii(#[trigger] init[j]) by {
                assert(init[j] == keys[j]);
            }
            let a = joined_keys(init);
            let b = seq![',', ' '];
            let c = keys.last();
            assert(printable_ascii(c)) by {
                assert(c == keys[keys.len() - 1]);
            }
            let t = a + b + c;
            assert forall|i: int| 0 <= i < t.len() implies 0x20 <= (#[trigger] t[i] as u32) && (t[i] as u32) < 0x7F by {
                if i < a.len() {
                    assert(t[i] == a[i]);
                } else if i < a.len() + 2 {
                    assert(t[i] == b[i - a.len()]);
                } else {
                    assert(t[i] == c[i - a.len() - 2]);
                }
            }
        }
    }
}

/// The descriptions of the help box start at one column: the part of each
/// line before its description is `kw + 3` characters long, `kw` being the
/// width of the key column, when each key is as wide as it is long (printable
/// ASCII keys are). With printable ASCII keys that part is printable ASCII
/// too, so it is also `kw + 3` columns wide.
pub proof fn law_descriptions_aligned(entries: Seq<(Seq<Seq<char>>, Seq<char>)>, i: int)
    requires
        0 <= i < entries.len(),
        entries[i].0.len() > 0,
        forall|j: int|
            0 <= j < entries[i].0.len() ==> width_u16(#[trigger] entries[i].0[j]) == entries[i].0[j].len(),
    ensures
        entry_line(keymaps_width(entries), entries[i]) == key_column(keymaps_width(entries), entries[i])
            + shown_description(entries[i].1) + seq!['\n'],
        key_column(keymaps_width(entries), entries[i]).len() == keymaps_width(entries) + 3,
        (forall|j: int| 0 <= j < entries[i].0.len() ==> printable_ascii(#[trigger] entries[i].0[j]))
            ==> printable_ascii(key_column(keymaps_width(entries), entries[i])),
{
    let kw = keymaps_width(entries);
    let e = entries[i];
    lemma_keymaps_width(entries, i);
    lemma_joined_len(e.0);
    let a = seq![' '];
    let b = joined_keys(e.0);
    let c = spaces(kw - keys_width(e.0) + 2);
    assert(c.len() == kw - keys_width(e.0) + 2);
    if forall|j: int| 0 <= j < e.0.len() ==> printable_ascii(#[trigger] e.0[j]) {
        let t = a + b + c;
        assert forall|k: int| 0 <= k < t.len() implies 0x20 <= (#[trigger] t[k] as u32) && (t[k] as u32) < 0x7F by {
            if k < 1 {
                assert(t[k] == ' ');
            } else if k < 1 + b.len() {
                assert(t[k] == b[k - 1]);
            } else {
                assert(t[k] == c[k - 1 - b.len()]);
            }
        }
    }
}

/// The help box is as wide as its widest line: each line is one column of
/// padding, the key column, two columns, the trimmed description and one
/// column of padding, and the box is at least that wide for every entry and
/// exactly that wide for one of them.
pub proof fn law_info_width_is_widest_line(kw: int, entries: Seq<(Seq<Seq<char>>, Seq<char>)>)
    requires
        entries.len() > 0,
        kw >= 0,
    ensures
        forall|i: int|
            0 <= i < entries.len() ==> info_width(kw, entries) >= 1 + kw + 2 + width_u16(
                shown_description((#[trigger] entries[i]).1),
            ) + 1,
        exists|i: int|
            0 <= i < entries.len() && info_width(kw, entries) == 1 + kw + 2 + width_u16(
                shown_description((#[trigger] entries[i]).1),
            ) + 1,
    decreases entries.len(),
{
    let init = entries.drop_last();
    let last = entries.len() - 1;
    assert(entries.last() == entries[last]);
    if init.len() == 0 {
        assert(info_width(kw, init) == 0);
        assert forall|i: int| 0 <= i < entries.len() implies info_width(kw, entries) >= 1 + kw + 2
            + width_u16(shown_description((#[trigger] entries[i]).1)) + 1 by {
            assert(i == last);
        }
        assert(info_width(kw, entries) == 1 + kw + 2 + width_u16(shown_description(entries[last].1)) + 1);
    } else {
        law_info_width_is_widest_line(kw, init);
        assert forall|i: int| 0 <= i < entries.len() implies info_width(kw, entries) >= 1 + kw + 2
            + width_u16(shown_description((#[trigger] entries[i]).1)) + 1 by {
            if i < last {
                assert(init[i] == entries[i]);
                assert(info_width(kw, init) >= 1 + kw + 2 + width_u16(shown_description(init[i].1)) + 1);
            }
        }
        let w = info_width(kw, entries);
        if w == info_width(kw, init) {
            let i = choose|i: int|
                0 <= i < init.len() && info_width(kw, init) == 1 + kw + 2 + width_u16(
                    shown_description((#[trigger] init[i]).1),
                ) + 1;
            assert(init[i] == entries[i]);
            assert(0 <= i < entries.len() && w == 1 + kw + 2 + width_u16(
                shown_description(entries[i].1),
            ) + 1);
        } else {
            assert(0 <= last < entries.len() && w == 1 + kw + 2 + width_u16(
                shown_description(entries[last].1),
            ) + 1);
        }
    }
}

/// The key column is as wide as the widest keys of an entry: at least as
/// wide as every entry's keys joined with ", ", and exactly as wide as one.
pub proof fn law_key_column_is_widest_keys(entries: Seq<(Seq<Seq<char>>, Seq<char>)>)
    requires
        entries.len() > 0,
        forall|i: int| 0 <= i < entries.len() ==> (#[trigger] entries[i]).0.len() > 0,
    ensures
        forall|i: int|
            0 <= i < entries.len() ==> keymaps_width(entries) >= keys_sum((#[trigger] entries[i]).0) - 2,
        exists|i: int|
            0 <= i < entries.len() && keymaps_width(entries) == keys_sum((#[trigger] entries[i]).0) - 2,
    decreases entries.len(),
{
    let init = entries.drop_last();
    let last = entries.len() - 1;
    assert(entries.last() == entries[last]);
    assert forall|i: int| 0 <= i < entries.len() implies keymaps_width(entries) >= keys_sum(
        (#[trigger] entries[i]).0,
    ) - 2 by {
        lemma_keymaps_width(entries, i);
    }
    if init.len() == 0 {
        assert(keymaps_width(init) == 0);
        lemma_keymaps_width(entries, last);
        let ks = entries[last].0;
        crate::info::lemma_keys_sum_mono(ks, ks.len() as int);
        assert(ks.take(ks.len() as int) =~= ks);
        assert(0 <= last < entries.len() && keymaps_width(entries) == keys_sum(entries[last].0) - 2);
    } else {
        assert forall|i: int| 0 <= i < init.len() implies (#[trigger] init[i]).0.len() > 0 by {
            assert(init[i] == entries[i]);
        }
        law_key_column_is_widest_keys(init);
        let w = keymaps_width(entries);
        if w == keymaps_width(init) {
            let i = choose|i: int|
                0 <= i < init.len() && keymaps_width(init) == keys_sum((#[trigger] init[i]).0) - 2;
            assert(init[i] == entries[i]);
            assert(0 <= i < entries.len() && w == keys_sum(entries[i].0) - 2);
        } else {
            assert(0 <= last < entries.len() && w == keys_sum(entries[last].0) - 2);
        }
    }
}

proof fn lemma_no_space_after_last(s: Seq<char>, hi: int)
    requires
        0 <= hi <= s.len(),
    ensures
        forall|i: int| last_space_before(s, hi) < i < hi ==> !white_space(#[trigger] s[i]),
    decreases hi,
{
    lemma_last_space_before(s, hi);
    if hi > 0 && !white_space(s[hi - 1]) {
        lemma_no_space_after_last(s, hi - 1);
    }
}

/// One backward word step goes to the nearest word start before the cursor.
/// From the character at the cursor (the last character when the cursor is
/// at the end), at index `p`, it lands at index `q`: the start of the line,
/// or just after a white space that comes before `p - 1`; and no character
/// from `q` up to (not including) `p - 1` is white space.
pub proof fn law_backward_word_is_nearest(s: Seq<char>, cursor: usize)
    requires
        is_boundary(s, cursor as int),
        s.len() > 0,
    ensures
        ({
            let k = char_index(s, cursor as int);
            let p = if k < s.len() {
                k
            } else {
                s.len() - 1
            };
            let t = movement_target(s, cursor, Movement::BackwardWord(1));
            let q = char_index(s, t);
            &&& 0 <= q <= p
            &&& t == byte_offset(s, q)
            &&& q == 0 || (q < p && white_space(s[q - 1]))
            &&& forall|i: int| q <= i < p - 1 ==> !white_space(#[trigger] s[i])
        }),
{
    lemma_boundary(s, cursor as int);
    lemma_cursor_char(s, cursor as int);
    let k = char_index(s, cursor as int);
    let p = if k < s.len() {
        k
    } else {
        s.len() - 1
    };
    let w = words_back(s, p, 1);
    if p > 0 {
        lemma_last_space_before(s, p - 1);
        lemma_no_space_after_last(s, p - 1);
        assert(w == words_back(s, word_back_step(s, p), 0));
    }
    assert(0 <= w <= p);
    lemma_char_index(s, w);
}

proof fn lemma_skip_word_all(s: Seq<char>, p: int)
    requires
        0 <= p <= s.len(),
    ensures
        forall|i: int| p <= i < skip_word(s, p) ==> !white_space(#[trigger] s[i]),
    decreases s.len() - p,
{
    if p < s.len() && !white_space(s[p]) {
        lemma_skip_word_all(s, p + 1);
    }
}

proof fn lemma_skip_space_all(s: Seq<char>, p: int)
    requires
        0 <= p <= s.len(),
    ensures
        forall|i: int| p <= i < skip_space(s, p) ==> white_space(#[trigger] s[i]),
    decreases s.len() - p,
{
    if p < s.len() && white_space(s[p]) {
        lemma_skip_space_all(s, p + 1);
    }
}

/// From index `p`, the characters up to `e` are not white space and those
/// from `e` up to `q` are, and `e` is the end or holds white space.
pub open spec fn word_then_space(s: Seq<char>, p: int, e: int, q: int) -> bool {
    &&& p <= e <= q
    &&& e == s.len() || white_space(s[e])
    &&& forall|i: int| p <= i < e ==> !white_space(#[trigger] s[i])
    &&& forall|i: int| e <= i < q ==> white_space(#[trigger] s[i])
}

/// One forward word step goes to the nearest word start after the cursor:
/// from the cursor's character index `p` it passes the rest of the word
/// (characters that are not white space) up to `e`, then the white space
/// after it up to `q`, and stops at the end of the line or at a character
/// that is not white space.
#[verifier::spinoff_prover]
pub proof fn law_forward_word_is_nearest(s: Seq<char>, cursor: usize)
    requires
        is_boundary(s, cursor as int),
        s.len() > 0,
    ensures
        ({
            let p = char_index(s, cursor as int);
            let t = movement_target(s, cursor, Movement::ForwardWord(1));
            let q = char_index(s, t);
            &&& p <= q <= s.len()
            &&& t == byte_offset(s, q)
            &&& q == s.len() || !white_space(s[q])
            &&& exists|e: int| #[trigger] word_then_space(s, p, e, q)
        }),
{
    lemma_boundary(s, cursor as int);
    lemma_cursor_char(s, cursor as int);
    let p = char_index(s, cursor as int);
    let e = skip_word(s, p);
    lemma_skip_word_stop(s, p);
    lemma_skip_word_all(s, p);
    lemma_skip_space_stop(s, e);
    lemma_skip_space_all(s, e);
    let q = skip_space(s, e);
    assert(words_forward(s, p, 1) == words_forward(s, q, 0));
    lemma_char_index(s, q);
    assert(word_then_space(s, p, e, q));
}

/// The menu marks exactly the selected completion: a shown item is marked
/// selected when, and only when, it is the completion the selection points
/// at, and no two shown items are the same completion.
pub proof fn law_menu_marks_only_the_selection(v: PromptView, area: Rect, j: int)
    requires
        0 <= j < menu_count(v, area),
        v.completion.len() <= usize::MAX,
    ensures
        menu_item(v, area, j).selected <==> v.selection == Some(menu_item(v, area, j).index),
        forall|j2: int|
            0 <= j2 < menu_count(v, area) && j2 != j ==> (#[trigger] menu_item(v, area, j2)).index
                != menu_item(v, area, j).index,
{
    let off = menu_offset(v, area);
    let cap = menu_capacity(v, area);
    let shape = menu_shape(v, area);
    assert(cap >= 0) by (nonlinear_arith)
        requires
            cap == shape.height * shape.cols,
            shape.height >= 0,
            shape.cols >= 0,
    {
    }
    assert(off >= 0) by {
        if let Some(sel) = v.selection {
            if cap > 0 {
                vstd::arithmetic::div_mod::lemma_div_pos_is_pos(sel as int, cap);
                vstd::arithmetic::mul::lemma_mul_nonnegative(sel as int / cap, cap);
            }
        }
    }
    assert(off + j < v.completion.len());
    assert forall|j2: int| 0 <= j2 < menu_count(v, area) && j2 != j implies (#[trigger] menu_item(
        v,
        area,
        j2,
    )).index != menu_item(v, area, j).index by {
        assert(off + j2 < v.completion.len());
    }
}

proof fn lemma_trim_start_cut(s: Seq<char>)
    ensures
        ({
            let a = s.len() - trim_start(s).len();
            &&& 0 <= a <= s.len()
            &&& trim_start(s) == s.subrange(a, s.len() as int)
            &&& forall|i: int| 0 <= i < a ==> white_space(#[trigger] s[i])
            &&& trim_start(s).len() > 0 ==> !white_space(trim_start(s)[0])
        }),
    decreases s.len(),
{
    if s.len() > 0 && white_space(s[0]) {
        let t = s.drop_first();
        lemma_trim_start_cut(t);
        let a = t.len() - trim_start(t).len();
        assert(trim_start(s) == trim_start(t));
        assert forall|i: int| 0 <= i < a + 1 implies white_space(#[trigger] s[i]) by {
            if i > 0 {
                assert(s[i] == t[i - 1]);
            }
        }
        assert(t.subrange(a, t.len() as int) =~= s.subrange(a + 1, s.len() as int));
    } else {
        assert(s.subrange(0, s.len() as int) =~= s);
    }
}

proof fn lemma_trim_end_cut(s: Seq<char>)
    ensures
        ({
            let b = trim_end(s).len() as int;
            &&& 0 <= b <= s.len()
            &&& trim_end(s) == s.subrange(0, b)
            &&& forall|i: int| b <= i < s.len() ==> white_space(#[trigger] s[i])
            &&& b > 0 ==> !white_space(trim_end(s)[b - 1])
        }),
    decreases s.len(),
{
    if s.len() > 0 && white_space(s.last()) {
        let t = s.drop_last();
        lemma_trim_end_cut(t);
        let b = trim_end(t).len() as int;
        assert(trim_end(s) == trim_end(t));
        assert forall|i: int| b <= i < s.len() implies white_space(#[trigger] s[i]) by {
            if i < s.len() - 1 {
                assert(s[i] == t[i]);
            }
        }
        assert(t.subrange(0, b) =~= s.subrange(0, b));
    } else {
        assert(s.subrange(0, s.len() as int) =~= s);
    }
}

/// A description is shown trimmed: what is shown is a stretch of the
/// description with only white space before and after it, and it neither
/// starts nor ends with white space.
pub proof fn law_description_is_trimmed(d: Seq<char>)
    ensures
        exists|a: int, b: int|
            0 <= a <= b <= d.len() && #[trigger] shown_description(d) == d.subrange(a, b) && (forall|
                i: int,
            | 0 <= i < a ==> white_space(#[trigger] d[i])) && (forall|i: int|
                b <= i < d.len() ==> white_space(#[trigger] d[i])),
        shown_description(d).len() > 0 ==> !white_space(shown_description(d)[0]) && !white_space(
            shown_description(d)[shown_description(d).len() - 1],
        ),
{
    lemma_trim_start_cut(d);
    let t = trim_start(d);
    let a = d.len() - t.len();
    lemma_trim_end_cut(t);
    let b = trim_end(t).len() as int;
    assert(shown_description(d) == trim_end(t));
    assert(trim_end(t) =~= d.subrange(a, a + b));
    assert forall|i: int| a + b <= i < d.len() implies white_space(#[trigger] d[i]) by {
        assert(d[i] == t[i - a]);
    }
    if b > 0 {
        assert(trim_end(t)[0] == t[0]);
    }
    assert(0 <= a <= a + b <= d.len() && shown_description(d) == d.subrange(a, a + b) && (forall|
        i: int,
    | 0 <= i < a ==> white_space(#[trigger] d[i])) && (forall|i: int|
        a + b <= i < d.len() ==> white_space(#[trigger] d[i])));
}

/// The keys of an entry are written one after the other with ", " between
/// them: a single key is written as it is, and one more key adds ", " and
/// that key at the end.
pub proof fn law_keys_joined_with_comma(keys: Seq<Seq<char>>, k: Seq<char>)
    ensures
        joined_keys(seq![k]) == k,
        keys.len() > 0 ==> joined_keys(keys.push(k)) == joined_keys(keys) + seq![',', ' '] + k,
{
    assert(seq![k][0] == k);
    if keys.len() > 0 {
        assert(keys.push(k).drop_last() =~= keys);
    }
}

proof fn lemma_longest_is_max(cs: Seq<(usize, Seq<char>)>)
    ensures
        forall|i: int| 0 <= i < cs.len() ==> longest_completion(cs) >= len_u16((#[trigger] cs[i]).1),
        longest_completion(cs) <= u16::MAX,
    decreases cs.len(),
{
    if cs.len() > 0 {
        let init = cs.drop_last();
        lemma_longest_is_max(init);
        assert forall|i: int| 0 <= i < cs.len() implies longest_completion(cs) >= len_u16(
            (#[trigger] cs[i]).1,
        ) by {
            if i < cs.len() - 1 {
                assert(init[i] == cs[i]);
            }
        }
    }
}

/// The shape of the completion menu: columns at least `BASE_WIDTH` and at
/// least as wide as the longest completion, as many of them as fit across the
/// area (but at least one); at most 10 rows, and never the last row of the
/// area, where the input goes: the menu ends just above it and spans the
/// area's width.
pub proof fn law_menu_geometry(v: PromptView, area: Rect)
    requires
        area.width >= 1,
        area.height >= 1,
    ensures
        ({
            let shape = menu_shape(v, area);
            let menu = completion_area(v, area);
            &&& shape.max_len >= BASE_WIDTH
            &&& forall|i: int|
                0 <= i < v.completion.len() ==> shape.max_len >= len_u16((#[trigger] v.completion[i]).1)
            &&& shape.cols >= 1
            &&& shape.cols == 1 || shape.cols * shape.max_len <= area.width
            &&& (shape.cols + 1) * shape.max_len > area.width
            &&& shape.cols * (shape.col_width + 1) <= area.width
            &&& 0 <= shape.height <= 10
            &&& shape.height <= area.height - 1
            &&& shape.height == 10 || shape.height == area.height - 1 || shape.height * shape.cols
                >= ((v.completion.len() as usize) as u16)
            &&& shape.height == 0 || (shape.height - 1) * shape.cols < ((
            v.completion.len() as usize) as u16)
            &&& menu.x == area.x
            &&& menu.width == area.width
            &&& menu.height == shape.height
            &&& menu.y + menu.height == area.height - 1
        }),
{
    let shape = menu_shape(v, area);
    lemma_longest_is_max(v.completion);
    let ml = shape.max_len;
    let w = area.width as int;
    assert(ml >= 30 && ml <= u16::MAX);
    let q = w / ml;
    assert(q * ml <= w && (q + 1) * ml > w) by {
        vstd::arithmetic::div_mod::lemma_fundamental_div_mod(w, ml);
        vstd::arithmetic::div_mod::lemma_mod_pos_bound(w, ml);
        assert((q + 1) * ml == q * ml + ml) by (nonlinear_arith);
    }
    assert(q >= 0) by {
        vstd::arithmetic::div_mod::lemma_div_pos_is_pos(w, ml);
    }
    let cols = shape.cols;
    if q <= 1 {
        assert(cols == 1);
        assert(2 * ml > w) by (nonlinear_arith)
            requires
                (q + 1) * ml > w,
                q <= 1,
                ml >= 0,
        ;
    } else {
        assert(cols == q);
    }
    let count = ((v.completion.len() as usize) as u16) as int;
    let r = (count + cols - 1) / cols;
    assert(r * cols >= count && (r == 0 || (r - 1) * cols < count)) by {
        vstd::arithmetic::div_mod::lemma_fundamental_div_mod(count + cols - 1, cols);
        vstd::arithmetic::div_mod::lemma_mod_pos_bound(count + cols - 1, cols);
        assert(r * cols == cols * r) by (nonlinear_arith);
        assert((r - 1) * cols == cols * r - cols) by (nonlinear_arith);
    }
    assert(r >= 0) by {
        vstd::arithmetic::div_mod::lemma_div_pos_is_pos(count + cols - 1, cols);
    }
    let h = shape.height;
    assert(h <= r);
    assert(h == 0 || (h - 1) * cols < count) by {
        if h > 0 {
            assert((h - 1) * cols <= (r - 1) * cols) by (nonlinear_arith)
                requires
                    h <= r,
                    cols >= 1,
            ;
        }
    }
    let cw = shape.col_width;
    assert(cw == (w - cols) / cols);
    assert(cols * (cw + 1) <= w) by {
        vstd::arithmetic::div_mod::lemma_fundamental_div_mod(w - cols, cols);
        vstd::arithmetic::div_mod::lemma_mod_pos_bound(w - cols, cols);
        assert(cols * (cw + 1) == cols * cw + cols) by (nonlinear_arith);
    }
}

/// The menu fills its columns top to bottom, left to right: the first item
/// is at the menu's top left corner, the next item is one row down in the
/// same column unless a column is full, and the item one column's height
/// further on is in the same row, one column (its width and a separating
/// column) to the right.
#[verifier::spinoff_prover]
pub proof fn law_menu_fills_columns(v: PromptView, area: Rect, j: int)
    requires
        well_formed(v),
        layout_allowed(v, area),
        0 <= j < menu_count(v, area),
    ensures
        menu_shape(v, area).height > 0,
        j == 0 ==> menu_item(v, area, j).x == area.x && menu_item(v, area, j).y == completion_area(
            v,
            area,
        ).y,
        j + 1 < menu_count(v, area) && (j + 1) % menu_shape(v, area).height != 0 ==> menu_item(
            v,
            area,
            j + 1,
        ).x == menu_item(v, area, j).x && menu_item(v, area, j + 1).y == menu_item(v, area, j).y + 1,
        j + menu_shape(v, area).height < menu_count(v, area) ==> menu_item(
            v,
            area,
            j + menu_shape(v, area).height,
        ).x == menu_item(v, area, j).x + menu_shape(v, area).col_width + 1 && menu_item(
            v,
            area,
            j + menu_shape(v, area).height,
        ).y == menu_item(v, area, j).y,
{
    law_menu_items_inside(v, area, j);
    let shape = menu_shape(v, area);
    let h = shape.height;
    let cols = shape.cols;
    let step = 1 + shape.col_width;
    let count = menu_count(v, area);
    let cap = menu_capacity(v, area);
    assert(count <= cap);
    assert(h >= 0 && cols >= 1);
    assert(h > 0) by (nonlinear_arith)
        requires
            cap == h * cols,
            0 <= j < count,
            count <= cap,
            cols >= 1,
            h >= 0,
    ;
    vstd::arithmetic::div_mod::lemma_fundamental_div_mod(j, h);
    vstd::arithmetic::div_mod::lemma_mod_pos_bound(j, h);
    vstd::arithmetic::div_mod::lemma_div_pos_is_pos(j, h);
    let q = j / h;
    let r = j % h;
    assert(q * h == h * q) by (nonlinear_arith);
    assert((q + 1) * h == q * h + h) by (nonlinear_arith);
    if j == 0 {
        vstd::arithmetic::div_mod::lemma_fundamental_div_mod_converse(0, h, 0, 0);
        assert(0int / h == 0 && 0int % h == 0);
        vstd::arithmetic::mul::lemma_mul_basics(step);
        assert((0int / h) * step == 0);
        assert(menu_item(v, area, 0).x == area.x);
        assert(menu_item(v, area, 0).y == completion_area(v, area).y);
    }
    if j + 1 < count && (j + 1) % h != 0 {
        law_menu_items_inside(v, area, j + 1);
        if r + 1 == h {
            vstd::arithmetic::div_mod::lemma_fundamental_div_mod_converse(j + 1, h, q + 1, 0);
        }
        vstd::arithmetic::div_mod::lemma_fundamental_div_mod_converse(j + 1, h, q, r + 1);
        lemma_cell_x_fits(v, area, j + 1);
        lemma_cell_x_fits(v, area, j);
    }
    if j + h < count {
        law_menu_items_inside(v, area, j + h);
        vstd::arithmetic::div_mod::lemma_fundamental_div_mod_converse(j + h, h, q + 1, r);
        assert((q + 1) * step == q * step + step) by (nonlinear_arith);
        lemma_cell_x_fits(v, area, j + h);
        lemma_cell_x_fits(v, area, j);
    }
}

/// The column of item `j` fits in a `u16`.
proof fn lemma_cell_x_fits(v: PromptView, area: Rect, j: int)
    requires
        well_formed(v),
        layout_allowed(v, area),
        0 <= j < menu_count(v, area),
    ensures
        0 <= area.x + (j / menu_shape(v, area).height) * (1 + menu_shape(v, area).col_width)
            <= u16::MAX,
{
    let shape = menu_shape(v, area);
    let h = shape.height;
    let count = menu_count(v, area);
    let cap = menu_capacity(v, area);
    assert(count <= cap);
    assert(h >= 0 && shape.cols >= 1);
    assert(h > 0) by (nonlinear_arith)
        requires
            cap == h * shape.cols,
            0 <= j < count,
            count <= cap,
            shape.cols >= 1,
            h >= 0,
    ;
    assert(shape.col_width >= 0) by {
        vstd::arithmetic::div_mod::lemma_div_pos_is_pos(area.width as int - shape.cols, shape.cols);
    }
    vstd::arithmetic::div_mod::lemma_div_is_ordered(j, count - 1, h);
    vstd::arithmetic::div_mod::lemma_div_pos_is_pos(j, h);
    vstd::arithmetic::mul::lemma_mul_inequality(j / h, (count - 1) / h, 1 + shape.col_width);
    vstd::arithmetic::mul::lemma_mul_nonnegative(j / h, 1 + shape.col_width);
}

} // verus!
