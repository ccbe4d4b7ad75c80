//! What each key does to the prompt, stated over the line, the cursor and the
//! selection before and after, and over what the owner is told.

use vstd::prelude::*;

use crate::event::{
    command_effect, command_outcome, key_command, Command, EventOutcome, KeyCode, KeyEvent, ALT, CONTROL,
    SHIFT,
};
use crate::movement::{movement_target, Movement};
use crate::offsets::{char_index, is_boundary, utf8_len};
use crate::prompt::{next_selection, CompletionDirection, PromptEvent, PromptView};
use crate::text::{next_grapheme_boundary, prev_grapheme_boundary};

verus! {

/// The owner is told nothing and the prompt stays open.
pub open spec fn quiet(out: EventOutcome) -> bool {
    out == (EventOutcome::Consumed { notify: None, close: false })
}

/// Only the cursor differs between `old` and `new`.
pub open spec fn only_cursor_moved(old: PromptView, new: PromptView) -> bool {
    &&& new.line == old.line
    &&& new.prompt == old.prompt
    &&& new.selection == old.selection
    &&& new.completion == old.completion
    &&& new.completed_for == old.completed_for
    &&& new.source_answer == old.source_answer
}

/// The line changed to `line`, the cursor went to `cursor`, the selection is
/// gone and the completions are the source's answer for `line`.
pub open spec fn line_edited(old: PromptView, new: PromptView, line: Seq<char>, cursor: int) -> bool {
    &&& new.line == line
    &&& new.cursor == cursor
    &&& new.prompt == old.prompt
    &&& new.selection is None
    &&& new.completed_for == line
    &&& new.completion == new.source_answer
}

/// End and Ctrl-e put the cursor at the end of the line and change nothing
/// else; the owner is told nothing.
pub proof fn law_end_keys_go_to_the_end(old: PromptView, new: PromptView, key: KeyEvent)
    requires
        key == (KeyEvent { code: KeyCode::End, modifiers: 0 }) || key == (KeyEvent {
            code: KeyCode::Char('e'),
            modifiers: CONTROL,
        }),
        command_effect(old, key_command(key), new),
        utf8_len(old.line) <= usize::MAX,
    ensures
        new.cursor == utf8_len(old.line),
        only_cursor_moved(old, new),
        quiet(command_outcome(old.line, new.line, key_command(key))),
{
}

/// Home and Ctrl-a put the cursor at the start of the line and change nothing
/// else; the owner is told nothing.
pub proof fn law_home_keys_go_to_the_start(old: PromptView, new: PromptView, key: KeyEvent)
    requires
        key == (KeyEvent { code: KeyCode::Home, modifiers: 0 }) || key == (KeyEvent {
            code: KeyCode::Char('a'),
            modifiers: CONTROL,
        }),
        command_effect(old, key_command(key), new),
    ensures
        new.cursor == 0,
        only_cursor_moved(old, new),
        quiet(command_outcome(old.line, new.line, key_command(key))),
{
}

/// Enter on a line that is empty or does not end in '/' leaves the prompt as
/// it is, validates the line and closes the prompt. On a line that ends in
/// '/' it keeps the line and the cursor, asks for the completions of the line
/// again, drops the selection, tells the owner nothing and stays open.
pub proof fn law_enter_validates_unless_slash(old: PromptView, new: PromptView, m: u8)
    requires
        command_effect(old, key_command(KeyEvent { code: KeyCode::Enter, modifiers: m }), new),
    ensures
        old.line.len() == 0 || old.line[old.line.len() - 1] != '/' ==> {
            &&& new == old
            &&& command_outcome(
                old.line,
                new.line,
                key_command(KeyEvent { code: KeyCode::Enter, modifiers: m }),
            ) == (EventOutcome::Consumed { notify: Some(PromptEvent::Validate), close: true })
        },
        old.line.len() > 0 && old.line[old.line.len() - 1] == '/' ==> {
            &&& line_edited(old, new, old.line, old.cursor as int)
            &&& quiet(
                command_outcome(
                    old.line,
                    new.line,
                    key_command(KeyEvent { code: KeyCode::Enter, modifiers: m }),
                ),
            )
        },
{
}

/// Esc, with any modifiers, and Ctrl-c leave the prompt as it is, tell the
/// owner to abort and close the prompt.
pub proof fn law_escape_aborts(old: PromptView, new: PromptView, key: KeyEvent)
    requires
        key.code == KeyCode::Esc || key == (KeyEvent { code: KeyCode::Char('c'), modifiers: CONTROL }),
        command_effect(old, key_command(key), new),
    ensures
        new == old,
        command_outcome(old.line, new.line, key_command(key)) == (EventOutcome::Consumed {
            notify: Some(PromptEvent::Abort),
            close: true,
        }),
{
}

/// A character typed with no modifier or with shift goes into the line at
/// the cursor; the cursor moves to the next grapheme boundary after the
/// cursor in the new line; the owner is told of the update.
pub proof fn law_typing_inserts(old: PromptView, new: PromptView, c: char, m: u8)
    requires
        m == 0 || m == SHIFT,
        command_effect(old, key_command(KeyEvent { code: KeyCode::Char(c), modifiers: m }), new),
    ensures
        ({
            let k = char_index(old.line, old.cursor as int);
            let line = old.line.take(k) + seq![c] + old.line.skip(k);
            &&& line_edited(old, new, line, new.cursor as int)
            &&& next_grapheme_boundary(line, old.cursor) matches Some(p) ==> new.cursor == p
        }),
        command_outcome(
            old.line,
            new.line,
            key_command(KeyEvent { code: KeyCode::Char(c), modifiers: m }),
        ) == (EventOutcome::Consumed { notify: Some(PromptEvent::Update), close: false }),
{
    let k = char_index(old.line, old.cursor as int);
    assert(old.line.take(k).push(c) =~= old.line.take(k) + seq![c]);
}

/// Backspace deletes from the previous grapheme boundary up to the cursor and
/// puts the cursor there (at the start of the line nothing is deleted); the
/// owner is told of the update.
pub proof fn law_backspace_deletes_a_grapheme(old: PromptView, new: PromptView)
    requires
        command_effect(old, key_command(KeyEvent { code: KeyCode::Backspace, modifiers: 0 }), new),
    ensures
        ({
            let pos = match prev_grapheme_boundary(old.line, old.cursor) {
                Some(p) => p,
                None => old.cursor,
            };
            line_edited(
                old,
                new,
                old.line.take(char_index(old.line, pos as int)) + old.line.skip(
                    char_index(old.line, old.cursor as int),
                ),
                pos as int,
            )
        }),
        command_outcome(
            old.line,
            new.line,
            key_command(KeyEvent { code: KeyCode::Backspace, modifiers: 0 }),
        ) == (EventOutcome::Consumed { notify: Some(PromptEvent::Update), close: false }),
{
    reveal_with_fuel(crate::movement::graphemes_back, 2);
    let pos = match prev_grapheme_boundary(old.line, old.cursor) {
        Some(p) => p,
        None => old.cursor,
    };
    assert(old.line.take(char_index(old.line, pos as int)) + Seq::<char>::empty() + old.line.skip(
        char_index(old.line, old.cursor as int),
    ) =~= old.line.take(char_index(old.line, pos as int)) + old.line.skip(
        char_index(old.line, old.cursor as int),
    ));
}

/// Ctrl-w deletes from the start of the word before the cursor (where a
/// backward word movement goes) up to the cursor and puts the cursor there;
/// the owner is told of the update when the line changed.
pub proof fn law_ctrl_w_deletes_a_word(old: PromptView, new: PromptView)
    requires
        command_effect(old, key_command(KeyEvent { code: KeyCode::Char('w'), modifiers: CONTROL }), new),
    ensures
        ({
            let pos = movement_target(old.line, old.cursor, Movement::BackwardWord(1));
            line_edited(
                old,
                new,
                old.line.take(char_index(old.line, pos)) + old.line.skip(
                    char_index(old.line, old.cursor as int),
                ),
                pos,
            )
        }),
        command_outcome(
            old.line,
            new.line,
            key_command(KeyEvent { code: KeyCode::Char('w'), modifiers: CONTROL }),
        ) == (EventOutcome::Consumed {
            notify: if new.line != old.line {
                Some(PromptEvent::Update)
            } else {
                None
            },
            close: false,
        }),
{
    let pos = movement_target(old.line, old.cursor, Movement::BackwardWord(1));
    assert(old.line.take(char_index(old.line, pos)) + Seq::<char>::empty() + old.line.skip(
        char_index(old.line, old.cursor as int),
    ) =~= old.line.take(char_index(old.line, pos)) + old.line.skip(
        char_index(old.line, old.cursor as int),
    ));
}

/// Ctrl-k cuts the line at the cursor and leaves the cursor where it is; the
/// owner is told of the update when the line changed.
pub proof fn law_ctrl_k_kills_to_the_end(old: PromptView, new: PromptView)
    requires
        command_effect(old, key_command(KeyEvent { code: KeyCode::Char('k'), modifiers: CONTROL }), new),
    ensures
        line_edited(old, new, old.line.take(char_index(old.line, old.cursor as int)), old.cursor as int),
        command_outcome(
            old.line,
            new.line,
            key_command(KeyEvent { code: KeyCode::Char('k'), modifiers: CONTROL }),
        ) == (EventOutcome::Consumed {
            notify: if new.line != old.line {
                Some(PromptEvent::Update)
            } else {
                None
            },
            close: false,
        }),
{
}

/// Left (without alt) and Ctrl-b move the cursor to the previous grapheme
/// boundary, staying put at the start; Right (without alt) and Ctrl-f move
/// it to the next one, staying put at the end. Nothing else changes and the
/// owner is told nothing.
pub proof fn law_arrows_step_by_grapheme(old: PromptView, new: PromptView, key: KeyEvent)
    requires
        (key.code == KeyCode::Left && key.modifiers != ALT) || (key.code == KeyCode::Right
            && key.modifiers != ALT) || key == (KeyEvent { code: KeyCode::Char('b'), modifiers: CONTROL })
            || key == (KeyEvent { code: KeyCode::Char('f'), modifiers: CONTROL }),
        command_effect(old, key_command(key), new),
    ensures
        only_cursor_moved(old, new),
        quiet(command_outcome(old.line, new.line, key_command(key))),
        key.code == KeyCode::Left || key.code == KeyCode::Char('b') ==> new.cursor == match prev_grapheme_boundary(
            old.line,
            old.cursor,
        ) {
            Some(p) => p,
            None => old.cursor,
        },
        key.code == KeyCode::Right || key.code == KeyCode::Char('f') ==> new.cursor == match next_grapheme_boundary(
            old.line,
            old.cursor,
        ) {
            Some(p) => p,
            None => old.cursor,
        },
{
    reveal_with_fuel(crate::movement::graphemes_back, 2);
    reveal_with_fuel(crate::movement::graphemes_forward, 2);
}

/// Alt-Left and Alt-b move the cursor back by one word, Alt-Right and Alt-f
/// forward by one word; nothing else changes and the owner is told nothing.
pub proof fn law_alt_keys_step_by_word(old: PromptView, new: PromptView, key: KeyEvent)
    requires
        key == (KeyEvent { code: KeyCode::Left, modifiers: ALT }) || key == (KeyEvent {
            code: KeyCode::Char('b'),
            modifiers: ALT,
        }) || key == (KeyEvent { code: KeyCode::Right, modifiers: ALT }) || key == (KeyEvent {
            code: KeyCode::Char('f'),
            modifiers: ALT,
        }),
        command_effect(old, key_command(key), new),
        is_boundary(old.line, old.cursor as int),
        utf8_len(old.line) <= usize::MAX,
    ensures
        only_cursor_moved(old, new),
        quiet(command_outcome(old.line, new.line, key_command(key))),
        key.code == KeyCode::Left || key.code == KeyCode::Char('b') ==> new.cursor == movement_target(
            old.line,
            old.cursor,
            Movement::BackwardWord(1),
        ),
        key.code == KeyCode::Right || key.code == KeyCode::Char('f') ==> new.cursor == movement_target(
            old.line,
            old.cursor,
            Movement::ForwardWord(1),
        ),
{
    crate::laws::law_word_moves_monotone(old.line, old.cursor, 1, 1);
}

/// Tab takes the next completion (the first when none is selected) and
/// BackTab the previous one (the last when none is selected), cyclically:
/// the line from the completion's start offset on becomes its text and the
/// cursor goes to the end. With no completions nothing changes.
pub proof fn law_tab_cycles(old: PromptView, new: PromptView, key: KeyEvent)
    requires
        key.code == KeyCode::Tab || key.code == KeyCode::BackTab,
        command_effect(old, key_command(key), new),
        old.selection matches Some(i) ==> i < old.completion.len(),
        old.completion.len() <= usize::MAX,
        utf8_len(new.line) <= usize::MAX,
    ensures
        command_outcome(old.line, new.line, key_command(key)) == (EventOutcome::Consumed {
            notify: if new.line != old.line {
                Some(PromptEvent::Update)
            } else {
                None
            },
            close: false,
        }),
        old.completion.len() == 0 ==> new == old,
        old.completion.len() > 0 ==> {
            let n = old.completion.len() as int;
            let i = new.selection->0 as int;
            &&& new.selection is Some
            &&& key.code == KeyCode::Tab ==> i == (match old.selection {
                None => 0,
                Some(s) => if s + 1 < n {
                    s + 1
                } else {
                    0
                },
            })
            &&& key.code == KeyCode::BackTab ==> i == (match old.selection {
                None => n - 1,
                Some(s) => if s > 0 {
                    s - 1
                } else {
                    n - 1
                },
            })
            &&& new.line == old.line.take(char_index(old.line, old.completion[i].0 as int))
                + old.completion[i].1 + old.line.skip(char_index(old.line, utf8_len(old.line) as int))
            &&& new.cursor == utf8_len(new.line)
            &&& new.completion == old.completion
            &&& new.prompt == old.prompt
        },
{
    let n = old.completion.len() as int;
    if n > 0 {
        let d = match key.code {
            KeyCode::Tab => CompletionDirection::Forward,
            _ => CompletionDirection::Backward,
        };
        assert(key_command(key) == Command::Complete(d));
        let raw: int = match d {
            CompletionDirection::Forward => match old.selection {
                Some(s) => s + 1,
                None => 0,
            },
            CompletionDirection::Backward => (match old.selection {
                Some(s) => s as int,
                None => 0,
            }) + n - 1,
        };
        let idx = next_selection(old.selection, old.completion.len(), d);
        assert(idx == raw % n);
        vstd::arithmetic::div_mod::lemma_mod_pos_bound(raw, n);
        match old.selection {
            Some(s) => {
                if s + 1 < n {
                    vstd::arithmetic::div_mod::lemma_small_mod((s + 1) as nat, n as nat);
                } else {
                    vstd::arithmetic::div_mod::lemma_mod_self_0(n);
                }
                if s > 0 {
                    vstd::arithmetic::div_mod::lemma_mod_add_multiples_vanish(s - 1, n);
                    vstd::arithmetic::div_mod::lemma_small_mod((s - 1) as nat, n as nat);
                } else {
                    vstd::arithmetic::div_mod::lemma_small_mod((n - 1) as nat, n as nat);
                }
            },
            None => {
                vstd::arithmetic::div_mod::lemma_small_mod(0, n as nat);
                vstd::arithmetic::div_mod::lemma_small_mod((n - 1) as nat, n as nat);
            },
        }
        assert(new.selection == Some(idx as usize));
    }
}

/// Ctrl-q drops the selection and changes nothing else.
pub proof fn law_ctrl_q_exits_selection(old: PromptView, new: PromptView)
    requires
        command_effect(old, key_command(KeyEvent { code: KeyCode::Char('q'), modifiers: CONTROL }), new),
    ensures
        new.selection is None,
        new.line == old.line,
        new.cursor == old.cursor,
        new.completion == old.completion,
        quiet(
            command_outcome(
                old.line,
                new.line,
                key_command(KeyEvent { code: KeyCode::Char('q'), modifiers: CONTROL }),
            ),
        ),
{
}

/// Keys without a binding (function keys, Up, Down, Delete and the like)
/// change nothing and tell the owner nothing.
pub proof fn law_unbound_keys_do_nothing(old: PromptView, new: PromptView, key: KeyEvent)
    requires
        key.code is F || key.code == KeyCode::Up || key.code == KeyCode::Down || key.code
            == KeyCode::PageUp || key.code == KeyCode::PageDown || key.code == KeyCode::Delete
            || key.code == KeyCode::Insert || key.code == KeyCode::Null,
        command_effect(old, key_command(key), new),
    ensures
        new == old,
        quiet(command_outcome(old.line, new.line, key_command(key))),
{
}

} // verus!
