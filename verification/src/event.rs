//! Keyboard handling of the prompt: which key does what, and what the owner
//! of the prompt is told afterwards.

use vstd::prelude::*;

use crate::movement::{end_reachable, movement_allowed, movement_target, Movement};
use crate::offsets::utf8_len;
use crate::prompt::{
    after_completion_step, after_delete_back, after_insert, after_kill, completion_step_allowed,
    edited, moved, well_formed, CompletionDirection, CompletionSource, Prompt, PromptEvent,
    PromptView,
};
use crate::text::ends_with_char;

verus! {

/// Modifier bit of the shift key.
pub const SHIFT: u8 = 1;

/// Modifier bit of the control key.
pub const CONTROL: u8 = 2;

/// Modifier bit of the alt key.
pub const ALT: u8 = 4;

/// A key of the keyboard.
#[derive(Debug, Clone, Copy, PartialEq, Eq, Structural)]
pub enum KeyCode {
    Backspace,
    Enter,
    Left,
    Right,
    Up,
    Down,
    Home,
    End,
    PageUp,
    PageDown,
    Tab,
    BackTab,
    Delete,
    Insert,
    F(u8),
    Char(char),
    Null,
    Esc,
}

/// A key press: the key, and the set of held modifiers as bits
/// (`SHIFT`, `CONTROL`, `ALT`; 0 when none is held).
#[derive(Debug, Clone, Copy, PartialEq, Eq, Structural)]
pub struct KeyEvent {
    pub code: KeyCode,
    pub modifiers: u8,
}

/// An input event of the terminal.
#[derive(Debug, Clone, Copy, PartialEq, Eq, Structural)]
pub enum Event {
    Key(KeyEvent),
    Mouse,
    Resize(u16, u16),
}

/// What a key asks the prompt to do.
#[derive(Debug, Clone, Copy)]
pub enum Command {
    Insert(char),
    Abort,
    Move(Movement),
    MoveEnd,
    MoveStart,
    DeleteWord,
    KillToEnd,
    DeleteChar,
    Enter,
    Complete(CompletionDirection),
    ExitSelection,
    Nothing,
}

/// The outcome of an event for the owner of the prompt.
#[derive(Debug, Clone, Copy)]
pub enum EventOutcome {
    /// The prompt did not use the event.
    Ignored,
    /// The prompt used the event; `notify` is what the owner is told, with
    /// the line as it now is, and `close` says whether the prompt closes.
    Consumed { notify: Option<PromptEvent>, close: bool },
}

/// The key bindings of the prompt.
pub open spec fn key_command(key: KeyEvent) -> Command {
    let m = key.modifiers;
    match key.code {
        KeyCode::Char(c) => if m == 0 || m == SHIFT {
            Command::Insert(c)
        } else if c == 'c' && m == CONTROL {
            Command::Abort
        } else if c == 'b' && m == ALT {
            Command::Move(Movement::BackwardWord(1))
        } else if c == 'f' && m == ALT {
            Command::Move(Movement::ForwardWord(1))
        } else if c == 'f' && m == CONTROL {
            Command::Move(Movement::ForwardChar(1))
        } else if c == 'b' && m == CONTROL {
            Command::Move(Movement::BackwardChar(1))
        } else if c == 'e' && m == CONTROL {
            Command::MoveEnd
        } else if c == 'a' && m == CONTROL {
            Command::MoveStart
        } else if c == 'w' && m == CONTROL {
            Command::DeleteWord
        } else if c == 'k' && m == CONTROL {
            Command::KillToEnd
        } else if c == 'q' && m == CONTROL {
            Command::ExitSelection
        } else {
            Command::Nothing
        },
        KeyCode::Esc => Command::Abort,
        KeyCode::Left => if m == ALT {
            Command::Move(Movement::BackwardWord(1))
        } else {
            Command::Move(Movement::BackwardChar(1))
        },
        KeyCode::Right => if m == ALT {
            Command::Move(Movement::ForwardWord(1))
        } else {
            Command::Move(Movement::ForwardChar(1))
        },
        KeyCode::End => if m == 0 {
            Command::MoveEnd
        } else {
            Command::Nothing
        },
        KeyCode::Home => if m == 0 {
            Command::MoveStart
        } else {
            Command::Nothing
        },
        KeyCode::Backspace => if m == 0 {
            Command::DeleteChar
        } else {
            Command::Nothing
        },
        KeyCode::Enter => Command::Enter,
        KeyCode::Tab => Command::Complete(CompletionDirection::Forward),
        KeyCode::BackTab => Command::Complete(CompletionDirection::Backward),
        _ => Command::Nothing,
    }
}

/// The line ends with a path separator: Enter then asks for completions
/// instead of validating.
pub open spec fn ends_with_slash(s: Seq<char>) -> bool {
    s.len() > 0 && s.last() == '/'
}

/// What a command asks of the prompt state.
pub open spec fn command_allowed(v: PromptView, cmd: Command) -> bool {
    match cmd {
        Command::Move(m) => movement_allowed(v.line, v.cursor, m),
        Command::KillToEnd => end_reachable(v.line),
        Command::Complete(d) => completion_step_allowed(v, d),
        _ => true,
    }
}

/// What an event asks of the prompt state.
pub open spec fn event_allowed(v: PromptView, event: Event) -> bool {
    event matches Event::Key(k) ==> command_allowed(v, key_command(k))
}

/// `new` is `old` after `cmd`.
pub open spec fn command_effect(old: PromptView, cmd: Command, new: PromptView) -> bool {
    match cmd {
        Command::Insert(c) => after_insert(old, c, new),
        Command::Move(m) => moved(old, movement_target(old.line, old.cursor, m), new),
        Command::MoveEnd => moved(old, utf8_len(old.line) as int, new),
        Command::MoveStart => moved(old, 0, new),
        Command::DeleteWord => after_delete_back(
            old,
            movement_target(old.line, old.cursor, Movement::BackwardWord(1)),
            new,
        ),
        Command::DeleteChar => after_delete_back(
            old,
            movement_target(old.line, old.cursor, Movement::BackwardChar(1)),
            new,
        ),
        Command::KillToEnd => after_kill(old, new),
        Command::Enter => if ends_with_slash(old.line) {
            edited(old, new, old.line, old.cursor as int)
        } else {
            new == old
        },
        Command::Complete(d) => after_completion_step(old, d, new),
        Command::ExitSelection => new == (PromptView { selection: None, ..old }),
        Command::Abort | Command::Nothing => new == old,
    }
}

/// What the owner is told after `cmd` turned the line `line` into `new_line`.
/// Typing and deleting a character always report an update; deleting a word,
/// deleting to the end and taking a completion report one when the line
/// changed.
pub open spec fn command_outcome(line: Seq<char>, new_line: Seq<char>, cmd: Command) -> EventOutcome {
    match cmd {
        Command::Insert(_) | Command::DeleteChar => EventOutcome::Consumed {
            notify: Some(PromptEvent::Update),
            close: false,
        },
        Command::DeleteWord | Command::KillToEnd | Command::Complete(_) => EventOutcome::Consumed {
            notify: if new_line != line {
                Some(PromptEvent::Update)
            } else {
                None
            },
            close: false,
        },
        Command::Abort => EventOutcome::Consumed { notify: Some(PromptEvent::Abort), close: true },
        Command::Enter => if ends_with_slash(line) {
            EventOutcome::Consumed { notify: None, close: false }
        } else {
            EventOutcome::Consumed { notify: Some(PromptEvent::Validate), close: true }
        },
        _ => EventOutcome::Consumed { notify: None, close: false },
    }
}

/// The command bound to `key`.
pub fn command_for_key(key: KeyEvent) -> (cmd: Command)
    ensures
        cmd == key_command(key),
{
    let m = key.modifiers;
    match key.code {
        KeyCode::Char(c) => {
            if m == 0 || m == SHIFT {
                Command::Insert(c)
            } else if c == 'c' && m == CONTROL {
                Command::Abort
            } else if c == 'b' && m == ALT {
                Command::Move(Movement::BackwardWord(1))
            } else if c == 'f' && m == ALT {
                Command::Move(Movement::ForwardWord(1))
            } else if c == 'f' && m == CONTROL {
                Command::Move(Movement::ForwardChar(1))
            } else if c == 'b' && m == CONTROL {
                Command::Move(Movement::BackwardChar(1))
            } else if c == 'e' && m == CONTROL {
                Command::MoveEnd
            } else if c == 'a' && m == CONTROL {
                Command::MoveStart
            } else if c == 'w' && m == CONTROL {
                Command::DeleteWord
            } else if c == 'k' && m == CONTROL {
                Command::KillToEnd
            } else if c == 'q' && m == CONTROL {
                Command::ExitSelection
            } else {
                Command::Nothing
            }
        },
        KeyCode::Esc => Command::Abort,
        KeyCode::Left => {
            if m == ALT {
                Command::Move(Movement::BackwardWord(1))
            } else {
                Command::Move(Movement::BackwardChar(1))
            }
        },
        KeyCode::Right => {
            if m == ALT {
                Command::Move(Movement::ForwardWord(1))
            } else {
                Command::Move(Movement::ForwardChar(1))
            }
        },
        KeyCode::End => {
            if m == 0 {
                Command::MoveEnd
            } else {
                Command::Nothing
            }
        },
        KeyCode::Home => {
            if m == 0 {
                Command::MoveStart
            } else {
                Command::Nothing
            }
        },
        KeyCode::Backspace => {
            if m == 0 {
                Command::DeleteChar
            } else {
                Command::Nothing
            }
        },
        KeyCode::Enter => Command::Enter,
        KeyCode::Tab => Command::Complete(CompletionDirection::Forward),
        KeyCode::BackTab => Command::Complete(CompletionDirection::Backward),
        _ => Command::Nothing,
    }
}

impl<C: CompletionSource> Prompt<C> {
    /// Carries out `cmd` and says what the owner is to be told.
    pub fn apply_command(&mut self, cmd: Command) -> (out: EventOutcome)
        requires
            well_formed(old(self)@),
            command_allowed(old(self)@, cmd),
        ensures
            well_formed(final(self)@),
            command_effect(old(self)@, cmd, final(self)@),
            out == command_outcome(old(self)@.line, final(self)@.line, cmd),
    {
        match cmd {
            Command::Insert(c) => {
                self.insert_char(c);
                EventOutcome::Consumed { notify: Some(PromptEvent::Update), close: false }
            },
            Command::Abort => EventOutcome::Consumed {
                notify: Some(PromptEvent::Abort),
                close: true,
            },
            Command::Move(m) => {
                self.move_cursor(m);
                EventOutcome::Consumed { notify: None, close: false }
            },
            Command::MoveEnd => {
                self.move_end();
                EventOutcome::Consumed { notify: None, close: false }
            },
            Command::MoveStart => {
                self.move_start();
                EventOutcome::Consumed { notify: None, close: false }
            },
            Command::DeleteWord => {
                let before = self.line_str().to_owned();
                self.delete_word_backwards();
                self.update_outcome(&before)
            },
            Command::KillToEnd => {
                let before = self.line_str().to_owned();
                self.kill_to_end_of_line();
                self.update_outcome(&before)
            },
            Command::DeleteChar => {
                self.delete_char_backwards();
                EventOutcome::Consumed { notify: Some(PromptEvent::Update), close: false }
            },
            Command::Enter => {
                if ends_with_char(self.line_str(), '/') {
                    self.recompute_completion();
                    EventOutcome::Consumed { notify: None, close: false }
                } else {
                    EventOutcome::Consumed { notify: Some(PromptEvent::Validate), close: true }
                }
            },
            Command::Complete(d) => {
                let before = self.line_str().to_owned();
                self.change_completion_selection(d);
                self.update_outcome(&before)
            },
            Command::ExitSelection => {
                self.exit_selection();
                EventOutcome::Consumed { notify: None, close: false }
            },
            Command::Nothing => EventOutcome::Consumed { notify: None, close: false },
        }
    }

    /// Reports an update when the line is no longer `before`.
    fn update_outcome(&self, before: &String) -> (out: EventOutcome)
        ensures
            out == (EventOutcome::Consumed {
                notify: if self@.line != before@ {
                    Some(PromptEvent::Update)
                } else {
                    None
                },
                close: false,
            }),
    {
        let now = self.line_str().to_owned();
        if now == *before {
            EventOutcome::Consumed { notify: None, close: false }
        } else {
            EventOutcome::Consumed { notify: Some(PromptEvent::Update), close: false }
        }
    }

    /// Whether `handle_event(event)` can run on this prompt.
    pub fn allows_event(&self, event: Event) -> (b: bool)
        requires
            well_formed(self@),
        ensures
            b == event_allowed(self@, event),
    {
        match event {
            Event::Key(k) => match command_for_key(k) {
                Command::Move(Movement::EndOfLine) | Command::KillToEnd => self.allows_end_of_line(),
                Command::Complete(d) => self.allows_completion_step(d),
                _ => true,
            },
            _ => true,
        }
    }

    /// Handles a terminal event: a key is carried out as its binding says, a
    /// resize is consumed and anything else ignored.
    pub fn handle_event(&mut self, event: Event) -> (out: EventOutcome)
        requires
            well_formed(old(self)@),
            event_allowed(old(self)@, event),
        ensures
            well_formed(final(self)@),
            match event {
                Event::Key(k) => command_effect(old(self)@, key_command(k), final(self)@) && out
                    == command_outcome(old(self)@.line, final(self)@.line, key_command(k)),
                Event::Resize(_, _) => final(self)@ == old(self)@ && out
                    == (EventOutcome::Consumed { notify: None, close: false }),
                Event::Mouse => final(self)@ == old(self)@ && out == EventOutcome::Ignored,
            },
    {
        match event {
            Event::Key(k) => {
                let cmd = command_for_key(k);
                self.apply_command(cmd)
            },
            Event::Resize(_, _) => EventOutcome::Consumed { notify: None, close: false },
            Event::Mouse => EventOutcome::Ignored,
        }
    }
}

} // verus!
