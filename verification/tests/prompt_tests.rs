use helix_prompt::event::{command_for_key, Command, Event, EventOutcome, KeyCode, KeyEvent, ALT, CONTROL, SHIFT};
use helix_prompt::movement::Movement;
use helix_prompt::prompt::{Completion, CompletionDirection, CompletionSource, Prompt, PromptEvent};

/// Completes with fixed words that replace the whole line.
struct Words(Vec<&'static str>);

impl CompletionSource for Words {
    fn complete(&mut self, input: &str) -> Vec<Completion> {
        self.0
            .iter()
            .filter(|w| w.starts_with(input))
            .map(|w| (0, w.to_string()))
            .collect()
    }
}

fn prompt_with(line: &str) -> Prompt<Words> {
    let mut p = Prompt::new(":".to_string(), Words(vec![]));
    for c in line.chars() {
        p.insert_char(c);
    }
    p
}

fn key(code: KeyCode, modifiers: u8) -> Event {
    Event::Key(KeyEvent { code, modifiers })
}

#[test]
fn new_prompt_is_empty_and_completes_the_empty_line() {
    let p = Prompt::new("open ".to_string(), Words(vec!["one", "two"]));
    assert_eq!(p.line, "");
    assert_eq!(p.cursor_offset(), 0);
    assert_eq!(p.prompt_str(), "open ");
    assert_eq!(p.selection(), None);
    assert_eq!(p.completions().len(), 2);
}

#[test]
fn insert_char_puts_text_at_the_cursor() {
    let mut p = prompt_with("ac");
    p.move_cursor(Movement::BackwardChar(1));
    p.insert_char('b');
    assert_eq!(p.line, "abc");
    assert_eq!(p.cursor_offset(), 2);
}

#[test]
fn insert_char_moves_over_multibyte_chars() {
    let p = prompt_with("é€");
    assert_eq!(p.line, "é€");
    assert_eq!(p.cursor_offset(), 5);
}

#[test]
fn insert_combining_mark_joins_the_grapheme() {
    let mut p = prompt_with("e");
    p.insert_char('\u{301}');
    assert_eq!(p.cursor_offset(), 3);
    p.move_cursor(Movement::BackwardChar(1));
    assert_eq!(p.cursor_offset(), 0);
}

#[test]
fn char_movements_step_over_graphemes() {
    let mut p = prompt_with("ae\u{301}b");
    assert_eq!(p.cursor_offset(), 5);
    p.move_cursor(Movement::BackwardChar(1));
    assert_eq!(p.cursor_offset(), 4);
    p.move_cursor(Movement::BackwardChar(1));
    assert_eq!(p.cursor_offset(), 1);
    p.move_cursor(Movement::BackwardChar(5));
    assert_eq!(p.cursor_offset(), 0);
    p.move_cursor(Movement::ForwardChar(2));
    assert_eq!(p.cursor_offset(), 4);
    p.move_cursor(Movement::ForwardChar(9));
    assert_eq!(p.cursor_offset(), 5);
}

#[test]
fn backward_word_movement() {
    let mut p = prompt_with("foo bar baz");
    p.move_cursor(Movement::BackwardWord(1));
    assert_eq!(p.cursor_offset(), 8);
    p.move_cursor(Movement::BackwardWord(1));
    assert_eq!(p.cursor_offset(), 4);
    p.move_cursor(Movement::BackwardWord(5));
    assert_eq!(p.cursor_offset(), 0);
}

#[test]
fn backward_word_from_word_start_skips_the_word_before() {
    let mut p = prompt_with("foo bar baz");
    p.move_cursor(Movement::StartOfLine);
    p.move_cursor(Movement::ForwardWord(2));
    assert_eq!(p.cursor_offset(), 8);
    p.move_cursor(Movement::BackwardWord(1));
    assert_eq!(p.cursor_offset(), 4);
}

#[test]
fn forward_word_movement() {
    let mut p = prompt_with("foo  bar baz");
    p.move_start();
    p.move_cursor(Movement::ForwardWord(1));
    assert_eq!(p.cursor_offset(), 5);
    p.move_cursor(Movement::ForwardWord(1));
    assert_eq!(p.cursor_offset(), 9);
    p.move_cursor(Movement::ForwardWord(1));
    assert_eq!(p.cursor_offset(), 12);
    p.move_cursor(Movement::ForwardWord(3));
    assert_eq!(p.cursor_offset(), 12);
}

#[test]
fn word_movement_on_empty_line_stays() {
    let mut p = prompt_with("");
    p.move_cursor(Movement::ForwardWord(1));
    assert_eq!(p.cursor_offset(), 0);
    p.move_cursor(Movement::BackwardWord(1));
    assert_eq!(p.cursor_offset(), 0);
}

#[test]
fn word_movement_counts_non_ascii_bytes() {
    let mut p = prompt_with("ab é\u{3000}xy");
    // U+3000 is white space; 'é' is 2 bytes and U+3000 is 3 bytes.
    p.move_start();
    p.move_cursor(Movement::ForwardWord(1));
    assert_eq!(p.cursor_offset(), 3);
    p.move_cursor(Movement::ForwardWord(1));
    assert_eq!(p.cursor_offset(), 8);
}

#[test]
fn start_end_and_no_movement() {
    let mut p = prompt_with("héllo");
    p.move_cursor(Movement::StartOfLine);
    assert_eq!(p.cursor_offset(), 0);
    p.move_cursor(Movement::NoMovement);
    assert_eq!(p.cursor_offset(), 0);
    p.move_cursor(Movement::EndOfLine);
    assert_eq!(p.cursor_offset(), 6);
    p.move_start();
    p.move_end();
    assert_eq!(p.cursor_offset(), 6);
}

#[test]
fn delete_char_backwards_removes_a_grapheme() {
    let mut p = prompt_with("xe\u{301}");
    p.delete_char_backwards();
    assert_eq!(p.line, "x");
    assert_eq!(p.cursor_offset(), 1);
    p.move_start();
    p.delete_char_backwards();
    assert_eq!(p.line, "x");
    assert_eq!(p.cursor_offset(), 0);
}

#[test]
fn delete_word_backwards_keeps_text_after_cursor() {
    let mut p = prompt_with("foo bar baz");
    p.move_cursor(Movement::BackwardWord(1));
    p.delete_word_backwards();
    assert_eq!(p.line, "foo baz");
    assert_eq!(p.cursor_offset(), 4);
}

#[test]
fn kill_to_end_of_line_cuts_after_cursor() {
    let mut p = prompt_with("hello world");
    p.move_cursor(Movement::BackwardWord(1));
    p.kill_to_end_of_line();
    assert_eq!(p.line, "hello ");
    assert_eq!(p.cursor_offset(), 6);
    assert!(p.allows_end_of_line());
}

#[test]
fn end_of_line_needs_an_ascii_last_char() {
    let p = prompt_with("café");
    assert!(!p.allows_end_of_line());
    let q = prompt_with("");
    assert!(q.allows_end_of_line());
}

#[test]
fn clear_empties_the_line() {
    let mut p = prompt_with("abc");
    p.clear();
    assert_eq!(p.line, "");
    assert_eq!(p.cursor_offset(), 0);
    assert_eq!(p.selection(), None);
}

#[test]
fn completion_selection_cycles_forward() {
    let mut p = Prompt::new(":".to_string(), Words(vec!["write", "quit", "open"]));
    p.change_completion_selection(CompletionDirection::Forward);
    assert_eq!(p.selection(), Some(0));
    assert_eq!(p.line, "write");
    assert_eq!(p.cursor_offset(), 5);
    p.change_completion_selection(CompletionDirection::Forward);
    assert_eq!(p.line, "quit");
    p.change_completion_selection(CompletionDirection::Forward);
    p.change_completion_selection(CompletionDirection::Forward);
    assert_eq!(p.selection(), Some(0));
    assert_eq!(p.line, "write");
}

#[test]
fn completion_selection_cycles_backward() {
    let mut p = Prompt::new(":".to_string(), Words(vec!["write", "quit", "open"]));
    p.change_completion_selection(CompletionDirection::Backward);
    assert_eq!(p.selection(), Some(2));
    assert_eq!(p.line, "open");
    p.change_completion_selection(CompletionDirection::Backward);
    assert_eq!(p.selection(), Some(1));
    p.change_completion_selection(CompletionDirection::Forward);
    assert_eq!(p.selection(), Some(2));
}

#[test]
fn completion_selection_without_completions_does_nothing() {
    let mut p = prompt_with("zz");
    p.change_completion_selection(CompletionDirection::Forward);
    assert_eq!(p.line, "zz");
    assert_eq!(p.selection(), None);
}

#[test]
fn completion_replaces_from_its_start() {
    struct Suffix;
    impl CompletionSource for Suffix {
        fn complete(&mut self, input: &str) -> Vec<Completion> {
            vec![(input.len(), "tail".to_string())]
        }
    }
    let mut p = Prompt::new(":".to_string(), Suffix);
    for c in "ab".chars() {
        p.insert_char(c);
    }
    assert!(p.allows_completion_step(CompletionDirection::Forward));
    p.change_completion_selection(CompletionDirection::Forward);
    assert_eq!(p.line, "abtail");
    assert_eq!(p.cursor_offset(), 6);
}

#[test]
fn completion_start_off_boundary_is_refused() {
    struct Bad;
    impl CompletionSource for Bad {
        fn complete(&mut self, _input: &str) -> Vec<Completion> {
            vec![(1, "x".to_string())]
        }
    }
    let mut p = Prompt::new(":".to_string(), Bad);
    p.insert_char('é');
    assert!(!p.allows_completion_step(CompletionDirection::Forward));
    assert!(!p.allows_event(key(KeyCode::Tab, 0)));
}

#[test]
fn exit_selection_forgets_the_selection() {
    let mut p = Prompt::new(":".to_string(), Words(vec!["a"]));
    p.change_completion_selection(CompletionDirection::Forward);
    p.exit_selection();
    assert_eq!(p.selection(), None);
    assert_eq!(p.line, "a");
}

#[test]
fn typing_recomputes_completions() {
    let mut p = Prompt::new(":".to_string(), Words(vec!["write", "wq", "quit"]));
    assert_eq!(p.completions().len(), 3);
    p.insert_char('w');
    assert_eq!(p.completions().len(), 2);
    p.insert_char('r');
    assert_eq!(p.completions().len(), 1);
    p.delete_char_backwards();
    assert_eq!(p.completions().len(), 2);
}

#[test]
fn keys_insert_characters_and_report_updates() {
    let mut p = prompt_with("");
    let out = p.handle_event(key(KeyCode::Char('a'), 0));
    assert!(matches!(
        out,
        EventOutcome::Consumed { notify: Some(PromptEvent::Update), close: false }
    ));
    p.handle_event(key(KeyCode::Char('B'), SHIFT));
    assert_eq!(p.line, "aB");
    let out = p.handle_event(key(KeyCode::Backspace, 0));
    assert!(matches!(
        out,
        EventOutcome::Consumed { notify: Some(PromptEvent::Update), close: false }
    ));
    assert_eq!(p.line, "a");
}

#[test]
fn escape_and_control_c_abort() {
    let mut p = prompt_with("abc");
    for ev in [key(KeyCode::Esc, 0), key(KeyCode::Char('c'), CONTROL)] {
        let out = p.handle_event(ev);
        assert!(matches!(
            out,
            EventOutcome::Consumed { notify: Some(PromptEvent::Abort), close: true }
        ));
        assert_eq!(p.line, "abc");
    }
}

#[test]
fn enter_validates_unless_line_ends_with_slash() {
    let mut p = prompt_with("file");
    let out = p.handle_event(key(KeyCode::Enter, 0));
    assert!(matches!(
        out,
        EventOutcome::Consumed { notify: Some(PromptEvent::Validate), close: true }
    ));
    let mut q = prompt_with("dir/");
    let out = q.handle_event(key(KeyCode::Enter, 0));
    assert!(matches!(out, EventOutcome::Consumed { notify: None, close: false }));
    assert_eq!(q.line, "dir/");
}

#[test]
fn editing_keys_follow_the_bindings() {
    let mut p = prompt_with("one two");
    p.handle_event(key(KeyCode::Left, ALT));
    assert_eq!(p.cursor_offset(), 4);
    p.handle_event(key(KeyCode::Char('a'), CONTROL));
    assert_eq!(p.cursor_offset(), 0);
    p.handle_event(key(KeyCode::Char('f'), ALT));
    assert_eq!(p.cursor_offset(), 4);
    p.handle_event(key(KeyCode::Right, 0));
    assert_eq!(p.cursor_offset(), 5);
    p.handle_event(key(KeyCode::Char('b'), CONTROL));
    assert_eq!(p.cursor_offset(), 4);
    p.handle_event(key(KeyCode::Char('e'), CONTROL));
    assert_eq!(p.cursor_offset(), 7);
    p.handle_event(key(KeyCode::Char('w'), CONTROL));
    assert_eq!(p.line, "one ");
    p.handle_event(key(KeyCode::Home, 0));
    p.handle_event(key(KeyCode::Char('k'), CONTROL));
    assert_eq!(p.line, "");
}

#[test]
fn line_edits_report_updates() {
    let mut p = prompt_with("one two");
    let out = p.handle_event(key(KeyCode::Char('w'), CONTROL));
    assert!(matches!(
        out,
        EventOutcome::Consumed { notify: Some(PromptEvent::Update), close: false }
    ));
    assert_eq!(p.line, "one ");
    p.handle_event(key(KeyCode::Home, 0));
    let out = p.handle_event(key(KeyCode::Char('k'), CONTROL));
    assert!(matches!(
        out,
        EventOutcome::Consumed { notify: Some(PromptEvent::Update), close: false }
    ));
    assert_eq!(p.line, "");
    // Nothing left to kill or delete: the line is unchanged and no update is told.
    let out = p.handle_event(key(KeyCode::Char('k'), CONTROL));
    assert!(matches!(out, EventOutcome::Consumed { notify: None, close: false }));
    let out = p.handle_event(key(KeyCode::Char('w'), CONTROL));
    assert!(matches!(out, EventOutcome::Consumed { notify: None, close: false }));
}

#[test]
fn other_events_are_consumed_or_ignored() {
    let mut p = prompt_with("x");
    assert!(matches!(
        p.handle_event(Event::Resize(80, 24)),
        EventOutcome::Consumed { notify: None, close: false }
    ));
    assert!(matches!(p.handle_event(Event::Mouse), EventOutcome::Ignored));
    assert!(matches!(
        p.handle_event(key(KeyCode::F(1), 0)),
        EventOutcome::Consumed { notify: None, close: false }
    ));
    assert_eq!(p.line, "x");
}

#[test]
fn key_bindings_as_commands() {
    let k = |code, modifiers| KeyEvent { code, modifiers };
    assert!(matches!(command_for_key(k(KeyCode::Char('x'), 0)), Command::Insert('x')));
    assert!(matches!(command_for_key(k(KeyCode::Char('x'), CONTROL)), Command::Nothing));
    assert!(matches!(command_for_key(k(KeyCode::Tab, SHIFT)), Command::Complete(CompletionDirection::Forward)));
    assert!(matches!(command_for_key(k(KeyCode::BackTab, 0)), Command::Complete(CompletionDirection::Backward)));
    assert!(matches!(command_for_key(k(KeyCode::Char('q'), CONTROL)), Command::ExitSelection));
    assert!(matches!(command_for_key(k(KeyCode::End, SHIFT)), Command::Nothing));
    assert!(matches!(command_for_key(k(KeyCode::Left, CONTROL)), Command::Move(Movement::BackwardChar(1))));
}

#[test]
fn tab_cycles_completions_through_events() {
    let mut p = Prompt::new(":".to_string(), Words(vec!["ab", "cd"]));
    let out = p.handle_event(key(KeyCode::Tab, 0));
    assert!(matches!(
        out,
        EventOutcome::Consumed { notify: Some(PromptEvent::Update), close: false }
    ));
    assert_eq!(p.line, "ab");
    let out = p.handle_event(key(KeyCode::BackTab, 0));
    assert!(matches!(
        out,
        EventOutcome::Consumed { notify: Some(PromptEvent::Update), close: false }
    ));
    assert_eq!(p.line, "cd");
    p.handle_event(key(KeyCode::Char('q'), CONTROL));
    assert_eq!(p.selection(), None);
}

/// A completion source that answers with the words starting with the input
/// and remembers each input it was asked for.
struct Recording {
    words: Vec<&'static str>,
    asked: Vec<String>,
}

impl CompletionSource for Recording {
    fn complete(&mut self, input: &str) -> Vec<Completion> {
        self.asked.push(input.to_string());
        self.words
            .iter()
            .filter(|w| w.starts_with(input))
            .map(|w| (0, w.to_string()))
            .collect()
    }
}

fn recording(words: Vec<&'static str>) -> Prompt<Recording> {
    Prompt::new(":".to_string(), Recording { words, asked: vec![] })
}

fn shown(p: &Prompt<Recording>) -> Vec<String> {
    p.completions().iter().map(|c| c.1.clone()).collect()
}

#[test]
fn new_keeps_the_answer_for_the_empty_line() {
    let p = recording(vec!["abc", "abd", "x"]);
    assert_eq!(shown(&p), vec!["abc", "abd", "x"]);
    assert_eq!(p.selection(), None);
}

#[test]
fn edits_keep_the_answer_for_the_new_line() {
    let mut p = recording(vec!["abc", "abd", "b"]);
    p.insert_char('a');
    assert_eq!(shown(&p), vec!["abc", "abd"]);
    p.insert_char('b');
    p.insert_char('d');
    assert_eq!(shown(&p), vec!["abd"]);
    p.delete_char_backwards();
    assert_eq!(shown(&p), vec!["abc", "abd"]);
    p.delete_word_backwards();
    assert_eq!(p.line, "");
    assert_eq!(shown(&p), vec!["abc", "abd", "b"]);
    p.insert_char('b');
    p.move_start();
    p.kill_to_end_of_line();
    assert_eq!(shown(&p), vec!["abc", "abd", "b"]);
    p.insert_char('q');
    assert!(shown(&p).is_empty());
    p.clear();
    assert_eq!(shown(&p), vec!["abc", "abd", "b"]);
}

#[test]
fn enter_after_a_slash_asks_again_for_the_line() {
    let mut p = recording(vec!["d/", "d/e"]);
    p.insert_char('d');
    p.insert_char('/');
    p.change_completion_selection(CompletionDirection::Forward);
    assert_eq!(p.selection(), Some(0));
    let out = p.handle_event(key(KeyCode::Enter, 0));
    assert!(matches!(out, EventOutcome::Consumed { notify: None, close: false }));
    assert_eq!(p.line, "d/");
    assert_eq!(p.selection(), None);
    assert_eq!(shown(&p), vec!["d/", "d/e"]);
}

#[test]
fn backward_step_on_a_fresh_prompt_takes_the_last() {
    let mut p = recording(vec!["abc", "abd"]);
    p.change_completion_selection(CompletionDirection::Backward);
    assert_eq!(p.selection(), Some(1));
    assert_eq!(p.line, "abd");
    assert_eq!(p.cursor_offset(), 3);
}

#[test]
fn forward_steps_on_a_fresh_prompt_cycle() {
    let mut p = recording(vec!["abc", "abd"]);
    p.change_completion_selection(CompletionDirection::Forward);
    p.change_completion_selection(CompletionDirection::Forward);
    assert_eq!(p.selection(), Some(1));
    assert_eq!(p.line, "abd");
    p.change_completion_selection(CompletionDirection::Forward);
    assert_eq!(p.selection(), Some(0));
    assert_eq!(p.line, "abc");
    assert_eq!(p.cursor_offset(), 3);
}
