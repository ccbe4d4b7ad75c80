use helix_prompt::event::{Event, KeyCode, KeyEvent};
use helix_prompt::info::Info;
use helix_prompt::layout::Rect;
use helix_prompt::movement::{eval_movement, Movement};
use helix_prompt::prompt::{Completion, CompletionDirection, CompletionSource, Prompt};

struct Fixed(Vec<&'static str>);

impl CompletionSource for Fixed {
    fn complete(&mut self, _input: &str) -> Vec<Completion> {
        self.0.iter().map(|w| (0, w.to_string())).collect()
    }
}

fn typed(text: &str) -> Prompt<Fixed> {
    let mut p = Prompt::new(":".to_string(), Fixed(vec![]));
    for c in text.chars() {
        p.insert_char(c);
    }
    p
}

#[test]
fn backspace_undoes_insert_of_a_standalone_char() {
    let mut p = typed("héllo");
    p.move_cursor(Movement::BackwardChar(2));
    let (line, cursor) = (p.line.clone(), p.cursor_offset());
    p.insert_char('ü');
    assert_eq!(p.line, "hélülo");
    p.delete_char_backwards();
    assert_eq!(p.line, line);
    assert_eq!(p.cursor_offset(), cursor);
}

#[test]
fn backward_then_forward_selection_returns() {
    let mut p = Prompt::new(":".to_string(), Fixed(vec!["a", "b", "c"]));
    p.change_completion_selection(CompletionDirection::Forward);
    p.change_completion_selection(CompletionDirection::Forward);
    assert_eq!(p.selection(), Some(1));
    p.change_completion_selection(CompletionDirection::Backward);
    p.change_completion_selection(CompletionDirection::Forward);
    assert_eq!(p.selection(), Some(1));
    p.change_completion_selection(CompletionDirection::Forward);
    p.change_completion_selection(CompletionDirection::Backward);
    assert_eq!(p.selection(), Some(1));
}

#[test]
fn kill_leaves_the_cursor_at_the_end() {
    let mut p = typed("alpha beta");
    p.move_cursor(Movement::BackwardChar(3));
    p.kill_to_end_of_line();
    assert_eq!(p.line, "alpha b");
    assert_eq!(p.cursor_offset(), p.line.len());
}

#[test]
fn end_of_line_movement_is_move_end() {
    let mut p = typed("a b c");
    p.move_start();
    p.move_cursor(Movement::EndOfLine);
    let a = p.cursor_offset();
    p.move_start();
    p.move_end();
    assert_eq!(a, p.cursor_offset());
}

#[test]
fn word_movements_land_on_word_starts() {
    let text = "  one\ttwo  three ";
    let chars: Vec<(usize, char)> = text.char_indices().collect();
    let mut p = typed(text);
    p.move_start();
    let mut stops = vec![];
    for _ in 0..4 {
        p.move_cursor(Movement::ForwardWord(1));
        stops.push(p.cursor_offset());
    }
    assert_eq!(stops, vec![2, 6, 11, 17]);
    for &s in &stops[..3] {
        let i = chars.iter().position(|(o, _)| *o == s).unwrap();
        assert!(!chars[i].1.is_whitespace() && chars[i - 1].1.is_whitespace());
    }
    let mut back = vec![];
    for _ in 0..4 {
        p.move_cursor(Movement::BackwardWord(1));
        back.push(p.cursor_offset());
    }
    assert_eq!(back, vec![11, 10, 6, 2]);
    for &s in &back {
        let i = chars.iter().position(|(o, _)| *o == s).unwrap();
        assert!(chars[i - 1].1.is_whitespace());
    }
}

#[test]
fn selection_is_always_shown() {
    let words: Vec<&'static str> = vec!["w"; 9];
    let mut p = Prompt::new(":".to_string(), Fixed(words));
    let a = Rect { x: 0, y: 0, width: 40, height: 4 };
    for step in 0..9 {
        p.change_completion_selection(CompletionDirection::Forward);
        let l = p.render_prompt(a);
        let shown: Vec<_> = l.items.iter().filter(|i| i.selected).collect();
        assert_eq!(shown.len(), 1);
        assert_eq!(shown[0].index, step);
    }
}

#[test]
fn help_box_has_one_line_per_entry() {
    let body = vec![
        (vec!["a".to_string()], " first ".to_string()),
        (vec!["b".to_string(), "c".to_string()], "second".to_string()),
        (vec!["d".to_string()], "".to_string()),
    ];
    let info = Info::key("Help", body);
    assert_eq!(info.text.matches('\n').count(), info.height as usize);
    assert_eq!(info.height, 3);
}

#[test]
fn backspace_undoes_an_ascii_insert() {
    let mut p = typed("abc def");
    p.move_cursor(Movement::BackwardChar(3));
    let (line, cursor) = (p.line.clone(), p.cursor_offset());
    p.insert_char('x');
    helix_prompt::text::learn_grapheme_steps(&p.line);
    assert_eq!(p.line, "abc xdef");
    p.delete_char_backwards();
    assert_eq!(p.line, line);
    assert_eq!(p.cursor_offset(), cursor);
}

#[test]
fn moves_compose_by_adding_counts() {
    let line = "alpha beta gamma delta";
    for (a, b) in [(1usize, 2usize), (2, 1), (0, 3), (3, 0)] {
        let end = line.len();
        let split = eval_movement(line, eval_movement(line, end, Movement::BackwardWord(a)), Movement::BackwardWord(b));
        assert_eq!(split, eval_movement(line, end, Movement::BackwardWord(a + b)));
        let split = eval_movement(line, eval_movement(line, 0, Movement::ForwardWord(a)), Movement::ForwardWord(b));
        assert_eq!(split, eval_movement(line, 0, Movement::ForwardWord(a + b)));
        let split = eval_movement(line, eval_movement(line, 9, Movement::ForwardChar(a)), Movement::ForwardChar(b));
        assert_eq!(split, eval_movement(line, 9, Movement::ForwardChar(a + b)));
        let split = eval_movement(line, eval_movement(line, 9, Movement::BackwardChar(a)), Movement::BackwardChar(b));
        assert_eq!(split, eval_movement(line, 9, Movement::BackwardChar(a + b)));
    }
}

#[test]
fn longer_moves_go_at_least_as_far() {
    let line = "one two three";
    let c = 5;
    let mut last_back = c;
    let mut last_fwd = c;
    for r in 0..6usize {
        let back = eval_movement(line, c, Movement::BackwardWord(r));
        let fwd = eval_movement(line, c, Movement::ForwardWord(r));
        assert!(back <= last_back && last_fwd <= fwd);
        assert!(fwd <= line.len());
        last_back = back;
        last_fwd = fwd;
    }
    assert_eq!(eval_movement(line, c, Movement::BackwardWord(1)), 4);
    assert_eq!(eval_movement(line, c, Movement::ForwardWord(1)), 8);
    assert_eq!(eval_movement(line, c, Movement::ForwardWord(9)), line.len());
    assert_eq!(eval_movement(line, c, Movement::BackwardChar(2)), 3);
    assert_eq!(eval_movement(line, c, Movement::ForwardChar(20)), line.len());
}

#[test]
fn completion_steps_restore_the_line() {
    let mut p = Prompt::new(":".to_string(), Fixed(vec!["ab", "cd", "ef"]));
    p.change_completion_selection(CompletionDirection::Forward);
    let (line, cursor, sel) = (p.line.clone(), p.cursor_offset(), p.selection());
    p.change_completion_selection(CompletionDirection::Forward);
    assert_eq!(p.line, "cd");
    p.change_completion_selection(CompletionDirection::Backward);
    assert_eq!((p.line.clone(), p.cursor_offset(), p.selection()), (line, cursor, sel));
}

#[test]
fn ascii_keys_are_all_allowed() {
    let mut p = Prompt::new(":".to_string(), Fixed(vec!["ab", "cd"]));
    for c in "xy z".chars() {
        p.insert_char(c);
    }
    let codes = [
        KeyCode::Char('a'), KeyCode::Char('w'), KeyCode::Char('k'), KeyCode::Char('e'),
        KeyCode::Tab, KeyCode::BackTab, KeyCode::Backspace, KeyCode::Left, KeyCode::Right,
        KeyCode::End, KeyCode::Home, KeyCode::Enter, KeyCode::Esc,
    ];
    for code in codes {
        for modifiers in [0u8, 1, 2, 4] {
            assert!(p.allows_event(Event::Key(KeyEvent { code, modifiers })));
        }
    }
}

#[test]
fn help_box_stays_inside_the_area() {
    let p = Prompt::new(":".to_string(), Fixed(vec!["a"]));
    for (w, h) in [(10u16, 3u16), (80, 20), (200, 5), (1, 1)] {
        let a = Rect { x: 0, y: 0, width: w, height: h };
        let l = p.render_prompt(a);
        let d = l.doc_area;
        if d.width > 0 && d.height > 0 {
            assert!(d.x + d.width <= a.x + a.width && d.y + d.height <= a.y + a.height);
        }
        let t = l.doc_text_area;
        if t.width > 0 && t.height > 0 {
            assert!(d.x < t.x && t.x + t.width < d.x + d.width);
        }
    }
}
