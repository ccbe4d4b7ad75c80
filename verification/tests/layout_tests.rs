use helix_prompt::info::Info;
use helix_prompt::layout::{Margin, MenuItem, Position, Rect};
use helix_prompt::movement::Movement;
use helix_prompt::prompt::{Completion, CompletionDirection, CompletionSource, Prompt};

struct Fixed(Vec<&'static str>);

impl CompletionSource for Fixed {
    fn complete(&mut self, _input: &str) -> Vec<Completion> {
        self.0.iter().map(|w| (0, w.to_string())).collect()
    }
}

fn area(x: u16, y: u16, width: u16, height: u16) -> Rect {
    Rect { x, y, width, height }
}

#[test]
fn menu_is_laid_out_in_columns_above_the_line() {
    let p = Prompt::new(":".to_string(), Fixed(vec!["write", "quit", "open"]));
    let l = p.render_prompt(area(0, 0, 80, 20));
    assert_eq!(l.completion_area, area(0, 17, 80, 2));
    let items: Vec<MenuItem> = l.items.clone();
    assert_eq!(
        items,
        vec![
            MenuItem { index: 0, x: 0, y: 17, max_width: 38, selected: false },
            MenuItem { index: 1, x: 0, y: 18, max_width: 38, selected: false },
            MenuItem { index: 2, x: 40, y: 17, max_width: 38, selected: false },
        ]
    );
    // The 90-column box asked for is clipped to the 80 columns of the area.
    assert_eq!(l.doc_area, area(0, 14, 80, 3));
    assert_eq!(l.doc_text_area, area(1, 15, 78, 1));
    assert_eq!((l.prompt_x, l.line_x, l.line_y), (0, 1, 19));
}

#[test]
fn long_completions_widen_the_columns() {
    let long = "abcdefghijklmnopqrstuvwxyzabcdefghijklmn"; // 40 bytes
    let p = Prompt::new("> ".to_string(), Fixed(vec![long, "b"]));
    let l = p.render_prompt(area(5, 2, 100, 10));
    // 100 / 40 = 2 columns of (100 - 2) / 2 = 49.
    assert_eq!(l.completion_area, area(5, 8, 100, 1));
    assert_eq!(l.items[0], MenuItem { index: 0, x: 5, y: 8, max_width: 48, selected: false });
    assert_eq!(l.items[1], MenuItem { index: 1, x: 55, y: 8, max_width: 48, selected: false });
    assert_eq!((l.prompt_x, l.line_x, l.line_y), (5, 7, 11));
}

#[test]
fn menu_shows_the_page_of_the_selection() {
    let mut p = Prompt::new(":".to_string(), Fixed(vec!["a", "b", "c", "d", "e"]));
    for _ in 0..5 {
        p.change_completion_selection(CompletionDirection::Forward);
    }
    assert_eq!(p.selection(), Some(4));
    let l = p.render_prompt(area(0, 0, 60, 3));
    // Two rows of two columns: the second page holds only the fifth item.
    assert_eq!(l.completion_area, area(0, 0, 60, 2));
    assert_eq!(l.items.len(), 1);
    assert_eq!(l.items[0], MenuItem { index: 4, x: 0, y: 0, max_width: 28, selected: true });
}

#[test]
fn menu_items_stay_inside_the_area() {
    let words: Vec<&'static str> = vec!["x"; 25];
    let p = Prompt::new(":".to_string(), Fixed(words));
    let a = area(3, 1, 95, 30);
    let l = p.render_prompt(a);
    assert_eq!(l.items.len(), 25);
    for item in &l.items {
        assert!(item.x as usize + item.max_width < (a.x + a.width) as usize);
        assert!(item.y >= l.completion_area.y);
        assert!(item.y < l.completion_area.y + l.completion_area.height);
    }
}

#[test]
fn empty_menu_has_no_items() {
    let p = Prompt::new(":".to_string(), Fixed(vec![]));
    let l = p.render_prompt(area(0, 0, 40, 1));
    assert_eq!(l.completion_area, area(0, 0, 40, 0));
    assert!(l.items.is_empty());
    assert_eq!(l.line_y, 0);
}

#[test]
fn cursor_follows_display_width() {
    let mut p = Prompt::new(":".to_string(), Fixed(vec![]));
    for c in "a世b".chars() {
        p.insert_char(c);
    }
    assert_eq!(p.cursor_position(area(2, 3, 50, 4)), Some(Position { row: 6, col: 7 }));
    p.move_cursor(Movement::BackwardChar(1));
    assert_eq!(p.cursor_position(area(2, 3, 50, 4)), Some(Position { row: 6, col: 6 }));
    p.move_start();
    assert_eq!(p.cursor_position(area(2, 3, 50, 4)), Some(Position { row: 6, col: 3 }));
    assert_eq!(
        p.cursor_position_for_width(area(0, 0, 10, 1), 7),
        Position { row: 0, col: 8 }
    );
}

fn entry(keys: &[&str], desc: &str) -> (Vec<String>, String) {
    (keys.iter().map(|k| k.to_string()).collect(), desc.to_string())
}

#[test]
fn info_key_aligns_descriptions() {
    let info = Info::key("Goto", vec![entry(&["a"], " save "), entry(&["C-x", "b"], "buffer")]);
    assert_eq!(info.title, "Goto");
    assert_eq!(info.text, " a       save\n C-x, b  buffer\n");
    assert_eq!(info.width, 16);
    assert_eq!(info.height, 2);
}

#[test]
fn info_key_counts_display_width() {
    let info = Info::key("Keys", vec![entry(&["世"], "wide"), entry(&["q"], "\tquit\n")]);
    assert_eq!(info.text, " 世  wide\n q   quit\n");
    assert_eq!(info.width, 1 + 2 + 2 + 4 + 1);
    assert_eq!(info.height, 2);
}

#[test]
fn try_key_refuses_what_key_cannot_lay_out() {
    assert!(Info::try_key("Empty", vec![]).is_none());
    assert!(Info::try_key("No key", vec![entry(&[], "nothing")]).is_none());
    let info = Info::try_key("One", vec![entry(&["x"], "y")]).unwrap();
    assert_eq!(info.text, " x  y\n");
    assert_eq!(info.width, 6);
    assert!(Info::key_allowed(&vec![entry(&["x"], "y")]));
}

#[test]
fn render_allowed_matches_what_render_can_lay_out() {
    let mut p = Prompt::new(":".to_string(), Fixed(vec!["a", "b"]));
    assert!(p.render_allowed(area(0, 0, 30, 5)));
    assert!(!p.render_allowed(area(0, 0, 0, 5)));
    assert!(!p.render_allowed(area(0, 0, 30, 0)));
    assert!(!p.render_allowed(area(0, 65535, 30, 2)));
    // With no room for the menu, a selection cannot be paged to.
    assert!(p.render_allowed(area(0, 0, 30, 1)));
    p.change_completion_selection(CompletionDirection::Forward);
    assert!(!p.render_allowed(area(0, 0, 30, 1)));
    assert!(p.render_allowed(area(0, 0, 30, 2)));
    // The last column must start within the screen.
    let many = Prompt::new(":".to_string(), Fixed(vec!["z"; 4]));
    assert!(!many.render_allowed(area(65510, 0, 65, 3)));
    assert!(many.render_allowed(area(65500, 0, 65, 3)));
    assert_eq!(many.render_prompt(area(65500, 0, 65, 3)).items[3].x, 65532);
}

#[test]
fn intersection_clips_and_empties() {
    let a = area(0, 0, 80, 20);
    assert_eq!(a.intersection(area(10, 5, 100, 3)), area(10, 5, 70, 3));
    assert_eq!(a.intersection(area(90, 5, 10, 3)), area(90, 5, 0, 3));
    assert_eq!(area(65530, 0, 20, 1).intersection(area(65530, 0, 3, 1)), area(65530, 0, 3, 1));
}

#[test]
fn inner_removes_the_margin() {
    let m = Margin { vertical: 1, horizontal: 1 };
    assert_eq!(area(2, 3, 10, 5).inner(m), area(3, 4, 8, 3));
    assert_eq!(area(2, 3, 1, 5).inner(m), area(0, 0, 0, 0));
    assert_eq!(area(2, 3, 2, 2).inner(m), area(3, 4, 0, 0));
}

#[test]
fn doc_box_sits_three_rows_above_the_menu() {
    let p = Prompt::new(":".to_string(), Fixed(vec![]));
    let l = p.render_prompt(area(0, 0, 120, 10));
    assert_eq!(l.completion_area, area(0, 9, 120, 0));
    assert_eq!(l.doc_area, area(0, 6, 90, 3));
    assert_eq!(l.doc_text_area, area(1, 7, 88, 1));
}

#[test]
fn descriptions_share_one_column() {
    let info = Info::key(
        "Space",
        vec![entry(&["f"], "file"), entry(&["C-w", "w"], "  window "), entry(&["gg"], "top")],
    );
    // The key column is 6 wide ("C-w, w"), so every description starts at column 9.
    for line in info.text.lines() {
        assert_eq!(line[9..].trim(), &line[9..]);
        assert!(line[..9].ends_with("  "));
    }
    assert_eq!(info.text, " f       file\n C-w, w  window\n gg      top\n");
}
