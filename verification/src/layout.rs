//! Where a prompt is drawn inside its screen area: the completion menu laid
//! out in columns above the input line, the box for documentation, and the
//! terminal cursor.

use vstd::arithmetic::div_mod::{lemma_fundamental_div_mod_converse_div, lemma_fundamental_div_mod_converse_mod};
use vstd::prelude::*;

use crate::offsets::{char_index, utf8_len};
use crate::prompt::{completion_view, well_formed, CompletionSource, Prompt, PromptView};
use crate::text::{display_width, str_prefix, str_width, text_len};

verus! {

/// Width, in columns, below which no completion column is made narrower.
pub const BASE_WIDTH: u16 = 30;

/// A rectangle of the screen.
#[derive(Debug, Clone, Copy, PartialEq, Eq, Structural)]
pub struct Rect {
    pub x: u16,
    pub y: u16,
    pub width: u16,
    pub height: u16,
}

/// Space left free on each side of a rectangle: `vertical` rows above and
/// below, `horizontal` columns left and right.
#[derive(Debug, Clone, Copy, PartialEq, Eq, Structural)]
pub struct Margin {
    pub vertical: u16,
    pub horizontal: u16,
}

/// `a + b`, or `u16::MAX` where that is larger.
pub open spec fn sat_add_u16(a: int, b: int) -> int {
    if a + b <= u16::MAX {
        a + b
    } else {
        u16::MAX as int
    }
}

/// The part of `a` that `b` covers; its width or height is 0 where they do
/// not meet.
pub open spec fn rect_intersection(a: Rect, b: Rect) -> Rect {
    let x1 = max(a.x as int, b.x as int);
    let y1 = max(a.y as int, b.y as int);
    let x2 = min(sat_add_u16(a.x as int, a.width as int), sat_add_u16(b.x as int, b.width as int));
    let y2 = min(sat_add_u16(a.y as int, a.height as int), sat_add_u16(b.y as int, b.height as int));
    Rect { x: x1 as u16, y: y1 as u16, width: sat_sub(x2, x1) as u16, height: sat_sub(y2, y1) as u16 }
}

/// `a` without its margin; the empty rectangle at the origin where the
/// margin does not fit.
pub open spec fn rect_inner(a: Rect, m: Margin) -> Rect {
    if a.width < 2 * m.horizontal || a.height < 2 * m.vertical {
        Rect { x: 0, y: 0, width: 0, height: 0 }
    } else {
        Rect {
            x: (a.x + m.horizontal) as u16,
            y: (a.y + m.vertical) as u16,
            width: (a.width - 2 * m.horizontal) as u16,
            height: (a.height - 2 * m.vertical) as u16,
        }
    }
}

impl Rect {
    /// The part of `self` that `other` covers.
    pub fn intersection(self, other: Rect) -> (r: Rect)
        ensures
            r == rect_intersection(self, other),
    {
        let x1 = if self.x >= other.x {
            self.x
        } else {
            other.x
        };
        let y1 = if self.y >= other.y {
            self.y
        } else {
            other.y
        };
        let r1 = self.x.saturating_add(self.width);
        let r2 = other.x.saturating_add(other.width);
        let x2 = if r1 <= r2 {
            r1
        } else {
            r2
        };
        let b1 = self.y.saturating_add(self.height);
        let b2 = other.y.saturating_add(other.height);
        let y2 = if b1 <= b2 {
            b1
        } else {
            b2
        };
        Rect { x: x1, y: y1, width: x2.saturating_sub(x1), height: y2.saturating_sub(y1) }
    }

    /// `self` without `margin` on each side.
    pub fn inner(self, margin: Margin) -> (r: Rect)
        requires
            self.width >= 2 * margin.horizontal && self.height >= 2 * margin.vertical ==> {
                &&& self.x + margin.horizontal <= u16::MAX
                &&& self.y + margin.vertical <= u16::MAX
            },
        ensures
            r == rect_inner(self, margin),
    {
        let h2 = 2 * (margin.horizontal as u32);
        let v2 = 2 * (margin.vertical as u32);
        if (self.width as u32) < h2 || (self.height as u32) < v2 {
            Rect { x: 0, y: 0, width: 0, height: 0 }
        } else {
            Rect {
                x: self.x + margin.horizontal,
                y: self.y + margin.vertical,
                width: self.width - 2 * margin.horizontal,
                height: self.height - 2 * margin.vertical,
            }
        }
    }
}

/// A row and a column of the screen.
#[derive(Debug, Clone, Copy, PartialEq, Eq, Structural)]
pub struct Position {
    pub row: usize,
    pub col: usize,
}

/// One completion drawn in the menu: which one, where, in how many columns
/// at most, and whether it is the selected one.
#[derive(Debug, Clone, Copy, PartialEq, Eq, Structural)]
pub struct MenuItem {
    pub index: usize,
    pub x: u16,
    pub y: u16,
    pub max_width: usize,
    pub selected: bool,
}

/// Where the parts of a prompt go.
pub struct PromptLayout {
    /// The area of the completion menu.
    pub completion_area: Rect,
    /// The completions shown, in drawing order.
    pub items: Vec<MenuItem>,
    /// The box for documentation of the input, clipped to the area.
    pub doc_area: Rect,
    /// Where the documentation text goes: the box without its border.
    pub doc_text_area: Rect,
    /// Column of the prompt text.
    pub prompt_x: u16,
    /// Column of the input line.
    pub line_x: u16,
    /// Row of the prompt text and the input line.
    pub line_y: u16,
}

pub open spec fn max(a: int, b: int) -> int {
    if a >= b {
        a
    } else {
        b
    }
}

pub open spec fn min(a: int, b: int) -> int {
    if a <= b {
        a
    } else {
        b
    }
}

/// `a - b`, or 0 where that is negative.
pub open spec fn sat_sub(a: int, b: int) -> int {
    if a >= b {
        a - b
    } else {
        0
    }
}

/// The byte length of a text as a `u16`, wrapped around.
pub open spec fn len_u16(t: Seq<char>) -> int {
    ((utf8_len(t) as usize) as u16) as int
}

/// The largest wrapped byte length among the completions, 0 for none.
pub open spec fn longest_completion(cs: Seq<(usize, Seq<char>)>) -> int
    decreases cs.len(),
{
    if cs.len() == 0 {
        0
    } else {
        max(longest_completion(cs.drop_last()), len_u16(cs.last().1))
    }
}

/// The sizes of the completion menu.
pub struct MenuShape {
    /// Width a column asks for.
    pub max_len: int,
    /// Number of columns.
    pub cols: int,
    /// Width of a column, without the separating column.
    pub col_width: int,
    /// Number of rows.
    pub height: int,
}

pub open spec fn menu_shape(v: PromptView, area: Rect) -> MenuShape {
    let max_len = max(longest_completion(v.completion), BASE_WIDTH as int);
    let cols = max(1, area.width as int / max_len);
    let count = ((v.completion.len() as usize) as u16) as int;
    MenuShape {
        max_len,
        cols,
        col_width: (area.width as int - cols) / cols,
        height: min(min((count + cols - 1) / cols, 10), sat_sub(area.height as int, 1)),
    }
}

/// The area of the completion menu: full width, just above the input line.
pub open spec fn completion_area(v: PromptView, area: Rect) -> Rect {
    let h = menu_shape(v, area).height;
    Rect { x: area.x, y: sat_sub(area.height - h, 1) as u16, width: area.width, height: h as u16 }
}

/// The box asked for documentation: three rows above the menu, from its
/// left edge, three times `BASE_WIDTH` wide.
pub open spec fn doc_request(v: PromptView, area: Rect) -> Rect {
    let menu = completion_area(v, area);
    Rect { x: menu.x, y: sat_sub(menu.y as int, 3) as u16, width: (BASE_WIDTH * 3) as u16, height: 3 }
}

/// How many completions fit in the menu at once.
pub open spec fn menu_capacity(v: PromptView, area: Rect) -> int {
    menu_shape(v, area).height * menu_shape(v, area).cols
}

/// Index of the first completion shown: the start of the page that holds the
/// selection.
pub open spec fn menu_offset(v: PromptView, area: Rect) -> int {
    match v.selection {
        Some(s) => s as int / menu_capacity(v, area) * menu_capacity(v, area),
        None => 0,
    }
}

/// How many completions are shown.
pub open spec fn menu_count(v: PromptView, area: Rect) -> int {
    if v.completion.len() == 0 {
        0
    } else {
        min(menu_capacity(v, area), v.completion.len() - menu_offset(v, area))
    }
}

/// The `j`-th completion shown: columns are filled top to bottom, left to
/// right.
pub open spec fn menu_item(v: PromptView, area: Rect, j: int) -> MenuItem {
    let shape = menu_shape(v, area);
    let index = menu_offset(v, area) + j;
    MenuItem {
        index: index as usize,
        x: (area.x + (j / shape.height) * (1 + shape.col_width)) as u16,
        y: (completion_area(v, area).y + j % shape.height) as u16,
        max_width: sat_sub(shape.col_width, 1) as usize,
        selected: v.selection == Some(index as usize),
    }
}

/// The area is one the layout can be computed for without overflow.
pub open spec fn layout_allowed(v: PromptView, area: Rect) -> bool {
    let shape = menu_shape(v, area);
    &&& area.width >= 1
    &&& area.height >= 1
    &&& ((v.completion.len() as usize) as u16) + shape.cols <= u16::MAX
    &&& area.y + area.height - 1 <= u16::MAX
    &&& area.x + len_u16(v.prompt) <= u16::MAX
    &&& (v.completion.len() > 0 && v.selection is Some) ==> shape.height > 0
    &&& menu_count(v, area) > 0 ==> area.x + ((menu_count(v, area) - 1) / shape.height) * (1
        + shape.col_width) <= u16::MAX
}

proof fn lemma_longest_step(cs: Seq<(usize, Seq<char>)>, k: int)
    requires
        0 <= k < cs.len(),
    ensures
        longest_completion(cs.take(k + 1)) == max(
            longest_completion(cs.take(k)),
            len_u16(cs[k].1),
        ),
{
    assert(cs.take(k + 1).drop_last() =~= cs.take(k));
}

proof fn lemma_longest_bound(cs: Seq<(usize, Seq<char>)>)
    ensures
        0 <= longest_completion(cs) <= u16::MAX,
    decreases cs.len(),
{
    if cs.len() > 0 {
        lemma_longest_bound(cs.drop_last());
    }
}

/// Steps the cell counters of the menu: `j == col * h + row` stays true.
proof fn lemma_cell_step(j: int, h: int, col: int, row: int)
    requires
        h > 0,
        0 <= row < h,
        0 <= col,
        j == col * h + row,
    ensures
        row + 1 < h ==> j + 1 == col * h + (row + 1),
        row + 1 == h ==> j + 1 == (col + 1) * h + 0,
        j / h == col,
        j % h == row,
{
    assert((col + 1) * h == col * h + h) by (nonlinear_arith);
    lemma_fundamental_div_mod_converse_div(j, h, col, row);
    lemma_fundamental_div_mod_converse_mod(j, h, col, row);
}

proof fn lemma_cell_x(j: int, last: int, h: int, step: int)
    requires
        h > 0,
        0 <= j <= last,
        step >= 0,
    ensures
        (j / h) * step <= (last / h) * step,
        0 <= (j / h) * step,
{
    vstd::arithmetic::div_mod::lemma_div_is_ordered(j, last, h);
    vstd::arithmetic::div_mod::lemma_div_pos_is_pos(j, h);
    vstd::arithmetic::mul::lemma_mul_inequality(j / h, last / h, step);
    vstd::arithmetic::mul::lemma_mul_nonnegative(j / h, step);
}

impl<C: CompletionSource> Prompt<C> {
    /// Lays the prompt out in `area`: the completion menu in as many columns
    /// of at least `BASE_WIDTH` as fit, at most 10 rows above the last row of
    /// the area, showing the page that holds the selection; the documentation
    /// box above the menu; the prompt and the input on the last row.
    pub fn render_prompt(&self, area: Rect) -> (l: PromptLayout)
        requires
            well_formed(self@),
            layout_allowed(self@, area),
        ensures
            l.completion_area == completion_area(self@, area),
            l.items@.len() == menu_count(self@, area),
            forall|j: int| 0 <= j < l.items@.len() ==> l.items@[j] == menu_item(self@, area, j),
            forall|j: int|
                0 <= j < l.items@.len() ==> ((#[trigger] l.items@[j]).selected <==> self@.selection
                    == Some(l.items@[j].index)),
            l.doc_area == rect_intersection(area, doc_request(self@, area)),
            l.doc_text_area == rect_inner(l.doc_area, Margin { vertical: 1, horizontal: 1 }),
            l.prompt_x == area.x,
            l.line_x == area.x + len_u16(self@.prompt),
            l.line_y == area.y + area.height - 1,
    {
        let completions = self.completions();
        let selection = self.selection();
        let n = completions.len();
        let longest = longest_len(completions);
        let max_len: u16 = if longest > BASE_WIDTH {
            longest
        } else {
            BASE_WIDTH
        };
        let cols: u16 = if area.width / max_len > 1 {
            area.width / max_len
        } else {
            1
        };
        let col_width: u16 = (area.width - cols) / cols;
        let count: u16 = n as u16;
        let rows: u16 = (count + cols - 1) / cols;
        let rows: u16 = if rows < 10 {
            rows
        } else {
            10
        };
        let room: u16 = area.height.saturating_sub(1);
        let height: u16 = if rows < room {
            rows
        } else {
            room
        };
        let menu_area = Rect {
            x: area.x,
            y: (area.height - height).saturating_sub(1),
            width: area.width,
            height,
        };
        let ghost shape = menu_shape(self@, area);
        assert(shape.height == height && shape.cols == cols && shape.col_width == col_width);
        let mut items: Vec<MenuItem> = Vec::new();
        if n > 0 {
            assert(height <= 10);
            assert((height as int) * (cols as int) <= 10 * 65535) by (nonlinear_arith)
                requires
                    height <= 10,
                    cols <= 65535,
            ;
            let capacity: usize = (height as usize) * (cols as usize);
            assert(menu_capacity(self@, area) == shape.height * shape.cols);
            assert(capacity == menu_capacity(self@, area));
            let offset: usize = match selection {
                Some(s) => {
                    proof {
                        assert(capacity > 0) by (nonlinear_arith)
                            requires
                                capacity == height as int * cols as int,
                                height > 0,
                                cols >= 1,
                        ;
                        vstd::arithmetic::div_mod::lemma_fundamental_div_mod(
                            s as int,
                            capacity as int,
                        );
                        vstd::arithmetic::div_mod::lemma_mod_pos_bound(s as int, capacity as int);
                        assert(s as int / capacity as int * capacity as int == capacity as int * (
                        s as int / capacity as int)) by (nonlinear_arith);
                    }
                    s / capacity * capacity
                },
                None => 0,
            };
            assert(offset <= n);
            let end: usize = if capacity < n - offset {
                offset + capacity
            } else {
                n
            };
            let ghost total = menu_count(self@, area);
            assert(end - offset == total);
            let mut row: u16 = 0;
            let mut col: u16 = 0;
            let mut i: usize = offset;
            while i < end
                invariant
                    offset <= i <= end <= n,
                    end - offset == total,
                    total == menu_count(self@, area),
                    offset == menu_offset(self@, area),
                    capacity == menu_capacity(self@, area),
                    capacity == height as int * cols as int,
                    layout_allowed(self@, area),
                    shape == menu_shape(self@, area),
                    shape.height == height,
                    shape.cols == cols,
                    shape.col_width == col_width,
                    menu_area == completion_area(self@, area),
                    selection == self@.selection,
                    height > 0 ==> row < height,
                    (i - offset) == col as int * height as int + row as int,
                    items@.len() == i - offset,
                    forall|j: int| 0 <= j < items@.len() ==> items@[j] == menu_item(self@, area, j),
                decreases end - i,
            {
                let ghost j = (i - offset) as int;
                assert(height > 0) by {
                    if height == 0 {
                        assert(capacity == 0) by (nonlinear_arith)
                            requires
                                capacity == height as int * cols as int,
                                height == 0,
                        ;
                    }
                }
                proof {
                    lemma_cell_step(j, height as int, col as int, row as int);
                    lemma_cell_x(j, total - 1, height as int, 1 + col_width as int);
                    assert(col as int * (1 + col_width as int) == (j / height as int) * (1
                        + col_width as int));
                    assert(col < cols) by (nonlinear_arith)
                        requires
                            j == col as int * height as int + row as int,
                            j < capacity,
                            capacity == height as int * cols as int,
                            row >= 0,
                            height > 0,
                    ;
                }
                let x = area.x + col * (1 + col_width);
                let y = menu_area.y + row;
                let item = MenuItem {
                    index: i,
                    x,
                    y,
                    max_width: col_width.saturating_sub(1) as usize,
                    selected: match selection {
                        Some(s) => s == i,
                        None => false,
                    },
                };
                items.push(item);
                row = row + 1;
                if row > height - 1 {
                    row = 0;
                    col = col + 1;
                }
                i = i + 1;
            }
        }
        let doc_request = Rect {
            x: menu_area.x,
            y: menu_area.y.saturating_sub(3),
            width: BASE_WIDTH * 3,
            height: 3,
        };
        let doc_area = area.intersection(doc_request);
        let doc_text_area = doc_area.inner(Margin { vertical: 1, horizontal: 1 });
        let line = area.height - 1;
        let prompt_len = text_len(self.prompt_str()) as u16;
        PromptLayout {
            completion_area: menu_area,
            items,
            doc_area,
            doc_text_area,
            prompt_x: area.x,
            line_x: area.x + prompt_len,
            line_y: area.y + line,
        }
    }
}

/// Where the terminal cursor goes when the text before it is `width`
/// columns wide: on the last row of the area, after the prompt text and that
/// part of the input.
pub open spec fn cursor_cell(v: PromptView, area: Rect, width: int) -> Position {
    Position {
        row: (area.y + area.height - 1) as usize,
        col: (area.x + utf8_len(v.prompt) + width) as usize,
    }
}

/// The displayed width of the input before the cursor.
pub open spec fn width_before_cursor(v: PromptView) -> int {
    display_width(v.line.take(char_index(v.line, v.cursor as int))) as int
}

impl<C: CompletionSource> Prompt<C> {
    /// The terminal cursor of the prompt in `area`, when the input before the
    /// cursor is `width` columns wide.
    pub fn cursor_position_for_width(&self, area: Rect, width: usize) -> (p: Position)
        requires
            area.height >= 1,
            area.x + utf8_len(self@.prompt) + width <= usize::MAX,
        ensures
            p == cursor_cell(self@, area, width as int),
    {
        let line = area.height as usize - 1;
        let prompt_len = text_len(self.prompt_str());
        Position { row: area.y as usize + line, col: area.x as usize + prompt_len + width }
    }

    /// The terminal cursor of the prompt in `area`; `None` where its column
    /// would not fit in a `usize`.
    pub fn cursor_position(&self, area: Rect) -> (p: Option<Position>)
        requires
            well_formed(self@),
            area.height >= 1,
        ensures
            p is Some <==> area.x + utf8_len(self@.prompt) + width_before_cursor(self@)
                <= usize::MAX,
            p matches Some(q) ==> q == cursor_cell(self@, area, width_before_cursor(self@)),
    {
        let before = str_prefix(self.line_str(), self.cursor_offset());
        let width = str_width(before);
        let prompt_len = text_len(self.prompt_str());
        if prompt_len > usize::MAX - width || area.x as usize > usize::MAX - (prompt_len + width) {
            None
        } else {
            Some(self.cursor_position_for_width(area, width))
        }
    }
}

fn longest_len(completions: &Vec<crate::prompt::Completion>) -> (r: u16)
    ensures
        r == longest_completion(completion_view(completions@)),
{
    let ghost cv = completion_view(completions@);
    let n = completions.len();
    let mut longest: u16 = 0;
    let mut k: usize = 0;
    while k < n
        invariant
            k <= n,
            n == completions@.len() == cv.len(),
            cv == completion_view(completions@),
            longest == longest_completion(cv.take(k as int)),
        decreases n - k,
    {
        proof {
            lemma_longest_step(cv, k as int);
            assert(cv[k as int].1 == completions@[k as int].1@);
        }
        let len = text_len(completions[k].1.as_str()) as u16;
        if len > longest {
            longest = len;
        }
        k = k + 1;
    }
    proof {
        assert(cv.take(n as int) =~= cv);
    }
    longest
}

impl<C: CompletionSource> Prompt<C> {
    /// Whether `render_prompt(area)` can run on this prompt.
    #[verifier::spinoff_prover]
    pub fn render_allowed(&self, area: Rect) -> (b: bool)
        requires
            well_formed(self@),
        ensures
            b == layout_allowed(self@, area),
    {
        let ghost v = self@;
        let ghost shape = menu_shape(v, area);
        if area.width < 1 || area.height < 1 {
            return false;
        }
        if (area.y as u32) + (area.height as u32) - 1 > 65535 {
            return false;
        }
        let prompt_len = text_len(self.prompt_str()) as u16;
        if (area.x as u32) + (prompt_len as u32) > 65535 {
            return false;
        }
        let completions = self.completions();
        let n = completions.len();
        let longest = longest_len(completions);
        let max_len: u16 = if longest > BASE_WIDTH {
            longest
        } else {
            BASE_WIDTH
        };
        let cols: u16 = if area.width / max_len > 1 {
            area.width / max_len
        } else {
            1
        };
        assert(cols == shape.cols);
        let count: u16 = n as u16;
        if (count as u32) + (cols as u32) > 65535 {
            return false;
        }
        let col_width: u16 = (area.width - cols) / cols;
        let rows: u16 = (count + cols - 1) / cols;
        let rows: u16 = if rows < 10 {
            rows
        } else {
            10
        };
        let room: u16 = area.height - 1;
        let height: u16 = if rows < room {
            rows
        } else {
            room
        };
        assert(height == shape.height && col_width == shape.col_width);
        let selection = self.selection();
        if n == 0 {
            return true;
        }
        if height == 0 {
            proof {
                assert(menu_capacity(v, area) == shape.height * shape.cols);
                vstd::arithmetic::mul::lemma_mul_basics(shape.cols);
                assert(menu_capacity(v, area) == 0);
                assert(menu_count(v, area) <= 0);
            }
            return selection.is_none();
        }
        assert((height as int) * (cols as int) <= 10 * 65535) by (nonlinear_arith)
            requires
                height <= 10,
                cols <= 65535,
        ;
        let capacity: usize = (height as usize) * (cols as usize);
        assert(capacity > 0) by (nonlinear_arith)
            requires
                capacity == height as int * cols as int,
                height > 0,
                cols >= 1,
        ;
        assert(menu_capacity(v, area) == shape.height * shape.cols);
        let offset: usize = match selection {
            Some(s) => {
                proof {
                    vstd::arithmetic::div_mod::lemma_fundamental_div_mod(s as int, capacity as int);
                    vstd::arithmetic::div_mod::lemma_mod_pos_bound(s as int, capacity as int);
                    assert(s as int / capacity as int * capacity as int == capacity as int * (
                    s as int / capacity as int)) by (nonlinear_arith);
                }
                s / capacity * capacity
            },
            None => 0,
        };
        let shown: usize = if capacity < n - offset {
            capacity
        } else {
            n - offset
        };
        assert(shown == menu_count(v, area));
        if shown == 0 {
            return true;
        }
        let last_col: u64 = ((shown - 1) / (height as usize)) as u64;
        assert(last_col <= shown) by {
            vstd::arithmetic::div_mod::lemma_div_is_ordered_by_denominator(
                (shown - 1) as int,
                1,
                height as int,
            );
        }
        assert(last_col * (1 + col_width as u64) <= 10 * 65535 * 65536) by (nonlinear_arith)
            requires
                last_col <= shown,
                shown <= capacity,
                capacity <= 10 * 65535,
                col_width <= 65535,
        ;
        (area.x as u64) + last_col * (1 + col_width as u64) <= 65535
    }
}

} // verus!
