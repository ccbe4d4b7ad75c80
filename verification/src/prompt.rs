//! The prompt: an editable line with a cursor, and a list of completions that
//! the user can cycle through.

use vstd::prelude::*;

use crate::movement::{eval_movement, end_reachable, movement_allowed, movement_target, Movement};
use crate::offsets::{
    byte_offset, char_index, is_boundary, lemma_boundary, lemma_byte_offset_ends,
    lemma_byte_offset_le, lemma_byte_offset_prefix, lemma_char_index, lemma_replace, utf8_len,
};
use crate::text::{
    ends_ascii_or_empty, grapheme_next, is_char_boundary_at, next_grapheme_boundary, string_insert,
    string_replace_range, text_len,
};

verus! {

/// A completion: the byte offset from which the line is replaced, and the
/// text that replaces it.
pub type Completion = (usize, String);

/// Produces the completions for the current input line.
pub trait CompletionSource {
    fn complete(&mut self, input: &str) -> Vec<Completion>;
}

/// Asks `source` for the completions of `input`; the ghost parts record the
/// input that was handed over and the list that came back.
fn ask_completions<C: CompletionSource>(source: &mut C, input: &str) -> (r: (
    Vec<Completion>,
    Ghost<Seq<char>>,
    Ghost<Seq<(usize, Seq<char>)>>,
))
    ensures
        r.1@ == input@,
        r.2@ == completion_view(r.0@),
{
    let list = source.complete(input);
    let answer = Ghost(completion_view(list@));
    (list, Ghost(input@), answer)
}

/// What a prompt reports to its owner.
#[derive(Debug, Clone, Copy, PartialEq, Eq, Structural)]
pub enum PromptEvent {
    /// The prompt input has been updated.
    Update,
    /// Validate and finalize the change.
    Validate,
    /// Abort the change, reverting to the initial state.
    Abort,
}

/// The direction in which the completion selection moves.
#[derive(Debug, Clone, Copy)]
pub enum CompletionDirection {
    Forward,
    Backward,
}

/// The state of a prompt as the contracts see it.
pub struct PromptView {
    pub prompt: Seq<char>,
    pub line: Seq<char>,
    pub cursor: usize,
    pub completion: Seq<(usize, Seq<char>)>,
    pub selection: Option<usize>,
    /// The input that the completions were last asked for.
    pub completed_for: Seq<char>,
    /// The list the completion source returned when it was last asked.
    pub source_answer: Seq<(usize, Seq<char>)>,
}

/// A single-line prompt.
pub struct Prompt<C: CompletionSource> {
    prompt: String,
    pub line: String,
    cursor: usize,
    completion: Vec<Completion>,
    selection: Option<usize>,
    completion_fn: C,
    completed_for: Ghost<Seq<char>>,
    source_answer: Ghost<Seq<(usize, Seq<char>)>>,
}

pub open spec fn completion_view(c: Seq<Completion>) -> Seq<(usize, Seq<char>)> {
    c.map_values(|e: Completion| (e.0, e.1@))
}

impl<C: CompletionSource> View for Prompt<C> {
    type V = PromptView;

    closed spec fn view(&self) -> PromptView {
        PromptView {
            prompt: self.prompt@,
            line: self.line@,
            cursor: self.cursor,
            completion: completion_view(self.completion@),
            selection: self.selection,
            completed_for: self.completed_for@,
            source_answer: self.source_answer@,
        }
    }
}

/// The cursor sits on a character boundary of the line, and a selection
/// points into the completion list.
pub open spec fn well_formed(v: PromptView) -> bool {
    &&& is_boundary(v.line, v.cursor as int)
    &&& v.selection matches Some(i) ==> i < v.completion.len()
}

/// The line with the bytes `start..end` replaced by `with`.
pub open spec fn replace_bytes(s: Seq<char>, start: int, end: int, with: Seq<char>) -> Seq<char> {
    s.take(char_index(s, start)) + with + s.skip(char_index(s, end))
}

/// The line with `c` inserted at the cursor.
pub open spec fn line_with_char(v: PromptView, c: char) -> Seq<char> {
    let k = char_index(v.line, v.cursor as int);
    v.line.take(k).push(c) + v.line.skip(k)
}

/// The completion list is the one the source returned when it was last
/// asked, for `input`.
pub open spec fn completions_answer(v: PromptView, input: Seq<char>) -> bool {
    &&& v.completed_for == input
    &&& v.completion == v.source_answer
}

/// `new` is `old` after an edit that left `line` and `cursor`, kept the prompt
/// text, dropped the selection and took the completions the source gave for
/// `line`.
pub open spec fn edited(old: PromptView, new: PromptView, line: Seq<char>, cursor: int) -> bool {
    &&& new.prompt == old.prompt
    &&& new.line == line
    &&& new.cursor == cursor
    &&& new.selection is None
    &&& completions_answer(new, line)
}

/// `new` is `old` after inserting `c` at the cursor: the cursor moves to the
/// next grapheme boundary of the new line.
pub open spec fn after_insert(old: PromptView, c: char, new: PromptView) -> bool {
    let line = line_with_char(old, c);
    edited(old, new, line, next_grapheme_boundary(line, old.cursor)->0 as int)
}

/// `new` is `old` after deleting the text from byte `pos` up to the cursor.
pub open spec fn after_delete_back(old: PromptView, pos: int, new: PromptView) -> bool {
    edited(old, new, replace_bytes(old.line, pos, old.cursor as int, Seq::<char>::empty()), pos)
}

/// `new` is `old` after deleting from the cursor to the end of the line.
pub open spec fn after_kill(old: PromptView, new: PromptView) -> bool {
    edited(old, new, old.line.take(char_index(old.line, old.cursor as int)), old.cursor as int)
}

/// `new` is `old` with only the cursor moved, to `cursor`.
pub open spec fn moved(old: PromptView, cursor: int, new: PromptView) -> bool {
    new == (PromptView { cursor: cursor as usize, ..old })
}

/// `new` is `old` after a step of the completion selection in `direction`.
pub open spec fn after_completion_step(
    old: PromptView,
    direction: CompletionDirection,
    new: PromptView,
) -> bool {
    if old.completion.len() == 0 {
        new == old
    } else {
        let index = next_selection(old.selection, old.completion.len(), direction);
        let item = old.completion[index];
        let line = replace_bytes(old.line, item.0 as int, utf8_len(old.line) as int, item.1);
        new == (PromptView {
            line,
            cursor: utf8_len(line) as usize,
            selection: Some(index as usize),
            ..old
        })
    }
}

impl<C: CompletionSource> Prompt<C> {
    proof fn lemma_view(&self)
        ensures
            self@.line == self.line@,
            self@.cursor == self.cursor,
            self@.selection == self.selection,
            self@.prompt == self.prompt@,
            self@.completion.len() == self.completion@.len(),
            forall|i: int|
                0 <= i < self.completion@.len() ==> #[trigger] self@.completion[i] == (
                self.completion@[i].0,
                self.completion@[i].1@,
            ),
    {
    }

    /// The input line.
    pub fn line_str(&self) -> (r: &str)
        ensures
            r@ == self@.line,
    {
        self.line.as_str()
    }

    /// A prompt with the given prompt text and an empty line; the completions
    /// are the list the source returns for the empty line.
    pub fn new(prompt: String, completion_fn: C) -> (p: Self)
        ensures
            p@.prompt == prompt@,
            p@.line == Seq::<char>::empty(),
            p@.cursor == 0,
            p@.selection is None,
            completions_answer(p@, Seq::<char>::empty()),
            well_formed(p@),
    {
        let mut completion_fn = completion_fn;
        let line = String::new();
        let (completion, completed_for, source_answer) = ask_completions(
            &mut completion_fn,
            line.as_str(),
        );
        let p = Prompt {
            prompt,
            line,
            cursor: 0,
            completion,
            selection: None,
            completion_fn,
            completed_for,
            source_answer,
        };
        proof {
            lemma_char_index(p.line@, 0);
            lemma_byte_offset_ends(p.line@);
        }
        p
    }

    pub(crate) fn recompute_completion(&mut self)
        ensures
            final(self)@.line == old(self)@.line,
            final(self)@.cursor == old(self)@.cursor,
            final(self)@.prompt == old(self)@.prompt,
            final(self)@.selection is None,
            completions_answer(final(self)@, old(self)@.line),
    {
        let (completion, asked, answer) = ask_completions(&mut self.completion_fn, self.line.as_str());
        self.take_completions(completion, asked, answer);
    }

    /// Keeps `list`, the answer of the completion source to `asked`, as the
    /// completion list, with no selection.
    fn take_completions(
        &mut self,
        list: Vec<Completion>,
        asked: Ghost<Seq<char>>,
        answer: Ghost<Seq<(usize, Seq<char>)>>,
    )
        requires
            completion_view(list@) == answer@,
        ensures
            final(self)@.completion == completion_view(list@),
            final(self)@ == (PromptView {
                completion: answer@,
                selection: None,
                completed_for: asked@,
                source_answer: answer@,
                ..old(self)@
            }),
    {
        self.completion = list;
        self.completed_for = asked;
        self.source_answer = answer;
        self.selection = None;
    }

    /// Inserts `c` at the cursor and moves the cursor to the next grapheme
    /// boundary after it; the completions are computed anew.
    pub fn insert_char(&mut self, c: char)
        requires
            well_formed(old(self)@),
        ensures
            well_formed(final(self)@),
            after_insert(old(self)@, c, final(self)@),
            final(self)@.cursor > old(self)@.cursor,
    {
        let ghost old_line = self.line@;
        let ghost k = char_index(old_line, self.cursor as int);
        proof {
            lemma_boundary(old_line, self.cursor as int);
        }
        string_insert(&mut self.line, self.cursor, c);
        proof {
            let s = self.line@;
            let pre = old_line.take(k);
            assert(s == pre.push(c) + old_line.skip(k));
            assert(s =~= pre + (seq![c] + old_line.skip(k)));
            assert(old_line =~= pre + old_line.skip(k));
            lemma_byte_offset_prefix(pre, seq![c] + old_line.skip(k), k);
            lemma_byte_offset_prefix(pre, old_line.skip(k), k);
            lemma_char_index(s, k);
            lemma_byte_offset_ends(s);
            lemma_byte_offset_le(s, k, s.len() as int);
            lemma_byte_offset_strict_at(s, k);
        }
        match grapheme_next(self.line.as_str(), self.cursor) {
            Some(pos) => {
                self.cursor = pos;
            },
            None => {},
        }
        self.recompute_completion();
    }
}

/// The completion index that the selection moves to.
pub open spec fn next_selection(
    selection: Option<usize>,
    len: nat,
    direction: CompletionDirection,
) -> int {
    (match direction {
        CompletionDirection::Forward => match selection {
            Some(i) => i + 1,
            None => 0,
        },
        CompletionDirection::Backward => (match selection {
            Some(i) => i as int,
            None => 0,
        }) + len - 1,
    }) % (len as int)
}

/// What moving the completion selection asks of the prompt: the backward
/// index sum fits in a `usize`, and the completion it lands on starts at a
/// character boundary of the line.
pub open spec fn completion_step_allowed(v: PromptView, direction: CompletionDirection) -> bool {
    v.completion.len() > 0 ==> {
        &&& (direction is Backward ==> (match v.selection {
            Some(i) => i,
            None => 0,
        }) + v.completion.len() <= usize::MAX)
        &&& is_boundary(
            v.line,
            v.completion[next_selection(v.selection, v.completion.len(), direction)].0 as int,
        )
    }
}

impl<C: CompletionSource> Prompt<C> {
    /// Moves the cursor as `movement` says.
    pub fn move_cursor(&mut self, movement: Movement)
        requires
            well_formed(old(self)@),
            movement_allowed(old(self)@.line, old(self)@.cursor, movement),
        ensures
            well_formed(final(self)@),
            moved(old(self)@, movement_target(old(self)@.line, old(self)@.cursor, movement), final(self)@),
    {
        let pos = eval_movement(self.line.as_str(), self.cursor, movement);
        self.cursor = pos;
    }

    /// Moves the cursor to the start of the line.
    pub fn move_start(&mut self)
        ensures
            is_boundary(final(self)@.line, final(self)@.cursor as int),
            well_formed(old(self)@) ==> well_formed(final(self)@),
            moved(old(self)@, 0, final(self)@),
    {
        proof {
            lemma_char_index(self.line@, 0);
            lemma_byte_offset_ends(self.line@);
        }
        self.cursor = 0;
    }

    /// Moves the cursor to the end of the line.
    pub fn move_end(&mut self)
        ensures
            is_boundary(final(self)@.line, final(self)@.cursor as int),
            moved(old(self)@, utf8_len(old(self)@.line) as int, final(self)@),
    {
        proof {
            lemma_char_index(self.line@, self.line@.len() as int);
            lemma_byte_offset_ends(self.line@);
        }
        self.cursor = text_len(self.line.as_str());
    }

    /// Removes the text between `pos` and the cursor and puts the cursor at
    /// `pos`; the completions are computed anew.
    fn delete_back_to(&mut self, pos: usize)
        requires
            well_formed(old(self)@),
            is_boundary(old(self)@.line, pos as int),
            pos <= old(self)@.cursor,
        ensures
            well_formed(final(self)@),
            after_delete_back(old(self)@, pos as int, final(self)@),
    {
        proof {
            reveal_strlit("");
            lemma_replace(self.line@, pos as int, self.cursor as int, ""@);
        }
        string_replace_range(&mut self.line, pos, self.cursor, "");
        self.cursor = pos;
        self.recompute_completion();
    }

    /// Deletes the grapheme before the cursor.
    pub fn delete_char_backwards(&mut self)
        requires
            well_formed(old(self)@),
        ensures
            well_formed(final(self)@),
            after_delete_back(
                old(self)@,
                movement_target(old(self)@.line, old(self)@.cursor, Movement::BackwardChar(1)),
                final(self)@,
            ),
    {
        let pos = eval_movement(self.line.as_str(), self.cursor, Movement::BackwardChar(1));
        self.delete_back_to(pos);
    }

    /// Deletes back to the start of the word before the cursor.
    pub fn delete_word_backwards(&mut self)
        requires
            well_formed(old(self)@),
        ensures
            well_formed(final(self)@),
            after_delete_back(
                old(self)@,
                movement_target(old(self)@.line, old(self)@.cursor, Movement::BackwardWord(1)),
                final(self)@,
            ),
    {
        let pos = eval_movement(self.line.as_str(), self.cursor, Movement::BackwardWord(1));
        self.delete_back_to(pos);
    }

    /// Deletes everything from the cursor to the end of the line.
    pub fn kill_to_end_of_line(&mut self)
        requires
            well_formed(old(self)@),
            end_reachable(old(self)@.line),
        ensures
            well_formed(final(self)@),
            after_kill(old(self)@, final(self)@),
    {
        let pos = eval_movement(self.line.as_str(), self.cursor, Movement::EndOfLine);
        proof {
            reveal_strlit("");
            let s = self.line@;
            lemma_boundary(s, self.cursor as int);
            lemma_byte_offset_le(s, char_index(s, self.cursor as int), s.len() as int);
            lemma_byte_offset_ends(s);
            lemma_char_index(s, s.len() as int);
            lemma_replace(s, self.cursor as int, pos as int, ""@);
            assert(s.skip(s.len() as int) =~= Seq::<char>::empty());
        }
        string_replace_range(&mut self.line, self.cursor, pos, "");
        proof {
            let s = self.line@;
            assert(s =~= old(self)@.line.take(char_index(old(self)@.line, old(self)@.cursor as int)));
        }
        self.recompute_completion();
    }

    /// Empties the line.
    pub fn clear(&mut self)
        ensures
            well_formed(final(self)@),
            edited(old(self)@, final(self)@, Seq::<char>::empty(), 0),
    {
        self.line = String::new();
        self.cursor = 0;
        proof {
            lemma_char_index(self.line@, 0);
            lemma_byte_offset_ends(self.line@);
        }
        self.recompute_completion();
    }

    /// Forgets the selected completion.
    pub fn exit_selection(&mut self)
        ensures
            is_boundary(old(self)@.line, old(self)@.cursor as int) ==> well_formed(final(self)@),
            final(self)@ == (PromptView { selection: None, ..old(self)@ }),
    {
        self.selection = None;
    }

    /// Selects the next (or previous) completion, cyclically, puts it into the
    /// line in place of the text from its start offset on, and moves the
    /// cursor to the end. Nothing happens when there are no completions.
    pub fn change_completion_selection(&mut self, direction: CompletionDirection)
        requires
            well_formed(old(self)@),
            completion_step_allowed(old(self)@, direction),
        ensures
            well_formed(final(self)@),
            after_completion_step(old(self)@, direction, final(self)@),
    {
        let len = self.completion.len();
        if len == 0 {
            return;
        }
        proof {
            self.lemma_view();
        }
        let raw: usize = match direction {
            CompletionDirection::Forward => match self.selection {
                Some(i) => i + 1,
                None => 0,
            },
            CompletionDirection::Backward => {
                let current = match self.selection {
                    Some(i) => i,
                    None => 0,
                };
                current + len - 1
            },
        };
        let index = raw % len;
        self.selection = Some(index);
        let start = self.completion[index].0;
        let end = text_len(self.line.as_str());
        proof {
            let s = self.line@;
            lemma_char_index(s, s.len() as int);
            lemma_byte_offset_ends(s);
            lemma_boundary(s, start as int);
            lemma_replace(s, start as int, end as int, self.completion@[index as int].1@);
        }
        string_replace_range(&mut self.line, start, end, self.completion[index].1.as_str());
        self.move_end();
    }
}

impl<C: CompletionSource> Prompt<C> {
    /// Whether `change_completion_selection(direction)` can run on this prompt.
    pub fn allows_completion_step(&self, direction: CompletionDirection) -> (b: bool)
        requires
            well_formed(self@),
        ensures
            b == completion_step_allowed(self@, direction),
    {
        proof {
            self.lemma_view();
        }
        let len = self.completion.len();
        if len == 0 {
            return true;
        }
        let current: usize = match self.selection {
            Some(i) => i,
            None => 0,
        };
        let raw: usize = match direction {
            CompletionDirection::Forward => match self.selection {
                Some(i) => i + 1,
                None => 0,
            },
            CompletionDirection::Backward => {
                if current > usize::MAX - len {
                    return false;
                }
                current + len - 1
            },
        };
        let index = raw % len;
        is_char_boundary_at(self.line.as_str(), self.completion[index].0)
    }

    /// Whether the line is empty or ends with an ASCII character, as the
    /// end-of-line movement needs.
    pub fn allows_end_of_line(&self) -> (b: bool)
        ensures
            b == end_reachable(self@.line),
    {
        ends_ascii_or_empty(self.line.as_str())
    }

    /// The prompt text.
    pub fn prompt_str(&self) -> (r: &str)
        ensures
            r@ == self@.prompt,
    {
        self.prompt.as_str()
    }

    /// The byte offset of the cursor in the line.
    pub fn cursor_offset(&self) -> (r: usize)
        ensures
            r == self@.cursor,
    {
        self.cursor
    }

    /// The selected completion, if any.
    pub fn selection(&self) -> (r: Option<usize>)
        ensures
            r == self@.selection,
    {
        self.selection
    }

    /// The completions.
    pub fn completions(&self) -> (r: &Vec<Completion>)
        ensures
            completion_view(r@) == self@.completion,
    {
        &self.completion
    }
}

proof fn lemma_byte_offset_strict_at(s: Seq<char>, k: int)
    requires
        0 <= k < s.len(),
    ensures
        byte_offset(s, k) < utf8_len(s),
{
    crate::offsets::lemma_byte_offset_strict(s, k, s.len() as int);
    lemma_byte_offset_ends(s);
}

} // verus!
