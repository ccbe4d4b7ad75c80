# helix_prompt

The editing logic of a single-line command prompt, verified with Verus.

- `src/offsets.rs`: byte offsets into UTF-8 text as character boundaries of
  the line viewed as a sequence of characters.
- `src/text.rs`: the text operations taken from std, unicode-segmentation and
  unicode-width, with their contracts.
- `src/movement.rs`: cursor movement by grapheme cluster, by word and to the
  ends of the line.
- `src/prompt.rs`: the prompt, its edits and the completion selection.
- `src/event.rs`: key bindings and event handling.
- `src/layout.rs`: where the completion menu, the documentation box (clipped
  to the area), the input and the terminal cursor go on screen.
- `src/info.rs`: the key-binding help box.
- `src/laws.rs`: properties that span several operations.
- `app/`: the prompt as a terminal component fed with crossterm events, and
  the drawing of its layout with crossterm.
