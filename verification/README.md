# textkit

The core of a text input and of a Markdown view, verified with Verus.

- `src/` holds the library. `state.rs` defines what an input is; `edit.rs`,
  `compose.rs` and `history.rs` change its text; `navigate.rs`, `actions.rs`
  and `mouse.rs` react to the user; `value.rs` and `settings.rs` are what
  programs call. `undo_manager.rs`, `mask_pattern.rs`, `display_map.rs` and
  `segmentation.rs` are the parts that an input is made of. `node/` holds the
  nodes of a document: their text, how they are painted, laid out and written
  as Markdown.
- An input asks the application for what it cannot do itself (painting,
  blinking, scrolling) by adding an `Effect` to a `Context`; the application
  carries the effects out in order.
- `app/` holds what is floating point (geometry, numbers, measured widths), the
  conversion of parsed documents, and the highlighters of code.
- `tests/` runs the library with the real rope, segmentation and regular
  expressions.
