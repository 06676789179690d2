# winter_term

The logic of a modal terminal emulator, written and proved in Verus.

A pane shows what a program has written, with its scrollback. Over it lies a layer of
modes: Insert passes keys to the program, Normal moves a cursor over the text as Vim does,
Visual selects, and pages lay a tool over a pane. The library decides what every key,
click, timer and line of output does to that state. It never reads a file, starts a program
or looks at the clock: it is told what happened, and it says what it wants done.

## Layout

- `src/grid.rs`, `src/input.rs`, `src/text.rs`, `src/words.rs`: cells and rows, keys and
  actions, characters.
- `src/prompt_edit.rs`, `src/history.rs`: the bytes that edit a shell's line, and the model
  of that line behind undo and redo.
- `src/objects.rs`, `src/navigation/`: text objects, cursor motions, jump and change lists,
  search, links under the cursor, sentences and brackets, exports.
- `src/pointer/`: selections, the clipboard's texts, mouse reports.
- `src/session/`: one pane with what all panes share, and what each action does to it.
- `src/tabs.rs`, `src/palette.rs`, `src/pages.rs`, `src/jobs.rs`, `src/events.rs`,
  `src/requests.rs`: tabs and splits, lists to choose from, pages, work done aside, keys and
  timers, and what is asked of the world outside.
- `src/app/`: the program as a whole.
- `app/`: the window, the clipboard, shells and files around the library.
- `tests/`: its behaviour on concrete values.

## Contracts

Every type has a view: `AppView`, `SessionView`, `Grid`'s own functions, and so on. A method
that changes state says `final(self)@ == old(self)@.what_it_does(..)`, where the right-hand
side is a spec function over views. Laws, the functions named `law_..`, state what holds of
these functions together: that a step back and a step forward return, that a page is gone
before its command runs, that the line a shell holds is the line its model holds.

What is trusted is in `src/patterns.rs` (the `regex` crate) and at the head of `src/text.rs`
(what the standard library says of characters).
