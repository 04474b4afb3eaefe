# diffmark

`diffmark` shows uncommitted Git changes in a terminal and turns selected diff lines into inline
comments that can be pasted into a command-line AI agent. Its logic is a library that Verus
verifies; a thin program around it talks to the terminal, to Git and to the clipboard.

## Layout

- `src/`: the library. The functions state in their contracts what they compute; where a function
  calls another crate, its doc comment says what is taken from there unproved, and what is left
  unsaid.
  - `text`, `number`: strings as sequences of characters, and numerals
  - `diff_parser`, `parser_laws`, `identity`: reading a unified diff, and what holds of the result
  - `git_diff`, `diff_read`: which Git commands and files a reading of the changes needs, and what
    it makes of the answers
  - `untracked`, `untracked_laws`: diffs of untracked files
  - `payload`, `payload_laws`: the text that is copied for a comment
  - `comments`, `editor`: comments, and the editor that they are written in
  - `app`, `selection`, `commenting`, `events`, `control`, `app_laws`: the state of the program, and
    what keys and the mouse do to it
  - `render`: what is shown
  - `clipboard`: the ways to copy a text
  - `settings`: the arguments
- `tests/`: tests of the library
- `app/`: the program

The model of a type is its view (`x@`); a view's `after_...` functions say what an action does to
it. Proof functions named `law_...` state what holds of the library as a whole.

Reading the diff and copying a text alternate between decisions and work on the system. The
library holds the decisions: `DiffRead` and `ClipboardCopy` say what is to be done next, and take
what came of it.

## What is trusted

The contracts of a few functions from outside are believed without proof. They stand in
`text` (`char::is_whitespace`, `char::is_control`, `String::push`, `String::push_str`), `untracked`
(`std::str::from_utf8`), `git_diff` (`String::from_utf8_lossy`), `clipboard` (base64) and `render`
(the layout of the screen).
