# logq

A terminal viewer for NDJSON (newline-delimited JSON) and plain text streams:
lines come from a pipe, a file or a spawned command, and are shown with
timestamps, JSON highlighting, inline expansion, a query language for
filtering, `line_format` templates, and vim-style navigation.

The viewer's logic is a Verus library whose behaviour is stated in contracts
and proved; the program around it reads input, drives the terminal and
performs what the library asks for (recording to a file, copying to the
clipboard).

## Layout

- `src/` – the verified library
  - `text.rs`, `number.rs`, `json.rs`, `pattern.rs` – characters, exact decimal
    numbers, JSON values, regular expressions
  - `filter.rs` – the query language: parsing, printing, matching, templates
  - `filter_state.rs` – the filter prompt: live queries, history, reverse search
  - `highlight.rs`, `render.rs`, `style.rs` – JSON tokens and colors, widths,
    truncation, wrapping, styled rows
  - `keys.rs`, `input.rs`, `clock.rs` – key events and the line editor, raw input
    lines, timestamps
  - `viewer.rs`, `command.rs`, `screen.rs`, `chrome.rs` – the viewer: lines and
    their layout cache, navigation, context mode, commands, and every row it draws
  - `classic.rs`, `classic_screen.rs` – the two-view (list and detail) viewer and
    its scripted mode
  - `laws.rs` – properties that span several operations
- `app/` – the program: arguments, input readers, the terminal loop, recording,
  history file
- `tests/` – tests of the library

## Usage

```sh
command-producing-ndjson | logq
logq -- command arg1 arg2 ...
logq --file logfile.json
logq --max-lines 5000
```
