# sexy_claude

A themed terminal front end for an AI coding agent's command-line program:
it starts the agent with JSON streams, shows the conversation with markdown,
tool calls and diffs, and adds pickers, a split pane, an agent dashboard, a
plugin browser, input history and more.

The library in `src/` holds the logic and is verified with Verus: every
public function states what it returns or changes in its
`requires`/`ensures`, over plain models (`Seq`, `Map`, `int`, and a view of
each type). Where a result comes from an outside crate and its
documentation does not say what it is, the result is named and the
contract is stated over the name.

- Decoding the agent's stream (`events`, `json`) and building the
  conversation from it (`conversation`, `tracker`, `todo`, `questions`).
- Laying the conversation out (`pane`, `markdown`, `chat`) and what the
  popups show (`screens`, `viewers`, `menus`, `overlay`).
- The keys of the main view and of each panel (`keys`, `keybindings`,
  `panels`, `input`, `completion`, `history`).
- Diffs, file mentions, custom commands, sessions, themes and settings
  (`diff`, `activity`, `mentions`, `commands`, `sessions`, `theme`,
  `config`, `converter`, `cost`, `git`, `order`, `text`).

Calls into `serde_json`, `toml`, `pulldown-cmark`, `syntect`,
`fuzzy-matcher`, `unicode-width` and the standard library stand behind
small trusted wrappers whose contracts say what those crates document; a
few of them only convert a value, or read the clock, and promise nothing
of the result.

`app/` is the program around the library: arguments, the terminal, the
agent's process, files on disk, and drawing with ratatui. `tests/` runs the
library on concrete values.
