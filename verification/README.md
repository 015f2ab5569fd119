# vmux

`vmux` is a small tmux companion with a sidebar of recently active panes. Automation appends
`notify` events to a log when a pane needs attention, and `clear` events when it no longer does;
the sidebar shows what a replay of the log leaves.

- `vmux` opens the chooser
- `vmux notify [--payload-path] <payload-path>` appends a `notify` event
- `vmux clear [--payload-path] <payload-path>` appends a `clear` event

## Layout

`src/` is the library, verified with [Verus](https://github.com/verus-lang/verus). It decides
everything that is not input or output:

| module | what it is about |
| --- | --- |
| `recent_activity` | events, their lines in the log, and the panes that a replay leaves |
| `event_log` | where the log is, when it is rotated, which files belong to it |
| `notify` | the ledger of notifications |
| `panes`, `state` | recent panes, sessions and the selection |
| `layout`, `sidebar`, `styled` | what is drawn where |
| `screen` | the screen of the embedded tmux client as styled lines |
| `mouse`, `input` | mouse reports, and what becomes of the user's input |
| `chooser` | what happens from one frame to the next |
| `tmux`, `cli`, `error` | tmux commands and their output, arguments, errors |
| `json`, `lines`, `text`, `order` | JSON, lines, strings and sorting |

Contracts are stated over the views of the types. What holds of several functions together
stands in public proof functions whose names begin with `law_`, most of them in the modules
`recent_laws`, `event_log_laws`, `input_laws`, `sidebar_laws` and `state_laws`.

The library calls `serde_json`, `vt100`, `ratatui` and, for UTF-8, the standard library through a
few functions marked `external_body`. Their contracts are believed, not proved; a comment above
each says what is claimed.

`app/` is the program around the library: the terminal, the tmux client in its pseudo terminal,
and the files. `tests/` holds the tests.
