# ruse_tui

The verified core of the `ruse` terminal editor frontend, written in Verus.

- `src/` — the library. Every function carries a contract that Verus proves:
  - `input/` — the command-line namespace (the `:`/`/`/`?` line, its history rings and recall,
    the command-line window, the minibuffer and the expression prompt), digraphs, the Emacs
    prefix argument, `CTRL-V` literal entry, the language-argument stage, the operators, the Vim
    keymap namespaces, and the ex command-line parser.
  - `keys`, `pty` — the byte encoding of keys (with its decode round trip) and terminal input.
  - `screen` — the cell grid, grapheme-aware painting, and the repaint diff.
  - `line_index` — the per-revision line-start cache.
  - `lsp/` — positions in UTF-16 units, diagnostics, the `Content-Length` framing, the client
    session, request params, response parsers, snippet expansion.
  - `remote/` — the Workspace Agent protocol: envelopes, negotiation, request planning, replies.
  - `persist/`, `recover` — file formats, the recovery journal, and the crash-recovery decision.
  - `org` — Org-mode render decorations.
  - `json`, `text`, `words` — the JSON value model and the text helpers the rest builds on.
- Not here: the modal key engine of the editor (the Normal/Insert/Visual key grammar, the Emacs
  keymap, operator-over-motion dispatch and dot-repeat). It turns keys into the editor core's
  command, motion and keymap values, and that core crate is not part of this build; the pieces of
  it that stand alone (counts, the command line, the `M-x` command-name registry, digraphs,
  literal entry, operators) are in `input/`. Likewise the mapping from a face name
  (`markup.heading`, …) to a terminal style belongs to the highlighter, which is not part of this
  build: decorations carry the face name.
- `app/` — the process around it: pipes, files, child processes, the PTY, logging, the panic
  hook, and conversions to and from `serde_json` and `crossterm`.
- `tests/` — tests of the library on concrete values.

Laws are public proof functions named `law_*`.
