# oyo_core

A step-through diff viewer's library, verified with Verus.

- `src/` — the library: the line and word-level diff (`diff`, `tokens`,
  `change`), the step navigator and its view lines (`step`, `view`),
  multi-file sessions (`multi`), scrolling and hunk targeting
  (`display`, `goto_line`, `hunk_scroll`), the viewer's key rules
  (`controls`), what each key and mouse event does (`keys`), search
  (`search`), the playback clock (`playback`), the file panel and the
  status bar (`file_panel`, `status_bar`), switching stepping on and off
  (`mode_memory`), syntax rows (`syntax`), blame parsing and prefetch
  planning (`blame`, `prefetch`), colors, themes and configuration
  (`color`, `theme`, `config`), times and text helpers (`time_format`,
  `text`, `cli`), and the profile summary tool's helpers (`profile`). The
  laws that a diff's changes rebuild both texts, and that the navigator
  shows the old text at its first step and the new text at its last,
  stand in `diff` and `step::shown`. Calls into `imara-diff`, `rustc-hash`, `time`, `regex`
  and the standard library stand in `foreign`, each with the contract the
  proofs rely on.
- `tests/` — tests of the library.
- `app/` — the `oyo` command: reading files and configuration, the
  uncommitted changes of a git repository (with no path given), git blame
  and the clipboard, and a line-oriented loop that reads keys (one word
  per key, or a line of characters) and performs what `keys::key_action`
  decides; lines starting with `:` run goto, filter, search, file list,
  copy, blame and state commands.
