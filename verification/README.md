# helixir

A trainer for Helix keybindings: `.hxt` exercise files are edited in the
reader's own editor, and the trainer tracks which ones are done.

`src/` is the library, verified with Verus:

- `display` — the progress bar (rounded share of full cells).
- `paths` — paths as `std::path::Path` reads them: components, file name
  and extension, sort order, and the exercises directory of a working
  directory.
- `progress` — the per-exercise completion store (`record_pass`, `get`).
- `commands::verify` — which files are exercises and in which order they are
  visited; tallying verdicts.
- `commands::next` — the first exercise not yet passed.
- `commands::progress` — per-module and overall completion counts, percentages.
- `commands::reset` — the exercises directory a file belongs to.
- `tui::ui` — the text and colours of the trainer's header, exercise list,
  detail panel, footer and help popup.
- `text` — character helpers (decimal notation, lines, trimming).

`app/` is the program around it: command-line parsing, file system walks and
reads, the JSON progress file, and drawing with ratatui.
