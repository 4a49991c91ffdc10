# tumeto

A keyboard-driven terminal todo manager with groups, subtasks, notes,
priorities, fuzzy search, undo and a pomodoro focus timer, whose state and
rules form a library verified with Verus.

## Layout

- `src/` — the verified library (crate `tumeto`).
  - `model.rs` — priorities, statuses, todos, subtasks, groups, the timer.
  - `app.rs` — the application state and its abstract view (`AppView`).
  - `rows.rs` — which rows the list shows, in which order, and the cursor.
  - `edit.rs` — status and priority cycling, deletion and undo.
  - `focus.rs` — the pomodoro timer and Zen mode.
  - `input.rs` — adding and editing items, notes.
  - `nav.rs` — cursor, folding, groups, the category popup, loading.
  - `search.rs` — fuzzy scoring and ranked search across groups.
  - `ui.rs` — the decisions the terminal view makes (icons, layout, clock
    size, tab window, wrapped notes, header, row, Zen and search-result
    texts).
  - `text.rs` — trimming, case folding, substring search, decimals.
  - `laws.rs` — properties of the library as a whole, proved over `AppView`.
- `tests/` — tests of the library.
- `app/` — the terminal side: the JSON data file (serde) and drawing with
  ratatui and tui-big-text.

Every operation on `App` states its effect as the matching function on
`AppView`; the laws in `laws.rs` are stated over those functions.
