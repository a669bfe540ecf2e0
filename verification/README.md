# selftop

A per-window activity tracker for X11: it records key presses, button clicks, pointer
movements and time spent in each window, and shows the totals as a terminal screen.

- `src/` is the verified library:
  - `selftop/` — the per-window counters (`WindowSniffer`, `MotionSniffer`), with the
    laws of event counting and time accounting;
  - `report.rs` and `text.rs` — the screen: rows ordered by time, fixed-width columns,
    the time format and the footer;
  - `record.rs` — which recorded protocol events count, and when to redraw;
  - `focus.rs` — the walk up the window tree to the window with a usable name;
  - `x11wrapper/` — plain-value models of displays, windows and window trees, and the
    decoding of window properties.
- `app/` is the program: the Xlib and RECORD calls, the record callback and the terminal.
- `tests/` runs the library on concrete cases.
