# NeuTerm

A terminal emulator whose core is a library verified with Verus.

- `src/` — the verified library:
  - `grid.rs`, `color.rs`, `vt.rs`: the cell grid, colours, and what control
    bytes, CSI sequences and OSC strings do to the grid;
  - `schema.rs`, `theme.rs`, `config.rs`: the configuration model, themes,
    validation and derived settings;
  - `triggers.rs`: output triggers (regex or literal rules that style lines);
  - `mux.rs`: tabs, the binary tree of panes, closing panes and moving
    focus between them by where they were laid out;
  - `input.rs`, `overlay.rs`: key bindings, the bytes keys send, and the
    rename / command-help overlays;
  - `ai.rs`: chat transcripts, command-help requests and replies, and the
    framing of streamed replies;
  - `render.rs`: selections, click targets, layout, theme colours and the
    rectangle primitives of the frame buffer, and the order in which font
    files are tried;
  - `session.rs`: shell choice and the reader's events;
  - `text.rs`: character-sequence helpers.
- `app/` — the program around it: window and event loop, PTY processes,
  font rasterisation and blending, the HTTP client, YAML loading.
- `tests/` — tests of the library.
