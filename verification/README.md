# upaint

A terminal text-art editor whose core is verified with Verus.

- `src/` is the verified library: the sparse canvas of styled cells (`canvas`, `rect`,
  `index_map`), its ANSI import and export and the proof that importing an export gives the
  canvas back (`ansi_import`, `ansi_export`, `ansi_round_trip`), diffs and the undo history
  (`operations`, `history`), yanks, mirroring and rotation (`yank`, `transform`), the editor
  state and its actions, operators and motions (`state`, `actions`, `operators`, `motions`,
  `color_target`, `command_line`), canvas walks and regions (`iter`, `continuous_region`),
  keystrokes, keymaps and presets (`keystroke`, `keystrokes`, `keymap`, `presets`), and the
  screen layout arithmetic (`rendering`).
- `app/` is the program around it: the terminal loop, files, rendering widgets, the color
  picker and the tracer that walks the canvas along a direction in floating point.
- `tests/` runs the library on concrete inputs.

The laws the library states are the public `law_*` proof functions.
