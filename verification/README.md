# rx

The core of `rx`, a modal pixel editor, written in Verus: each function
states what it does in `requires` / `ensures`, and Verus proves it.

## Layout

- `src/` — the verified library.
  - `session.rs`, `commands.rs`, `keyboard.rs`, `mouse.rs`, `update.rs`:
    the editing session, the commands it carries out, what it does with
    keys, typed characters and mouse buttons, and the steps around each
    update.
  - `replay.rs`, `execution.rs`, `event.rs`: recording user input, and
    replaying it frame by frame, with frame digests verified or recorded.
  - `cmd.rs`, `parser.rs`, `autocomplete.rs`, `completion.rs`,
    `history.rs`: the command language, the command line, its completion
    and its history.
  - `view.rs`, `view/`: views, their frames, and the snapshots that undo
    and redo go through.
  - `brush.rs`, `flood.rs`, `pixels.rs`, `palette.rs`, `color.rs`,
    `image.rs`, and the rest: drawing, filling, pixel buffers, colors and
    PNG files.
- `tests/` — tests of the library, run against the compiled crate.
- `app/` — the `rx` program: options, files, standard input, and a
  session run without a window, one command per line.

Laws that span several functions stand in `src/` as public proof
functions whose names begin with `law_`.
