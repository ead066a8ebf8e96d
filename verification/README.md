# water

The core of a terminal workspace: terminals that run in workers, the screens
they show, the windows that show them, and the settings of it all.

Everything that decides something is written in Verus, in `src/`, with
contracts that say what each function returns or changes. The emulation of a
terminal, the decoding of pictures, the JSON of a list and the choice of a
random id are left to outside crates; the declarations that call them say what
is believed of them.

## Layout

- `src/terminal/` holds the terminals.
  - `stream`, `replay`: numbered output events and the bounded ring that keeps
    the newest of them.
  - `snapshot`, `capture`, `grid`, `wire`: a screen as a value, how it is taken
    from the emulator, and the shape in which it travels.
  - `screen`, `palette`, `emulator`, `limits`: the emulator, fed from a stream.
  - `graphics/`: pictures in the output, sixel and kitty, and the marks that
    stand for them.
  - `worker/`: what the thread behind a pseudo-terminal does with commands,
    output, titles and processes.
  - `registry`, `waits`, `manager`: the terminals of a server and those who
    wait for them.
- `src/ui/` holds the windows.
  - `application`, `connections`, `plane`, `attachment`, `events`: servers,
    their projections, and the screens that arrive from their terminals.
  - `workspace`, `window`, `tree`, `lookup`, `surface`: one window and what it
    shows.
  - `input`, `mouse`, `selection`, `utf16`, `row`, `colors`: keys, mouse, text
    and paint.
  - `settings`, `config`, `fields`, `sections`, `shortcuts`, `bindings`: the
    settings and the keys.
- `src/workspace/` names the workspaces.
- `app/` is ordinary Rust around the library: threads, locks, processes,
  sockets, floating point geometry and drawing.
- `tests/` runs the library.

## Reading the proofs

A type has a view, the mathematical value that the contracts speak of, and
where it needs one a well-formedness predicate `wf`. A property that relates
several operations is a public proof function whose name is the property, such
as `input_is_neither_lost_nor_reordered` or `wire_round_trip`.
