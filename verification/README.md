# zerofbuf

Keeps pools of pre-started application windows (terminals, browsers, …) on a
hidden X11 desktop and brings one forward on a key press, so that the window
is there at once instead of after the program's start-up.

## Layout

- `src/` — the verified library (Verus):
  - `text.rs` — string building, `str::replace`, white space, ASCII case,
    number formatting and path joining, each with an exact specification;
  - `external.rs` — the calls into `shell-words`, `rand` and `time`, each
    behind a trusted item whose contract states what the crate's source shows;
  - `config.rs` — pool and input configuration, the pool map kept in name
    order, the built-in defaults, terminal choice and the configuration path;
  - `state.rs` — the record of spawned windows and its operations;
  - `x11util.rs` — class matching, modifier groups and window placement
    computed from X11 replies;
  - `pools.rs` — pool desktops, warm-window counting, spawning decisions,
    activation, hide, toggle and cycle plans, and their laws;
  - `daemon.rs` — the input monitor as a state machine;
  - `cli.rs` — the command line as values and its overrides.
- `app/` — the program: argument parsing, X11 requests, processes, files,
  signals and the daemon loop, around the library's decisions.
- `tests/` — tests of the library on concrete values.
