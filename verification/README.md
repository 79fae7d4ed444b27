# cargo-warm

`cargo-warm` lets a new Rust worktree inherit build state from an already-warm
checkout: it forks Cargo's cache roots into the worktree's own writable cache,
repairs freshness metadata where that is provably safe, and can prime rustc's
relocatable incremental state.

## Layout

- `src/` is the library, written and proved with Verus. It holds the decisions:
  profile resolution and inheritance, which cache roots to clone, how worktrees
  are ranked as seed sources, which tracked files may have their modification
  times mirrored, which build-script directives can be relocated, the doctor's
  recommendation and report text, and the parsers for the outputs of `git`,
  `rustc -vV`, `cargo metadata`, `df`, `pgrep` and `lsof`. Each public function
  states its result exactly over spec functions; the laws that span several
  functions are public proof functions named `law_*`.
- `app/` is the command-line program around the library: argument parsing,
  running `git`, `cargo` and `rustc`, walking and cloning directories, setting
  file times, reading the TOML configuration and the JSON registry.
- `tests/` exercises the library on concrete values.
