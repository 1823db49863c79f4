# git_pluck

`git-pluck` builds a branch whose commits hold a mapped subset of another
branch's history: paths are mirrored, moved, copied or removed as a Git INI
config file says, blob objects are reused, and a log branch records which
source commit each pluck commit came from, so that later runs only process
new commits.

The library in `src/` is verified with Verus; the program around it in
`app/` does the I/O (Git, files, the command line) and is ordinary Rust.

## Layout

- `src/text.rs`, `src/collections.rs`: string and small map/set helpers with
  their specifications.
- `src/error.rs`: errors, their messages and the process exit codes.
- `src/config.rs`: the config model, the `[pluck]` keys and the reading of a
  Git INI file (parsed by `gix-config`).
- `src/cli.rs`: how command-line options override the config, and which
  command a run performs.
- `src/map.rs`: the path map (mirror, move, copy, remove), its validation,
  and editing the config text with `--add-map` and `--remove`.
- `src/tree.rs`, `src/tree_objects.rs`, `src/tree_laws.rs`: building the
  pluck tree of a source commit, planning its tree objects, and the laws
  that tie the result to the source tree.
- `src/cache.rs`, `src/log.rs`: the source/pluck commit pairs, the log
  branch message and the `Plucked from:` trailer.
- `src/parent.rs`: the revisions to pluck and the resolution of source
  parents to pluck parents.
- `src/pluck.rs`: identity and message rewriting, the checks of a run, the
  final ref updates and the state of a run across revisions.
- `tests/`: tests of the library on concrete values.
- `app/`: `main`, the Git operations and the loop of a pluck run.
