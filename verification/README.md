# texsmith

A command-line helper that creates LaTeX reports from embedded templates and
compiles them with Tectonic. The decisions it makes are a Verus-verified library;
the executable around it does the file and process work.

- `src/names.rs` — which file names are portable between Linux, macOS and
  Windows, and which names a report or template may have.
- `src/latex.rs` — escaping a title into literal LaTeX text.
- `src/paths.rs` — file names and extensions of `/`-separated paths.
- `src/templates.rs` — the files a new report receives from a template.
- `src/catalog.rs` — reading a template catalog from its folder tree, with the rules every catalog must satisfy.
- `src/cli.rs` — how the command line is read: help, `--root`, the commands,
  the arguments of `new` and the directories of `build`.
- `src/error.rs` — why a request is refused.
- `app/` — `main`, the embedded catalog, directory creation, report discovery
  and the call of Tectonic.
