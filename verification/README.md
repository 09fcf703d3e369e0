# herdr-navigator

The decision core of a navigator for Herdr workspaces, verified with Verus: what is listed for a
query and in which order, how the tree of tabs and panes is shown, what opening and closing an entry
calls for, how jumping back works, and what the preview of an entry is made of.

- `src/` is the library. Every verified function in it has a contract that Verus proves. What it
  takes from outside (Unicode tables, UTF-8, JSON, TOML, ANSI escapes) stands behind a few
  declarations, in `text.rs`, `data.rs` and `preview.rs`, whose contracts are believed.
- `src/laws.rs` and `src/tree_laws.rs` state what holds of the navigator as a whole.
- `tests/` runs the library with the outside crates.
- `app/` is ordinary Rust around the library: files, environment, processes and the screen. It hands
  the library plain values and performs what the library decides.
