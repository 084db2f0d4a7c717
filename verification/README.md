# Removestaller

Removestaller lists the applications installed on a Linux system from APT,
DNF, Zypper, Pacman, Flatpak, Snap, AppImage, pip, npm and cargo, and removes
them on request.

The decisions and parsers are a Verus library whose behaviour is stated in
`requires` / `ensures` contracts and proved:

- `src/text.rs`, `src/path.rs`: the text and path operations the parsers use,
  each specified over `Seq<char>`.
- `src/model.rs`, `src/table.rs`, `src/sort.rs`: the application record, a
  string map, and a stable sort by lower-cased name.
- `src/backend.rs`: the `Backend` trait, the registry that queries backends
  as a group and routes removals, the report of a scan, and the rules that
  turn a finished tool into a result or an error message.
- `src/backends/`: one module per package format: desktop entry parsing,
  the critical-package guard, the parsers for each tool's output, and for
  each source the tools it needs, the commands it runs and how it removes an
  app; `build_registry` lists every source in order.
- `src/ui.rs`: what the window shows and decides: labels, counts, search,
  grouping, icons and the scan and removal state.

`app/` is the GTK4 / libadwaita program around the library: it runs the
tools, reads the file system and draws the window. `tests/` runs the library
on concrete inputs.
