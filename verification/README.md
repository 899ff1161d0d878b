# rmd_editor

The logic of a tile map editor, written in Verus: the functions in `src/` carry contracts that
Verus proves. The few calls into std that vstd does not specify (`String::push`,
`Path::strip_prefix`, `Path::extension`, `Path::components`) stand behind small wrappers whose
contracts are taken on trust.

- `src/geometry.rs`: coordinates, map sizes and block selections.
- `src/tool.rs`: block transforms (rotations and mirrors of points, directions, offsets and whole
  blocks), hollow block masks, the requests and staging plan of a block move, copy or
  transform and the edit it makes, directional type variants.
- `src/fill.rs`: which tiles each fill mode may spread onto, the region a bucket fill reaches,
  the tiles it changes and the fill limit.
- `src/placement.rs`: the kind of a prefab, where it goes in the stack of a tile, which prefabs
  it replaces and whether a fill changes the tile at all.
- `src/path.rs`: a map path as its components, and the component-wise order and equality that
  key the per-map load diagnostics.
- `src/text.rs`: character-level text helpers (shortened paths, grouped counts, joined lines,
  text order).
- `src/ui.rs` and `src/ui/`: the state and decisions of the editor's panels: load diagnostics,
  block selection options and controls, drag strokes on the map view, dialogs (and the queue of
  maps waiting to close), the custom boundaries of the fill, the profile panel
  of a codebase, the git panel (row selection, the conflict, blame and diff tables, the
  versions to compare), search results, settings, type search, the rows and guide lines of the
  object tree, what a click on the node overlay hits, the entries of the map's context menu, and
  the per-frame decisions of the main window (saving, screenshots, confirming a reload of a map
  changed on disk, the loading popup, which menu entries are enabled).
- `tests/`: tests on concrete values.
- `app/`: what touches the file system, the clock and floating point (among it the screen
  geometry of the overlays).

The public proof functions (`lemma_*`) state the properties the library keeps across calls.
