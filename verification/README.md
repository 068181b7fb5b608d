# QuickPaint core

The editing core of the QuickPaint drawing editor, written in Verus: every
operation states in its contract what it does to the document, the undo
history and the rest of the editor state, and Verus proves it.

- `src/` — the verified library: document and layer stack (`document`,
  `layers_ops`), undo history (`history`, `editor`), animation frames
  (`animation`), clipboard and selection (`clipboard`), palettes (`palette`),
  export presets and brand kits (`presets`), template content (`templates`),
  keyboard shortcuts (`shortcuts`), theme and language (`theme`, `i18n`),
  text helpers (`text`), pixel helpers (`raster`), the paint-bucket flood
  fill and the one-click cutout (`fill`), whole-image moves of the painted
  content, mirroring and shifting (`transform`), and lists of values saved
  under a name (`named`). The laws that relate several operations are
  public proof functions named `law_*`.
- `tests/` — scenarios run against the compiled library.
- `app/` — the unverified shell side: settings files, the floating-point
  brush presets (kept in the library's named lists), and the conversions from floating-point view coordinates to the integer pixel
  rectangles of the core.

Elements (strokes, text blocks, images) are held by id, and each layer holds
its painted raster pixels, its painted mask if it has one, and its lock. The positions and colours of the elements are
floating point and are not held by the library; the shell hands the core
integer pixel coordinates and rendered RGBA buffers instead.
