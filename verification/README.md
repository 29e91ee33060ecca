# velvet

Building blocks of a visual-novel engine, written in Verus with their
behaviour stated as contracts and proved.

- `gallery`, `glossary`: unlockable CG gallery and codex (catalogs, unlock
  sets, sorted listings, search, save/restore of unlocks).
- `skip`: skip policy — which lines may be skipped, single skips, batches
  over the states the player passes through, counting already-read lines.
- `screens`, `history`, `live2d`: say/choice/confirm screen state, the
  rolling dialogue history, Live2D model registry.
- `localization`, `po`, `interpolate`: localization keys, slugs, PO
  templates and PO translation tables, `{var}` interpolation.
- `loc_ops`: the localizable view of story ops (dialogue lines, choice
  menus, nested bodies): catalog extraction, applying a translation table,
  target-language scaffolds, speakers.
- `story_refs`: `id.expression` show targets and `line:col` positions.
- `rtl`, `ruby`, `icons`, `tags`, `text_kinds`: bidi marks and RTL display
  order, ruby tags, inline icon placeholders and glyph maps, markup tag
  names and attributes.
- `raster`, `ui`: software rasterizer helpers (rectangles, 5x7 bitmap font,
  word wrapping), script-family font choice and the hybrid presenter
  policy.
- `sheet_parse`, `script_lex`, `script_parse`: the block structure of a
  style sheet (`@import`, rules with selectors and declarations, `@svg`
  and `@keyframes` bodies, `@script` blocks parsed and merged, errors with
  lines), the sheet check summary, and the script language's tokens and
  parser (`let`, `fn`, `on`, statements, expressions by precedence);
  values and numbers are kept as written.
- `selector`, `style_text`, `style_check`: style sheet selectors and
  specificity, comment stripping, `@import` paths, top-level commas, time
  suffixes, check reports.
- `player`: the dialogue runtime's step — what each story op does to the
  scene cursor, nested `if`/choice frames, calls and returns, jumps, the
  choice menu, visible characters, seen lines and the event queue; values
  read from variables and the host's answer come in, variable writes go
  out; scene label indexes.
- `rich_text`: rich-text markup (`{color=…}…{/color}`, `{pause …}`,
  `{icon …}`, ruby, links) into spans with the style tags open around
  them; numeric attributes kept as written.
- `rollback`, `character`: the bounded rollback stack and recorder, story
  characters and expression portraits.
- `ops`, `transitions`, `voice`, `host`, `save_files`, `checksum`: story
  operators and integer arithmetic, transition kinds, voice states, host
  errors, save file naming, save checksums and version checks.

`app/` holds what stays outside the verified library: reading documents,
translation tables and save directories from disk, writing translation
scaffolds, font discovery, and icon spans with a float pixel size.
