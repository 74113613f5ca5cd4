# bevy_ascii_game

An ASCII-art game and its editors on bevy, whose logic is a library verified
with Verus.

- `src/` is the verified library: font atlases (rendering glyphs with swash,
  shelf packing, drawing), glyph textures, glyph animations and animation
  graphs, editor layers, the widget layout, and the decisions of the editor's
  tools, menus and brush.
- `tests/` runs the library on concrete values.
- `app/` is the bevy application around it: asset loaders (RON through
  serde), systems that turn input events into calls of the library, and the
  floating-point helpers.
