# bog

Building blocks of a GUI toolkit, with their behaviour stated as contracts and proved with Verus.

- `src/` is the verified library: colors, key codes and the keyboard state machine, the pointer
  state machine (hover, press, release, drag), platform queries, clip-layer ordering, GPU buffer
  bookkeeping, the layered texture atlas (first-fit placement of images, their removal, and the
  plan for growing the texture), the raster image cache and its trimming, the layout tree's
  shape, the view model's hover and drag decisions on a pointer move, the hasher of the no-hash
  map, and small shared value types.
- `app/` holds what stays outside the proofs: floating-point geometry and positions, the layout
  engine's per-node data, maps keyed by runtime type identifiers, and the build target query.
- `tests/` exercises the library from outside.

## What is not here

Some parts of the toolkit have no counterpart in this crate, in `src/` or in `app/`:

- The window layer (window creation and the translation of window-system events and key codes
  into the toolkit's own): it is built on a windowing crate and the X11 bindings, which this
  crate does not depend on. The events it would produce are the library's input types, and their
  parsing into pointer and keyboard actions is verified here.
- Text shaping and glyph caching: they rest on a glyph-rendering crate, and the cache keys are
  floating-point sizes.
- The GPU renderer (pipelines, draw calls, texture uploads): it needs a GPU API crate and a
  device. The decisions it takes from plain values (which atlas place an image gets, how its rows
  are padded, how many layers the texture needs, how buffers grow) are in `src/`.
- Style themes and their classes: their values are floating-point lengths and colors.
- The view model's element set (buttons, labels, panels, scrollables) and its event dispatch:
  a thin layer of trait impls over the layout and style data, whose numbers are
  floating-point, and over the window and renderer. Its hover and drag decisions are in `src/`.
- Layout computation itself: the flexbox, block and grid passes belong to the layout engine
  crate and run over floating-point sizes through its traits; the tree they walk is in `src/`,
  and `app/` keeps each node's style and computed layout beside it.
