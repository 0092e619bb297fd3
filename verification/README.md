# PaperUI

A small, allocation-bounded UI framework for embedded displays, with its logic
verified by Verus.

- `src/` is the verified library: geometry, the drawing substrate (`Canvas`,
  `DrawCtx`, `WidgetTheme`, a recording `MockCanvas` and a replayable
  `DisplayList`), the board themes, the button widget and `State`, button
  gesture detection, the reactive engine (signals, scopes, the retained node
  tree, focus and carousel navigation, layout, rendering, animations, event
  routing), the 4-bit e-ink framebuffer with its packing and band planning, the
  IT8951 packet protocol, and the simulator's input mapping.
- `app/` is the glue Verus does not see: the global runtime behind a critical
  section and the closures behind handler/effect ids, the blocking run loop,
  the embedded-graphics backend, the IT8951 SPI driver, the e-ink renderer and
  the GPIO button reader.
- `tests/` exercises the library from outside.
- The desktop preview's window loop is left out: it needs the SDL-based
  `embedded-graphics-simulator` crate, which links the SDL2 system library, and
  the crate does not depend on it. Its key and mouse mapping is in
  `src/input_map.rs`, and `app/driver.rs`'s `run` is the same loop over any
  `EventSource`.
