# plurimus

A terminal renderer's cell pipeline, specified and proved with Verus.

Cameras split the terminal into viewports, pipelines draw into per-camera
cell buffers, the buffers composite in camera order into one frame, the
frame is quantized to the terminal's color depth and presented. Everything
that decides what a cell shows lives in the verified library under `src/`;
`app/` holds what a library cannot: the terminal it owns, floating-point
geometry and color math, and the loop that runs a frame.

## Layout

- `src/geometry.rs`, `buffer.rs`, `style.rs`, `draw.rs`: rects, cells,
  styles, and writing styled text into a buffer.
- `src/camera.rs`, `viewport.rs`, `order.rs`: cameras, their viewports
  (full, fixed, docked, fill) and the stable orders cameras resolve and
  composite in.
- `src/compositor.rs`, `color.rs`, `cursor.rs`, `labels.rs`: compositing,
  quantization to 256 or 16 colors, the terminal cursor, and the order of a
  frame's steps.
- `src/grid.rs`, `braille.rs`, `blit.rs`: halfblock and braille subcell
  grids and nearest-neighbor blits into them.
- `src/sprite2d.rs`, `raster2d.rs`, `layers.rs`: 2d glyph and pixel sprites
  and the render layers that mask them per camera.
- `src/render3d.rs`, `convert.rs`, `overlay.rs`: the integer side of 3d
  rendering - frame placement, readback unpadding, occlusion masks, pixel
  to cell conversion, edge drawing.
- `src/text.rs`, `bui.rs`, `uiorder.rs`, `shadow.rs`: text wrapping and
  measuring, painting layout nodes, their paint order, box shadows.
- `src/placement.rs`, `widgets.rs`: where widgets land and the order they
  draw in.
- `src/events.rs`, `input.rs`, `terminal.rs`, `present.rs`: terminal input
  events turned into messages, and the decisions a terminal backend makes
  about modes, color support, requests, and presenting a frame.
- `src/unicode.rs`, `strings.rs`: character widths, grapheme clusters and
  string building, through `unicode-width` and `unicode-segmentation`.

`tests/` exercises the library on concrete values.
