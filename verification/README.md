# citybound

A city builder with a software renderer: zoning and building placement with
undo and redo, a simulation clock, traffic on flow fields, supply chains, a
labour market, taxes, finance, politics and courts, drawn tile by tile on the
CPU into a framebuffer shown in a native window.

## Layout

- `src/` — the verified library (Verus). Every function carries a contract
  and is proved: the bitboards and the obstacle grid, the frame allocator,
  the render command pool and its stable depth sort, the texture atlas, the
  rectangle, line, point and text drawing of the software renderer and its
  tiling, alpha blending and dithering, the design tool (modes, brush,
  undo and redo history, input handling, overlay) and the map it edits
  (placing and removing buildings, painting and clearing zones, and undoing
  and redoing each), parking spaces, the keyboard and mouse
  edge detection, the simulation clock, the labour market (matching job
  seekers to employers, the tick of the market), the SplitMix64 generator,
  the terrain's lattice hash, save-file codes, hardware tiers and platform
  facts and the reading of the system's CPU, memory and GPU descriptions.
  Public proof functions state the laws that hold across calls.
- `tests/` — tests of the library on concrete values.
- `app/` — the program around the library: the window and input (minifb),
  the game loop, saving (serde and
  bincode), hardware probing (sys-info), sound (cpal), and the parts of the
  simulation and rendering that work in floating point.
