# zui

Rendering and input policy of a GPU-accelerated user interface, verified with
Verus.

The library under `src/` decides what a renderer asks of the GPU and what input
does to text. It holds no GPU objects and does no I/O:

- `float`, `rounding`: single-precision arithmetic on bit patterns, exact to the
  last bit, so that decisions made with it can be proved.
- `geometry`, `scene`, `layout`, `uniforms`: what a frame is made of, and the
  words in which the GPU reads it.
- `quads`: which quads a cheaper shader can draw, and which part of a quad is a
  plain color.
- `blur_kernel`, `backdrop`: the weights, regions, textures and uniforms of
  backdrop blurs. `blur_coverage` proves that, for coordinates up to
  `COVERAGE_LIMIT` and no more texels than pixels, rounding uncovers no texel.
  `blur_weights` proves that the weights are normalized, rounding included.
- `surface`, `pipelines`: how surfaces, pipelines, bind groups and textures are
  set up.
- `commands`, `drawing`, `frame`: recording a frame. `frame_laws` and
  `paint_order` prove what holds of every recording.
- `renderer`: the state of a window's renderer from frame to frame, with
  `renderer_laws`.
- `input_policy`: the soft keyboard, and deletions that do not split graphemes.

The host under `app/` carries the decisions out with `wgpu`, and in a page.
Exponentials of blur kernels are computed by the host and handed to the library.
