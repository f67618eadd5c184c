# gpu-image-approximator

Approximates an image or a video with many semi-transparent shapes, placed one
at a time by an evolutionary search that scores candidates on the GPU.

## Layout

- `src/` — the verified library (Verus). It holds the logic with contracts:
  window sizing, output and frame naming, media and shape-file selection,
  the stable sort behind every listing, FFmpeg/ffprobe command lines and the
  parsing of ffprobe's reports, the shape-layer preparation (resampling via the
  `image` crate, grayscale conversion, VRAM budget), the colour sampling of the
  target, the counters of the placement loop, the GIF capture schedule, the
  notification list, the settings range checks, preset naming and parse-error
  locations, the settings-form rules and the adapter choice.
- `tests/` — tests of the library.
- `app/` — the program around it: window and event loop (winit), GPU work
  (wgpu), the egui screens, file and process I/O, and the floating-point parts
  of the search (candidate parameters, scores, interpolation).

## Running

The program reads its WGSL shaders (`blit.wgsl`, `composite.wgsl`,
`mse.wgsl`) from a `shaders/` folder next to the executable, the input from
`input_media/`, shape brushes from `input_shapes/` (or `raw_shapes/` with
original colours), and writes results to `output/`. FFmpeg and ffprobe must be
on the `PATH` for video input.
