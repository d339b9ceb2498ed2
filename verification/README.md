# raster_scene

The decisions of a GPU renderer for user interfaces, as a verified library: what a
scene records, in which order it is drawn, which raster tiles stay on the device, how
large the instance buffer has to be, how a compositor follows transforms, and what a
frame trace keeps.

- `src/` is the library. Everything in it is verified with Verus.
  - `scene`, `primitive`, `path`, `bounds_tree`, `stable_sort`, `batches`: painting and
    the sequence of drawing. `scene_laws` relates the two.
  - `residency`, `frame_plan`, `encode`, `instance_buffer`, `renderer`: tiles on the
    device, the plan of a frame, and the buffer it is written to. `residency_laws`,
    `account_laws`, `frame_laws` and `buffer_laws` state what holds of them as a whole.
  - `raster_cache`, `raster_elements`, `vector_scene_cache`: caches as an application
    and its elements see them.
  - `compositor_transform`, `compositor`, `display_link`: what other threads and the
    display read and write.
  - `trace_event`, `trace_buffer`, `frame_trace`, `presentation`: the frame trace.
  - `image_comparison`, `natural`: how far two renderings differ, in exact arithmetic.
  - `float_bits`, `geometry`, `time`, `gpu_types`: values that are carried and compared.
- `app/` is ordinary Rust around it: clocks, threads, floating-point arithmetic,
  serialized copies of types, and the graphics device.
- `tests/` runs the library.

Numbers in floating point enter the library by their encoding. It compares them and
hands them on; sums and products are made in `app/`.
