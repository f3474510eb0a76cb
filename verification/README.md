# wallfacer

Choosing wallpaper crops for several monitor resolutions, around the faces
that a face detector finds in each image.

- `src/` is the library, verified with Verus: crop rectangles and their
  `WxH+X+Y` text, aspect ratios in lowest terms and their `WxH` text, the
  face-aware crop search, path handling, the configuration, the per-wallpaper
  crop table, the steps of adding wallpapers (which image goes where, which
  step comes next, which results are reviewed), adding a resolution, the
  viewer's navigation state, and what each key press asks of the viewer.
- `app/` is the command line around it: reading and writing files and image
  metadata, running the face detector, upscaler and optimizers, and the
  floating-point scoring of crop windows.
- `tests/` exercises the library on concrete values.
