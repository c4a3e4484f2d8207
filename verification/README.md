# rwal

Generates terminal color schemes from images (in the manner of pywal):
dominant colors are extracted with k-means or median cut, sorted dark to
light, assigned to the sixteen terminal slots, made legible against the
background, and exported as colors.json, OSC terminal sequences and rendered
templates.

## Layout

- `src/` — the library, verified with Verus: color extraction backends
  (`backends`), image decoding and sampling through the image crate
  (`colors::extractor`, `image_loader`), slot assignment and semantic roles (`colors`), the export
  formats (`export`), the cache key (`cache`), input selection (`input`),
  paths, the command line's decisions (`cli`, `pipeline`) and themes.
  Contracts are stated over spec functions next to the code; laws that span
  several functions are public proof functions (`lemma_*`).
- `app/` — the program around it: argument parsing, file and terminal I/O,
  the wallpaper setters, and the floating-point color math (HSL shifts and
  WCAG contrast), which the library requests through a `Tone` callback.
- `tests/` — tests of the library through its public API.
