# svg2pdf

Convert SVG files to PDFs, with the rules of the conversion proved in Verus.

- `src/` holds the rules: which settings are accepted (`options`), how single
  precision numbers are multiplied, divided and rounded (`binary32`), how large
  the page is and what the file holds (`conversion`, `pdf`), and how large the
  temporary images of filters are (`render::filter`). `laws` states what holds
  of a conversion as a whole.
- `app/` runs the rules around a drawing backend. It makes the floating-point
  values that the rules hold by their bits.
- `tests/` runs the library with the crates that it builds on.

`PageOptions::dpi` and `ConversionOptions::raster_scale` must be finite and
greater than zero. Filter effects are rasterized, and temporary filter images
are limited to 16,777,216 pixels (64 MiB of raw RGBA data). Invalid settings and
oversized filter regions are reported through `ConversionError`.

What is taken on trust of `pdf-writer`, `usvg` and `tiny-skia` is said above
each function marked `external_body` in `pdf` and `svg`.
