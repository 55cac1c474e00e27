# fff_viewer

A library for Imacon / Hasselblad FFF scans (TIFF-based files written by
FlexColor), verified with Verus, and a command-line viewer around it.

## Layout

- `src/` — the verified library.
  - `tiff` — byte order, IFD chain, sub-IFDs, EXIF and MakerNote parsing,
    preview JPEG location, uncompressed RGB decoding.
  - `downscale`, `thumbnail`, `preview` — reduced images: nearest-neighbour
    reduction, the decisions of the piecewise thumbnail reader, and the
    preview/thumbnail choice with the image crate's JPEG decoder.
  - `summary`, `tags`, `tag_text` — metadata summary rows, tag names and the
    display text of tag values.
  - `flexcolor` — the embedded FlexColor edit history and settings presets
    (an Apple plist reader and its interpretation).
  - `sidecar`, `sidecar_round_trip`, `config` — the per-file sidecar XML and
    the application settings XML, each with a proof that reading what was
    written gives the settings back.
  - `color` — ICC profile headers, embedded profile extraction, the ICC
    conversion between two profiles (through lcms2), the 14-bit
    FlexColor tone curves (with exact B-spline tables) and pipeline tables,
    colour correction, lightness,
    film curve tables.
  - `browse` — which files are scans, shortened directory names, 8-bit
    display samples, and the order in which presets are listed.
  - `text`, `xml_text` — decimal rendering, UTF-8, searching, trimming,
    integer parsing, XML escaping.
- `tests/` — tests of the library.
- `app/` — the command-line program: file and directory access, logging,
  the floating-point image processing (adjustments, film curves,
  sharpening, gamma and negative curves, Bézier gradation tables), and the
  target colour-space profiles built from floating-point primaries; the
  ICC conversion itself (`color::transform`) is in the library and calls
  lcms2.
