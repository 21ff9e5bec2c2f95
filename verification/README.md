# katsvg_engine

A deterministic, offline infographic engine: a free-text prompt (English or
Thai) is routed to a typed layout specification, which is rendered as SVG,
PDF 1.7, PNG and PPTX.

## Layout

- `src/` — the library, verified with Verus: prompt routing (layout, theme,
  aspect clamped to the layout, title, `label: value` metric cards, step
  count, chart points), the fixed-layout and region-driven SVG composers,
  the PDF file structure and page content (text order, fonts and operands),
  the PNG drawing list and RGB raster primitives, the PPTX package (OOXML
  parts in a stored ZIP with CRC-32), CSV and JSON binding, icon tables,
  palettes, retrieval features, and the HTTP front end's routing, query
  decoding and base64.
- `app/` — what the library leaves to its caller: reading fonts and corpora,
  floating-point geometry (text rasterization, chart glyphs, icon strokes, PDF
  coordinates and colors), writing files, the HTTP server loop and the
  command line.
- `tests/` — executable tests of the library.

The fonts (`assets/`) and the layout, palette and icon corpora (`corpus/`)
are read at run time from the directory named by `KATSVG_HOME` (default: the
working directory).
