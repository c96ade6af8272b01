# paletteer

Recolors PNG, JPEG and WebP images with a built-in or custom palette while
keeping each pixel's lightness. This crate holds the rules of the command,
proved with Verus, and the command itself.

- `src/` — the verified library:
  - `theme.rs`: the built-in palettes and their names;
  - `format.rs`: output formats, extensions and the quality rule;
  - `normalize.rs`: output-stem normalisation (`a-z`, `0-9`, single hyphens);
  - `naming.rs`: image extensions, recognition of earlier outputs, output names;
  - `size.rs`: human-readable sizes;
  - `palette_file.rs`: custom palette files (TOML, parsed with the `toml` crate);
  - `select.rs`: choosing the palette of a run;
  - `jobs.rs`: planning a batch before any image is read;
  - `text.rs`: character-level helpers.
- `app/` — the command line: argument parsing (`clap`), file discovery
  (`glob`, directories), and the floating-point recolouring and encoding
  (`palette`, `image`, `webp`, `rayon`).
- `tests/` — tests of the library.
