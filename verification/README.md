# opencrg

A reader for ASAM OpenCRG road surface files (`.crg`), with the reading logic verified by
Verus.

- `src/` is the verified library. It reads the `$ROAD_CRG`, `$ROAD_CRG_OPTS`,
  `$ROAD_CRG_MODS`, and `$KD_Definition` blocks line by line, combines files included with
  `$ROAD_CRG_FILE` (up to eight levels deep, the least nested file's settings winning),
  checks the data layout, decodes ASCII and big-endian binary payloads into records and
  channels, and decides how `GRID_NAN_MODE` fills NaN holes. Numbers stay as the text that
  C's `atof` reads, or as IEEE bit patterns, so the library holds no floats.
  `src/laws.rs` states the properties that span functions.
- `app/` wraps the library: reading files from disk with `$VARIABLE` expansion, turning the
  numbers into floats, and the floating-point evaluation of elevations, normals, headings,
  and xy/uv positions on the grid.
- `tests/` exercises the library on concrete files.

The parse tests that read the sample files of a `tests/fixtures` directory
(`minimalist_equals_commented_straight`, `double_file_matches_single_file_grid`,
`positioned_sections_and_reference_channels`, `options_block_is_read`) are not in `tests/`:
the sample files are not part of this tree, and those tests check floating-point fields of
the parsed grid, which `app/` computes.
