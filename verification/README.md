# prpr (verified core)

The logic of the prpr chart player and its offset-study tools, written in
Verus: every function in `src/` carries a contract that Verus proves.

## Layout

- `src/` — the verified library.
  - Binary chart format: `bin.rs` (byte reader and writer, uleb numbers,
    little-endian integers, the `BinaryData` trait with its round-trip
    lemma), `keyframe.rs`, `anim.rs`, `object.rs`, `note.rs`, `line.rs`,
    `chart.rs`. Floating-point values are kept as their bit patterns
    (`F32Bits`) and times as whole milliseconds.
  - Metadata and archives: `info.rs`, `chart_files.rs`, `chart_format.rs`,
    `chart_info.rs`, `fs.rs` (patched file systems, charts in zip
    archives, rewriting an archive).
  - Player state: `judge.rs`, `replay.rs`, `scene_stack.rs`, `dir.rs`,
    `tween.rs`, `rpe.rs`, `config.rs`, `platform.rs`, `l10n.rs`,
    `request.rs`, `line_tree.rs`, `chart_order.rs`.
  - Study tools: `csv.rs`, `report.rs`, `study.rs`, `samples.rs`, `retry.rs`,
    `methods.rs`, `api.rs`.
  - `text.rs` holds the few calls into `std` string functions that the
    library trusts, each with the contract it is trusted for.
- `tests/` — tests on concrete values, one file per area.
- `app/` — ordinary Rust around the library: byte streams, float and time
  conversions, paths on disk, the file-system trait and its sources,
  finding a chart's metadata and files in them, process-wide state (data
  directory, translation order), the retry and scene loops.

## Outside crates

`byteorder` reads and writes the little-endian integers of the binary
format; each of its calls sits behind a trusted wrapper in `bin.rs`.
`zip` reads and writes chart archives, behind the wrappers in `fs.rs`;
`csv` reads the comma-separated metadata table, behind one wrapper in
`info.rs`.
