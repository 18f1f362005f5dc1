# rekordcrate

A verified library for the PDB database files (`export.pdb`, `exportExt.pdb`)
that Pioneer Rekordbox writes to USB devices: their header, index and data
pages, the rows of each table, and the DeviceSQL strings the rows hold.

Every function of the library carries a contract that Verus proves. The main
laws it proves are that what is written is read back: strings, headers, rows,
index pages and data pages decode to what was encoded, and a flushed database
opens to the header it was flushed with, each of its decoded pages read back
from its place.

Layout:

- `src/codec.rs`: little-endian encodings and the `Codec` trait with its
  round-trip law; byte-range facts used by the proofs.
- `src/util.rs`: colors, file types, table indices and the error type.
- `src/pdb/`: the format: `string.rs` (DeviceSQL strings), `offset_array.rs`
  (offsets and the strings they point at), `rows.rs` and `ext.rs` (row types),
  `page.rs` (page headers, index and data pages, row allocation),
  `bitfields.rs`, `heap.rs`, `mod.rs` (header, tables, page types),
  `io.rs` (a database held in memory: open, page walk, add rows, flush) and
  `defaults.rs` (default colors, columns and menus).
- `tests/`: the test suite.
- `app/`: file access, error messages and a `FallibleIterator` over pages.
