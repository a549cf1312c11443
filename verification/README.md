# gsub

Reading and writing the OpenType `GSUB` (glyph substitution) table, verified
with Verus.

The library decodes and encodes the structure that belongs to the GSUB table
itself: the header, the feature list and its feature tables, the lookup list
and the lookup headers. The tables below them whose layout is defined
elsewhere in OpenType layout — the script list, the lookup subtables and
feature parameters — are held as their encodings (byte slices). When a table
is read, the script list and each subtable are walked through their counts,
offsets and format fields to find their extent (`extent.rs`), and returned as
the bytes of that extent; a child that runs past the end of the data or has
an unknown format is refused. Feature parameters are neither read nor
written.

Layout of `src/`:

- `wire.rs` — big-endian `uint16`, tags and counted lists, read and written
  through the `otspec` crate.
- `table.rs` — the table types (`GSUB`, `SubstLookup`, `Substitution`, the
  header as read and as written, feature and lookup records) and their models.
- `decode.rs` — what reading a table yields (`spec_parse_gsub` and the parts
  it is made of) and the reading functions.
- `encode.rs` — what writing a table yields (`spec_serialize_gsub` and its
  parts) and the writing functions.
- `extent.rs` — the extent of a script list and of a subtable of each lookup
  type read here, and that it depends only on the bytes it covers.
- `laws.rs` — properties across reading and writing, chief among them that
  reading a written table gives back the same table, without feature
  parameters (`law_read_after_write`).

`app/` implements the `otspec` traits `Deserialize` and `Serialize` on top of
the library.
