# psxember-core

Writes disk images for the PlayStation 1: Mode2 sectors with their EDC
checksum, the PSX system area (licence string and logo area), the ISO 9660
volume descriptors and directory records. Every byte a value writes is stated
in its contract and proved with Verus.

- `src/encoders.rs`: the `Encode` trait (what a value writes into an image),
  byte-order wrappers, fills and paddings, ASCII buffers and d-characters.
- `src/iso9660.rs`: BCD bytes, sector addresses and cursors, the EDC checksum,
  Mode2/Form1 and Mode2/Form2 sectors, the licence string and the system area.
- `src/iso9660/vol_desc.rs`: the primary volume descriptor and the descriptor
  set terminator.
- `src/iso9660/fs.rs`: directory records and recording times.
- `app/`: the program, directory walking and file reading, and the error types
  with their `miette` diagnostics.
