# nbt_rs

Reading and writing Minecraft's NBT binary format, verified with Verus.

- `src/format.rs` states the format as two mathematical functions: `encode_nbt`
  from a name and the entries of a compound to bytes, and `spec_nbt` from bytes to
  a name and entries, or to the first fault met while reading.
- `src/parser.rs` and `src/serializer.rs` compute them; `parse_nbt` and
  `serialize_nbt` are proved to return exactly what those functions give.
- `src/types/` holds the value types (`NbtTag`, `NbtList`, `NbtCompound`,
  `NbtString`, `NbtArray`, `NbtTagId`). `NbtString`, `NbtArray` and `NbtCompound`
  carry type invariants: a string fits a `u16` length, an array an `i32` length, and
  a compound holds each name once and no `End` tag (the conversion from a
  `HashMap` leaves such entries out).
- Floats are held by their bits (`F32Bits`, `F64Bits` in `src/types/float.rs`):
  the format reads and writes bits unchanged, and `==` and `partial_cmp` compare
  them as IEEE 754 floats do (a NaN equals nothing, `0.0 == -0.0`).
- `src/laws.rs` proves that reading what was written gives back what was written,
  that whatever is read can be written back, and that reading is idempotent
  through a write; `src/rewrite.rs` proves that writing what was read gives back
  the bytes, where every list of kind `End` announced zero items; `src/prefix.rs`
  proves that what is read depends only on the bytes read, so that bytes after a
  whole document are refused as leftover data.
- `src/foreign.rs` holds the calls into `bytemuck` and `std` whose contracts are
  trusted.
- `app/` holds what Verus does not check: the `get_field!` macro, the error types
  with `thiserror` derives, and `Display` for the value types.
