# taper_hashmap

Row storage and batch key comparison for hash aggregation, written in Verus.

- `src/row_container.rs`: `RowContainer`, fixed-size rows in blocks of 1024, with
  packed null bits, aggregation state and a string arena. Rows are named by
  their number, strings by an `ArenaSlice`.
- `src/batch_compare.rs`: compares stored keys with input keys, one row at a
  time or in lanes, and moves the numbers of the rows that differ to the front.
- `src/layout.rs`, `src/arena.rs`: what the contracts of the container say.
- `src/row_value.rs`, `src/byte_order.rs`, `src/lanes.rs`: integers in a row, and
  integers packed into lanes.
- `src/laws.rs`: what holds across operations: a stored value is read back,
  columns do not overlap, rows and strings stay where they are, a comparison
  loses no row.

One item is trusted: `u16::to_ne_bytes`, which tells the byte order of the
machine.
