# tiny_maps

A compact store for OpenStreetMap data: nodes, ways and relations are turned
into small records (inlined tags, pooled literals, packed strings, varints),
kept in paged files and indexed by a tree of bounding boxes.

The library in `src/` is written in Verus. Each function states what it does
in `requires` / `ensures` over mathematical models (`Seq`, `Map`, `Multiset`,
`int`), and Verus proves the code against those contracts.

- `src/varint.rs`, `src/primitive_serialization.rs`, `src/serialize_min.rs`:
  the byte formats of integers and the traits of values that read and write
  themselves, with their round-trip laws.
- `src/packed_string_serialization/`: strings packed four or five bits to a
  character, or as plain UTF-8, and read back.
- `src/compressor/`: the records of nodes, ways and relations, tag inlining,
  the literal pool and the most-used-tags heap.
- `src/tree/`: bounding boxes, the tree of boxes (splitting a node, querying
  it), the layout of its nodes on disk, and the nodes of the tree over points
  that maps element ids to their boxes (written and read back).
- `src/storage.rs`, `src/paged_storage.rs`, `src/pooled_storage.rs`,
  `src/lazy_slot.rs`, `src/compression.rs`: values kept on disk, pages (and
  the writer that lays a value's bytes across linked pages), deduplicated
  blobs and zstd frames.
- `src/cache.rs`: shared values by id, made once and dropped past a budget
  when nobody else holds them.

The calls into outside crates (sha2, zstd) go through a few trusted wrappers
whose contracts say what those crates promise; everything around them is
verified.

`app/` holds the command-line program, which reads `.osm.pbf` files and
writes the records, or loads them into PostgreSQL; Verus does not see it.
`tests/` runs the library on concrete values.
