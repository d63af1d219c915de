# couchestor

A storage engine core: erasure-coded stripes over block devices, a write
journal destaged into coded stripes, an L2P metadata engine with a
write-ahead log and checkpoints, zoned-device placement, and a three-tier
object cache with monitoring.

## Layout

- `src/` — the library, verified with Verus.
  - `spdk/` — DMA buffers, the GF(2^8) Reed–Solomon codec and its
    Gauss–Jordan matrix inversion (`gf_matrix`), the stripe
    processor, block devices, the EC storage engine, the destage decisions,
    the EC read path, the metadata engine and its ordered L2P map, zoned
    namespaces, and run-length compression of stripe data.
  - `rustfs/cache/` — cache keys and entries, the L2 (NVMe) index, the
    in-memory cold store, promotion policy, metrics and LZ4 compression.
  - `rustfs/monitoring/` — counters, gauges and health checks.
  - `clock.rs` — wall-clock and monotonic time.
- `app/` — what runs around the library: floating-point ratios and
  policies, the RAM (L1) cache and the tier manager, the async cold-storage
  interface, the destage and read drivers, and serialisable record types.
- `tests/` — tests of the library.

Each module states its behaviour in `requires`/`ensures` contracts over
spec functions and views; the `law_*` proof functions state properties
that relate several operations. For example: encoding yields a codeword,
and reconstruction gives back the codeword its surviving shards agree
with, so decoding returns the data whichever shards (at most the parity
count) were lost, whenever the surviving rows invert. The inversion
finds an inverse exactly when one exists, and the rows always invert when
at most one data shard was lost, so such a loss is always rebuilt (and a
degraded read with one failed data shard succeeds). With this generator
matrix some larger losses leave singular rows; those are reported as
`IsalMatrixError`. A stripe whose shards can all be read reads back
as written, and recovery restores checkpointed mappings.
