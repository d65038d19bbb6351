# voxel_engine

The core of a chunked voxel engine, verified with Verus: chunk coordinate spaces, chunk
storages, blocks and microblocks, neighboring chunks, occlusion data, quads and the greedy
mesher, chunk connectivity graphs, meshing job queues, chunk permits and batches, world
generation, and the decisions of the world controller.

## Layout

- `src/`: the verified library. Each module states its types' views and invariants as spec
  functions and proves every public function against its `requires`/`ensures`. The public
  `lemma_*` proof functions state properties that relate several operations (a read after a
  write, a round trip through an encoding, an invariant that every operation keeps).
  `src/outside.rs` declares the outside crates' types and functions that the library calls
  (`ahash`, `hashbrown`, `priority-queue`, `rustc-hash`), with the contracts the proofs rely
  on; nothing there is proved.
- `tests/`: tests that run the compiled library.
- `app/`: ordinary Rust around the library: conversions to bevy's math types, floating-point
  geometry, noise sampling, locks around chunk storages, the batch triggers, the world
  controller's per-frame systems, and the mesh building threads.
