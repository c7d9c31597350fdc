# ring_world

Game logic for a voxel world on the inner surface of a ring, written in Verus:
every function in `src/` carries a contract that Verus proves.

- `src/voxel.rs`, `src/block.rs`: voxel kinds and their block properties.
- `src/chunk.rs`: chunks with packed light, face culling, light sampling for
  face shading, level-of-detail cells, face masks for meshing, and the
  manager of loaded chunks (editing with neighbour re-meshing, loading and
  unloading around the player, re-applying a saved edit overlay, and the
  re-mesh bookkeeping: which chunks are due, level-of-detail changes, and
  mesh versions).
- `src/lighting.rs`: sunlight and block-light propagation, proved to produce
  the least light field closed under spreading.
- `src/inventory.rs`, `src/crafting.rs`: item stacks, the inventory, recipes
  and smelting.
- `src/persistence.rs`: the save-file byte format, with proofs that reading
  back what was written gives the same save (for saves within the format's
  limits), that a save beyond those limits does not read back, and that a
  cut-short save is refused.
- `src/ring_world.rs`, `src/player.rs`, `src/structures.rs`: chunk grid
  coordinates, block breaking and placing, and structure placement.
- `src/hud.rs`, `src/sky.rs`, `src/shadow_squares.rs`, `src/block_gallery.rs`,
  `src/entity.rs`, `src/effects.rs`, `src/audio.rs`: the bitmap font, mesh
  index layouts and small enumerations.

`app/` is a headless program around the library: floating-point ring
geometry, save files on disk, and a session that loads the chunks around
the player, re-applies the saved edits to them, lights them and writes the
save back.
