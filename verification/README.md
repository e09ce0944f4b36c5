# pixy_terrain

The logic of a voxel and marching-squares terrain editor, written in Verus and
proved against its contracts.

- `src/` is the verified library:
  - `tile_data`, `voxel_grid`: sparse tile grids, chunk coordinates, sparse
    per-chunk layers; read-after-write laws.
  - `brush`: brush footprints (cell sets, affected chunks) and the stroke
    phase machine.
  - `terrain_stability`: solid grids, flood fill from the floor, floating
    components, drop distances and drop plans; laws that a drop stays clear
    of grounded terrain and comes to rest.
  - `marching_squares`: merge and blend modes, texture channels, cell
    rotation, material pairs and the choice of geometry case for a cell.
  - `cell_updates`: per-cell dirty flags and geometry cache of a chunk.
  - `chunk_storage`: flat storage of a chunk's per-point maps; restoring
    gives back what was saved.
  - `mesh_builder`: which cube faces of a tile grid are visible.
  - `grass_layout`: instance blocks of the grass and flower planters.
  - `chunk_manager`: chunk request, transition and unload decisions.
  - `editor_input`: viewport input decisions of the editor tools.
  - `mesh_postprocess`, `mesh_worker`: mesh merging, welding (through
    meshopt), unused-vertex removal, worker and batch sizing.
  - `undo`: bounded undo/redo history.
- `tests/` runs the library on concrete values.
- `app/` holds what is not verified: floating-point sampling and brush
  shaping, mesh extraction with transvoxel, noise fields, normal
  recomputation and decimation, the worker pool, and logging.

The editor runs inside the Godot engine through the `godot` bindings crate,
which is not a dependency here: its types are engine objects and `f32`
vectors and colours, so the editor plugin, gizmo, scene nodes, planters and
material setup are not part of this crate. The decisions they make on
integers stand in `src/` (`editor_input`, `cell_updates`, `chunk_storage`,
`mesh_builder`, `grass_layout`).
