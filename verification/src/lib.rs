//! Verified core of the Pixy terrain editor: sparse tile and voxel storage,
//! brush footprints and stroke phases, terrain stability (floating-component
//! detection and drop distances), marching-squares cell classification and
//! per-cell rebuild tracking, saving and restoring chunk maps, block-mesh face
//! culling, grass instance layout, editor input decisions, chunk streaming
//! state, undo history and mesh index bookkeeping.
pub mod tile_data;
pub mod voxel_grid;
pub mod terrain_stability;
pub mod brush;
pub mod undo;
pub mod marching_squares;
pub mod chunk_manager;
pub mod mesh_postprocess;
pub mod mesh_worker;
pub mod editor_input;
pub mod mesh_builder;
pub mod cell_updates;
pub mod grass_layout;
pub mod chunk_storage;
