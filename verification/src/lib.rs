//! Procedural dungeon map generation: a family of tile-grid builders
//! (rooms-and-corridors, cellular automata, drunkard's walk, diffusion-limited
//! aggregation, Voronoi carving, binary space partitioning, maze carving, and a
//! wave-function-collapse layer), together with the connectivity analysis that
//! guarantees every generated floor tile is reachable from the starting position.

mod tile;
mod grid;
mod rect;
mod rng;
mod reach;
mod connectivity;
mod rooms;
mod drawing;
mod snapshot;
mod simple_map;
mod noise;
mod regions;
mod cellular_automata;
mod geometry;
mod dla;
mod drunkard;
mod voronoi;
mod map_chunk;
mod constraints;
mod solver;
mod waveform_collapse;
mod maze;
mod bsp_interior;
mod bsp_dungeon;
mod prefab_levels;
mod prefab_builder;
mod map_builders;

pub use tile::TileType;
pub use grid::{Grid, Position, MAP_WIDTH, MAP_HEIGHT, MAX_DIM};
pub use rect::Rect;
pub use rng::RandomStream;
pub use reach::{walkable_at, adjacent, reach, reach_n, idx_reach_within, fully_connected, single_stairs, no_stairs};
pub use reach::{lemma_reach_n_mono, lemma_reach_n_frame, lemma_reach_n_distance_bound};
pub use rng::{roll_of, range_of, dice_draw, range_draw};
pub use connectivity::{remove_unreachable_areas, repaired_tile, finalize_exit, ensure_floor_exists, find_starting_floor};
pub use rooms::{apply_room_to_map, apply_horizontal_tunnel, apply_vertical_tunnel, in_rect_interior, rect_in_grid};
pub use drawing::{Symmetry, paint, apply_paint, apply_horizontal_symmetry, apply_vertical_symmetry, only_floor_added, in_stroke, painted};
pub use snapshot::build_snapshot;
pub use simple_map::{SimpleMapBuilder, rooms_wf, MAX_ROOMS};
pub use noise::{RegionNoise, noise_cell_of};
pub use regions::{generate_voronoi_spawn_regions, bucket_floor_tiles, regions_wf, regions_keyed, covered};
pub use cellular_automata::{CellularAutomataBuilder, AUTOMATA_GENERATIONS, wall_at, wall_neighbors, smoothed_tile};
pub use geometry::{line_points, line_of};
pub use dla::{DLABuilder, DLAAlgorithm};
pub use drunkard::{DrunkardsWalkBuilder, DrunkardSettings, DrunkSpawnMode, settings_wf};
pub use voronoi::{VoronoiBuilder, DistanceAlgorithm, distance_between, seed_distance};
pub use map_chunk::{MapChunk, tile_index_in_chunk, chunk_wf, chunk_idx, edge_cell, exit_at, edge_has_exit, chunk_has_exits, opposite, chunk_fits, lemma_fits_symmetric, lemma_compatibility_symmetric, chunk_inv, constraints_ok};
pub use constraints::{build_patterns, patterns_to_constraints, slice_pattern, flip_horizontally, flip_vertically, flip_horizontally_and_vertically, patterns_equal, window_pattern, is_map_pattern, has_window_pattern, ordered_window};
pub use solver::Solver;
pub use constraints::{render_pattern_to_map, highlight_exits};
pub use waveform_collapse::{WaveformCollapseBuilder, CHUNK_SIZE, MAX_SOLVE_ATTEMPTS};
pub use connectivity::clear_stairs;
pub use maze::{MazeBuilder, MazeGrid, Cell};
pub use bsp_interior::{BspInteriorBuilder, draw_corridor, on_corridor, in_rect_carved, leaf_in_grid, MIN_ROOM_SIZE};
pub use bsp_dungeon::{BspDungeonBuilder, bsp_rooms_ok};
pub use prefab_levels::{PrefabLevel, vault_level};
pub use prefab_builder::{PrefabBuilder, PrefabMode};
pub use map_builders::{MapBuilder, random_builder, static_builder, build_map, matches_roll, candidate_room, rooms_reflected};
