//! Concrete construction scenarios: a rigged rooms-and-corridors grid, eroded
//! automata, disconnected pockets under the connectivity analyzer, and the
//! wave-function-collapse pattern pipeline.

use mapgen::{
    apply_paint, build_map, build_patterns, random_builder, Cell, MapBuilder, bucket_floor_tiles, distance_between, ensure_floor_exists, finalize_exit,
    find_starting_floor, generate_voronoi_spawn_regions, patterns_to_constraints,
    remove_unreachable_areas, tile_index_in_chunk, CellularAutomataBuilder, DistanceAlgorithm,
    Grid, RandomStream, RegionNoise, SimpleMapBuilder, Solver, TileType,
};

#[test]
fn ten_by_ten_rooms_and_corridors_places_one_known_room() {
    // on a 10x10 grid the proposal sizes clamp to 6x6, so exactly one room
    // fits whatever the seed rolls
    for seed in [1u64, 2, 3, 50, 1000] {
        let mut rng = RandomStream::seeded(seed);
        let mut b = SimpleMapBuilder::with_dimensions(10, 10, 1);
        b.build(&mut rng);
        assert_eq!(b.rooms.len(), 1);
        let room = b.rooms[0];
        assert_eq!(room.x2 - room.x1, 6);
        assert_eq!(room.y2 - room.y1, 6);
        let (cx, cy) = ((room.x1 + room.x2) / 2, (room.y1 + room.y2) / 2);
        assert_eq!(b.starting_position.x, cx);
        assert_eq!(b.starting_position.y, cy);
        // the room interior is floor except its center, which carries the
        // exit because the single room is both first and last
        for y in (room.y1 + 1)..=room.y2 {
            for x in (room.x1 + 1)..=room.x2 {
                let t = b.map.get_tile(x, y);
                if x == cx && y == cy {
                    assert_eq!(t, TileType::StairsDown);
                } else {
                    assert_eq!(t, TileType::Floor);
                }
            }
        }
        // the border of the room stays wall
        for x in room.x1..=room.x2 {
            assert_eq!(b.map.get_tile(x, room.y1), TileType::Wall);
        }
        for y in room.y1..=room.y2 {
            assert_eq!(b.map.get_tile(room.x1, y), TileType::Wall);
        }
    }
}

#[test]
fn automata_on_all_floor_keeps_a_floor_and_a_single_exit() {
    let mut b = CellularAutomataBuilder::with_dimensions(40, 30, 1);
    // seed the interior entirely floor
    for y in 1..(b.map.height - 1) {
        for x in 1..(b.map.width - 1) {
            b.map.set_floor(x, y);
        }
    }
    for _ in 0..15 {
        b.apply_generation();
    }
    // the smoothing rule may erode heavily, but the builder never hands back
    // an all-wall map
    ensure_floor_exists(&mut b.map);
    assert!(b.map.count_floor() >= 1);
    let start = find_starting_floor(&b.map);
    let exit = finalize_exit(&mut b.map, start.x, start.y);
    assert_eq!(b.map.tiles[exit], TileType::StairsDown);
    let stairs = b.map.tiles.iter().filter(|t| **t == TileType::StairsDown).count();
    assert_eq!(stairs, 1);
}

#[test]
fn disconnected_pocket_is_walled_off_and_exit_stays_near_start() {
    let mut g = Grid::new(20, 9, 1);
    // two 3x3 floor pockets that do not touch
    for y in 2..5 {
        for x in 2..5 {
            g.set_floor(x, y);
        }
    }
    for y in 2..5 {
        for x in 12..15 {
            g.set_floor(x, y);
        }
    }
    let exit = remove_unreachable_areas(&mut g, 3, 3);
    // the far pocket is entirely converted to wall
    for y in 2..5 {
        for x in 12..15 {
            assert_eq!(g.get_tile(x, y), TileType::Wall);
        }
    }
    // the start pocket survives and holds the exit
    assert_eq!(g.get_tile(3, 3), TileType::Floor);
    let ex = (exit % 20) as i32;
    let ey = (exit / 20) as i32;
    assert!((2..5).contains(&ex));
    assert!((2..5).contains(&ey));
    assert_eq!(g.tiles[exit], TileType::Floor);
}

#[test]
fn pattern_extraction_counts_slices_and_orientations() {
    let mut g = Grid::new(16, 16, 0);
    // an asymmetric mark so flips differ
    g.set_floor(1, 2);
    g.set_floor(2, 2);
    g.set_floor(1, 3);
    let raw = build_patterns(&g, 8, true, false);
    assert_eq!(raw.len(), 2 * 2 * 4);
    for p in raw.iter() {
        assert_eq!(p.len(), 64);
    }
    let unflipped = build_patterns(&g, 8, false, false);
    assert_eq!(unflipped.len(), 4);
    // three chunks are all wall, so deduplication collapses them
    let deduped = build_patterns(&g, 8, true, true);
    assert!(deduped.len() < 16);
    assert!(deduped.len() >= 1);
    for j in 0..deduped.len() {
        for k in (j + 1)..deduped.len() {
            assert!(deduped[j] != deduped[k]);
        }
    }
}

#[test]
fn compatibility_is_symmetric_across_opposite_directions() {
    let mut g = Grid::new(16, 16, 0);
    // carve a corridor crossing chunk boundaries so some edges have exits
    for x in 1..15 {
        g.set_floor(x, 8);
    }
    for y in 1..15 {
        g.set_floor(5, y);
    }
    let patterns = build_patterns(&g, 8, true, true);
    let constraints = patterns_to_constraints(patterns, 8);
    let n = constraints.len();
    let opposite = [1usize, 0, 3, 2];
    for a in 0..n {
        for d in 0..4usize {
            for b in constraints[a].compatible_with[d].iter() {
                assert!(
                    constraints[*b].compatible_with[opposite[d]].contains(&a),
                    "compatibility not symmetric between {} and {}",
                    a,
                    *b
                );
            }
        }
    }
}

#[test]
fn solver_with_a_blank_filler_always_finishes() {
    // an all-wall source yields a single no-exits pattern: the universal filler
    let g = Grid::new(16, 16, 0);
    let patterns = build_patterns(&g, 8, true, true);
    assert_eq!(patterns.len(), 1);
    let constraints = patterns_to_constraints(patterns, 8);
    let mut target = Grid::new(32, 32, 1);
    let mut solver = Solver::new(constraints, 8, &target);
    let mut rng = RandomStream::seeded(77);
    let mut steps = 0;
    loop {
        if solver.iteration(&mut target, &mut rng) {
            break;
        }
        steps += 1;
        assert!(steps <= 16 * 16 + 1);
    }
    assert!(solver.possible);
}

#[test]
fn chunk_indexing_is_row_major() {
    assert_eq!(tile_index_in_chunk(8, 0, 0), 0);
    assert_eq!(tile_index_in_chunk(8, 7, 0), 7);
    assert_eq!(tile_index_in_chunk(8, 0, 1), 8);
    assert_eq!(tile_index_in_chunk(8, 3, 2), 19);
}

#[test]
fn spawn_regions_hold_distinct_keys_and_floor_tiles() {
    let mut rng = RandomStream::seeded(15);
    let mut b = CellularAutomataBuilder::new(1);
    b.build(&mut rng);
    let regions = generate_voronoi_spawn_regions(&b.map, &mut rng);
    for (j, (k1, v)) in regions.iter().enumerate() {
        assert!(!v.is_empty());
        for idx in v.iter() {
            assert_eq!(b.map.tiles[*idx], TileType::Floor);
        }
        for (k2, _) in regions.iter().skip(j + 1) {
            assert!(k1 != k2);
        }
    }
}

#[test]
fn noise_cells_cluster_neighbors() {
    let noise = RegionNoise::with_seed(99);
    // tiles of one 8x8 cell share a value; the value is reproducible
    let a = noise.cell_value(3, 3);
    let b = noise.cell_value(4, 5);
    assert_eq!(a, b);
    let again = RegionNoise::with_seed(99);
    assert_eq!(again.cell_value(3, 3), a);
    // bucketing never loses an interior floor tile's index
    let mut g = Grid::new(12, 12, 0);
    g.set_floor(4, 4);
    g.set_floor(5, 4);
    let buckets = bucket_floor_tiles(&g, &noise);
    let total: usize = buckets.iter().map(|(_, v)| v.len()).sum();
    assert_eq!(total, 2);
}

#[test]
fn distance_metrics_compute_known_values() {
    assert_eq!(distance_between(DistanceAlgorithm::Pythagoras, 0, 0, 3, 4), 25);
    assert_eq!(distance_between(DistanceAlgorithm::Manhattan, 0, 0, 3, 4), 7);
    assert_eq!(distance_between(DistanceAlgorithm::Chebyshev, 0, 0, 3, 4), 4);
    assert_eq!(distance_between(DistanceAlgorithm::Manhattan, 5, 2, 1, 9), 11);
}

#[test]
fn noise_cell_formula_matches_by_hand() {
    // seed 99: the hash is (99 + 0 + 0), and 99 * 100 mod 4093 is 1714
    let noise = RegionNoise::with_seed(99);
    assert_eq!(noise.cell_value(3, 3), 1714);
}

#[test]
fn repair_exit_is_the_farthest_floor_tile() {
    // a straight corridor: the exit must land on its far end
    let mut g = Grid::new(9, 3, 1);
    for x in 1..7 {
        g.set_floor(x, 1);
    }
    let exit = remove_unreachable_areas(&mut g, 1, 1);
    assert_eq!(exit, 9 + 6);
    assert_eq!(g.tiles[exit], TileType::Floor);
}

#[test]
fn repair_exit_ties_break_toward_the_first_index() {
    // two arms of equal length around the start: the smaller flat index wins
    let mut g = Grid::new(9, 3, 1);
    for x in 2..7 {
        g.set_floor(x, 1);
    }
    let exit = remove_unreachable_areas(&mut g, 4, 1);
    assert_eq!(exit, 9 + 2);
}

#[test]
fn brush_stroke_paints_exactly_the_clipped_square() {
    let mut g = Grid::new(10, 10, 0);
    apply_paint(&mut g, 2, 3, 3);
    for y in 0..10 {
        for x in 0..10 {
            let expect = (2..=3).contains(&x) && (2..=3).contains(&y);
            let is_floor = g.get_tile(x, y) == TileType::Floor;
            assert_eq!(is_floor, expect, "at ({}, {})", x, y);
        }
    }
}

#[test]
fn snapshot_history_stays_empty_without_the_visualizer() {
    let mut rng = RandomStream::seeded(11);
    let builder = random_builder(1, &mut rng);
    let built: MapBuilder = builder.build_map(&mut rng);
    assert!(built.get_snapshot_history().is_empty());
    // the top-level entry point always leaves exactly one exit
    let (map, _start) = build_map(1, 77);
    let stairs = map.tiles.iter().filter(|t| **t == TileType::StairsDown).count();
    assert_eq!(stairs, 1);
}

#[test]
fn maze_cells_drop_exactly_the_facing_walls() {
    let mut a = Cell::new(2, 3);
    let mut b = Cell::new(2, 2);
    // b lies left of a: a's left wall and b's right wall fall, nothing else
    a.remove_walls(&mut b);
    assert!(!a.wall_left && a.wall_right && a.wall_top && a.wall_bottom);
    assert!(!b.wall_right && b.wall_left && b.wall_top && b.wall_bottom);
    let mut c = Cell::new(5, 5);
    let mut d = Cell::new(4, 5);
    // d lies above c: c's top wall and d's bottom wall fall
    c.remove_walls(&mut d);
    assert!(!c.wall_top && c.wall_bottom && c.wall_left && c.wall_right);
    assert!(!d.wall_bottom && d.wall_top && d.wall_left && d.wall_right);
}

#[test]
fn corridor_carves_exactly_the_dog_leg() {
    let mut g = Grid::new(10, 10, 0);
    mapgen::draw_corridor(&mut g, 2, 3, 6, 7);
    // first leg: along row 3 from x = 3 to x = 6; the start tile is skipped
    assert_eq!(g.get_tile(2, 3), TileType::Wall);
    for x in 3..=6 {
        assert_eq!(g.get_tile(x, 3), TileType::Floor);
    }
    // second leg: down column 6 to y = 7
    for y in 4..=7 {
        assert_eq!(g.get_tile(6, y), TileType::Floor);
    }
    // nothing off the path is touched
    assert_eq!(g.get_tile(4, 4), TileType::Wall);
    assert_eq!(g.get_tile(6, 8), TileType::Wall);
}

#[test]
fn fresh_solver_lists_every_cell_in_order() {
    let mut g = Grid::new(16, 16, 0);
    g.set_floor(3, 3);
    let patterns = build_patterns(&g, 8, false, false);
    let constraints = patterns_to_constraints(patterns, 8);
    let solver = Solver::new(constraints, 8, &g);
    assert!(solver.possible);
    assert_eq!(solver.remaining.len(), 4);
    for (k, entry) in solver.remaining.iter().enumerate() {
        assert_eq!(*entry, (k, 0));
    }
    assert!(solver.chunks.iter().all(|c| c.is_none()));
}
