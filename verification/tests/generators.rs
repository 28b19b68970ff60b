//! Every generator of the family: connectivity, exit placement, determinism.

use mapgen::{
    build_map, random_builder, static_builder, BspDungeonBuilder, BspInteriorBuilder,
    CellularAutomataBuilder, DLABuilder, DrunkardsWalkBuilder, Grid, MazeBuilder, PrefabBuilder,
    RandomStream, SimpleMapBuilder, TileType, VoronoiBuilder, WaveformCollapseBuilder,
    MAP_HEIGHT, MAP_WIDTH,
};

/// Exactly one StairsDown tile exists.
fn assert_single_stairs(map: &Grid) {
    let stairs = map.tiles.iter().filter(|t| **t == TileType::StairsDown).count();
    assert_eq!(stairs, 1);
}

/// Every walkable tile is reachable from the start (finite distance), and the
/// start itself is walkable.
fn assert_fully_connected(map: &Grid, sx: i32, sy: i32) {
    assert!(map.get_tile(sx, sy).is_walkable());
    let dist = map.shortest_distances(sx, sy);
    for y in 0..map.height {
        for x in 0..map.width {
            let i = map.xy_idx(x, y);
            if map.tiles[i].is_walkable() {
                assert!(dist[i] != -1, "unreachable walkable tile at ({}, {})", x, y);
            }
        }
    }
}

#[test]
fn cellular_automata_is_connected_with_one_exit() {
    for seed in [1u64, 99, 12345] {
        let mut rng = RandomStream::seeded(seed);
        let mut b = CellularAutomataBuilder::new(1);
        b.build(&mut rng);
        assert_single_stairs(&b.map);
        assert_fully_connected(&b.map, b.starting_position.x, b.starting_position.y);
    }
}

#[test]
fn drunkard_presets_are_connected_with_one_exit() {
    let presets = [
        DrunkardsWalkBuilder::open_area(1),
        DrunkardsWalkBuilder::open_halls(1),
        DrunkardsWalkBuilder::winding_passages(1),
        DrunkardsWalkBuilder::big_passages(1),
        DrunkardsWalkBuilder::fearful_symmetry(1),
    ];
    let mut seed = 5u64;
    for mut b in presets {
        let mut rng = RandomStream::seeded(seed);
        b.build(&mut rng);
        assert_single_stairs(&b.map);
        assert_fully_connected(&b.map, b.starting_position.x, b.starting_position.y);
        seed += 1;
    }
}

#[test]
fn dla_presets_are_connected_with_one_exit() {
    let presets = [
        DLABuilder::walk_inwards(1),
        DLABuilder::walk_outwards(1),
        DLABuilder::central_attractor(1),
        DLABuilder::insectoid(1),
    ];
    let mut seed = 11u64;
    for mut b in presets {
        let mut rng = RandomStream::seeded(seed);
        b.build(&mut rng);
        assert_single_stairs(&b.map);
        assert_fully_connected(&b.map, b.starting_position.x, b.starting_position.y);
        seed += 1;
    }
}

#[test]
fn voronoi_metrics_are_connected_with_one_exit() {
    let presets = [
        VoronoiBuilder::pythagoras(1),
        VoronoiBuilder::manhattan(1),
        VoronoiBuilder::chebyshev(1),
    ];
    let mut seed = 21u64;
    for mut b in presets {
        let mut rng = RandomStream::seeded(seed);
        b.build(&mut rng);
        assert_single_stairs(&b.map);
        assert_fully_connected(&b.map, b.starting_position.x, b.starting_position.y);
        seed += 1;
    }
}

#[test]
fn maze_is_connected_with_one_exit() {
    let mut rng = RandomStream::seeded(31);
    let mut b = MazeBuilder::new(1);
    b.build(&mut rng);
    assert_single_stairs(&b.map);
    assert_fully_connected(&b.map, b.starting_position.x, b.starting_position.y);
}

#[test]
fn simple_map_rooms_never_overlap() {
    for seed in [3u64, 77, 2024] {
        let mut rng = RandomStream::seeded(seed);
        let mut b = SimpleMapBuilder::new(1);
        b.build(&mut rng);
        assert!(b.rooms.len() >= 1);
        for j in 0..b.rooms.len() {
            for k in (j + 1)..b.rooms.len() {
                assert!(!b.rooms[j].intersect(&b.rooms[k]));
            }
        }
        assert_single_stairs(&b.map);
        // the rooms-and-corridors dungeon is connected by construction
        assert_fully_connected(&b.map, b.starting_position.x, b.starting_position.y);
    }
}

#[test]
fn bsp_dungeon_rooms_never_overlap() {
    for seed in [8u64, 44] {
        let mut rng = RandomStream::seeded(seed);
        let mut b = BspDungeonBuilder::new(1);
        b.build(&mut rng);
        assert!(b.rooms.len() >= 1);
        for j in 0..b.rooms.len() {
            for k in (j + 1)..b.rooms.len() {
                assert!(!b.rooms[j].intersect(&b.rooms[k]));
            }
        }
        // sorted by left edge
        for j in 1..b.rooms.len() {
            assert!(b.rooms[j - 1].x1 <= b.rooms[j].x1);
        }
        assert_single_stairs(&b.map);
        assert_fully_connected(&b.map, b.starting_position.x, b.starting_position.y);
    }
}

#[test]
fn bsp_interior_has_rooms_and_one_exit() {
    let mut rng = RandomStream::seeded(9);
    let mut b = BspInteriorBuilder::new(1);
    b.build(&mut rng);
    assert!(b.rooms.len() >= 1);
    assert_single_stairs(&b.map);
    assert_fully_connected(&b.map, b.starting_position.x, b.starting_position.y);
}

#[test]
fn prefab_vault_places_start_and_spawns() {
    let mut rng = RandomStream::seeded(1);
    let mut b = PrefabBuilder::new(1);
    b.build(&mut rng);
    // the template names the start at (2, 2)
    assert_eq!(b.starting_position.x, 2);
    assert_eq!(b.starting_position.y, 2);
    assert!(b.map.get_tile(2, 2).is_walkable());
    let names: Vec<&str> = b.spawns.iter().map(|s| s.1.as_str()).collect();
    assert!(names.contains(&"Goblin"));
    assert!(names.contains(&"Orc"));
    assert!(names.contains(&"Bear Trap"));
    assert!(names.contains(&"Health Potion"));
    assert_single_stairs(&b.map);
}

#[test]
fn wfc_layer_solves_and_repairs_a_derived_map() {
    let mut rng = RandomStream::seeded(51);
    let mut inner = CellularAutomataBuilder::new(1);
    inner.build(&mut rng);
    let derived = inner.map.clone();
    let mut wfc = WaveformCollapseBuilder::new(MAP_WIDTH, MAP_HEIGHT, 1);
    wfc.build_from_derived(&derived, &mut rng);
    assert_single_stairs(&wfc.map);
    assert_fully_connected(&wfc.map, wfc.starting_position.x, wfc.starting_position.y);
}

#[test]
fn builds_are_deterministic_per_seed() {
    for seed in [17u64, 1234567] {
        let (m1, p1) = build_map(1, seed);
        let (m2, p2) = build_map(1, seed);
        assert_eq!(m1.tiles, m2.tiles);
        assert_eq!(p1, p2);
    }
}

#[test]
fn random_builder_produces_connected_maps() {
    for seed in [2u64, 40, 41, 4242, 90210] {
        let (map, start) = build_map(3, seed);
        assert!(map.get_tile(start.x, start.y).is_walkable());
        let dist = map.shortest_distances(start.x, start.y);
        let mut stairs = 0;
        for i in 0..map.tiles.len() {
            if map.tiles[i] == TileType::StairsDown {
                stairs += 1;
                assert!(dist[i] != -1);
            }
        }
        assert!(stairs >= 1);
    }
}

#[test]
fn static_builder_is_the_inward_walk() {
    let mut rng = RandomStream::seeded(6);
    let b = static_builder(2);
    let built = b.build_map(&mut rng);
    let map = built.get_map();
    let start = built.get_starting_position();
    assert_eq!(map.depth, 2);
    assert!(map.get_tile(start.x, start.y).is_walkable());
}

#[test]
fn spawn_candidates_name_floor_tiles() {
    let mut rng = RandomStream::seeded(12);
    let b = random_builder(2, &mut rng).build_map(&mut rng);
    let map = b.get_map();
    for region in b.spawn_candidates() {
        for idx in region {
            assert_eq!(map.tiles[idx], TileType::Floor);
        }
    }
    let mut rng2 = RandomStream::seeded(3);
    let mut sm = SimpleMapBuilder::new(1);
    sm.build(&mut rng2);
    // a simple map with several rooms offers candidates beyond the first room
    if sm.rooms.len() > 1 {
        let b2 = mapgen::MapBuilder::Simple(sm);
        assert!(!b2.spawn_candidates().is_empty());
    }
}

#[test]
fn selector_honors_the_seeded_stream() {
    let mut rng1 = RandomStream::seeded(123);
    let mut rng2 = RandomStream::seeded(123);
    let b1 = random_builder(1, &mut rng1).build_map(&mut rng1);
    let b2 = random_builder(1, &mut rng2).build_map(&mut rng2);
    assert_eq!(b1.get_map().tiles, b2.get_map().tiles);
    assert_eq!(b1.get_starting_position(), b2.get_starting_position());
}
