//! The grid, rectangle, tile, snapshot and random-stream primitives.

use mapgen::{build_snapshot, line_points, Grid, Position, Rect, RandomStream, TileType};

#[test]
fn grid_starts_all_wall() {
    let g = Grid::new(10, 10, 3);
    assert_eq!(g.width, 10);
    assert_eq!(g.height, 10);
    assert_eq!(g.depth, 3);
    assert_eq!(g.tiles.len(), 100);
    for t in g.tiles.iter() {
        assert_eq!(*t, TileType::Wall);
    }
}

#[test]
fn grid_set_and_get_roundtrip() {
    let mut g = Grid::new(12, 8, 1);
    g.set_floor(3, 4);
    assert_eq!(g.get_tile(3, 4), TileType::Floor);
    g.set_wall(3, 4);
    assert_eq!(g.get_tile(3, 4), TileType::Wall);
    g.set_tile(5, 5, TileType::StairsDown);
    assert_eq!(g.get_tile(5, 5), TileType::StairsDown);
    assert_eq!(g.xy_idx(5, 5), 5 * 12 + 5);
}

#[test]
fn populate_blocked_tracks_walls() {
    let mut g = Grid::new(6, 6, 1);
    g.set_floor(2, 2);
    g.populate_blocked();
    assert!(!g.blocked[g.xy_idx(2, 2)]);
    assert!(g.blocked[g.xy_idx(1, 1)]);
}

#[test]
fn count_floor_counts_exactly() {
    let mut g = Grid::new(6, 6, 1);
    assert_eq!(g.count_floor(), 0);
    g.set_floor(1, 1);
    g.set_floor(2, 1);
    g.set_floor(2, 1);
    assert_eq!(g.count_floor(), 2);
}

#[test]
fn tile_walkability() {
    assert!(!TileType::Wall.is_walkable());
    assert!(TileType::Floor.is_walkable());
    assert!(TileType::StairsDown.is_walkable());
}

#[test]
fn rect_center_and_intersection() {
    let a = Rect::new(2, 2, 6, 6);
    assert_eq!(a.x1, 2);
    assert_eq!(a.x2, 8);
    assert_eq!(a.center(), (5, 5));
    let b = Rect::new(7, 7, 4, 4);
    let c = Rect::new(9, 9, 3, 3);
    assert!(a.intersect(&b));
    assert!(b.intersect(&a));
    assert!(!a.intersect(&c));
    // inclusive bounds: touching edges count as overlap
    let d = Rect::new(8, 2, 3, 3);
    assert!(a.intersect(&d));
}

#[test]
fn position_origin_is_zero() {
    let p = Position::origin();
    assert_eq!(p, Position { x: 0, y: 0 });
}

#[test]
fn snapshot_follows_the_visualizer_flag() {
    let mut g = Grid::new(8, 8, 1);
    g.set_floor(3, 3);
    assert!(build_snapshot(&g, false).is_none());
    let s = build_snapshot(&g, true).unwrap();
    assert_eq!(s.tiles, g.tiles);
    assert!(s.revealed_tiles.iter().all(|r| *r));
}

#[test]
fn seeded_streams_are_reproducible() {
    let mut a = RandomStream::seeded(42);
    let mut b = RandomStream::seeded(42);
    for _ in 0..100 {
        let ra = a.roll_dice(1, 20);
        let rb = b.roll_dice(1, 20);
        assert_eq!(ra, rb);
        assert!((1..=20).contains(&ra));
    }
    let mut c = RandomStream::seeded(43);
    let mut diff = false;
    let mut a2 = RandomStream::seeded(42);
    for _ in 0..32 {
        if a2.roll_dice(1, 1000) != c.roll_dice(1, 1000) {
            diff = true;
        }
    }
    assert!(diff);
}

#[test]
fn range_stays_in_bounds() {
    let mut rng = RandomStream::seeded(7);
    for _ in 0..200 {
        let v = rng.range(5, 9);
        assert!((5..9).contains(&v));
    }
}

#[test]
fn line_points_end_at_the_target() {
    let p = line_points(2, 3, 9, 6);
    assert!(!p.is_empty());
    assert_eq!(*p.last().unwrap(), (9, 6));
    let q = line_points(4, 4, 4, 4);
    assert!(!q.is_empty());
    assert_eq!(*q.last().unwrap(), (4, 4));
}
