use dungeoncrawl::distance::{distance_field, farthest, UNREACHABLE};
use dungeoncrawl::geometry::{Point, Rect};
use dungeoncrawl::map::{map_idx, GridMap, TileType, NUM_TILES, SCREEN_HEIGHT, SCREEN_WIDTH};
use dungeoncrawl::map_builder::carve::{carve_column, carve_rect, carve_row};

fn walls() -> GridMap {
    let mut map = GridMap::new();
    for t in map.tiles.iter_mut() {
        *t = TileType::Wall;
    }
    map
}

#[test]
fn point_and_index_are_mutual_inverses() {
    let map = GridMap::new();
    for y in 0..SCREEN_HEIGHT {
        for x in 0..SCREEN_WIDTH {
            let p = Point::new(x, y);
            let idx = map.point2d_to_index(p);
            assert!(idx < NUM_TILES);
            assert_eq!(map.index_to_point2d(idx), p);
        }
    }
    for idx in 0..NUM_TILES {
        let p = map.index_to_point2d(idx);
        assert!(map.in_bounds(p));
        assert_eq!(map.point2d_to_index(p), idx);
    }
}

#[test]
fn index_is_row_major() {
    assert_eq!(map_idx(0, 0), 0);
    assert_eq!(map_idx(79, 0), 79);
    assert_eq!(map_idx(0, 1), 80);
    assert_eq!(map_idx(3, 2), 163);
    assert_eq!(map_idx(79, 49), 3999);
    let map = GridMap::new();
    assert_eq!(map.index_to_point2d(163), Point::new(3, 2));
}

#[test]
fn lookups_off_the_grid_give_no_index() {
    let map = GridMap::new();
    assert_eq!(map.try_idx(Point::new(-1, 0)), None);
    assert_eq!(map.try_idx(Point::new(0, -1)), None);
    assert_eq!(map.try_idx(Point::new(80, 0)), None);
    assert_eq!(map.try_idx(Point::new(0, 50)), None);
    assert_eq!(map.try_idx(Point::new(i32::MAX, i32::MIN)), None);
    assert_eq!(map.try_idx(Point::new(79, 49)), Some(3999));
    assert_eq!(map.try_idx(Point::new(5, 1)), Some(85));
}

#[test]
fn new_map_is_unrevealed_floor() {
    let map = GridMap::new();
    assert_eq!(map.tiles.len(), NUM_TILES);
    assert_eq!(map.revealed_tiles.len(), NUM_TILES);
    assert!(map.tiles.iter().all(|t| *t == TileType::Floor));
    assert!(map.revealed_tiles.iter().all(|r| !*r));
}

#[test]
fn walls_block_and_floor_and_exit_do_not() {
    let mut map = walls();
    map.set_tile(Point::new(2, 2), TileType::Floor);
    map.set_tile(Point::new(3, 2), TileType::Exit);
    assert!(map.is_walkable(map_idx(2, 2)));
    assert!(map.is_walkable(map_idx(3, 2)));
    assert!(!map.is_walkable(map_idx(4, 2)));
    assert!(map.is_blocked(map_idx(4, 2)));
    assert!(!map.is_blocked(map_idx(2, 2)));
    assert!(map.is_blocked(NUM_TILES));
    assert!(map.can_enter_tile(Point::new(2, 2)));
    assert!(!map.can_enter_tile(Point::new(4, 2)));
    assert!(!map.can_enter_tile(Point::new(-1, 2)));
}

#[test]
fn writes_off_the_grid_are_dropped() {
    let mut map = walls();
    map.set_tile(Point::new(80, 3), TileType::Floor);
    map.set_tile(Point::new(-1, 3), TileType::Floor);
    map.set_tile(Point::new(3, 50), TileType::Floor);
    assert!(map.tiles.iter().all(|t| *t == TileType::Wall));
}

#[test]
fn reveal_all_marks_every_tile() {
    let mut map = walls();
    map.reveal_all();
    assert!(map.revealed_tiles.iter().all(|r| *r));
    assert!(map.tiles.iter().all(|t| *t == TileType::Wall));
}

#[test]
fn rect_with_size_and_overlap() {
    let a = Rect::with_size(1, 2, 3, 4);
    assert_eq!((a.x1, a.y1, a.x2, a.y2), (1, 2, 4, 6));
    let touching = Rect::with_size(4, 6, 2, 2);
    assert!(a.intersect(&touching));
    assert!(touching.intersect(&a));
    let apart = Rect::with_size(5, 2, 2, 2);
    assert!(!a.intersect(&apart));
    let below = Rect::with_size(1, 7, 3, 1);
    assert!(!a.intersect(&below));
}

#[test]
fn rect_center_rounds_toward_zero() {
    assert_eq!(Rect::with_size(1, 2, 3, 4).center(), Point::new(2, 4));
    assert_eq!(Rect::with_size(10, 10, 5, 8).center(), Point::new(12, 14));
    assert_eq!(Rect { x1: -3, x2: 0, y1: -5, y2: -2 }.center(), Point::new(-1, -3));
    assert_eq!(
        Rect { x1: i32::MAX, x2: i32::MAX, y1: i32::MIN, y2: i32::MIN }.center(),
        Point::new(i32::MAX, i32::MIN)
    );
}

#[test]
fn rect_contains_its_cells_only() {
    let r = Rect::with_size(2, 3, 2, 2);
    assert!(r.point_in_rect(Point::new(2, 3)));
    assert!(r.point_in_rect(Point::new(3, 4)));
    assert!(!r.point_in_rect(Point::new(4, 4)));
    assert!(!r.point_in_rect(Point::new(3, 5)));
    assert!(!r.point_in_rect(Point::new(1, 3)));
}

#[test]
fn point_addition_is_checked() {
    assert_eq!(Point::new(3, 4).checked_add(Point::new(-1, 2)), Some(Point::new(2, 6)));
    assert_eq!(Point::new(i32::MAX, 0).checked_add(Point::new(1, 0)), None);
    assert_eq!(Point::new(0, i32::MIN).checked_add(Point::new(0, -1)), None);
    assert_eq!(Point::zero(), Point::new(0, 0));
}

#[test]
fn farther_than_is_strict_and_exact() {
    let start = Point::new(40, 25);
    assert!(!start.farther_than(Point::new(50, 25), 10));
    assert!(!start.farther_than(Point::new(46, 33), 10));
    assert!(start.farther_than(Point::new(51, 25), 10));
    assert!(start.farther_than(Point::new(50, 26), 10));
    assert!(start.farther_than(Point::new(47, 33), 10));
    assert!(!start.farther_than(start, 0));
    assert!(start.farther_than(Point::new(40, 26), 0));
    assert!(Point::new(i32::MIN, i32::MIN).farther_than(Point::new(i32::MAX, i32::MAX), u16::MAX));
}

#[test]
fn carving_a_row_takes_either_order() {
    let mut map = walls();
    carve_row(&mut map, 7, 3, 2);
    for x in 0..SCREEN_WIDTH {
        let want = if (3..=7).contains(&x) { TileType::Floor } else { TileType::Wall };
        assert_eq!(map.tiles[map_idx(x, 2)], want);
    }
    let floor = map.tiles.iter().filter(|t| **t == TileType::Floor).count();
    assert_eq!(floor, 5);
}

#[test]
fn carving_a_column_stops_at_the_grid() {
    let mut map = walls();
    carve_column(&mut map, -5, 3, 79);
    for y in 0..SCREEN_HEIGHT {
        let want = if y <= 3 { TileType::Floor } else { TileType::Wall };
        assert_eq!(map.tiles[map_idx(79, y)], want);
    }
    let before = map.tiles.clone();
    carve_column(&mut map, 0, 10, 80);
    carve_row(&mut map, 0, 10, -1);
    assert_eq!(map.tiles, before);
}

#[test]
fn carving_a_rect_spares_first_row_and_column() {
    let mut map = walls();
    carve_rect(&mut map, Rect::with_size(0, 0, 3, 3));
    let mut floor = Vec::new();
    for idx in 0..NUM_TILES {
        if map.tiles[idx] == TileType::Floor {
            floor.push(idx);
        }
    }
    assert_eq!(floor, vec![map_idx(1, 1), map_idx(2, 1), map_idx(1, 2), map_idx(2, 2)]);
}

#[test]
fn distances_follow_the_corridor() {
    let mut map = walls();
    carve_row(&mut map, 1, 5, 1);
    carve_column(&mut map, 1, 4, 5);
    let dist = distance_field(&map, &vec![map_idx(1, 1)], 1024);
    assert_eq!(dist.len(), NUM_TILES);
    assert_eq!(dist[map_idx(1, 1)], 0);
    assert_eq!(dist[map_idx(2, 1)], 1);
    assert_eq!(dist[map_idx(5, 1)], 4);
    assert_eq!(dist[map_idx(5, 4)], 7);
    assert_eq!(dist[map_idx(6, 1)], UNREACHABLE);
    assert_eq!(dist[map_idx(5, 5)], UNREACHABLE);
    let finite = dist.iter().filter(|d| **d != UNREACHABLE).count();
    assert_eq!(finite, 8);
}

#[test]
fn distances_do_not_wrap_around_rows() {
    let mut map = walls();
    map.set_tile(Point::new(79, 3), TileType::Floor);
    map.set_tile(Point::new(0, 4), TileType::Floor);
    let dist = distance_field(&map, &vec![map_idx(79, 3)], 1024);
    assert_eq!(dist[map_idx(79, 3)], 0);
    assert_eq!(dist[map_idx(0, 4)], UNREACHABLE);
}

#[test]
fn distances_take_the_shorter_way_and_the_nearer_source() {
    let map = GridMap::new();
    let dist = distance_field(&map, &vec![map_idx(0, 0), map_idx(79, 49), NUM_TILES + 7], 1024);
    assert_eq!(dist[map_idx(0, 0)], 0);
    assert_eq!(dist[map_idx(79, 49)], 0);
    assert_eq!(dist[map_idx(3, 4)], 7);
    assert_eq!(dist[map_idx(78, 47)], 3);
    assert_eq!(dist[map_idx(40, 24)], 64);
    assert!(dist.iter().all(|d| *d != UNREACHABLE));
}

#[test]
fn distances_stop_at_the_search_radius() {
    let map = GridMap::new();
    let dist = distance_field(&map, &vec![map_idx(0, 0)], 5);
    assert_eq!(dist[map_idx(4, 0)], 4);
    assert_eq!(dist[map_idx(2, 2)], 4);
    assert_eq!(dist[map_idx(5, 0)], UNREACHABLE);
    assert_eq!(dist[map_idx(3, 2)], UNREACHABLE);
    let none = distance_field(&map, &vec![map_idx(0, 0)], 0);
    assert!(none.iter().all(|d| *d == UNREACHABLE));
    let only_source = distance_field(&map, &vec![map_idx(0, 0)], 1);
    assert_eq!(only_source[0], 0);
    assert_eq!(only_source.iter().filter(|d| **d != UNREACHABLE).count(), 1);
}

#[test]
fn a_source_on_a_wall_still_counts() {
    let mut map = walls();
    map.set_tile(Point::new(2, 1), TileType::Floor);
    let dist = distance_field(&map, &vec![map_idx(1, 1)], 1024);
    assert_eq!(dist[map_idx(1, 1)], 0);
    assert_eq!(dist[map_idx(2, 1)], 1);
}

#[test]
fn farthest_takes_the_first_of_equal_maxima() {
    assert_eq!(farthest(&vec![UNREACHABLE, 3, 7, 7, UNREACHABLE, 2]), Some(2));
    assert_eq!(farthest(&vec![0]), Some(0));
    assert_eq!(farthest(&vec![UNREACHABLE, UNREACHABLE]), None);
    assert_eq!(farthest(&Vec::new()), None);
}
