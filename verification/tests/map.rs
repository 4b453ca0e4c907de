use relentless_revenge::map::generation::{step_permission, MapResource};
use relentless_revenge::map::map::{Bridge, FloorMap, Room, Tile, TileVariant, TILE_SIZE};
use relentless_revenge::movement::direction::Direction;
use relentless_revenge::state::State;

fn single_room() -> FloorMap {
    FloorMap { rooms: vec![Room::new((80, 80), 1)], bridges: vec![] }
}

#[test]
fn room_is_a_square_without_corners() {
    let tiles = single_room().generate_tiles();
    assert_eq!(tiles.len(), 5);
    for key in [(800, 800), (790, 800), (810, 800), (800, 790), (800, 810)] {
        let tile = tiles.get(&key).expect("tile missing");
        assert_eq!((tile.pos.0 * TILE_SIZE, tile.pos.1 * TILE_SIZE), key);
        assert!(tile.walkable);
        assert_eq!(tile.variant, TileVariant::Standard);
        assert!(tile.firt_room);
        assert!(tile.last_room);
    }
    for corner in [(790, 790), (810, 810), (790, 810), (810, 790)] {
        assert!(tiles.get(&corner).is_none());
    }
    assert!(tiles.get(&(800, 800)).unwrap().is_center);
    assert!(!tiles.get(&(790, 800)).unwrap().is_center);
}

#[test]
fn every_tile_reports_all_sides_open_and_no_spawn_place() {
    let map = FloorMap {
        rooms: vec![Room::new((0, 0), 3), Room::new((6, 0), 2)],
        bridges: vec![Bridge::new(vec![(4, 0)])],
    };
    let tiles = map.generate_tiles();
    assert!(!tiles.is_empty());
    for (_, tile) in tiles.iter() {
        assert_eq!(tile.empty_neighbors, Direction::values().to_vec());
        assert!(!tile.spawnable);
    }
}

#[test]
fn zero_radius_room_has_no_tiles() {
    let map = FloorMap { rooms: vec![Room::new((3, 3), 0), Room::new((9, 9), -2)], bridges: vec![] };
    assert_eq!(map.generate_tiles().len(), 0);
}

#[test]
fn later_rooms_and_bridges_cover_earlier_tiles() {
    let map = FloorMap {
        rooms: vec![Room::new((0, 0), 2), Room::new((2, 0), 1)],
        bridges: vec![Bridge::new(vec![(1, 0), (1, 0)])],
    };
    let tiles = map.generate_tiles();
    let shared = tiles.get(&(20, 0)).unwrap();
    assert!(!shared.firt_room);
    assert!(shared.last_room);
    assert!(shared.is_center);
    let bridge = tiles.get(&(10, 0)).unwrap();
    assert_eq!(bridge.variant, TileVariant::Accented);
    assert!(!bridge.is_center && !bridge.firt_room && !bridge.last_room);
    let first = tiles.get(&(0, 0)).unwrap();
    assert!(first.firt_room && first.is_center && !first.last_room);
}

#[test]
fn map_resource_lookups() {
    let res = MapResource::new(FloorMap {
        rooms: vec![Room::new((0, 0), 1), Room::new((5, 0), 1)],
        bridges: vec![Bridge::new(vec![(2, 0), (3, 0)])],
    });
    assert!(res.get_tile((0, 0)).is_some());
    assert!(res.get_tile((1, 0)).is_none());
    assert!(res.walkable_at((30, 0)));
    assert!(!res.walkable_at((35, 0)));
    assert!(res.is_portal_at((50, 0)));
    assert!(!res.is_portal_at((0, 0)));
    assert!(!res.is_portal_at((60, 0)));
}

#[test]
fn landmarks_of_two_rooms() {
    let res = MapResource::new(FloorMap {
        rooms: vec![Room::new((0, 0), 1), Room::new((5, 0), 1)],
        bridges: vec![],
    });
    let marks = res.landmarks();
    assert_eq!(marks.player_pos, (0, 0));
    assert_eq!(marks.portal_pos, (50, 0));
    assert!(marks.spawnable_pos.is_empty());
}

#[test]
fn single_room_has_no_portal() {
    let res = MapResource::new(single_room());
    let marks = res.landmarks();
    assert_eq!(marks.player_pos, (800, 800));
    assert_eq!(marks.portal_pos, (0, 0));
}

#[test]
fn step_permissions() {
    assert_eq!(step_permission(Some(State::Idle), true, true, true), (false, false));
    assert_eq!(step_permission(Some(State::Walking), true, false, false), (true, true));
    assert_eq!(step_permission(None, true, false, false), (true, true));
    assert_eq!(step_permission(Some(State::Walking), false, true, false), (true, false));
    assert_eq!(step_permission(None, false, false, true), (false, true));
}

fn plain_tile(pos: (i32, i32), spawnable: bool) -> Tile {
    Tile {
        pos,
        walkable: true,
        is_center: false,
        empty_neighbors: vec![],
        variant: TileVariant::Standard,
        spawnable,
        firt_room: false,
        last_room: false,
    }
}

#[test]
fn landmarks_list_each_spawn_place_once() {
    let mut tiles = bevy::platform::collections::HashMap::new();
    tiles.insert((10, 0), plain_tile((1, 0), true));
    tiles.insert((20, 0), plain_tile((2, 0), false));
    tiles.insert((0, 30), plain_tile((0, 3), true));
    tiles.insert((0, 30), plain_tile((0, 3), true));
    let res = MapResource { blueprint: FloorMap { rooms: vec![], bridges: vec![] }, tiles };
    let marks = res.landmarks();
    let mut places = marks.spawnable_pos.clone();
    places.sort();
    assert_eq!(places, vec![(0, 30), (10, 0)]);
    assert_eq!(marks.player_pos, (0, 0));
    assert_eq!(marks.portal_pos, (0, 0));
}
