use vstd::prelude::*;
use bevy::platform::collections::HashMap;
use crate::map::table::{table_contains, table_contents, table_get, table_insert, table_keys, table_new};
use crate::movement::direction::{all_directions, direction_offset, Direction};

verus! {

/// World units between the keys of two neighbouring tiles.
pub const TILE_SIZE: i32 = 10;

/// Largest grid coordinate (in absolute value) whose world key fits in an `i32`.
pub const MAX_GRID_COORD: i32 = 214748364;

/// A square room with cut corners, centred on `pos` (grid coordinates).
#[derive(Debug, Clone, Copy)]
pub struct Room {
    pub pos: (i32, i32),
    pub radius: i32,
}

impl Room {
    pub fn new(pos: (i32, i32), radius: i32) -> (r: Self)
        ensures
            r.pos == pos,
            r.radius == radius,
    {
        Room { pos, radius }
    }
}

/// A corridor of single tiles that links two rooms (grid coordinates).
pub struct Bridge {
    pub pos: Vec<(i32, i32)>,
}

impl Bridge {
    pub fn new(pos: Vec<(i32, i32)>) -> (r: Self)
        ensures
            r.pos@ == pos@,
    {
        Bridge { pos }
    }
}

/// The look of a floor tile: rooms are plain, bridges are accented.
#[derive(Debug, Clone, Copy, PartialEq, Eq, Structural)]
pub enum TileVariant {
    Standard,
    Accented,
}

/// One walkable tile of a floor.
pub struct Tile {
    /// Grid coordinates of the tile.
    pub pos: (i32, i32),
    pub walkable: bool,
    /// The tile is the centre of its room.
    pub is_center: bool,
    /// The sides on which no tile lies next to this one.
    pub empty_neighbors: Vec<Direction>,
    pub variant: TileVariant,
    /// An enemy may appear on this tile.
    pub spawnable: bool,
    /// The tile belongs to the first room (where the player starts).
    pub firt_room: bool,
    /// The tile belongs to the last room (where the portal stands).
    pub last_room: bool,
}

/// A tile as plain values.
pub struct TileView {
    pub pos: (i32, i32),
    pub walkable: bool,
    pub is_center: bool,
    pub empty_neighbors: Seq<Direction>,
    pub variant: TileVariant,
    pub spawnable: bool,
    pub firt_room: bool,
    pub last_room: bool,
}

impl View for Tile {
    type V = TileView;

    open spec fn view(&self) -> TileView {
        TileView {
            pos: self.pos,
            walkable: self.walkable,
            is_center: self.is_center,
            empty_neighbors: self.empty_neighbors@,
            variant: self.variant,
            spawnable: self.spawnable,
            firt_room: self.firt_room,
            last_room: self.last_room,
        }
    }
}

/// The blueprint of a floor: its rooms, first to last, and the bridges between them.
pub struct FloorMap {
    pub rooms: Vec<Room>,
    pub bridges: Vec<Bridge>,
}

pub open spec fn abs(v: int) -> int {
    if v < 0 {
        -v
    } else {
        v
    }
}

pub open spec fn grid_coord_fits(c: int) -> bool {
    -MAX_GRID_COORD <= c <= MAX_GRID_COORD
}

/// Every tile of the room has grid coordinates whose world key fits in an `i32`.
pub open spec fn room_fits(room: Room) -> bool {
    &&& room.radius > i32::MIN
    &&& room.radius > 0 ==> {
        &&& grid_coord_fits(room.pos.0 - room.radius)
        &&& grid_coord_fits(room.pos.0 + room.radius)
        &&& grid_coord_fits(room.pos.1 - room.radius)
        &&& grid_coord_fits(room.pos.1 + room.radius)
    }
}

pub open spec fn pos_fits(p: (i32, i32)) -> bool {
    grid_coord_fits(p.0 as int) && grid_coord_fits(p.1 as int)
}

pub open spec fn bridge_fits(b: Bridge) -> bool {
    forall|j: int| 0 <= j < b.pos@.len() ==> pos_fits(#[trigger] b.pos@[j])
}

/// The whole blueprint stays within the coordinates that world keys can hold.
pub open spec fn blueprint_fits(rooms: Seq<Room>, bridges: Seq<Bridge>) -> bool {
    &&& forall|i: int| 0 <= i < rooms.len() ==> room_fits(#[trigger] rooms[i])
    &&& forall|i: int| 0 <= i < bridges.len() ==> bridge_fits(#[trigger] bridges[i])
}

/// The key under which the tile at grid position `p` is stored: its world position.
pub open spec fn world_key(p: (i32, i32)) -> (i32, i32) {
    ((p.0 * TILE_SIZE) as i32, (p.1 * TILE_SIZE) as i32)
}

/// The key is a world position of some grid cell.
pub open spec fn on_grid(k: (i32, i32)) -> bool {
    (k.0 as int) % 10 == 0 && (k.1 as int) % 10 == 0
}

/// The grid cell of a world key.
pub open spec fn key_cell(k: (i32, i32)) -> (int, int) {
    ((k.0 as int) / 10, (k.1 as int) / 10)
}

pub open spec fn key_bounded(k: (i32, i32)) -> bool {
    -2147483640 <= k.0 <= 2147483640 && -2147483640 <= k.1 <= 2147483640
}

/// The offset (dx, dy) from a room's centre lies in the room: inside the
/// square of the given radius, but not on one of its four corners.
pub open spec fn in_room_square(r: int, dx: int, dy: int) -> bool {
    &&& -r <= dx <= r
    &&& -r <= dy <= r
    &&& !(abs(dx) == r && abs(dy) == r)
}

/// The tile stored under key `k` belongs to `room`.
pub open spec fn room_has_key(room: Room, k: (i32, i32)) -> bool {
    on_grid(k) && in_room_square(
        room.radius as int,
        key_cell(k).0 - room.pos.0,
        key_cell(k).1 - room.pos.1,
    )
}

/// The tile that room `i` (of `n` rooms) lays under key `k`.
pub open spec fn room_tile(room: Room, i: int, n: int, k: (i32, i32)) -> TileView {
    TileView {
        pos: (key_cell(k).0 as i32, key_cell(k).1 as i32),
        walkable: true,
        is_center: key_cell(k).0 == room.pos.0 && key_cell(k).1 == room.pos.1,
        empty_neighbors: Seq::empty(),
        variant: TileVariant::Standard,
        spawnable: true,
        firt_room: i == 0,
        last_room: i == n - 1,
    }
}

/// `(dx, dy)` comes before `(x, y)` in the order in which a room is laid:
/// column by column, each column from bottom to top.
pub open spec fn cell_before(dx: int, dy: int, x: int, y: int) -> bool {
    dx < x || (dx == x && dy < y)
}

/// The part of room `i` laid before cell `(x, y)`.
pub open spec fn room_layer_upto(room: Room, i: int, n: int, x: int, y: int) -> Map<(i32, i32), TileView> {
    Map::new(
        |k: (i32, i32)|
            room_has_key(room, k) && cell_before(
                key_cell(k).0 - room.pos.0,
                key_cell(k).1 - room.pos.1,
                x,
                y,
            ),
        |k: (i32, i32)| room_tile(room, i, n, k),
    )
}

/// The tiles of room `i`, all of them.
pub open spec fn room_layer(room: Room, i: int, n: int) -> Map<(i32, i32), TileView> {
    Map::new(|k: (i32, i32)| room_has_key(room, k), |k: (i32, i32)| room_tile(room, i, n, k))
}

/// The tiles of the first `upto` rooms, a later room covering an earlier one
/// where they overlap.
pub open spec fn rooms_table(rooms: Seq<Room>, upto: int) -> Map<(i32, i32), TileView>
    decreases upto,
{
    if upto <= 0 {
        Map::empty()
    } else {
        rooms_table(rooms, upto - 1).union_prefer_right(
            room_layer(rooms[upto - 1], upto - 1, rooms.len() as int),
        )
    }
}

/// One of the first `upto` positions of the bridge has key `k`.
pub open spec fn bridge_has_key_upto(b: Bridge, upto: int, k: (i32, i32)) -> bool {
    exists|j: int| 0 <= j < upto && j < b.pos@.len() && #[trigger] world_key(b.pos@[j]) == k
}

/// A bridge before bridge `bi`, or one of the first `pj` positions of bridge
/// `bi`, has key `k`.
pub open spec fn bridges_have_key_upto(bs: Seq<Bridge>, bi: int, pj: int, k: (i32, i32)) -> bool {
    ||| exists|i: int|
        0 <= i < bi && i < bs.len() && bridge_has_key_upto(#[trigger] bs[i], bs[i].pos@.len() as int, k)
    ||| 0 <= bi < bs.len() && bridge_has_key_upto(bs[bi], pj, k)
}

/// The tile a bridge lays under key `k`.
pub open spec fn bridge_tile(k: (i32, i32)) -> TileView {
    TileView {
        pos: (key_cell(k).0 as i32, key_cell(k).1 as i32),
        walkable: true,
        is_center: false,
        empty_neighbors: Seq::empty(),
        variant: TileVariant::Accented,
        spawnable: false,
        firt_room: false,
        last_room: false,
    }
}

pub open spec fn bridges_layer_upto(bs: Seq<Bridge>, bi: int, pj: int) -> Map<(i32, i32), TileView> {
    Map::new(|k: (i32, i32)| bridges_have_key_upto(bs, bi, pj, k), |k: (i32, i32)| bridge_tile(k))
}

/// The tiles of every bridge.
pub open spec fn bridges_layer(bs: Seq<Bridge>) -> Map<(i32, i32), TileView> {
    bridges_layer_upto(bs, bs.len() as int, 0)
}

/// Rooms laid first to last, then the bridges laid over them.
pub open spec fn laid_tiles(rooms: Seq<Room>, bridges: Seq<Bridge>) -> Map<(i32, i32), TileView> {
    rooms_table(rooms, rooms.len() as int).union_prefer_right(bridges_layer(bridges))
}

/// The key one step from `k` in direction `d`.
pub open spec fn neighbor_key(k: (i32, i32), d: Direction) -> (i32, i32) {
    ((k.0 + direction_offset(d).0) as i32, (k.1 + direction_offset(d).1) as i32)
}

/// The directions, in list order, in which no key of `keys` lies next to `k`.
pub open spec fn open_sides(k: (i32, i32), keys: Set<(i32, i32)>) -> Seq<Direction> {
    all_directions().filter(side_is_open(k, keys))
}

/// Holds of the directions in which no key of `keys` lies next to `k`.
pub open spec fn side_is_open(k: (i32, i32), keys: Set<(i32, i32)>) -> spec_fn(Direction) -> bool {
    |d: Direction| !keys.contains(neighbor_key(k, d))
}

/// A laid tile once its neighbourhood is known: it records its open sides, and
/// it stays a spawn place only if it has none and is no room centre.
pub open spec fn finish_tile(t: TileView, k: (i32, i32), keys: Set<(i32, i32)>) -> TileView {
    TileView {
        pos: t.pos,
        walkable: t.walkable,
        is_center: t.is_center,
        empty_neighbors: open_sides(k, keys),
        variant: t.variant,
        spawnable: t.spawnable && open_sides(k, keys).len() == 0 && !t.is_center,
        firt_room: t.firt_room,
        last_room: t.last_room,
    }
}

/// The tile table of a floor blueprint.
pub open spec fn floor_tiles(rooms: Seq<Room>, bridges: Seq<Bridge>) -> Map<(i32, i32), TileView> {
    let laid = laid_tiles(rooms, bridges);
    Map::new(
        |k: (i32, i32)| laid.dom().contains(k),
        |k: (i32, i32)| finish_tile(laid[k], k, laid.dom()),
    )
}

/// The world key of a grid position that fits lies on the grid, is bounded,
/// and leads back to the position.
pub proof fn lemma_world_key(p: (i32, i32))
    requires
        pos_fits(p),
    ensures
        world_key(p).0 == p.0 * 10,
        world_key(p).1 == p.1 * 10,
        on_grid(world_key(p)),
        key_cell(world_key(p)) == (p.0 as int, p.1 as int),
        key_bounded(world_key(p)),
{
    assert((p.0 * 10) % 10 == 0 && (p.0 * 10) / 10 == p.0) by (nonlinear_arith);
    assert((p.1 * 10) % 10 == 0 && (p.1 * 10) / 10 == p.1) by (nonlinear_arith);
}

/// Keys on the grid are the world keys of their cells.
pub proof fn lemma_key_cell(k: (i32, i32))
    requires
        on_grid(k),
    ensures
        k.0 == key_cell(k).0 * 10,
        k.1 == key_cell(k).1 * 10,
{
    assert(k.0 % 10 == 0 ==> k.0 == (k.0 / 10) * 10) by (nonlinear_arith);
    assert(k.1 % 10 == 0 ==> k.1 == (k.1 / 10) * 10) by (nonlinear_arith);
}

/// Every key of the map is a bounded world key.
pub open spec fn keys_bounded(m: Map<(i32, i32), TileView>) -> bool {
    forall|k: (i32, i32)| #[trigger] m.dom().contains(k) ==> key_bounded(k)
}

/// Lays the tiles of room `i` (of `n`) over the table.
fn lay_room(table: &mut HashMap<(i32, i32), Tile>, room: Room, i: usize, n: usize)
    requires
        room_fits(room),
        i < n,
        keys_bounded(table_contents(*old(table))),
    ensures
        table_contents(*final(table)) == table_contents(*old(table)).union_prefer_right(
            room_layer(room, i as int, n as int),
        ),
        keys_bounded(table_contents(*final(table))),
{
    let ghost base = table_contents(*table);
    let r = room.radius;
    let mut x: i32 = -r;
    while x <= r
        invariant
            room_fits(room),
            r == room.radius,
            i < n,
            -r <= x,
            r < 0 ==> x == -r,
            r >= 0 ==> x <= r + 1,
            table_contents(*table) == base.union_prefer_right(
                room_layer_upto(room, i as int, n as int, x as int, -r as int),
            ),
            keys_bounded(table_contents(*table)),
        decreases r - x + 1,
    {
        let mut y: i32 = -r;
        while y <= r
            invariant
                room_fits(room),
                r == room.radius,
                i < n,
                -r <= x <= r,
                -r <= y <= r + 1,
                table_contents(*table) == base.union_prefer_right(
                    room_layer_upto(room, i as int, n as int, x as int, y as int),
                ),
                keys_bounded(table_contents(*table)),
            decreases r - y + 1,
        {
            let ax: i32 = if x < 0 { -x } else { x };
            let ay: i32 = if y < 0 { -y } else { y };
            let ghost before = table_contents(*table);
            if !(ax == r && ay == r) {
                let pos: (i32, i32) = (room.pos.0 + x, room.pos.1 + y);
                proof {
                    lemma_world_key(pos);
                }
                let key: (i32, i32) = (pos.0 * TILE_SIZE, pos.1 * TILE_SIZE);
                let tile = Tile {
                    pos,
                    walkable: true,
                    is_center: x == 0 && y == 0,
                    empty_neighbors: Vec::new(),
                    variant: TileVariant::Standard,
                    spawnable: true,
                    firt_room: i == 0,
                    last_room: i == n - 1,
                };
                table_insert(table, key, tile);
                proof {
                    assert(key == world_key(pos));
                    assert(room_has_key(room, key));
                    assert(tile@ == room_tile(room, i as int, n as int, key));
                    let next = room_layer_upto(room, i as int, n as int, x as int, y + 1);
                    let prev = room_layer_upto(room, i as int, n as int, x as int, y as int);
                    assert forall|k: (i32, i32)| k != key implies (#[trigger] next.dom().contains(k)
                        == prev.dom().contains(k)) by {
                        if room_has_key(room, k) {
                            lemma_key_cell(k);
                        }
                    }
                    assert(table_contents(*table) =~= base.union_prefer_right(next));
                }
            } else {
                proof {
                    let next = room_layer_upto(room, i as int, n as int, x as int, y + 1);
                    let prev = room_layer_upto(room, i as int, n as int, x as int, y as int);
                    assert(next =~= prev);
                }
            }
            y = y + 1;
        }
        proof {
            let next = room_layer_upto(room, i as int, n as int, x + 1, -r as int);
            let prev = room_layer_upto(room, i as int, n as int, x as int, y as int);
            assert(next =~= prev);
        }
        x = x + 1;
    }
    proof {
        let done = room_layer_upto(room, i as int, n as int, x as int, -r as int);
        assert(done =~= room_layer(room, i as int, n as int));
    }
}

/// Lays the tiles of every bridge over the table.
fn lay_bridges(table: &mut HashMap<(i32, i32), Tile>, bridges: &Vec<Bridge>)
    requires
        forall|i: int| 0 <= i < bridges@.len() ==> bridge_fits(#[trigger] bridges@[i]),
        keys_bounded(table_contents(*old(table))),
    ensures
        table_contents(*final(table)) == table_contents(*old(table)).union_prefer_right(
            bridges_layer(bridges@),
        ),
        keys_bounded(table_contents(*final(table))),
{
    let ghost base = table_contents(*table);
    let ghost bs = bridges@;
    let mut bi: usize = 0;
    while bi < bridges.len()
        invariant
            bs == bridges@,
            forall|i: int| 0 <= i < bs.len() ==> bridge_fits(#[trigger] bs[i]),
            bi <= bs.len(),
            table_contents(*table) == base.union_prefer_right(
                bridges_layer_upto(bs, bi as int, 0),
            ),
            keys_bounded(table_contents(*table)),
        decreases bs.len() - bi,
    {
        let bridge = &bridges[bi];
        let mut pj: usize = 0;
        proof {
            assert(bridges_layer_upto(bs, bi as int, 0) =~= bridges_layer_upto(bs, bi as int, pj as int));
        }
        while pj < bridge.pos.len()
            invariant
                bs == bridges@,
                forall|i: int| 0 <= i < bs.len() ==> bridge_fits(#[trigger] bs[i]),
                bi < bs.len(),
                *bridge == bs[bi as int],
                pj <= bridge.pos@.len(),
                table_contents(*table) == base.union_prefer_right(
                    bridges_layer_upto(bs, bi as int, pj as int),
                ),
                keys_bounded(table_contents(*table)),
            decreases bridge.pos@.len() - pj,
        {
            let pos = bridge.pos[pj];
            proof {
                assert(bridge_fits(bs[bi as int]));
                assert(pos_fits(bridge.pos@[pj as int]));
                lemma_world_key(pos);
            }
            let key: (i32, i32) = (pos.0 * TILE_SIZE, pos.1 * TILE_SIZE);
            let tile = Tile {
                pos,
                walkable: true,
                is_center: false,
                empty_neighbors: Vec::new(),
                variant: TileVariant::Accented,
                spawnable: false,
                firt_room: false,
                last_room: false,
            };
            table_insert(table, key, tile);
            proof {
                assert(key == world_key(bridge.pos@[pj as int]));
                assert(tile@ == bridge_tile(key));
                let next = bridges_layer_upto(bs, bi as int, pj + 1);
                let prev = bridges_layer_upto(bs, bi as int, pj as int);
                assert(bridge_has_key_upto(bs[bi as int], pj + 1, key));
                assert forall|k: (i32, i32)| k != key implies (#[trigger] next.dom().contains(k)
                    == prev.dom().contains(k)) by {
                    if bridge_has_key_upto(bs[bi as int], pj + 1, k) {
                        let j = choose|j: int|
                            0 <= j < pj + 1 && j < bs[bi as int].pos@.len() && #[trigger] world_key(
                                bs[bi as int].pos@[j],
                            ) == k;
                        assert(j != pj);
                        assert(bridge_has_key_upto(bs[bi as int], pj as int, k));
                    }
                }
                assert(table_contents(*table) =~= base.union_prefer_right(next));
            }
            pj = pj + 1;
        }
        proof {
            let next = bridges_layer_upto(bs, bi + 1, 0);
            let prev = bridges_layer_upto(bs, bi as int, pj as int);
            assert forall|k: (i32, i32)| #[trigger] next.dom().contains(k) == prev.dom().contains(k) by {
                if bridges_have_key_upto(bs, bi + 1, 0, k) {
                    if !bridges_have_key_upto(bs, bi as int, pj as int, k) {
                        let i = choose|i: int|
                            0 <= i < bi + 1 && i < bs.len() && bridge_has_key_upto(
                                #[trigger] bs[i],
                                bs[i].pos@.len() as int,
                                k,
                            );
                        assert(i == bi);
                    }
                }
                if bridges_have_key_upto(bs, bi as int, pj as int, k) {
                    if bridge_has_key_upto(bs[bi as int], pj as int, k) {
                        assert(bridge_has_key_upto(bs[bi as int], bs[bi as int].pos@.len() as int, k));
                    }
                }
            }
            assert(next =~= prev);
        }
        bi = bi + 1;
    }
}

/// The sides of the tile under `key` on which the table holds no tile, in list order.
fn open_sides_of(table: &HashMap<(i32, i32), Tile>, key: (i32, i32)) -> (sides: Vec<Direction>)
    requires
        key_bounded(key),
    ensures
        sides@ == open_sides(key, table_contents(*table).dom()),
{
    let ghost keys = table_contents(*table).dom();
    let dirs = Direction::values();
    let mut sides: Vec<Direction> = Vec::new();
    let mut di: usize = 0;
    while di < 4
        invariant
            keys == table_contents(*table).dom(),
            key_bounded(key),
            dirs@ == all_directions(),
            di <= 4,
            sides@ == all_directions().take(di as int).filter(side_is_open(key, keys)),
        decreases 4 - di,
    {
        let d = dirs[di];
        let off = d.offset();
        let neighbor: (i32, i32) = (key.0 + off.0, key.1 + off.1);
        proof {
            assert(neighbor == neighbor_key(key, d));
            assert(all_directions().take(di + 1) =~= all_directions().take(di as int).push(d));
            all_directions().take(di as int).lemma_filter_push(d, side_is_open(key, keys));
        }
        if !table_contains(table, &neighbor) {
            sides.push(d);
        }
        di = di + 1;
    }
    proof {
        assert(all_directions().take(4) =~= all_directions());
    }
    sides
}

/// Gives every tile of the table its open sides, and takes away the spawn
/// place of tiles that have some, or that are room centres.
fn finish_tiles(table: &mut HashMap<(i32, i32), Tile>)
    requires
        keys_bounded(table_contents(*old(table))),
    ensures
        table_contents(*final(table)) == Map::new(
            |k: (i32, i32)| table_contents(*old(table)).dom().contains(k),
            |k: (i32, i32)|
                finish_tile(
                    table_contents(*old(table))[k],
                    k,
                    table_contents(*old(table)).dom(),
                ),
        ),
{
    let ghost laid = table_contents(*table);
    let keys = table_keys(table);
    let mut idx: usize = 0;
    while idx < keys.len()
        invariant
            keys@.to_set() == laid.dom(),
            keys@.no_duplicates(),
            keys_bounded(laid),
            idx <= keys@.len(),
            table_contents(*table).dom() == laid.dom(),
            forall|k: (i32, i32)|
                #[trigger] laid.dom().contains(k) ==> table_contents(*table)[k] == (if keys@.take(
                    idx as int,
                ).contains(k) {
                    finish_tile(laid[k], k, laid.dom())
                } else {
                    laid[k]
                }),
        decreases keys@.len() - idx,
    {
        let key = keys[idx];
        proof {
            assert(keys@.contains(key));
            assert(laid.dom().contains(key));
            assert(!keys@.take(idx as int).contains(key));
        }
        let sides = open_sides_of(table, key);
        let found = table_get(table, &key);
        let new_tile = match found {
            Some(t) => {
                let spawnable = if sides.len() > 0 || t.is_center {
                    false
                } else {
                    t.spawnable
                };
                Tile {
                    pos: t.pos,
                    walkable: t.walkable,
                    is_center: t.is_center,
                    empty_neighbors: sides,
                    variant: t.variant,
                    spawnable,
                    firt_room: t.firt_room,
                    last_room: t.last_room,
                }
            },
            None => {
                proof {
                    assert(false);
                }
                return;
            },
        };
        proof {
            assert(new_tile@ == finish_tile(laid[key], key, laid.dom()));
        }
        let ghost before = table_contents(*table);
        table_insert(table, key, new_tile);
        proof {
            assert(keys@.take(idx + 1) =~= keys@.take(idx as int).push(key));
            assert forall|k: (i32, i32)| #[trigger] laid.dom().contains(k) implies table_contents(
                *table,
            )[k] == (if keys@.take(idx + 1).contains(k) {
                finish_tile(laid[k], k, laid.dom())
            } else {
                laid[k]
            }) by {
                if k != key {
                    assert(keys@.take(idx + 1).contains(k) == keys@.take(idx as int).contains(k));
                } else {
                    assert(keys@.take(idx + 1)[idx as int] == key);
                }
            }
            assert(table_contents(*table).dom() =~= laid.dom());
        }
        idx = idx + 1;
    }
    proof {
        assert(keys@.take(idx as int) =~= keys@);
        assert(table_contents(*table) =~= Map::new(
            |k: (i32, i32)| laid.dom().contains(k),
            |k: (i32, i32)| finish_tile(laid[k], k, laid.dom()),
        ));
    }
}

impl FloorMap {
    /// Lays out the tiles of the blueprint, keyed by world position (grid
    /// position times `TILE_SIZE`): rooms first to last, each room a square of
    /// its radius without the four corners, then the bridges over them; then
    /// every tile records its open sides, and only tiles without any that are
    /// no room centre stay spawn places.
    pub fn generate_tiles(&self) -> (tiles: HashMap<(i32, i32), Tile>)
        requires
            blueprint_fits(self.rooms@, self.bridges@),
        ensures
            table_contents(tiles) == floor_tiles(self.rooms@, self.bridges@),
    {
        let mut tiles = table_new();
        let n = self.rooms.len();
        let mut i: usize = 0;
        while i < n
            invariant
                n == self.rooms@.len(),
                blueprint_fits(self.rooms@, self.bridges@),
                i <= n,
                table_contents(tiles) == rooms_table(self.rooms@, i as int),
                keys_bounded(table_contents(tiles)),
            decreases n - i,
        {
            proof {
                assert(room_fits(self.rooms@[i as int]));
            }
            lay_room(&mut tiles, self.rooms[i], i, n);
            i = i + 1;
        }
        lay_bridges(&mut tiles, &self.bridges);
        let ghost laid = table_contents(tiles);
        assert(laid == laid_tiles(self.rooms@, self.bridges@));
        finish_tiles(&mut tiles);
        tiles
    }
}

/// Every key laid by the first `upto` rooms lies on the grid, and the rooms
/// cover exactly the keys of their cells.
pub proof fn lemma_rooms_table_keys(rooms: Seq<Room>, upto: int, k: (i32, i32))
    requires
        upto <= rooms.len(),
    ensures
        rooms_table(rooms, upto).dom().contains(k) <==> exists|i: int|
            0 <= i < upto && i < rooms.len() && room_has_key(#[trigger] rooms[i], k),
    decreases upto,
{
    if upto > 0 {
        lemma_rooms_table_keys(rooms, upto - 1, k);
        if rooms_table(rooms, upto).dom().contains(k) && !room_has_key(rooms[upto - 1], k) {
            let i = choose|i: int|
                0 <= i < upto - 1 && i < rooms.len() && room_has_key(#[trigger] rooms[i], k);
            assert(0 <= i < upto);
        }
        if room_has_key(rooms[upto - 1], k) {
            assert(room_has_key(rooms[upto - 1], k) && 0 <= upto - 1 < upto);
        }
        if exists|i: int| 0 <= i < upto && i < rooms.len() && room_has_key(#[trigger] rooms[i], k) {
            let i = choose|i: int| 0 <= i < upto && i < rooms.len() && room_has_key(#[trigger] rooms[i], k);
            if i < upto - 1 {
                assert(rooms_table(rooms, upto - 1).dom().contains(k));
            }
        }
    }
}

/// Every key of the laid tiles lies on the grid within the bounds of an `i32`.
pub proof fn lemma_laid_keys_on_grid(rooms: Seq<Room>, bridges: Seq<Bridge>, k: (i32, i32))
    requires
        blueprint_fits(rooms, bridges),
        laid_tiles(rooms, bridges).dom().contains(k),
    ensures
        on_grid(k),
{
    lemma_rooms_table_keys(rooms, rooms.len() as int, k);
    if !rooms_table(rooms, rooms.len() as int).dom().contains(k) {
        if exists|i: int|
            0 <= i < bridges.len() && bridge_has_key_upto(
                #[trigger] bridges[i],
                bridges[i].pos@.len() as int,
                k,
            ) {
            let i = choose|i: int|
                0 <= i < bridges.len() && bridge_has_key_upto(
                    #[trigger] bridges[i],
                    bridges[i].pos@.len() as int,
                    k,
                );
            let j = choose|j: int|
                0 <= j < bridges[i].pos@.len() && #[trigger] world_key(bridges[i].pos@[j]) == k;
            assert(bridge_fits(bridges[i]));
            assert(pos_fits(bridges[i].pos@[j]));
            lemma_world_key(bridges[i].pos@[j]);
        }
    }
}

/// The four directions, filtered by a test they all pass, stay as they are.
proof fn lemma_all_sides_open(k: (i32, i32), keys: Set<(i32, i32)>)
    requires
        forall|d: Direction| !keys.contains(#[trigger] neighbor_key(k, d)),
    ensures
        open_sides(k, keys) == all_directions(),
{
    reveal_with_fuel(Seq::filter, 5);
    let s = all_directions();
    assert(s.drop_last() =~= seq![Direction::NORTH, Direction::SOUTH, Direction::WEST]);
    assert(s.drop_last().drop_last() =~= seq![Direction::NORTH, Direction::SOUTH]);
    assert(s.drop_last().drop_last().drop_last() =~= seq![Direction::NORTH]);
    assert(s.drop_last().drop_last().drop_last().drop_last() =~= Seq::<Direction>::empty());
    assert(open_sides(k, keys) =~= all_directions());
}

/// The shape of every generated tile: its key is the world key of its grid
/// position and it is walkable. Because tile keys lie `TILE_SIZE` apart while
/// the neighbour test looks one unit away, every tile reports all four sides
/// open, and so no generated tile is a spawn place.
pub proof fn lemma_floor_tile_shape(rooms: Seq<Room>, bridges: Seq<Bridge>, k: (i32, i32))
    requires
        blueprint_fits(rooms, bridges),
        floor_tiles(rooms, bridges).dom().contains(k),
    ensures
        world_key(floor_tiles(rooms, bridges)[k].pos) == k,
        floor_tiles(rooms, bridges)[k].walkable,
        floor_tiles(rooms, bridges)[k].empty_neighbors == all_directions(),
        !floor_tiles(rooms, bridges)[k].spawnable,
{
    let laid = laid_tiles(rooms, bridges);
    lemma_laid_keys_on_grid(rooms, bridges, k);
    lemma_key_cell(k);
    lemma_rooms_table_keys(rooms, rooms.len() as int, k);
    assert forall|d: Direction| !laid.dom().contains(#[trigger] neighbor_key(k, d)) by {
        let nk = neighbor_key(k, d);
        if laid.dom().contains(nk) {
            lemma_laid_keys_on_grid(rooms, bridges, nk);
            assert(false);
        }
    }
    lemma_all_sides_open(k, laid.dom());
    if rooms_table(rooms, rooms.len() as int).dom().contains(k) {
        lemma_rooms_table_values(rooms, rooms.len() as int, k);
    }
}

/// A tile laid by the rooms is walkable and a spawn place before finishing.
proof fn lemma_rooms_table_values(rooms: Seq<Room>, upto: int, k: (i32, i32))
    requires
        rooms_table(rooms, upto).dom().contains(k),
    ensures
        rooms_table(rooms, upto)[k].walkable,
        rooms_table(rooms, upto)[k].pos == (key_cell(k).0 as i32, key_cell(k).1 as i32),
    decreases upto,
{
    if upto > 0 && !room_layer(rooms[upto - 1], upto - 1, rooms.len() as int).dom().contains(k) {
        lemma_rooms_table_values(rooms, upto - 1, k);
    }
}

/// Every cell of every room gets a tile, and so does every bridge position;
/// where a bridge crosses a room, the bridge's accented tile is the one kept.
pub proof fn lemma_floor_covers_blueprint(rooms: Seq<Room>, bridges: Seq<Bridge>)
    requires
        blueprint_fits(rooms, bridges),
    ensures
        forall|i: int, dx: int, dy: int|
            0 <= i < rooms.len() && in_room_square(rooms[i].radius as int, dx, dy) ==> floor_tiles(
                rooms,
                bridges,
            ).dom().contains(
                #[trigger] world_key(((rooms[i].pos.0 + dx) as i32, (rooms[i].pos.1 + dy) as i32)),
            ),
        forall|i: int, j: int|
            0 <= i < bridges.len() && 0 <= j < bridges[i].pos@.len() ==> {
                let k = #[trigger] world_key(bridges[i].pos@[j]);
                &&& floor_tiles(rooms, bridges).dom().contains(k)
                &&& floor_tiles(rooms, bridges)[k].variant == TileVariant::Accented
                &&& !floor_tiles(rooms, bridges)[k].is_center
            },
{
    assert forall|i: int, dx: int, dy: int|
        0 <= i < rooms.len() && in_room_square(rooms[i].radius as int, dx, dy) implies floor_tiles(
        rooms,
        bridges,
    ).dom().contains(
        #[trigger] world_key(((rooms[i].pos.0 + dx) as i32, (rooms[i].pos.1 + dy) as i32)),
    ) by {
        let room = rooms[i];
        assert(room_fits(room));
        let p = ((room.pos.0 + dx) as i32, (room.pos.1 + dy) as i32);
        lemma_world_key(p);
        let k = world_key(p);
        assert(room_has_key(room, k));
        lemma_rooms_table_keys(rooms, rooms.len() as int, k);
    }
    assert forall|i: int, j: int|
        0 <= i < bridges.len() && 0 <= j < bridges[i].pos@.len() implies {
        let k = #[trigger] world_key(bridges[i].pos@[j]);
        &&& floor_tiles(rooms, bridges).dom().contains(k)
        &&& floor_tiles(rooms, bridges)[k].variant == TileVariant::Accented
        &&& !floor_tiles(rooms, bridges)[k].is_center
    } by {
        let k = world_key(bridges[i].pos@[j]);
        assert(bridge_has_key_upto(bridges[i], bridges[i].pos@.len() as int, k));
        assert(bridges_have_key_upto(bridges, bridges.len() as int, 0, k));
    }
}

/// The cell `c` lies in `room`: within `radius` of its centre on both axes,
/// and not on one of the four corners of that square.
pub open spec fn covers_cell(room: Room, c: (int, int)) -> bool {
    let r = room.radius as int;
    let dx = c.0 - room.pos.0;
    let dy = c.1 - room.pos.1;
    &&& -r <= dx <= r
    &&& -r <= dy <= r
    &&& !((dx == r || dx == -r) && (dy == r || dy == -r))
}

/// Some position of some bridge has world key `k`.
pub open spec fn on_bridge(bridges: Seq<Bridge>, k: (i32, i32)) -> bool {
    exists|i: int, j: int|
        0 <= i < bridges.len() && 0 <= j < bridges[i].pos@.len() && #[trigger] world_key(
            bridges[i].pos@[j],
        ) == k
}

proof fn lemma_room_key_is_cell(room: Room, k: (i32, i32))
    requires
        on_grid(k),
    ensures
        room_has_key(room, k) <==> covers_cell(room, key_cell(k)),
{
}

/// Which room's tile lies under a key laid by the first `upto` rooms: the
/// last of them that holds the key.
proof fn lemma_rooms_table_owner(rooms: Seq<Room>, upto: int, k: (i32, i32)) -> (i: int)
    requires
        0 <= upto <= rooms.len(),
        rooms_table(rooms, upto).dom().contains(k),
    ensures
        0 <= i < upto,
        room_has_key(rooms[i], k),
        forall|j: int| i < j < upto ==> !room_has_key(#[trigger] rooms[j], k),
        rooms_table(rooms, upto)[k] == room_tile(rooms[i], i, rooms.len() as int, k),
    decreases upto,
{
    if room_has_key(rooms[upto - 1], k) {
        upto - 1
    } else {
        lemma_rooms_table_owner(rooms, upto - 1, k)
    }
}

/// Every cell of every room gets a tile: for a room of radius `r` centred on
/// `pos`, each cell `pos + (dx, dy)` with `|dx| <= r` and `|dy| <= r` has a
/// tile under its world key, except the four corners where both `|dx|` and
/// `|dy|` equal `r`.
pub proof fn lemma_room_cells_laid(rooms: Seq<Room>, bridges: Seq<Bridge>)
    requires
        blueprint_fits(rooms, bridges),
    ensures
        forall|i: int, dx: int, dy: int|
            0 <= i < rooms.len() && -rooms[i].radius <= dx <= rooms[i].radius && -rooms[i].radius <= dy
                <= rooms[i].radius && !((dx == rooms[i].radius || dx == -rooms[i].radius) && (dy
                == rooms[i].radius || dy == -rooms[i].radius)) ==> floor_tiles(rooms, bridges).dom().contains(
                #[trigger] world_key(((rooms[i].pos.0 + dx) as i32, (rooms[i].pos.1 + dy) as i32)),
            ),
{
    lemma_floor_covers_blueprint(rooms, bridges);
    assert forall|i: int, dx: int, dy: int|
        0 <= i < rooms.len() && -rooms[i].radius <= dx <= rooms[i].radius && -rooms[i].radius <= dy
            <= rooms[i].radius && !((dx == rooms[i].radius || dx == -rooms[i].radius) && (dy
            == rooms[i].radius || dy == -rooms[i].radius)) implies floor_tiles(rooms, bridges).dom().contains(
        #[trigger] world_key(((rooms[i].pos.0 + dx) as i32, (rooms[i].pos.1 + dy) as i32)),
    ) by {
        assert(in_room_square(rooms[i].radius as int, dx, dy));
    }
}

/// A floor has tiles only on the cells of its rooms and under its bridges.
pub proof fn lemma_tiles_only_on_blueprint(rooms: Seq<Room>, bridges: Seq<Bridge>, k: (i32, i32))
    requires
        blueprint_fits(rooms, bridges),
        floor_tiles(rooms, bridges).dom().contains(k),
    ensures
        k == ((key_cell(k).0 * 10) as i32, (key_cell(k).1 * 10) as i32),
        (exists|i: int| 0 <= i < rooms.len() && covers_cell(#[trigger] rooms[i], key_cell(k)))
            || on_bridge(bridges, k),
{
    lemma_laid_keys_on_grid(rooms, bridges, k);
    lemma_key_cell(k);
    lemma_rooms_table_keys(rooms, rooms.len() as int, k);
    if rooms_table(rooms, rooms.len() as int).dom().contains(k) {
        let i = choose|i: int| 0 <= i < rooms.len() && room_has_key(#[trigger] rooms[i], k);
        lemma_room_key_is_cell(rooms[i], k);
    } else {
        assert(bridges_have_key_upto(bridges, bridges.len() as int, 0, k));
        let i = choose|i: int|
            0 <= i < bridges.len() && bridge_has_key_upto(#[trigger] bridges[i], bridges[i].pos@.len() as int, k);
        let j = choose|j: int|
            0 <= j < bridges[i].pos@.len() && #[trigger] world_key(bridges[i].pos@[j]) == k;
        assert(on_bridge(bridges, k));
    }
}

/// The room flags of a laid tile: it is marked as the last room's exactly when
/// the last room covers its cell and no bridge lies over it, and as the first
/// room's exactly when the first room covers it, no later room covers it and
/// no bridge lies over it. A tile is accented exactly when a bridge lies over
/// it, and is a room centre exactly when no bridge lies over it and the last
/// room covering its cell is centred on it. A room centre marked as the last room's is the
/// centre of the last room, under that centre's world key: it is where the
/// portal stands.
pub proof fn lemma_room_flags(rooms: Seq<Room>, bridges: Seq<Bridge>, k: (i32, i32))
    requires
        blueprint_fits(rooms, bridges),
        floor_tiles(rooms, bridges).dom().contains(k),
    ensures
        floor_tiles(rooms, bridges)[k].last_room <==> (rooms.len() > 0 && covers_cell(
            rooms[rooms.len() - 1],
            key_cell(k),
        ) && !on_bridge(bridges, k)),
        floor_tiles(rooms, bridges)[k].firt_room <==> (rooms.len() > 0 && covers_cell(rooms[0], key_cell(k))
            && (forall|i: int| 0 < i < rooms.len() ==> !covers_cell(#[trigger] rooms[i], key_cell(k)))
            && !on_bridge(bridges, k)),
        (floor_tiles(rooms, bridges)[k].variant == TileVariant::Accented) <==> on_bridge(bridges, k),
        floor_tiles(rooms, bridges)[k].is_center <==> (!on_bridge(bridges, k) && exists|i: int|
            0 <= i < rooms.len() && covers_cell(#[trigger] rooms[i], key_cell(k)) && rooms[i].pos.0
                == key_cell(k).0 && rooms[i].pos.1 == key_cell(k).1 && forall|j: int|
                i < j < rooms.len() ==> !covers_cell(#[trigger] rooms[j], key_cell(k))),
        floor_tiles(rooms, bridges)[k].is_center && floor_tiles(rooms, bridges)[k].last_room ==> {
            &&& floor_tiles(rooms, bridges)[k].pos == rooms[rooms.len() - 1].pos
            &&& k == world_key(rooms[rooms.len() - 1].pos)
        },
{
    let n = rooms.len() as int;
    let laid = laid_tiles(rooms, bridges);
    let t = floor_tiles(rooms, bridges)[k];
    lemma_laid_keys_on_grid(rooms, bridges, k);
    lemma_key_cell(k);
    if on_bridge(bridges, k) {
        let (i, j) = choose|i: int, j: int|
            0 <= i < bridges.len() && 0 <= j < bridges[i].pos@.len() && #[trigger] world_key(
                bridges[i].pos@[j],
            ) == k;
        assert(bridge_has_key_upto(bridges[i], bridges[i].pos@.len() as int, k));
        assert(bridges_have_key_upto(bridges, bridges.len() as int, 0, k));
        assert(laid[k] == bridge_tile(k));
    } else {
        if bridges_have_key_upto(bridges, bridges.len() as int, 0, k) {
            let i = choose|i: int|
                0 <= i < bridges.len() && bridge_has_key_upto(#[trigger] bridges[i], bridges[i].pos@.len() as int, k);
            let j = choose|j: int|
                0 <= j < bridges[i].pos@.len() && #[trigger] world_key(bridges[i].pos@[j]) == k;
            assert(on_bridge(bridges, k));
        }
        assert(!bridges_layer(bridges).dom().contains(k));
        assert(rooms_table(rooms, n).dom().contains(k));
        let o = lemma_rooms_table_owner(rooms, n, k);
        assert(laid[k] == room_tile(rooms[o], o, n, k));
        assert(t.last_room == (o == n - 1));
        assert(t.firt_room == (o == 0));
        lemma_room_key_is_cell(rooms[o], k);
        lemma_room_key_is_cell(rooms[n - 1], k);
        lemma_room_key_is_cell(rooms[0], k);
        assert(t.firt_room ==> forall|i: int| 0 < i < n ==> !covers_cell(#[trigger] rooms[i], key_cell(k))) by {
            assert forall|i: int| 0 < i < n && o == 0 implies !covers_cell(#[trigger] rooms[i], key_cell(k)) by {
                lemma_room_key_is_cell(rooms[i], k);
            }
        }
        if covers_cell(rooms[0], key_cell(k)) && (forall|i: int| 0 < i < n ==> !covers_cell(#[trigger] rooms[i], key_cell(k))) {
            if o > 0 {
                lemma_room_key_is_cell(rooms[o], k);
                assert(!covers_cell(rooms[o], key_cell(k)));
            }
        }
        assert forall|j: int| o < j < n implies !covers_cell(#[trigger] rooms[j], key_cell(k)) by {
            lemma_room_key_is_cell(rooms[j], k);
        }
        if exists|i: int|
            0 <= i < n && covers_cell(#[trigger] rooms[i], key_cell(k)) && rooms[i].pos.0 == key_cell(k).0
                && rooms[i].pos.1 == key_cell(k).1 && forall|j: int| i < j < n ==> !covers_cell(#[trigger] rooms[j], key_cell(k)) {
            let i = choose|i: int|
                0 <= i < n && covers_cell(#[trigger] rooms[i], key_cell(k)) && rooms[i].pos.0 == key_cell(k).0
                    && rooms[i].pos.1 == key_cell(k).1 && forall|j: int| i < j < n ==> !covers_cell(#[trigger] rooms[j], key_cell(k));
            lemma_room_key_is_cell(rooms[i], k);
            if i < o {
                assert(!covers_cell(rooms[o], key_cell(k)));
            }
            if o < i {
                assert(!room_has_key(rooms[i], k));
            }
        }
        if t.is_center && t.last_room {
            let p = rooms[n - 1].pos;
            assert(key_cell(k) == (p.0 as int, p.1 as int));
            assert(k.0 == p.0 * 10);
            assert(k.1 == p.1 * 10);
        }
    }
}

} // verus!
