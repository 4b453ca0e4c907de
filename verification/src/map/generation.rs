use vstd::prelude::*;
use bevy::platform::collections::HashMap;
use crate::map::map::{blueprint_fits, floor_tiles, FloorMap, Tile, TileView, TILE_SIZE};
use crate::map::table::{table_contents, table_get, table_keys};
use crate::state::State;

verus! {

/// The floor being played: its blueprint and the tiles laid out from it.
pub struct MapResource {
    pub blueprint: FloorMap,
    pub tiles: HashMap<(i32, i32), Tile>,
}

impl MapResource {
    /// Lays out the tiles of `blueprint` and keeps both.
    pub fn new(blueprint: FloorMap) -> (r: Self)
        requires
            blueprint_fits(blueprint.rooms@, blueprint.bridges@),
        ensures
            r.blueprint.rooms@ == blueprint.rooms@,
            r.blueprint.bridges@ == blueprint.bridges@,
            table_contents(r.tiles) == floor_tiles(blueprint.rooms@, blueprint.bridges@),
    {
        let tiles = blueprint.generate_tiles();
        MapResource { tiles, blueprint }
    }

    /// The tile stored under the world position `pos`, if any.
    pub fn get_tile(&self, pos: (i32, i32)) -> (r: Option<&Tile>)
        ensures
            r is Some <==> table_contents(self.tiles).dom().contains(pos),
            r is Some ==> r->0@ == table_contents(self.tiles)[pos],
    {
        table_get(&self.tiles, &pos)
    }

    /// Whether a walkable tile lies under `pos`; there is no ground outside the tiles.
    pub fn walkable_at(&self, pos: (i32, i32)) -> (r: bool)
        ensures
            r == (table_contents(self.tiles).dom().contains(pos) && table_contents(
                self.tiles,
            )[pos].walkable),
    {
        match self.get_tile(pos) {
            Some(tile) => tile.walkable,
            None => false,
        }
    }

    /// Whether `pos` is the centre of the last room, where the portal to the
    /// next floor stands.
    pub fn is_portal_at(&self, pos: (i32, i32)) -> (r: bool)
        ensures
            r == (table_contents(self.tiles).dom().contains(pos) && table_contents(
                self.tiles,
            )[pos].last_room && table_contents(self.tiles)[pos].is_center),
    {
        match self.get_tile(pos) {
            Some(tile) => tile.last_room && tile.is_center,
            None => false,
        }
    }
}

/// Which coordinates of a requested step the character may take: none unless
/// it is walking (or has no state at all); both when the target tile is
/// walkable; otherwise each axis on its own, when the tile reached by moving
/// along that axis alone is walkable (so that it slides along walls).
pub fn step_permission(state: Option<State>, target_walkable: bool, x_walkable: bool, y_walkable: bool) -> (r: (bool, bool))
    ensures
        !(state is None || state == Some(State::Walking)) ==> r == (false, false),
        (state is None || state == Some(State::Walking)) && target_walkable ==> r == (true, true),
        (state is None || state == Some(State::Walking)) && !target_walkable ==> r == (x_walkable, y_walkable),
{
    let walking = match state {
        None => true,
        Some(s) => s.equals(State::Walking),
    };
    if !walking {
        (false, false)
    } else if target_walkable {
        (true, true)
    } else {
        (x_walkable, y_walkable)
    }
}

/// The world position (in `i64`, so that it never overflows) of a grid position.
pub open spec fn world_pos(p: (i32, i32)) -> (i64, i64) {
    ((p.0 * 10) as i64, (p.1 * 10) as i64)
}

/// Where things go on a freshly laid floor (world positions).
pub struct FloorLandmarks {
    /// The positions of the spawn places, one per spawnable tile.
    pub spawnable_pos: Vec<(i64, i64)>,
    /// The centre of the first room, where the player starts; the origin if none.
    pub player_pos: (i64, i64),
    /// The centre of the last room, where the portal stands; the origin if none.
    pub portal_pos: (i64, i64),
}

/// `pos` lists the spawn places of the table, one entry per spawnable tile:
/// `keys` are the keys of those tiles, each once, and entry `a` is the world
/// position of the tile under `keys[a]`.
pub open spec fn lists_spawn_places(
    m: Map<(i32, i32), TileView>,
    keys: Seq<(i32, i32)>,
    pos: Seq<(i64, i64)>,
) -> bool {
    &&& keys.len() == pos.len()
    &&& keys.no_duplicates()
    &&& forall|a: int|
        0 <= a < keys.len() ==> m.dom().contains(#[trigger] keys[a]) && m[keys[a]].spawnable && pos[a]
            == world_pos(m[keys[a]].pos)
    &&& forall|k: (i32, i32)| #[trigger] m.dom().contains(k) && m[k].spawnable ==> keys.contains(k)
}

/// The tile under `k` is the centre of the first room.
pub open spec fn is_start_tile(t: TileView) -> bool {
    t.is_center && t.firt_room
}

/// The tile under `k` is the centre of the last room, and not also of the first.
pub open spec fn is_portal_tile(t: TileView) -> bool {
    t.is_center && !t.firt_room && t.last_room
}

impl MapResource {
    /// Walks the tiles of the floor (in the table's order) and collects the
    /// spawn places, the start position and the portal position.
    pub fn landmarks(&self) -> (r: FloorLandmarks)
        ensures
            exists|keys: Seq<(i32, i32)>|
                lists_spawn_places(table_contents(self.tiles), keys, r.spawnable_pos@),
            (exists|k: (i32, i32)|
                #[trigger] table_contents(self.tiles).dom().contains(k) && table_contents(self.tiles)[k].is_center
                    && table_contents(self.tiles)[k].firt_room) ==> (exists|k: (i32, i32)|
                #[trigger] table_contents(self.tiles).dom().contains(k) && table_contents(self.tiles)[k].is_center
                    && table_contents(self.tiles)[k].firt_room && r.player_pos == world_pos(table_contents(self.tiles)[k].pos)),
            !(exists|k: (i32, i32)|
                #[trigger] table_contents(self.tiles).dom().contains(k) && table_contents(self.tiles)[k].is_center
                    && table_contents(self.tiles)[k].firt_room) ==> r.player_pos == (0i64, 0i64),
            (exists|k: (i32, i32)|
                #[trigger] table_contents(self.tiles).dom().contains(k) && table_contents(self.tiles)[k].is_center
                    && !table_contents(self.tiles)[k].firt_room && table_contents(self.tiles)[k].last_room) ==> (exists|k: (i32, i32)|
                #[trigger] table_contents(self.tiles).dom().contains(k) && table_contents(self.tiles)[k].is_center
                    && !table_contents(self.tiles)[k].firt_room && table_contents(self.tiles)[k].last_room && r.portal_pos == world_pos(
                    table_contents(self.tiles)[k].pos,
                )),
            !(exists|k: (i32, i32)|
                #[trigger] table_contents(self.tiles).dom().contains(k) && table_contents(self.tiles)[k].is_center
                    && !table_contents(self.tiles)[k].firt_room && table_contents(self.tiles)[k].last_room) ==> r.portal_pos == (0i64, 0i64),
    {
        let ghost m = table_contents(self.tiles);
        let keys = table_keys(&self.tiles);
        let mut spawnable_pos: Vec<(i64, i64)> = Vec::new();
        let mut player_pos: (i64, i64) = (0, 0);
        let mut portal_pos: (i64, i64) = (0, 0);
        let ghost mut spawn_keys: Seq<(i32, i32)> = Seq::empty();
        let ghost mut player_key: Option<(i32, i32)> = None;
        let ghost mut portal_key: Option<(i32, i32)> = None;
        let mut idx: usize = 0;
        while idx < keys.len()
            invariant
                m == table_contents(self.tiles),
                keys@.to_set() == m.dom(),
                keys@.no_duplicates(),
                idx <= keys@.len(),
                spawn_keys.len() == spawnable_pos@.len(),
                spawn_keys.no_duplicates(),
                forall|a: int|
                    0 <= a < spawn_keys.len() ==> m.dom().contains(#[trigger] spawn_keys[a])
                        && m[spawn_keys[a]].spawnable && spawnable_pos@[a] == world_pos(
                        m[spawn_keys[a]].pos,
                    ),
                forall|a: int|
                    0 <= a < spawn_keys.len() ==> exists|b: int|
                        0 <= b < idx && keys@[b] == #[trigger] spawn_keys[a],
                forall|b: int|
                    0 <= b < idx && m[#[trigger] keys@[b]].spawnable ==> spawn_keys.contains(keys@[b]),
                match player_key {
                    Some(k) => m.dom().contains(k) && is_start_tile(m[k]) && player_pos == world_pos(
                        m[k].pos,
                    ),
                    None => player_pos == (0i64, 0i64) && forall|b: int|
                        0 <= b < idx ==> !is_start_tile(m[#[trigger] keys@[b]]),
                },
                match portal_key {
                    Some(k) => m.dom().contains(k) && is_portal_tile(m[k]) && portal_pos == world_pos(
                        m[k].pos,
                    ),
                    None => portal_pos == (0i64, 0i64) && forall|b: int|
                        0 <= b < idx ==> !is_portal_tile(m[#[trigger] keys@[b]]),
                },
            decreases keys@.len() - idx,
        {
            let key = keys[idx];
            proof {
                assert(keys@.contains(key));
            }
            match table_get(&self.tiles, &key) {
                Some(tile) => {
                    let pos: (i64, i64) = (tile.pos.0 as i64 * TILE_SIZE as i64, tile.pos.1 as i64 * TILE_SIZE as i64);
                    if tile.spawnable {
                        let ghost before = spawn_keys;
                        proof {
                            assert(!before.contains(key)) by {
                                if before.contains(key) {
                                    let a = choose|a: int| 0 <= a < before.len() && before[a] == key;
                                    let b = choose|b: int| 0 <= b < idx && keys@[b] == #[trigger] before[a];
                                    assert(keys@[b] == keys@[idx as int]);
                                }
                            }
                            spawn_keys = before.push(key);
                            assert forall|a: int| 0 <= a < spawn_keys.len() implies exists|b: int|
                                0 <= b < idx + 1 && keys@[b] == #[trigger] spawn_keys[a] by {
                                if a < before.len() {
                                    assert(spawn_keys[a] == before[a]);
                                    let b = choose|b: int| 0 <= b < idx && keys@[b] == #[trigger] before[a];
                                    assert(keys@[b] == spawn_keys[a]);
                                } else {
                                    assert(keys@[idx as int] == spawn_keys[a]);
                                }
                            }
                            assert forall|b: int|
                                0 <= b < idx + 1 && m[#[trigger] keys@[b]].spawnable implies spawn_keys.contains(
                                keys@[b],
                            ) by {
                                if b < idx {
                                    let a = choose|a: int| 0 <= a < before.len() && before[a] == keys@[b];
                                    assert(spawn_keys[a] == before[a]);
                                } else {
                                    assert(spawn_keys[before.len() as int] == key);
                                }
                            }
                        }
                        spawnable_pos.push(pos);
                    } else {
                        proof {
                            assert forall|a: int| 0 <= a < spawn_keys.len() implies exists|b: int|
                                0 <= b < idx + 1 && keys@[b] == #[trigger] spawn_keys[a] by {
                                let b = choose|b: int| 0 <= b < idx && keys@[b] == #[trigger] spawn_keys[a];
                                assert(keys@[b] == spawn_keys[a]);
                            }
                        }
                    }
                    if tile.is_center {
                        if tile.firt_room {
                            player_pos = pos;
                            proof {
                                player_key = Some(key);
                            }
                        } else if tile.last_room {
                            portal_pos = pos;
                            proof {
                                portal_key = Some(key);
                            }
                        }
                    }
                },
                None => {
                    proof {
                        assert(false);
                    }
                },
            }
            idx = idx + 1;
        }
        proof {
            assert forall|k: (i32, i32)| #[trigger] m.dom().contains(k) && m[k].spawnable implies spawn_keys.contains(k) by {
                assert(keys@.to_set().contains(k));
                let b = choose|b: int| 0 <= b < keys@.len() && keys@[b] == k;
                assert(m[keys@[b]].spawnable);
            }
            assert(lists_spawn_places(table_contents(self.tiles), spawn_keys, spawnable_pos@));
            if player_key is None {
                assert forall|k: (i32, i32)| #[trigger] m.dom().contains(k) implies !is_start_tile(m[k]) by {
                    assert(keys@.to_set().contains(k));
                    let b = choose|b: int| 0 <= b < keys@.len() && keys@[b] == k;
                    assert(!is_start_tile(m[keys@[b]]));
                }
            }
            if portal_key is None {
                assert forall|k: (i32, i32)| #[trigger] m.dom().contains(k) implies !is_portal_tile(m[k]) by {
                    assert(keys@.to_set().contains(k));
                    let b = choose|b: int| 0 <= b < keys@.len() && keys@[b] == k;
                    assert(!is_portal_tile(m[keys@[b]]));
                }
            }
        }
        let r = FloorLandmarks { spawnable_pos, player_pos, portal_pos };
        proof {
            assert(lists_spawn_places(table_contents(self.tiles), spawn_keys, r.spawnable_pos@));
        }
        r
    }
}

} // verus!
