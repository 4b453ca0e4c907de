//! The tile table of a floor: bevy's `HashMap` from world grid keys to tiles,
//! with the few operations the floor logic uses.

use vstd::prelude::*;
use bevy::platform::collections::HashMap;
use bevy::platform::hash::FixedHasher;
use crate::map::map::{Tile, TileView};

verus! {

#[verifier::external_type_specification]
#[verifier::external_body]
#[verifier::reject_recursive_types(K)]
#[verifier::reject_recursive_types(V)]
#[verifier::reject_recursive_types(S)]
pub struct ExHashMap<K, V, S>(HashMap<K, V, S>);

#[verifier::external_type_specification]
#[verifier::external_body]
pub struct ExFixedHasher(FixedHasher);

/// Tiles by world key.
pub type TileTable = HashMap<GridKey, Tile>;

/// A world position on the tile grid.
pub type GridKey = (i32, i32);

/// What a tile table holds: for every key in it, the tile stored there.
pub uninterp spec fn table_contents(table: TileTable) -> Map<GridKey, TileView>;

/// The table without any tile.
pub open spec fn no_tiles() -> Map<GridKey, TileView> {
    Map::empty()
}

/// `HashMap::new`: an empty table.
#[verifier::external_body]
pub(crate) fn table_new() -> (fresh: TileTable)
    ensures
        table_contents(fresh) == no_tiles(),
{
    HashMap::new()
}

/// `HashMap::insert`: afterwards `key` holds `tile`, whatever it held before;
/// every other key keeps its tile.
#[verifier::external_body]
pub(crate) fn table_insert(table: &mut TileTable, key: GridKey, tile: Tile)
    ensures
        table_contents(*final(table)) == table_contents(*old(table)).insert(key, tile@),
{
    table.insert(key, tile);
}

/// `HashMap::get`: the tile stored at `key`, if there is one.
#[verifier::external_body]
pub(crate) fn table_get<'a>(table: &'a TileTable, key: &GridKey) -> (r: Option<&'a Tile>)
    ensures
        r is Some <==> table_contents(*table).dom().contains(*key),
        r is Some ==> r->0@ == table_contents(*table)[*key],
{
    table.get(key)
}

/// `HashMap::contains_key`: whether some tile is stored at `key`.
#[verifier::external_body]
pub(crate) fn table_contains(table: &TileTable, key: &GridKey) -> (r: bool)
    ensures
        r == table_contents(*table).dom().contains(*key),
{
    table.contains_key(key)
}

/// `HashMap::keys`, collected: every key of the table exactly once, in the
/// table's own order.
#[verifier::external_body]
pub(crate) fn table_keys(table: &TileTable) -> (keys: Vec<GridKey>)
    ensures
        keys@.to_set() == table_contents(*table).dom(),
        keys@.no_duplicates(),
{
    table.keys().copied().collect()
}

} // verus!
