use vstd::prelude::*;
use crate::manifest::floor::{domain_holds_floor, DomainData, DomainView};
use crate::random::roll_u32;
use crate::spawn_places::{ascending_keys, key_seen, last_place_by_key, last_place_upto, place_of};
use turborand::rng::Rng;

verus! {

/// Asks for the layout of the next floor to be generated.
pub struct GenerateFloorMessage;

/// Every enemy of the floor has been killed.
pub struct FloorClearedMessage;

/// The player asked to go on to the next floor.
pub struct TriggerNextFloorMessage;

/// Progress through the dungeon: the current floor, the domain it belongs to,
/// and the enemies (and boss) alive on it, by entity id bits.
pub struct FloorResource {
    pub floor: u32,
    pub domain: Option<DomainData>,
    pub enemies: Vec<u64>,
    pub boss: Option<u64>,
}

impl Default for FloorResource {
    /// Before the first floor: floor zero, no domain, nobody alive.
    fn default() -> (r: Self)
        ensures
            r.floor == 0,
            r.domain is None,
            r.enemies@ == Seq::<u64>::empty(),
            r.boss is None,
    {
        FloorResource { floor: 0, domain: None, enemies: Vec::new(), boss: None }
    }
}

/// The domains, as plain values.
pub open spec fn domain_views(domains: Seq<DomainData>) -> Seq<DomainView> {
    domains.map_values(|d: DomainData| d@)
}

/// `i` is the first domain of the list whose floor range holds `floor`.
pub open spec fn is_first_domain_for(domains: Seq<DomainView>, floor: u32, i: int) -> bool {
    &&& 0 <= i < domains.len()
    &&& domain_holds_floor(domains[i], floor)
    &&& forall|j: int| 0 <= j < i ==> !domain_holds_floor(#[trigger] domains[j], floor)
}

/// Some domain of the list holds `floor`.
pub open spec fn some_domain_for(domains: Seq<DomainView>, floor: u32) -> bool {
    exists|i: int| 0 <= i < domains.len() && domain_holds_floor(#[trigger] domains[i], floor)
}

/// The position of the first domain whose floor range holds `floor`, if any.
pub fn find_domain(domains: &Vec<DomainData>, floor: u32) -> (r: Option<usize>)
    ensures
        match r {
            Some(i) => is_first_domain_for(domain_views(domains@), floor, i as int),
            None => !some_domain_for(domain_views(domains@), floor),
        },
{
    let ghost views = domain_views(domains@);
    let mut i: usize = 0;
    while i < domains.len()
        invariant
            i <= domains@.len(),
            views == domain_views(domains@),
            forall|j: int| 0 <= j < i ==> !domain_holds_floor(#[trigger] views[j], floor),
        decreases domains@.len() - i,
    {
        assert(views[i as int] == domains@[i as int]@);
        if domains[i].floors.0 <= floor && floor <= domains[i].floors.1 {
            return Some(i);
        }
        i = i + 1;
    }
    None
}

/// Entity ids with every occurrence of `killed` left out, order kept.
pub open spec fn without_entity(enemies: Seq<u64>, killed: u64) -> Seq<u64> {
    enemies.filter(other_than(killed))
}

/// Holds of every entity id but `killed`.
pub open spec fn other_than(killed: u64) -> spec_fn(u64) -> bool {
    |e: u64| e != killed
}

impl FloorResource {
    /// Goes down to the next floor and looks up the domain it belongs to: the
    /// first of `domains` whose floor range holds it. The floor must exist.
    pub fn next_floor(&mut self, domains: &Vec<DomainData>)
        requires
            old(self).floor < u32::MAX,
            some_domain_for(domain_views(domains@), (old(self).floor + 1) as u32),
        ensures
            final(self).floor == old(self).floor + 1,
            final(self).domain is Some,
            exists|i: int|
                is_first_domain_for(domain_views(domains@), final(self).floor, i)
                    && final(self).domain->0@ == #[trigger] domains@[i]@,
            final(self).enemies@ == old(self).enemies@,
            final(self).boss == old(self).boss,
    {
        self.floor = self.floor + 1;
        let found = find_domain(domains, self.floor);
        match found {
            Some(i) => {
                self.domain = Some(domains[i].clone());
                assert(domain_views(domains@)[i as int] == domains@[i as int]@);
            },
            None => {},
        }
    }

    /// Records that `killed` died: it leaves the list of living enemies.
    /// Returns whether the floor is cleared, that is no enemy is left.
    pub fn enemy_killed(&mut self, killed: u64) -> (cleared: bool)
        ensures
            final(self).enemies@ == without_entity(old(self).enemies@, killed),
            cleared == (final(self).enemies@.len() == 0),
            final(self).floor == old(self).floor,
            final(self).domain == old(self).domain,
            final(self).boss == old(self).boss,
    {
        let mut kept: Vec<u64> = Vec::new();
        let mut i: usize = 0;
        let ghost before = self.enemies@;
        while i < self.enemies.len()
            invariant
                self.enemies@ == before,
                i <= before.len(),
                kept@ == without_entity(before.take(i as int), killed),
            decreases before.len() - i,
        {
            let e = self.enemies[i];
            assert(before.take(i + 1) =~= before.take(i as int).push(e));
            proof {
                before.take(i as int).lemma_filter_push(e, other_than(killed));
            }
            if e != killed {
                kept.push(e);
            }
            i = i + 1;
        }
        assert(before.take(i as int) =~= before);
        self.enemies = kept;
        self.enemies.len() == 0
    }

    /// Whether the current floor is the last of its domain, where the boss
    /// waits instead of ordinary enemies.
    pub fn is_boss_floor(&self) -> (r: bool)
        ensures
            r == (match self.domain {
                Some(d) => d.floors.1 == self.floor,
                None => false,
            }),
    {
        match &self.domain {
            Some(d) => d.floors.1 == self.floor,
            None => false,
        }
    }
}

/// After a kill the dead entity is no longer counted among the living, and
/// every other enemy still is.
pub proof fn lemma_kill_removes_only_the_killed(enemies: Seq<u64>, killed: u64, other: u64)
    requires
        other != killed,
    ensures
        !without_entity(enemies, killed).contains(killed),
        without_entity(enemies, killed).contains(other) == enemies.contains(other),
{
    let pred = other_than(killed);
    let kept = without_entity(enemies, killed);
    if kept.contains(killed) {
        let k = choose|k: int| 0 <= k < kept.len() && kept[k] == killed;
        enemies.lemma_filter_pred(pred, k);
    }
    if kept.contains(other) {
        enemies.lemma_filter_contains_rev(pred, other);
    }
    if enemies.contains(other) {
        let k = choose|k: int| 0 <= k < enemies.len() && enemies[k] == other;
        enemies.lemma_filter_contains(pred, k);
    }
}

/// Reporting the same kill twice changes nothing the second time.
pub proof fn lemma_kill_idempotent(enemies: Seq<u64>, killed: u64)
    ensures
        without_entity(without_entity(enemies, killed), killed) == without_entity(enemies, killed),
{
    let pred = other_than(killed);
    let once = without_entity(enemies, killed);
    assert forall|k: int| 0 <= k < once.len() implies once[k] != killed by {
        enemies.lemma_filter_pred(pred, k);
    }
    lemma_filter_keeps_all(once, killed);
}

/// Filtering out an entity that does not occur keeps the list as it is.
proof fn lemma_filter_keeps_all(s: Seq<u64>, killed: u64)
    requires
        forall|k: int| 0 <= k < s.len() ==> s[k] != killed,
    ensures
        without_entity(s, killed) == s,
    decreases s.len(),
{
    reveal_with_fuel(Seq::filter, 1);
    if s.len() > 0 {
        lemma_filter_keeps_all(s.drop_last(), killed);
        assert(s =~= s.drop_last().push(s.last()));
    }
}

/// The summed spawn weight of the first `n` enemies of the list.
pub open spec fn weight_prefix(enemies: Seq<(u32, String)>, n: int) -> int
    decreases n,
{
    if n <= 0 {
        0
    } else {
        weight_prefix(enemies, n - 1) + enemies[n - 1].0
    }
}

/// The summed spawn weight of the whole list.
pub open spec fn total_weight(enemies: Seq<(u32, String)>) -> int {
    weight_prefix(enemies, enemies.len() as int)
}

proof fn lemma_weight_prefix_monotone(enemies: Seq<(u32, String)>, a: int, b: int)
    requires
        0 <= a <= b <= enemies.len(),
    ensures
        weight_prefix(enemies, a) <= weight_prefix(enemies, b),
    decreases b - a,
{
    if a < b {
        lemma_weight_prefix_monotone(enemies, a, b - 1);
    }
}

/// The enemy that a weight roll chooses: the first whose running weight total
/// reaches the roll.
pub open spec fn weighted_choice(enemies: Seq<(u32, String)>, roll: int, i: int) -> bool {
    &&& 0 <= i < enemies.len()
    &&& roll <= weight_prefix(enemies, i + 1)
    &&& forall|j: int| 0 <= j < i ==> roll > #[trigger] weight_prefix(enemies, j + 1)
}

/// Sums the spawn weights of the enemies.
pub fn sum_weights(enemies: &Vec<(u32, String)>) -> (total: u32)
    requires
        total_weight(enemies@) <= u32::MAX,
    ensures
        total == total_weight(enemies@),
{
    let mut total: u32 = 0;
    let mut i: usize = 0;
    while i < enemies.len()
        invariant
            i <= enemies@.len(),
            total_weight(enemies@) <= u32::MAX,
            total == weight_prefix(enemies@, i as int),
        decreases enemies@.len() - i,
    {
        proof {
            lemma_weight_prefix_monotone(enemies@, i + 1, enemies@.len() as int);
        }
        total = total + enemies[i].0;
        i = i + 1;
    }
    total
}

/// Chooses an enemy by a weight roll: the roll is lowered by each enemy's
/// weight in turn, and the enemy at which it is no longer positive is chosen.
/// No enemy is chosen when the roll exceeds the total weight.
pub fn pick_weighted(enemies: &Vec<(u32, String)>, roll: u32) -> (r: Option<usize>)
    requires
        roll <= i32::MAX,
        total_weight(enemies@) <= i32::MAX,
    ensures
        match r {
            Some(i) => weighted_choice(enemies@, roll as int, i as int),
            None => enemies@.len() == 0 || roll > total_weight(enemies@),
        },
{
    let mut weight: i64 = roll as i64;
    let mut i: usize = 0;
    while i < enemies.len()
        invariant
            i <= enemies@.len(),
            roll <= i32::MAX,
            total_weight(enemies@) <= i32::MAX,
            weight == roll - weight_prefix(enemies@, i as int),
            forall|j: int| 0 <= j < i ==> roll > #[trigger] weight_prefix(enemies@, j + 1),
        decreases enemies@.len() - i,
    {
        proof {
            lemma_weight_prefix_monotone(enemies@, i + 1, enemies@.len() as int);
            lemma_weight_prefix_monotone(enemies@, 0, i as int);
        }
        weight = weight - enemies[i].0 as i64;
        if weight <= 0 {
            return Some(i);
        }
        i = i + 1;
    }
    proof {
        if enemies@.len() > 0 {
            assert(roll > weight_prefix(enemies@, enemies@.len() - 1 + 1));
        }
    }
    None
}

/// A roll no greater than the total weight of a non-empty list always
/// chooses an enemy.
pub proof fn lemma_roll_within_total_chooses(enemies: Seq<(u32, String)>, roll: int)
    requires
        enemies.len() > 0,
        roll <= total_weight(enemies),
    ensures
        exists|i: int| weighted_choice(enemies, roll, i),
{
    lemma_choice_from(enemies, roll, 0);
}

proof fn lemma_choice_from(enemies: Seq<(u32, String)>, roll: int, i: int)
    requires
        0 <= i < enemies.len(),
        roll <= total_weight(enemies),
        forall|j: int| 0 <= j < i ==> roll > #[trigger] weight_prefix(enemies, j + 1),
    ensures
        exists|c: int| weighted_choice(enemies, roll, c),
    decreases enemies.len() - i,
{
    if roll <= weight_prefix(enemies, i + 1) {
        assert(weighted_choice(enemies, roll, i));
    } else {
        lemma_choice_from(enemies, roll, i + 1);
    }
}

/// Some weight roll from zero to the total weight chooses enemy `e`.
pub open spec fn is_pickable(enemies: Seq<(u32, String)>, e: int) -> bool {
    exists|roll: int| 0 <= roll <= total_weight(enemies) && #[trigger] weighted_choice(enemies, roll, e)
}

/// A weight roll chooses at most one enemy, and an enemy of weight zero is
/// never chosen unless it comes first in the list.
pub proof fn lemma_weighted_choice_unique(enemies: Seq<(u32, String)>, roll: int, i: int, j: int)
    ensures
        weighted_choice(enemies, roll, i) && weighted_choice(enemies, roll, j) ==> i == j,
        0 < i < enemies.len() && enemies[i].0 == 0 ==> !weighted_choice(enemies, roll, i),
{
    if weighted_choice(enemies, roll, i) && weighted_choice(enemies, roll, j) && i != j {
        if i < j {
            assert(roll > weight_prefix(enemies, i + 1));
        } else {
            assert(roll > weight_prefix(enemies, j + 1));
        }
    }
    if 0 < i < enemies.len() && enemies[i].0 == 0 && weighted_choice(enemies, roll, i) {
        assert(roll > weight_prefix(enemies, (i - 1) + 1));
    }
}

/// Index `i` holds the last occurrence of its key.
pub open spec fn is_last_of_key(keys: Seq<i32>, i: int) -> bool {
    &&& 0 <= i < keys.len()
    &&& forall|j: int| i < j < keys.len() ==> keys[j] != keys[i]
}

/// The order in which spawn places are used: one place per distinct key,
/// the last place that has that key, from the highest key down.
pub open spec fn is_spawn_order(keys: Seq<i32>, order: Seq<usize>) -> bool {
    &&& forall|a: int| 0 <= a < order.len() ==> is_last_of_key(keys, #[trigger] order[a] as int)
    &&& forall|a: int, b: int|
        0 <= a < b < order.len() ==> keys[#[trigger] order[a] as int] > keys[#[trigger] order[b] as int]
    &&& forall|i: int| 0 <= i < keys.len() ==> #[trigger] key_listed(keys, order, keys[i])
}

/// Some place of `order` has key `v`.
pub open spec fn key_listed(keys: Seq<i32>, order: Seq<usize>, v: i32) -> bool {
    exists|a: int| 0 <= a < order.len() && keys[#[trigger] order[a] as int] == v
}

/// Orders the spawn places by their noise keys: the places go into a
/// `BTreeMap` by key (a key shared by several places keeps the last of them),
/// and are taken from the highest key down, each distinct key once.
pub fn spawn_order(keys: &Vec<i32>) -> (order: Vec<usize>)
    ensures
        is_spawn_order(keys@, order@),
{
    let places = last_place_by_key(keys);
    let ks = ascending_keys(&places);
    let mut order: Vec<usize> = Vec::new();
    let mut n: usize = ks.len();
    while n > 0
        invariant
            n <= ks@.len(),
            order@.len() == ks@.len() - n,
            forall|a: int| 0 <= a < order@.len() ==> #[trigger] order@[a] == places@[ks@[ks@.len() - 1 - a]],
            ks@.to_set() == places@.dom(),
        decreases n,
    {
        n = n - 1;
        proof {
            assert(ks@.to_set().contains(ks@[n as int]));
        }
        let p = place_of(&places, ks[n]);
        order.push(p);
    }
    proof {
        let len = ks@.len();
        assert forall|a: int| 0 <= a < order@.len() implies is_last_of_key(keys@, #[trigger] order@[a] as int) by {
            let v = ks@[len - 1 - a];
            assert(ks@.contains(v));
            assert(places@.contains_key(v));
            assert(last_place_upto(keys@, keys.len(), v, places@[v]));
        }
        assert forall|a: int, b: int|
            0 <= a < b < order@.len() implies keys@[#[trigger] order@[a] as int] > keys@[#[trigger] order@[b] as int] by {
            let va = ks@[len - 1 - a];
            let vb = ks@[len - 1 - b];
            assert(ks@.contains(va) && ks@.contains(vb));
            assert(places@.contains_key(va) && places@.contains_key(vb));
            assert(last_place_upto(keys@, keys.len(), va, places@[va]));
            assert(last_place_upto(keys@, keys.len(), vb, places@[vb]));
        }
        assert forall|i: int| 0 <= i < keys@.len() implies #[trigger] key_listed(keys@, order@, keys@[i]) by {
            let v = keys@[i];
            assert(key_seen(keys@, keys.len(), v));
            assert(places@.contains_key(v));
            assert(ks@.to_set().contains(v));
            let c = choose|c: int| 0 <= c < len && ks@[c] == v;
            let a = len - 1 - c;
            assert(last_place_upto(keys@, keys.len(), v, places@[v]));
            assert(keys@[order@[a] as int] == v);
        }
    }
    order
}

/// Plans where the enemies of the current domain appear: it draws how many
/// enemies the floor gets (within the domain's range), uses the spawn places
/// in `spawn_order` of their noise keys, one per enemy while places last, and
/// picks each enemy by a weight roll from zero to the total weight (so an
/// enemy of weight zero is only ever picked when it comes first). Returns
/// (place index, enemy index) pairs. A domain without enemies plans nothing.
pub fn roll_spawn_plan(rng: &Rng, domain: &DomainData, noise_keys: &Vec<i32>) -> (plan: Vec<(usize, usize)>)
    requires
        domain.enemies_count.0 <= domain.enemies_count.1,
        total_weight(domain.enemies@) <= i32::MAX,
    ensures
        plan@.len() <= noise_keys@.len(),
        plan@.len() <= domain.enemies_count.1,
        domain.enemies@.len() == 0 ==> plan@.len() == 0,
        domain.enemies@.len() > 0 ==> exists|order: Seq<usize>| {
            &&& is_spawn_order(noise_keys@, order)
            &&& plan@.len() <= domain.enemies_count.1
            &&& (plan@.len() == order.len() || domain.enemies_count.0 <= plan@.len())
            &&& plan@.len() <= order.len()
            &&& forall|j: int| 0 <= j < plan@.len() ==> (#[trigger] plan@[j]).0 == order[j]
        },
        forall|j: int| 0 <= j < plan@.len() ==> is_pickable(domain.enemies@, (#[trigger] plan@[j]).1 as int),
{
    let count = roll_u32(rng, domain.enemies_count.0, domain.enemies_count.1);
    let order = spawn_order(noise_keys);
    let total = sum_weights(&domain.enemies);
    let mut plan: Vec<(usize, usize)> = Vec::new();
    let mut j: usize = 0;
    proof {
        assert(order@.len() <= noise_keys@.len()) by {
            lemma_spawn_order_len(noise_keys@, order@);
        }
    }
    while j < order.len() && (j as u64) < count as u64
        invariant
            j <= order@.len(),
            order@.len() <= noise_keys@.len(),
            is_spawn_order(noise_keys@, order@),
            total == total_weight(domain.enemies@),
            total_weight(domain.enemies@) <= i32::MAX,
            domain.enemies@.len() == 0 ==> plan@.len() == 0,
            domain.enemies@.len() > 0 ==> plan@.len() == j,
            plan@.len() <= j,
            j <= count,
            domain.enemies_count.0 <= count <= domain.enemies_count.1,
            forall|a: int| 0 <= a < plan@.len() ==> (#[trigger] plan@[a]).0 == order@[a],
            forall|a: int| 0 <= a < plan@.len() ==> is_pickable(domain.enemies@, (#[trigger] plan@[a]).1 as int),
        decreases order@.len() - j,
    {
        let roll = roll_u32(rng, 0, total);
        match pick_weighted(&domain.enemies, roll) {
            Some(e) => {
                let ghost before = plan@;
                plan.push((order[j], e));
                proof {
                    assert forall|a: int| 0 <= a < plan@.len() implies is_pickable(
                        domain.enemies@,
                        (#[trigger] plan@[a]).1 as int,
                    ) by {
                        if a < before.len() {
                            assert(plan@[a] == before[a]);
                        } else {
                            assert(weighted_choice(domain.enemies@, roll as int, e as int));
                        }
                    }
                }
            },
            None => {
                proof {
                    if domain.enemies@.len() > 0 {
                        lemma_roll_within_total_chooses(domain.enemies@, roll as int);
                        let i = choose|i: int| weighted_choice(domain.enemies@, roll as int, i);
                        lemma_weight_prefix_monotone(domain.enemies@, i + 1, domain.enemies@.len() as int);
                    }
                }
            },
        }
        j = j + 1;
    }
    plan
}

/// A spawn order never lists more places than there are.
pub proof fn lemma_spawn_order_len(keys: Seq<i32>, order: Seq<usize>)
    requires
        is_spawn_order(keys, order),
    ensures
        order.len() <= keys.len(),
{
    let s = order.map_values(|x: usize| x as int);
    assert forall|a: int, b: int| 0 <= a < b < order.len() implies order[a] != order[b] by {
        assert(keys[order[a] as int] > keys[order[b] as int]);
    }
    let set = Set::new(|x: int| 0 <= x < keys.len());
    let oset = s.to_set();
    assert(s.no_duplicates()) by {
        assert forall|a: int, b: int| 0 <= a < s.len() && 0 <= b < s.len() && a != b implies s[a] != s[b] by {
            if a < b {
                assert(order[a] != order[b]);
            } else {
                assert(order[b] != order[a]);
            }
        }
    }
    s.unique_seq_to_set();
    assert(oset.subset_of(set)) by {
        assert forall|x: int| oset.contains(x) implies set.contains(x) by {
            let a = choose|a: int| 0 <= a < s.len() && s[a] == x;
            assert(is_last_of_key(keys, order[a] as int));
        }
    }
    vstd::set_lib::lemma_int_range(0, keys.len() as int);
    assert(set =~= vstd::set_lib::set_int_range(0, keys.len() as int));
    vstd::set_lib::lemma_len_subset(oset, set);
}

} // verus!
