use relentless_revenge::spawn_places::{ascending_keys, last_place_by_key, place_of};
use relentless_revenge::floor::{find_domain, pick_weighted, roll_spawn_plan, spawn_order, sum_weights, FloorResource};
use relentless_revenge::manifest::floor::DomainData;
use turborand::rng::Rng;
use turborand::SeededCore;

fn domain(name: &str, floors: (u32, u32), enemies: Vec<(u32, &str)>) -> DomainData {
    DomainData {
        name: name.to_string(),
        floors,
        rooms: (3, 5),
        room_size: (3, 5),
        boss: "boss".to_string(),
        enemies_count: (2, 4),
        enemies: enemies.into_iter().map(|(w, n)| (w, n.to_string())).collect(),
    }
}

#[test]
fn domain_lookup_takes_the_first_match() {
    let domains = vec![domain("a", (1, 3), vec![]), domain("b", (3, 6), vec![]), domain("c", (3, 9), vec![])];
    assert_eq!(find_domain(&domains, 1), Some(0));
    assert_eq!(find_domain(&domains, 3), Some(0));
    assert_eq!(find_domain(&domains, 5), Some(1));
    assert_eq!(find_domain(&domains, 8), Some(2));
    assert_eq!(find_domain(&domains, 10), None);
    assert_eq!(find_domain(&domains, 0), None);
}

#[test]
fn next_floor_moves_on_and_picks_the_domain() {
    let domains = vec![domain("crypt", (1, 2), vec![(1, "rat")]), domain("caves", (3, 4), vec![])];
    let mut floor = FloorResource::default();
    assert_eq!(floor.floor, 0);
    assert!(floor.domain.is_none());
    floor.enemies = vec![4, 5];
    floor.next_floor(&domains);
    assert_eq!(floor.floor, 1);
    assert_eq!(floor.domain.as_ref().unwrap().name, "crypt");
    assert_eq!(floor.domain.as_ref().unwrap().enemies, vec![(1, "rat".to_string())]);
    assert_eq!(floor.enemies, vec![4, 5]);
    assert!(!floor.is_boss_floor());
    floor.next_floor(&domains);
    assert!(floor.is_boss_floor());
    floor.next_floor(&domains);
    assert_eq!(floor.domain.as_ref().unwrap().name, "caves");
    assert!(!floor.is_boss_floor());
}

#[test]
fn no_domain_no_boss_floor() {
    let floor = FloorResource::default();
    assert!(!floor.is_boss_floor());
}

#[test]
fn kills_clear_the_floor() {
    let mut floor = FloorResource::default();
    floor.enemies = vec![1, 2, 1, 3];
    assert!(!floor.enemy_killed(1));
    assert_eq!(floor.enemies, vec![2, 3]);
    assert!(!floor.enemy_killed(1));
    assert_eq!(floor.enemies, vec![2, 3]);
    assert!(!floor.enemy_killed(3));
    assert!(floor.enemy_killed(2));
    assert!(floor.enemies.is_empty());
    assert!(floor.enemy_killed(9));
}

#[test]
fn weighted_pick_follows_running_totals() {
    let enemies: Vec<(u32, String)> = vec![(2, "rat".into()), (0, "ghost".into()), (3, "bat".into())];
    assert_eq!(sum_weights(&enemies), 5);
    assert_eq!(pick_weighted(&enemies, 0), Some(0));
    assert_eq!(pick_weighted(&enemies, 1), Some(0));
    assert_eq!(pick_weighted(&enemies, 2), Some(0));
    assert_eq!(pick_weighted(&enemies, 3), Some(2));
    assert_eq!(pick_weighted(&enemies, 5), Some(2));
    assert_eq!(pick_weighted(&enemies, 6), None);
    assert_eq!(pick_weighted(&Vec::new(), 0), None);
}

#[test]
fn spawn_order_keeps_one_place_per_key_highest_first() {
    assert_eq!(spawn_order(&vec![5, 3, 5, 1]), vec![2, 1, 3]);
    assert_eq!(spawn_order(&vec![-4, 7, 0]), vec![1, 2, 0]);
    assert_eq!(spawn_order(&vec![]), Vec::<usize>::new());
    assert_eq!(spawn_order(&vec![2, 2, 2]), vec![2]);
}

#[test]
fn spawn_plan_respects_counts_and_order() {
    let d = domain("crypt", (1, 2), vec![(1, "rat"), (2, "bat")]);
    let keys = vec![10, 40, 20, 30, 40, 0];
    let order = spawn_order(&keys);
    for seed in 0..50u64 {
        let rng = Rng::with_seed(seed);
        let plan = roll_spawn_plan(&rng, &d, &keys);
        assert!(plan.len() >= 2 && plan.len() <= 4);
        for (j, (place, enemy)) in plan.iter().enumerate() {
            assert_eq!(*place, order[j]);
            assert!(*enemy < 2);
        }
    }
}

#[test]
fn spawn_plan_is_short_when_places_run_out() {
    let d = domain("crypt", (1, 2), vec![(1, "rat")]);
    let keys = vec![7];
    let rng = Rng::with_seed(3);
    assert_eq!(roll_spawn_plan(&rng, &d, &keys), vec![(0, 0)]);
    let empty = domain("void", (1, 2), vec![]);
    assert!(roll_spawn_plan(&rng, &empty, &vec![1, 2, 3]).is_empty());
}

#[test]
fn domain_clone_is_equal() {
    let d = domain("crypt", (1, 2), vec![(1, "rat"), (2, "bat")]);
    let c = d.clone();
    assert_eq!(c.name, d.name);
    assert_eq!(c.enemies, d.enemies);
    assert_eq!(c.floors, d.floors);
}

#[test]
fn spawn_plan_never_exceeds_the_enemy_count() {
    let mut d = domain("crypt", (1, 2), vec![(3, "rat")]);
    d.enemies_count = (1, 3);
    let keys: Vec<i32> = (0..20).collect();
    for seed in 0..50u64 {
        let rng = Rng::with_seed(seed);
        let plan = roll_spawn_plan(&rng, &d, &keys);
        assert!(plan.len() >= 1 && plan.len() <= 3);
    }
    d.enemies_count = (0, 0);
    assert!(roll_spawn_plan(&Rng::with_seed(1), &d, &keys).is_empty());
}

#[test]
fn places_by_key_keep_the_last_and_sort() {
    let places = last_place_by_key(&vec![5, 3, 5, 1]);
    assert_eq!(ascending_keys(&places), vec![1, 3, 5]);
    assert_eq!(place_of(&places, 5), 2);
    assert_eq!(place_of(&places, 3), 1);
    assert_eq!(place_of(&places, 1), 3);
}
