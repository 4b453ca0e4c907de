use relentless_revenge::attack::{land_hit, Breakable, EntitiesHit};
use relentless_revenge::collision::{assign_roles, hit_roles, pickup_roles, CollisionEvent};
use relentless_revenge::stats::{Damage, Health};

#[test]
fn roles_need_exactly_one_reading() {
    assert_eq!(assign_roles(1, 2, true, false), Some((1, 2)));
    assert_eq!(assign_roles(1, 2, false, true), Some((2, 1)));
    assert_eq!(assign_roles(1, 2, true, true), None);
    assert_eq!(assign_roles(1, 2, false, false), None);
}

#[test]
fn roles_do_not_depend_on_report_order() {
    for (f, b) in [(true, false), (false, true), (true, true), (false, false)] {
        assert_eq!(assign_roles(7, 9, f, b), assign_roles(9, 7, b, f));
    }
}

#[test]
fn hits_count_only_on_live_contact_start() {
    let start = CollisionEvent::Started(10, 20, false);
    assert_eq!(hit_roles(start, true, false, false, true), Some((10, 20)));
    assert_eq!(hit_roles(start, false, true, true, false), Some((20, 10)));
    assert_eq!(hit_roles(start, true, true, true, true), None);
    assert_eq!(hit_roles(CollisionEvent::Started(10, 20, true), true, false, false, true), None);
    assert_eq!(hit_roles(CollisionEvent::Stopped(10, 20, false), true, false, false, true), None);
}

#[test]
fn pickups_ignore_only_removal_stops() {
    assert_eq!(pickup_roles(CollisionEvent::Started(1, 2, false), true, false, false, true), Some((1, 2)));
    assert_eq!(pickup_roles(CollisionEvent::Started(1, 2, true), false, true, true, false), Some((2, 1)));
    assert_eq!(pickup_roles(CollisionEvent::Stopped(1, 2, false), true, false, false, true), Some((1, 2)));
    assert_eq!(pickup_roles(CollisionEvent::Stopped(1, 2, true), true, false, false, true), None);
    assert_eq!(pickup_roles(CollisionEvent::Started(1, 2, false), false, false, false, false), None);
}

#[test]
fn register_hits_each_entity_once() {
    let mut hit = EntitiesHit(Vec::new());
    assert!(hit.register(4));
    assert!(hit.register(5));
    assert!(!hit.register(4));
    assert_eq!(hit.0, vec![4, 5]);
}

#[test]
fn breakable_counts_down_to_zero() {
    let mut b = Breakable(1);
    assert!(!b.is_broken());
    b.take_hit();
    assert_eq!(b.0, 0);
    assert!(b.is_broken());
    b.take_hit();
    assert_eq!(b.0, 0);
}

#[test]
fn tracked_attack_lands_once() {
    let mut hit = Some(EntitiesHit(Vec::new()));
    let mut breakable = Some(Breakable(2));
    let mut health = Health::new(50);
    let damage = Damage::new(20);
    let first = land_hit(&mut hit, &mut breakable, &mut health, &damage, 8);
    assert!(first.landed);
    assert!(first.target_alive);
    assert_eq!(health.current, 30);
    assert_eq!(breakable.as_ref().unwrap().0, 1);
    let second = land_hit(&mut hit, &mut breakable, &mut health, &damage, 8);
    assert!(!second.landed);
    assert_eq!(health.current, 30);
    assert_eq!(breakable.as_ref().unwrap().0, 1);
    assert_eq!(hit.as_ref().unwrap().0, vec![8]);
}

#[test]
fn untracked_attack_lands_every_time_and_can_kill() {
    let mut hit: Option<EntitiesHit> = None;
    let mut breakable: Option<Breakable> = None;
    let mut health = Health::new(30);
    let damage = Damage::new(20);
    assert!(land_hit(&mut hit, &mut breakable, &mut health, &damage, 3).landed);
    let r = land_hit(&mut hit, &mut breakable, &mut health, &damage, 3);
    assert!(r.landed);
    assert!(!r.target_alive);
    assert_eq!(health.current, 0);
    assert!(hit.is_none());
    assert!(breakable.is_none());
}
