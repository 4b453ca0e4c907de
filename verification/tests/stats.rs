use relentless_revenge::stats::{death_outcome, Damage, DeathOutcome, Health, Level, MovementSpeed, XP};

#[test]
fn health_starts_full() {
    let h = Health::new(120);
    assert_eq!(h.current, 120);
    assert_eq!(h.max, 120);
}

#[test]
fn damage_lowers_health() {
    let mut h = Health::new(100);
    h.damage(&Damage::new(30));
    assert_eq!(h.current, 70);
    assert_eq!(h.max, 100);
}

#[test]
fn damage_stops_at_zero() {
    let mut h = Health::new(10);
    h.damage(&Damage::new(25));
    assert_eq!(h.current, 0);
    h.damage(&Damage::new(1));
    assert_eq!(h.current, 0);
}

#[test]
fn exact_damage_kills() {
    let mut h = Health::new(10);
    h.damage(&Damage::new(10));
    assert_eq!(h.current, 0);
}

#[test]
fn two_hits_equal_one_summed_hit() {
    for (start, a, b) in [(100u32, 30u32, 50u32), (40, 30, 50), (5, 0, 0), (0, 7, 3)] {
        let mut twice = Health::new(start);
        twice.damage(&Damage::new(a));
        twice.damage(&Damage::new(b));
        let mut once = Health::new(start);
        once.damage(&Damage::new(a + b));
        assert_eq!(twice.current, once.current);
    }
}

#[test]
fn xp_adds_up() {
    let mut xp = XP::new(5);
    xp.add(&XP::new(12));
    assert_eq!(xp.amount, 17);
}

#[test]
fn simple_constructors_keep_values() {
    assert_eq!(Damage::new(9).amount, 9);
    assert_eq!(MovementSpeed::new(42).speed, 42);
    assert_eq!(Level::default().level, 1);
}

#[test]
fn death_outcomes() {
    let alive = Health { current: 3, max: 10 };
    let dead = Health { current: 0, max: 10 };
    assert_eq!(death_outcome(&alive, true), None);
    assert_eq!(death_outcome(&alive, false), None);
    assert_eq!(death_outcome(&dead, true), Some(DeathOutcome::ReportKill));
    assert_eq!(death_outcome(&dead, false), Some(DeathOutcome::Despawn));
}
