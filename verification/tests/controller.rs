use relentless_revenge::controller::{finish_dash, read_movement, settle_walk, start_attack, start_dash, Combo};
use relentless_revenge::movement::direction::Direction;
use relentless_revenge::state::State;

#[test]
fn first_attack_starts_a_chain() {
    let mut state = State::Idle;
    let mut combo: Option<Combo> = None;
    assert!(start_attack(&mut state, &mut combo, true, true));
    assert_eq!(state, State::Attacking(0));
    let c = combo.unwrap();
    assert_eq!((c.current, c.max), (0, 2));
}

#[test]
fn chain_cycles_through_its_attacks() {
    let mut combo = Some(Combo::first());
    let mut seen = Vec::new();
    for _ in 0..4 {
        let mut state = State::Walking;
        assert!(start_attack(&mut state, &mut combo, true, true));
        match state {
            State::Attacking(i) => seen.push(i),
            _ => panic!("not attacking"),
        }
    }
    assert_eq!(seen, vec![1, 2, 0, 1]);
}

#[test]
fn busy_or_not_ready_player_does_not_attack() {
    let mut combo: Option<Combo> = None;
    let mut dashing = State::Dashing;
    assert!(!start_attack(&mut dashing, &mut combo, true, true));
    assert_eq!(dashing, State::Dashing);
    let mut attacking = State::Attacking(1);
    assert!(!start_attack(&mut attacking, &mut combo, true, true));
    let mut idle = State::Idle;
    assert!(!start_attack(&mut idle, &mut combo, true, false));
    assert!(!start_attack(&mut idle, &mut combo, false, true));
    assert_eq!(idle, State::Idle);
    assert!(combo.is_none());
}

#[test]
fn dash_rules() {
    let mut s = State::Walking;
    assert!(start_dash(&mut s, true, true));
    assert_eq!(s, State::Dashing);
    assert!(!start_dash(&mut s, true, true));
    finish_dash(&mut s);
    assert_eq!(s, State::Idle);
    let mut a = State::Attacking(0);
    assert!(!start_dash(&mut a, true, true));
    finish_dash(&mut a);
    assert_eq!(a, State::Attacking(0));
    let mut idle = State::Idle;
    assert!(!start_dash(&mut idle, true, false));
}

#[test]
fn movement_keys_turn_and_sum() {
    let mut facing = Direction::SOUTH;
    assert_eq!(read_movement(State::Idle, &mut facing, [true, false, false, true]), Some((1, 1)));
    assert_eq!(facing, Direction::EAST);
    let mut facing = Direction::WEST;
    assert_eq!(read_movement(State::Walking, &mut facing, [true, true, false, false]), Some((0, 0)));
    assert_eq!(facing, Direction::SOUTH);
    let mut facing = Direction::WEST;
    assert_eq!(read_movement(State::Walking, &mut facing, [false; 4]), Some((0, 0)));
    assert_eq!(facing, Direction::WEST);
}

#[test]
fn busy_player_ignores_movement_keys() {
    let mut facing = Direction::NORTH;
    assert_eq!(read_movement(State::Dashing, &mut facing, [false, false, true, false]), None);
    assert_eq!(facing, Direction::NORTH);
    assert_eq!(read_movement(State::Attacking(0), &mut facing, [true; 4]), None);
}

#[test]
fn walking_state_follows_motion() {
    let mut s = State::Idle;
    settle_walk(&mut s, true);
    assert_eq!(s, State::Walking);
    settle_walk(&mut s, false);
    assert_eq!(s, State::Idle);
}
