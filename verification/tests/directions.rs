use relentless_revenge::direction::Direction as CompassDirection;
use relentless_revenge::movement::direction::Direction;
use relentless_revenge::player::PlayerActions;
use relentless_revenge::state::State;

#[test]
fn values_list_every_direction_in_order() {
    assert_eq!(
        Direction::values(),
        [Direction::NORTH, Direction::SOUTH, Direction::WEST, Direction::EAST]
    );
    assert_eq!(
        CompassDirection::values(),
        [CompassDirection::NORTH, CompassDirection::SOUTH, CompassDirection::WEST, CompassDirection::EAST]
    );
}

#[test]
fn direction_set_and_equals() {
    let mut d = Direction::SOUTH;
    d.set(Direction::EAST);
    assert!(d.equals(&Direction::EAST));
    assert!(!d.equals(&Direction::WEST));
}

#[test]
fn direction_offsets() {
    assert_eq!(Direction::NORTH.offset(), (0, 1));
    assert_eq!(Direction::SOUTH.offset(), (0, -1));
    assert_eq!(Direction::WEST.offset(), (-1, 0));
    assert_eq!(Direction::EAST.offset(), (1, 0));
}

#[test]
fn action_directions() {
    assert_eq!(PlayerActions::MoveUp.direction(), Some(Direction::NORTH));
    assert_eq!(PlayerActions::MoveDown.direction(), Some(Direction::SOUTH));
    assert_eq!(PlayerActions::MoveLeft.direction(), Some(Direction::WEST));
    assert_eq!(PlayerActions::MoveRight.direction(), Some(Direction::EAST));
    assert_eq!(PlayerActions::Attack.direction(), None);
    assert_eq!(PlayerActions::Dash.direction(), None);
}

#[test]
fn movement_actions_follow_direction_order() {
    let dirs = Direction::values();
    for (i, action) in PlayerActions::DIRECTIONS.iter().enumerate() {
        assert_eq!(action.direction(), Some(dirs[i]));
    }
}

#[test]
fn state_set_and_equals() {
    let mut s = State::Idle;
    s.set(State::Attacking(2));
    assert!(s.equals(State::Attacking(2)));
    assert!(!s.equals(State::Attacking(1)));
    assert!(!s.equals(State::Idle));
}
