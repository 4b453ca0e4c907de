use vstd::prelude::*;
use crate::movement::direction::{all_directions, Direction};

verus! {

/// Marks the entity the player controls.
pub struct Player;

/// The actions the player can trigger from the keyboard or mouse.
#[derive(Debug, Clone, Copy, PartialEq, Eq, Hash, Structural)]
pub enum PlayerActions {
    MoveUp,
    MoveDown,
    MoveLeft,
    MoveRight,
    Attack,
    Dash,
}

/// The facing that a movement action turns the player to, if it is one.
pub open spec fn action_direction(a: PlayerActions) -> Option<Direction> {
    match a {
        PlayerActions::MoveUp => Some(Direction::NORTH),
        PlayerActions::MoveDown => Some(Direction::SOUTH),
        PlayerActions::MoveLeft => Some(Direction::WEST),
        PlayerActions::MoveRight => Some(Direction::EAST),
        _ => None,
    }
}

impl PlayerActions {
    /// The four movement actions, in the order up, down, left, right.
    pub const DIRECTIONS: [PlayerActions; 4] = [
        PlayerActions::MoveUp,
        PlayerActions::MoveDown,
        PlayerActions::MoveLeft,
        PlayerActions::MoveRight,
    ];

    /// The direction a movement action walks in; `None` for attack and dash.
    pub fn direction(&self) -> (r: Option<Direction>)
        ensures
            r == action_direction(*self),
    {
        match self {
            PlayerActions::MoveUp => Some(Direction::NORTH),
            PlayerActions::MoveDown => Some(Direction::SOUTH),
            PlayerActions::MoveLeft => Some(Direction::WEST),
            PlayerActions::MoveRight => Some(Direction::EAST),
            _ => None,
        }
    }
}

/// The movement actions walk, in order, the directions that
/// `Direction::values` lists; two actions walking the same direction are the
/// same action, and attacking or dashing walks nowhere.
pub proof fn lemma_movement_actions_cover_directions(a: PlayerActions, b: PlayerActions)
    ensures
        action_direction(a) is Some && action_direction(a) == action_direction(b) ==> a == b,
        action_direction(PlayerActions::Attack) is None,
        action_direction(PlayerActions::Dash) is None,
        forall|i: int|
            0 <= i < 4 ==> action_direction(#[trigger] PlayerActions::DIRECTIONS@[i]) == Some(
                all_directions()[i],
            ),
{
}

} // verus!
