use vstd::prelude::*;
use crate::movement::direction::{all_directions, direction_offset, Direction};
use crate::player::{action_direction, PlayerActions};
use crate::state::State;

verus! {

/// The attack chain of the player: which attack of the chain comes next.
/// (The timer that ends a chain is kept by the game loop.)
pub struct Combo {
    pub current: u32,
    pub max: u32,
}

/// The attack index after one more attack of a chain: it counts up and wraps
/// to the first attack once it passes the last one.
pub open spec fn next_combo_index(current: u32, max: u32) -> u32 {
    if current + 1 > max {
        0
    } else {
        (current + 1) as u32
    }
}

impl Combo {
    /// A fresh chain: its first attack has been made, and it has three attacks.
    pub fn first() -> (r: Combo)
        ensures
            r.current == 0,
            r.max == 2,
    {
        Combo { current: 0, max: 2 }
    }

    /// One more attack of the chain.
    pub fn advance(&mut self)
        requires
            old(self).current < u32::MAX,
        ensures
            final(self).current == next_combo_index(old(self).current, old(self).max),
            final(self).max == old(self).max,
    {
        self.current = self.current + 1;
        if self.current > self.max {
            self.current = 0;
        }
    }
}

/// The player is busy with an attack or a dash and ignores new commands.
pub open spec fn is_busy(s: State) -> bool {
    s == State::Dashing || s is Attacking
}

fn busy(state: State) -> (r: bool)
    ensures
        r == is_busy(state),
{
    match state {
        State::Dashing => true,
        State::Attacking(_) => true,
        _ => false,
    }
}

/// Starts an attack when the attack key was just pressed, the cooldown is over
/// and the player is neither attacking nor dashing. The attack continues the
/// running chain, or starts a new one. Returns whether an attack started.
pub fn start_attack(state: &mut State, combo: &mut Option<Combo>, attack_pressed: bool, cooldown_ready: bool) -> (attacked: bool)
    requires
        *old(combo) matches Some(c) ==> c.current < u32::MAX,
    ensures
        attacked == (!is_busy(*old(state)) && attack_pressed && cooldown_ready),
        (*old(state) is Attacking || *old(state) == State::Dashing) ==> !attacked,
        (*old(state) == State::Idle || *old(state) == State::Walking) ==> attacked == (attack_pressed
            && cooldown_ready),
        !attacked ==> *final(state) == *old(state),
        !attacked ==> match (*old(combo), *final(combo)) {
            (Some(a), Some(b)) => a.current == b.current && a.max == b.max,
            (None, None) => true,
            _ => false,
        },
        attacked ==> match *old(combo) {
            Some(c) => *final(combo) matches Some(n) && n.max == c.max && n.current
                == next_combo_index(c.current, c.max) && *final(state) == State::Attacking(
                n.current,
            ),
            None => *final(combo) matches Some(n) && n.current == 0 && n.max == 2 && *final(state)
                == State::Attacking(0),
        },
{
    if busy(*state) || !(attack_pressed && cooldown_ready) {
        return false;
    }
    match combo {
        Some(c) => {
            c.advance();
            state.set(State::Attacking(c.current));
        },
        None => {
            *combo = Some(Combo::first());
            state.set(State::Attacking(0));
        },
    }
    true
}

/// Starts a dash when the dash key was just pressed, the cooldown is over and
/// the player is neither attacking nor dashing. Returns whether it started.
pub fn start_dash(state: &mut State, dash_pressed: bool, cooldown_ready: bool) -> (dashed: bool)
    ensures
        dashed == (!is_busy(*old(state)) && dash_pressed && cooldown_ready),
        (*old(state) is Attacking || *old(state) == State::Dashing) ==> !dashed,
        (*old(state) == State::Idle || *old(state) == State::Walking) ==> dashed == (dash_pressed
            && cooldown_ready),
        dashed ==> *final(state) == State::Dashing,
        !dashed ==> *final(state) == *old(state),
{
    if busy(*state) || !(dash_pressed && cooldown_ready) {
        return false;
    }
    state.set(State::Dashing);
    true
}

/// When the dash movement has ended, a dashing player stands idle again.
pub fn finish_dash(state: &mut State)
    ensures
        *old(state) == State::Dashing ==> *final(state) == State::Idle,
        *old(state) != State::Dashing ==> *final(state) == *old(state),
{
    if state.equals(State::Dashing) {
        state.set(State::Idle);
    }
}

/// The sum of the unit steps of the pressed movement keys, taken in the order
/// up, down, left, right, from the first `n` of them.
pub open spec fn heading_upto(pressed: Seq<bool>, n: int) -> (int, int)
    decreases n,
{
    if n <= 0 {
        (0, 0)
    } else {
        let prev = heading_upto(pressed, n - 1);
        if pressed[n - 1] {
            (
                prev.0 + direction_offset(all_directions()[n - 1]).0,
                prev.1 + direction_offset(all_directions()[n - 1]).1,
            )
        } else {
            prev
        }
    }
}

/// The facing after the pressed movement keys, taken in the order up, down,
/// left, right, from the first `n` of them: the last pressed one wins.
pub open spec fn facing_upto(facing: Direction, pressed: Seq<bool>, n: int) -> Direction
    decreases n,
{
    if n <= 0 {
        facing
    } else if pressed[n - 1] {
        all_directions()[n - 1]
    } else {
        facing_upto(facing, pressed, n - 1)
    }
}

/// Reads the movement keys (pressed, in the order of `PlayerActions::DIRECTIONS`)
/// of a player that stands or walks: it turns to the last pressed direction and
/// the unit steps of the pressed directions are summed into the heading it
/// walks along. A player that attacks, dashes or dies ignores them (`None`).
pub fn read_movement(state: State, facing: &mut Direction, pressed: [bool; 4]) -> (heading: Option<(i32, i32)>)
    ensures
        !(state == State::Idle || state == State::Walking) ==> heading is None && *final(facing)
            == *old(facing),
        (state == State::Idle || state == State::Walking) ==> heading == Some(
            (heading_upto(pressed@, 4).0 as i32, heading_upto(pressed@, 4).1 as i32),
        ) && *final(facing) == facing_upto(*old(facing), pressed@, 4),
{
    if !(state.equals(State::Idle) || state.equals(State::Walking)) {
        return None;
    }
    let actions = PlayerActions::DIRECTIONS;
    let mut dx: i32 = 0;
    let mut dy: i32 = 0;
    let mut i: usize = 0;
    let ghost start = *facing;
    while i < 4
        invariant
            i <= 4,
            actions@ == PlayerActions::DIRECTIONS@,
            -(i as int) <= dx <= i as int,
            -(i as int) <= dy <= i as int,
            (dx as int, dy as int) == heading_upto(pressed@, i as int),
            *facing == facing_upto(start, pressed@, i as int),
        decreases 4 - i,
    {
        if pressed[i] {
            let action = actions[i];
            match action.direction() {
                Some(d) => {
                    proof {
                        assert(action_direction(PlayerActions::DIRECTIONS@[i as int]) == Some(
                            all_directions()[i as int],
                        ));
                    }
                    let off = d.offset();
                    dx = dx + off.0;
                    dy = dy + off.1;
                    facing.set(d);
                },
                None => {
                    proof {
                        assert(action_direction(PlayerActions::DIRECTIONS@[i as int]) == Some(
                            all_directions()[i as int],
                        ));
                    }
                },
            }
        }
        i = i + 1;
    }
    Some((dx, dy))
}

/// After reading the movement keys, a player stands idle when it does not
/// move and walks when it does.
pub fn settle_walk(state: &mut State, moving: bool)
    ensures
        *final(state) == (if moving {
            State::Walking
        } else {
            State::Idle
        }),
{
    if moving {
        state.set(State::Walking);
    } else {
        state.set(State::Idle);
    }
}

/// The heading sums the keys per axis, so opposite keys cancel out: its x
/// part is right minus left, its y part up minus down. The facing is the last
/// pressed direction in the order up, down, left, right, or the old one when
/// no key is pressed.
pub proof fn lemma_heading_per_axis(facing: Direction, pressed: Seq<bool>)
    requires
        pressed.len() == 4,
    ensures
        heading_upto(pressed, 4) == (
            (if pressed[3] { 1int } else { 0int }) - (if pressed[2] { 1int } else { 0int }),
            (if pressed[0] { 1int } else { 0int }) - (if pressed[1] { 1int } else { 0int }),
        ),
        facing_upto(facing, pressed, 4) == (if pressed[3] {
            Direction::EAST
        } else if pressed[2] {
            Direction::WEST
        } else if pressed[1] {
            Direction::SOUTH
        } else if pressed[0] {
            Direction::NORTH
        } else {
            facing
        }),
{
    reveal_with_fuel(heading_upto, 5);
    reveal_with_fuel(facing_upto, 5);
}

/// A player in the middle of any attack of a chain, or of a dash, is busy
/// and starts nothing new; a player that stands or walks is free.
pub proof fn lemma_busy_states(i: u32)
    ensures
        is_busy(State::Attacking(i)),
        is_busy(State::Dashing),
        !is_busy(State::Idle),
        !is_busy(State::Walking),
{
}

/// A chain of attacks cycles through its attacks: after one more attack the
/// index stays within the chain, and after the last one it starts again.
pub proof fn lemma_combo_cycles(current: u32, max: u32)
    requires
        current <= max,
        max < u32::MAX,
    ensures
        next_combo_index(current, max) <= max,
        current == max ==> next_combo_index(current, max) == 0,
        current < max ==> next_combo_index(current, max) == current + 1,
{
}

} // verus!
