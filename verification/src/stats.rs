use vstd::prelude::*;

verus! {

/// Hit points of a character.
pub struct Health {
    pub current: u32,
    pub max: u32,
}

/// What a single hit takes away.
#[derive(Clone, Copy)]
pub struct Damage {
    pub amount: u32,
}

/// Walking speed of a character.
pub struct MovementSpeed {
    pub speed: u32,
}

/// Experience points, carried by players and dropped by enemies.
pub struct XP {
    pub amount: u32,
}

/// Experience level of the player.
pub struct Level {
    pub level: i32,
}

/// Marks an item lying on the floor that the player can pick up.
pub struct Drop;

/// Hit points left after taking `amount` of damage: they never go below zero.
pub open spec fn health_after(current: u32, amount: u32) -> u32 {
    if current >= amount {
        (current - amount) as u32
    } else {
        0
    }
}

impl Health {
    /// Full health with `max` hit points.
    pub fn new(max: u32) -> (r: Self)
        ensures
            r.current == max,
            r.max == max,
    {
        Self { current: max, max }
    }

    /// Takes a hit: the current hit points drop by the damage, stopping at zero.
    pub fn damage(&mut self, damage: &Damage)
        ensures
            final(self).current == health_after(old(self).current, damage.amount),
            final(self).max == old(self).max,
    {
        if let Some(health) = self.current.checked_sub(damage.amount) {
            self.current = health;
        } else {
            self.current = 0;
        }
    }
}

impl Damage {
    pub fn new(amount: u32) -> (r: Self)
        ensures
            r.amount == amount,
    {
        Self { amount }
    }
}

impl MovementSpeed {
    pub fn new(speed: u32) -> (r: Self)
        ensures
            r.speed == speed,
    {
        Self { speed }
    }
}

impl XP {
    pub fn new(xp: u32) -> (r: Self)
        ensures
            r.amount == xp,
    {
        Self { amount: xp }
    }

    /// Collects the experience of `other`.
    pub fn add(&mut self, other: &Self)
        requires
            old(self).amount + other.amount <= u32::MAX,
        ensures
            final(self).amount == old(self).amount + other.amount,
    {
        self.amount += other.amount;
    }
}

impl Level {
    /// The level a new player starts at: the first.
    pub fn default() -> (r: Level)
        ensures
            r.level == 1,
    {
        Self { level: 1 }
    }
}

/// What happens to a character whose health has run out.
#[derive(Debug, Clone, Copy, PartialEq, Eq, Structural)]
pub enum DeathOutcome {
    /// An enemy died: its death is reported so that the floor can count it.
    ReportKill,
    /// Any other character is removed from the world at once.
    Despawn,
}

/// Decides the fate of a character from its health: nothing happens while it
/// has hit points left; at zero an enemy's death is reported, anything else
/// is removed.
pub fn death_outcome(health: &Health, is_enemy: bool) -> (r: Option<DeathOutcome>)
    ensures
        health.current != 0 ==> r is None,
        health.current == 0 && is_enemy ==> r == Some(DeathOutcome::ReportKill),
        health.current == 0 && !is_enemy ==> r == Some(DeathOutcome::Despawn),
{
    if health.current == 0 {
        if is_enemy {
            Some(DeathOutcome::ReportKill)
        } else {
            Some(DeathOutcome::Despawn)
        }
    } else {
        None
    }
}

/// Two hits in a row take away as much as one hit of their summed damage
/// (health still stops at zero).
pub proof fn lemma_damage_composes(current: u32, first: u32, second: u32)
    requires
        first + second <= u32::MAX,
    ensures
        health_after(health_after(current, first), second) == health_after(current, (first + second) as u32),
{
}

/// Taking damage never raises health, and only a hit of at least the current
/// hit points brings it to zero.
pub proof fn lemma_damage_monotone(current: u32, amount: u32)
    ensures
        health_after(current, amount) <= current,
        (health_after(current, amount) == 0) <==> (amount >= current),
{
}

} // verus!
