use vstd::prelude::*;
use crate::stats::{health_after, Damage, Health};

verus! {

/// A projectile that breaks after the given number of further hits.
pub struct Breakable(pub u32);

/// Marks a character that attacks can hurt.
pub struct Damageable;

/// The entities an attack has already hurt, so that it hurts each one only once.
/// Entities are identified by their id bits.
pub struct EntitiesHit(pub Vec<u64>);

impl Breakable {
    /// One more hit: the remaining count drops by one, stopping at zero.
    pub fn take_hit(&mut self)
        ensures
            final(self).0 == (if old(self).0 > 0 { (old(self).0 - 1) as u32 } else { 0u32 }),
    {
        if self.0 > 0 {
            self.0 = self.0 - 1;
        }
    }

    /// Whether the projectile has no hits left and is removed.
    pub fn is_broken(&self) -> (r: bool)
        ensures
            r == (self.0 == 0),
    {
        self.0 == 0
    }
}

impl EntitiesHit {
    /// Records that `entity` was hit. Returns `false`, and records nothing, when
    /// it had been hit before.
    pub fn register(&mut self, entity: u64) -> (fresh: bool)
        ensures
            fresh == !old(self).0@.contains(entity),
            fresh ==> final(self).0@ == old(self).0@.push(entity),
            !fresh ==> final(self).0@ == old(self).0@,
    {
        let mut i: usize = 0;
        while i < self.0.len()
            invariant
                i <= self.0@.len(),
                forall|j: int| 0 <= j < i ==> self.0@[j] != entity,
            decreases self.0@.len() - i,
        {
            if self.0[i] == entity {
                return false;
            }
            i = i + 1;
        }
        self.0.push(entity);
        true
    }
}

/// What a landed attack did to its target.
#[derive(Debug, Clone, Copy, PartialEq, Eq, Structural)]
pub struct HitReport {
    /// The attack hurt the target (it had not hurt it before).
    pub landed: bool,
    /// The target still has hit points, so it can be knocked back.
    pub target_alive: bool,
}

/// Applies an attack that touched `target`: an attack that keeps a list of hit
/// entities hurts each entity once only; otherwise the target loses the damage
/// from its health and a breakable projectile uses up one hit.
pub fn land_hit(
    entities_hit: &mut Option<EntitiesHit>,
    breakable: &mut Option<Breakable>,
    health: &mut Health,
    damage: &Damage,
    target: u64,
) -> (r: HitReport)
    ensures
        r.landed == (match *old(entities_hit) {
            Some(hit) => !hit.0@.contains(target),
            None => true,
        }),
        match (*old(entities_hit), *final(entities_hit)) {
            (Some(before), Some(after)) => after.0@ == (if r.landed {
                before.0@.push(target)
            } else {
                before.0@
            }),
            (None, None) => true,
            _ => false,
        },
        r.landed ==> final(health).current == health_after(old(health).current, damage.amount),
        !r.landed ==> final(health).current == old(health).current,
        final(health).max == old(health).max,
        match (*old(breakable), *final(breakable)) {
            (Some(before), Some(after)) => after.0 == (if r.landed && before.0 > 0 {
                (before.0 - 1) as u32
            } else {
                before.0
            }),
            (None, None) => true,
            _ => false,
        },
        r.target_alive == (final(health).current > 0),
{
    let landed = match entities_hit {
        Some(hit) => hit.register(target),
        None => true,
    };
    if landed {
        health.damage(damage);
        match breakable {
            Some(b) => b.take_hit(),
            None => {},
        }
    }
    HitReport { landed, target_alive: health.current > 0 }
}

/// An attack that tracks its hits hurts an entity at most once: once a hit on
/// `target` has landed, the target is on the list, and a contact with an
/// entity on the list does not land.
pub proof fn lemma_hit_lands_once(before: Seq<u64>, target: u64)
    ensures
        before.push(target).contains(target),
        forall|e: u64| #[trigger] before.contains(e) ==> before.push(target).contains(e),
{
    assert(before.push(target)[before.len() as int] == target);
    assert forall|e: u64| #[trigger] before.contains(e) implies before.push(target).contains(e) by {
        let i = choose|i: int| 0 <= i < before.len() && before[i] == e;
        assert(before.push(target)[i] == e);
    }
}

} // verus!
