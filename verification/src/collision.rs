use vstd::prelude::*;

verus! {

/// A contact report of the physics engine between two entities (id bits),
/// with whether one of them had been removed from the world.
#[derive(Debug, Clone, Copy, PartialEq, Eq, Structural)]
pub enum CollisionEvent {
    Started(u64, u64, bool),
    Stopped(u64, u64, bool),
}

/// The two entities of a contact, in the order reported.
pub open spec fn contact_entities(e: CollisionEvent) -> (u64, u64) {
    match e {
        CollisionEvent::Started(a, b, _) => (a, b),
        CollisionEvent::Stopped(a, b, _) => (a, b),
    }
}

/// The pair (the one in the first role, the one in the second role) when
/// exactly one way of reading the contact fits, and nothing when none or both do.
pub open spec fn roles(a: u64, b: u64, forward: bool, backward: bool) -> Option<(u64, u64)> {
    if forward && !backward {
        Some((a, b))
    } else if !forward && backward {
        Some((b, a))
    } else {
        None
    }
}

/// Orders the two entities of a contact by role: `forward` says the first
/// entity plays the first role and the second the second one, `backward` the
/// other way round. An ambiguous or unfitting contact gives nothing.
pub fn assign_roles(a: u64, b: u64, forward: bool, backward: bool) -> (r: Option<(u64, u64)>)
    ensures
        r == roles(a, b, forward, backward),
{
    if forward && !backward {
        Some((a, b))
    } else if !forward && backward {
        Some((b, a))
    } else {
        None
    }
}

/// The (attack, target) pair of a contact that hurts: only a contact that
/// starts between live entities counts; then one of them must deal damage and
/// the other be damageable, and not the other way round as well.
pub fn hit_roles(
    event: CollisionEvent,
    first_deals_damage: bool,
    first_damageable: bool,
    second_deals_damage: bool,
    second_damageable: bool,
) -> (r: Option<(u64, u64)>)
    ensures
        match event {
            CollisionEvent::Started(a, b, removed) => r == (if removed {
                None
            } else {
                roles(
                    a,
                    b,
                    first_deals_damage && second_damageable,
                    second_deals_damage && first_damageable,
                )
            }),
            CollisionEvent::Stopped(_, _, _) => r is None,
        },
{
    match event {
        CollisionEvent::Started(a, b, removed) => {
            if removed {
                None
            } else {
                assign_roles(
                    a,
                    b,
                    first_deals_damage && second_damageable,
                    second_deals_damage && first_damageable,
                )
            }
        },
        CollisionEvent::Stopped(_, _, _) => None,
    }
}

/// The (experience drop, player) pair of a contact that picks experience up.
/// A contact that ends because an entity was removed is ignored; any other
/// contact, starting or ending, counts.
pub fn pickup_roles(
    event: CollisionEvent,
    first_is_drop: bool,
    first_is_player: bool,
    second_is_drop: bool,
    second_is_player: bool,
) -> (r: Option<(u64, u64)>)
    ensures
        match event {
            CollisionEvent::Stopped(a, b, true) => r is None,
            _ => r == roles(
                contact_entities(event).0,
                contact_entities(event).1,
                first_is_drop && second_is_player,
                first_is_player && second_is_drop,
            ),
        },
{
    let (a, b, counts) = match event {
        CollisionEvent::Started(a, b, _) => (a, b, true),
        CollisionEvent::Stopped(a, b, removed) => (a, b, !removed),
    };
    if !counts {
        return None;
    }
    assign_roles(a, b, first_is_drop && second_is_player, first_is_player && second_is_drop)
}

/// The roles of a contact do not depend on the order in which the engine
/// reports its two entities.
pub proof fn lemma_roles_symmetric(a: u64, b: u64, forward: bool, backward: bool)
    ensures
        roles(b, a, backward, forward) == roles(a, b, forward, backward),
        roles(a, b, forward, backward) matches Some(p) ==> (p == (a, b) || p == (b, a)),
{
}

} // verus!
