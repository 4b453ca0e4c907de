use vstd::prelude::*;

verus! {

/// A domain: a run of consecutive floors that share their look, their enemies
/// and their boss. Every pair is an inclusive range.
pub struct DomainData {
    pub name: String,
    /// First and last floor of the domain.
    pub floors: (u32, u32),
    /// How many rooms a floor of the domain has.
    pub rooms: (u32, u32),
    /// Radius of each room.
    pub room_size: (u32, u32),
    /// Name of the boss that waits on the last floor.
    pub boss: String,
    /// How many enemies a floor of the domain has.
    pub enemies_count: (u32, u32),
    /// The enemies of the domain: (spawn weight, enemy name).
    pub enemies: Vec<(u32, String)>,
}

/// A domain as plain values.
pub struct DomainView {
    pub name: Seq<char>,
    pub floors: (u32, u32),
    pub rooms: (u32, u32),
    pub room_size: (u32, u32),
    pub boss: Seq<char>,
    pub enemies_count: (u32, u32),
    pub enemies: Seq<(u32, Seq<char>)>,
}

impl View for DomainData {
    type V = DomainView;

    open spec fn view(&self) -> DomainView {
        DomainView {
            name: self.name@,
            floors: self.floors,
            rooms: self.rooms,
            room_size: self.room_size,
            boss: self.boss@,
            enemies_count: self.enemies_count,
            enemies: self.enemies@.map_values(|e: (u32, String)| (e.0, e.1@)),
        }
    }
}

/// Whether the domain's floor range holds `floor`.
pub open spec fn domain_holds_floor(d: DomainView, floor: u32) -> bool {
    d.floors.0 <= floor <= d.floors.1
}

impl Clone for DomainData {
    fn clone(&self) -> (r: Self)
        ensures
            r@ == self@,
    {
        let mut enemies: Vec<(u32, String)> = Vec::new();
        let mut i: usize = 0;
        while i < self.enemies.len()
            invariant
                i <= self.enemies@.len(),
                enemies@.len() == i,
                forall|j: int|
                    0 <= j < i ==> (#[trigger] enemies@[j]).0 == self.enemies@[j].0
                        && enemies@[j].1@ == self.enemies@[j].1@,
            decreases self.enemies@.len() - i,
        {
            let entry = (self.enemies[i].0, self.enemies[i].1.clone());
            enemies.push(entry);
            i = i + 1;
        }
        assert(enemies@.map_values(|e: (u32, String)| (e.0, e.1@)) =~= self.enemies@.map_values(
            |e: (u32, String)| (e.0, e.1@),
        ));
        DomainData {
            name: self.name.clone(),
            floors: self.floors,
            rooms: self.rooms,
            room_size: self.room_size,
            boss: self.boss.clone(),
            enemies_count: self.enemies_count,
            enemies,
        }
    }
}

/// The domains as listed in the domain manifest file.
pub struct RawDomainManifest {
    pub domains: Vec<DomainData>,
}

} // verus!
