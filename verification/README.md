# relentless_revenge

The rules of a small isometric dungeon crawler, written in Verus and proved
against their contracts.

- `src/` is the verified library: character states and stats, how an attack
  lands (each entity hurt once, breakable projectiles), the roles of the two
  entities of a contact, the player's controls (attack chains, dashes, the
  heading read from the movement keys), the tile layout of a floor built from
  its rooms and bridges, where the player starts and the portal stands,
  progress from floor to floor and domain to domain, the weighted choice of
  enemies and the order of their spawn places, and asset paths.
- `app/` is the game around it: the Bevy plugins and systems, input,
  physics, rendering, the user interface, asset loading, and everything that
  computes with floating point. It hands plain values to the library and acts
  on what comes back.
- `tests/` runs the library on concrete values.

The floor tiles are kept in Bevy's `HashMap` and random draws come from
`turborand`; both are reached through a few trusted wrappers whose contracts
state what those crates' sources show. Spawn places are ordered in std's
`BTreeMap`, through the specifications that vstd gives it.
