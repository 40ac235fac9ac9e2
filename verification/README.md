# openshard_world

The bookkeeping half of a shard's world tick, verified with Verus: the roster
of accounts and their characters, the character screen, entering and leaving
the world, the end of a walk request, the persistence journal and its saves,
and the boot-time restore of characters, items, inventories and decoration.

Every public function states in its contract what it returns and what it
changes, over spec models of the world (`World::wf` is what every operation
keeps). Properties that span several calls are public proof functions, named
`lemma_*`, beside the functions they speak of.

Layout of `src/`:

- `world.rs`: the world's state, serial bookkeeping, and the boot restore of
  characters and ground items.
- `roster.rs`: accounts and their characters, looked up however the name is
  spelled.
- `session.rs`: the character screen: taking a connection over, listing,
  validating new names, deleting.
- `entry.rs`: entering the world (fresh, saved or picked off the list),
  creating a character, logging out.
- `motion.rs`: a walk or turn request, before and after the walk state
  machine decides it.
- `journal.rs`: marking changed characters and taking saves on the cadence.
- `inventory.rs`, `holdings.rs`: equipping a saved inventory (dropping corrupt
  containers with everything inside), and walking what a mobile carries.
- `decor.rs`: placed decoration, its locks, and the doorways shut doors seal,
  to the store and back.
- `houses.rs`: houses, their access lists and designs, to the store and back,
  and the walls a restored house raises from the client's tile data and
  foundation layouts.
- `addons.rs`: planning where each part of a house addon stands, or why it
  cannot.
- `regions.rs`: noticing a player cross a region boundary, and its music.
- `traps.rs`, `runebook.rs`: a sprung trap's effects; a runebook's buttons.
- `cursor.rs`: a targeting cursor's answer, taken once; setting a trap on a
  container.
- `spells.rs`: where a spell lands once aimed: a magic reflect turning it
  back, and whom or where each kind of spell lands on.
- `records.rs`, `types.rs`, `names.rs`: the stored record shapes, wire-level
  values, and how names are folded.

Not here: the systems that act on the entity registry and on the client's
data files rather than on plain values: combat and death, carrying out a spell, skills,
crafting, the staff tools and gump windows, NPC behaviour and spawning, trades,
quests, guilds, boats, the region index, and light. What this library needs
from them (a walk's outcome, a landing tile, the region a tile lies in, a dice
roll, whether a tile is free) is handed to its functions as plain values, and
what it needs from the client's files (tile data, foundation layouts, the
items that stand for a ridden creature) is handed to the world once, with
`World::with_client_files`.

`names.rs` holds the two trusted wrappers: `str::to_lowercase`, whose result
is named rather than restated, and `str::trim`, whose result is stated in
full over the Unicode white space it strips.
