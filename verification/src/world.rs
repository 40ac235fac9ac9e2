//! The world's own state, and the boot-time restore that fills it.
//!
//! Boot restores in one order that works: characters, then items. The serials
//! the characters' restore reserves are the owners the item records point at,
//! so the order is a signature: only [`World::restore_characters`] builds a
//! [`RestoredCharacters`], and [`World::restore_items`] takes one.
use vstd::prelude::*;
use crate::decor::{Decoration, DecorationRecord};
use crate::houses::{House, HouseDesignRecord, HouseRecord, MultiLayout, TileData};
use crate::names::same_name;
use crate::records::{
    CharacterRecord, ItemLocation, ItemRecord, GOLD_GRAPHIC, spec_valid_saved_amount,
    valid_saved_amount,
};
use crate::roster::{AccountView, Roster, remembered, lemma_remembered_wf, roster_wf};
use crate::types::{
    AccessLevel, CharacterScreen, ConnectionId, Event, Facing, Outbound, Packet, Point,
};

verus! {

/// Where a mobile is on its walk, and which way it faces.
#[derive(Clone, Copy, Debug, PartialEq, Eq)]
pub struct Walker {
    pub position: Point,
    pub facing: Facing,
}

/// The region a player was last seen in: on which facet, and which named
/// region of it, if any.
#[derive(Clone, Copy, Debug, PartialEq, Eq)]
pub struct RegionSeen {
    pub facet: u8,
    pub region: Option<u32>,
}

/// A character standing in the world, played by a connection.
pub struct Player {
    pub connection: ConnectionId,
    pub serial: u32,
    pub account: String,
    pub name: String,
    /// The body drawn now; a ghost's is the grey one.
    pub body: u16,
    /// While dead, the living body it died in and will rise back into.
    pub living_body: Option<u16>,
    pub hue: u16,
    pub facet: u8,
    pub position: Point,
    pub heading: Facing,
    pub walker: Walker,
    pub seated: bool,
    /// The tick a paralysis on it lifts; it cannot move before then.
    pub frozen_until: u64,
    /// Whether it is in the middle of casting a spell.
    pub casting: bool,
    /// Whether it is riding a mount.
    pub riding: bool,
    /// Where it was last seen, for noticing it cross into another region;
    /// `None` until it is first seen.
    pub in_region: Option<RegionSeen>,
    pub strength: u16,
    pub dexterity: u16,
    pub intelligence: u16,
    pub fame: i32,
    pub karma: i32,
    pub murders: u32,
    /// The guild it is a member of, its title and its rank there (empty and
    /// zero outside a guild), and the guild that has asked it to join.
    pub guild: Option<u32>,
    pub guild_title: String,
    pub guild_rank: u8,
    pub guild_candidate: Option<u32>,
    /// Its stat arrows: strength, dexterity, intelligence.
    pub stat_locks: (u8, u8, u8),
    /// The tick each of those stats last rose.
    pub last_gain: (u64, u64, u64),
    /// The targeting cursor up for it, by what it was raised for.
    pub cursor: Option<crate::cursor::TargetPurpose>,
}

/// A connection the world has taken over from the login conversation.
pub struct ConnectionRow {
    pub connection: ConnectionId,
    pub version: u32,
    pub account: String,
    pub access: AccessLevel,
    /// The music track this client was last told to play.
    pub last_music: Option<u16>,
}

/// The world's own scalars, which no player changes and a restart must not
/// lose: the hour of the day, where the dice have got to, and the highest
/// guild and alliance ids ever handed out (a disbanded one leaves no row, so
/// the highest id still in the store is not the highest ever issued).
#[derive(Clone, Copy, Debug, PartialEq, Eq)]
pub struct WorldRow {
    pub clock_minutes: u32,
    pub rng_state: u64,
    pub guild_high_water: u32,
    pub alliance_high_water: u32,
}

/// Everything one mobile carries, as a save holds it.
pub struct Inventory {
    pub owner: u32,
    pub items: Vec<ItemRecord>,
}

/// One save, handed to whatever writes the store.
pub struct Snapshot {
    pub tick: u64,
    pub characters: Vec<CharacterRecord>,
    pub removed: Vec<u32>,
    pub ground: Vec<ItemRecord>,
    pub decorations: Vec<DecorationRecord>,
    /// What each character in the world carries, in the order of the rows.
    pub inventories: Vec<Inventory>,
    /// The world's own scalars.
    pub world: WorldRow,
    /// Every house, and every designed house's design rows.
    pub houses: Vec<HouseRecord>,
    pub designs: Vec<HouseDesignRecord>,
}

/// Which serials are spoken for.
pub struct Registry {
    /// The next serial the allocator tries.
    pub next_serial: u32,
    /// Serials spoken for by something not in the world: a logged-out
    /// character, an item waiting in an inventory.
    pub reserved: Vec<u32>,
    /// Serials of the things standing in the world now.
    pub bound: Vec<u32>,
}

/// What changed since the last save.
pub struct Journal {
    /// Serials of the characters that changed.
    pub dirty: Vec<u32>,
    /// Records of characters that logged out.
    pub kept: Vec<CharacterRecord>,
    /// Serials of characters deleted.
    pub removed: Vec<u32>,
    /// Saves taken and not yet collected.
    pub saves: Vec<Snapshot>,
}

/// What the tick announced, and how far the journal has read it.
pub struct Bus {
    pub events: Vec<Event>,
    pub marked: usize,
}

/// The world.
pub struct World {
    pub ticks: u64,
    /// Save every this many ticks; zero never offers a save by itself.
    pub save_every: u64,
    /// Where a fresh character is put when no city was picked.
    pub start: Point,
    pub default_facet: u8,
    /// The facets this shard has loaded.
    pub facets: Vec<u8>,
    pub screen: CharacterScreen,
    /// The world's own scalars, as the clock, the dice and the guild and
    /// alliance registries last reported them.
    pub row: WorldRow,
    /// What the client's files say: each tile's data, each foundation's
    /// layout, and the item graphics that stand for a ridden creature.
    pub tiles: Vec<TileData>,
    pub multis: Vec<MultiLayout>,
    pub mounts: Vec<u16>,
    pub registry: Registry,
    pub roster: Roster,
    pub connections: Vec<ConnectionRow>,
    pub players: Vec<Player>,
    /// Inventories waiting for their owner, filed in the order they arrived;
    /// every one of these records has an owner.
    pub pending: Vec<ItemRecord>,
    /// The loose items on the ground.
    pub ground: Vec<ItemRecord>,
    /// The items worn by, or packed inside what is worn by, the mobiles in
    /// the world.
    pub carried: Vec<ItemRecord>,
    /// The shard's placed decoration: statics, doors and town containers.
    pub decorations: Vec<Decoration>,
    /// The shard's houses.
    pub houses: Vec<House>,
    pub outbound: Vec<Outbound>,
    pub bus: Bus,
    pub journal: Journal,
}

/// The serials a characters' restore reserved: the owners the item records
/// point at, and the proof that the characters came back first.
pub struct RestoredCharacters {
    reserved: Vec<u32>,
}

/// The owners whose inventory the items' restore filed and who are not among
/// the restored characters: the mobiles that have gear waiting.
pub struct RestoredItems {
    mobile_owners: Vec<u32>,
}

impl RestoredCharacters {
    /// The serials the restore reserved.
    pub closed spec fn serials(&self) -> Set<u32> {
        self.reserved@.to_set()
    }

    #[verifier::type_invariant]
    closed spec fn distinct(&self) -> bool {
        self.reserved@.no_duplicates()
    }

    /// How many characters came back from the store.
    pub fn count(&self) -> (n: usize)
        ensures
            n as nat == self.serials().len(),
    {
        proof {
            use_type_invariant(&*self);
            self.reserved@.unique_seq_to_set();
        }
        self.reserved.len()
    }

    fn holds(&self, serial: u32) -> (found: bool)
        ensures
            found == self.serials().contains(serial),
    {
        let mut i: usize = 0;
        while i < self.reserved.len()
            invariant
                i <= self.reserved@.len(),
                forall|j: int| 0 <= j < i ==> self.reserved@[j] != serial,
            decreases self.reserved@.len() - i,
        {
            if self.reserved[i] == serial {
                return true;
            }
            i = i + 1;
        }
        false
    }
}

impl RestoredItems {
    /// The owners with gear filed who are not restored characters.
    pub closed spec fn owners(&self) -> Set<u32> {
        self.mobile_owners@.to_set()
    }

    #[verifier::type_invariant]
    closed spec fn distinct(&self) -> bool {
        self.mobile_owners@.no_duplicates()
    }

    /// How many mobiles have gear waiting.
    pub fn count(&self) -> (n: usize)
        ensures
            n as nat == self.owners().len(),
    {
        proof {
            use_type_invariant(&*self);
            self.mobile_owners@.unique_seq_to_set();
        }
        self.mobile_owners.len()
    }
}

// ---------------------------------------------------------------------------
// The model of a restore.

/// The roster after filing every record, in order.
pub open spec fn remember_all(v: Seq<AccountView>, records: Seq<CharacterRecord>) -> Seq<
    AccountView,
>
    decreases records.len(),
{
    if records.len() == 0 {
        v
    } else {
        remembered(remember_all(v, records.drop_last()), records.last())
    }
}

pub proof fn lemma_remember_all_wf(v: Seq<AccountView>, records: Seq<CharacterRecord>)
    requires
        roster_wf(v),
    ensures
        roster_wf(remember_all(v, records)),
    decreases records.len(),
{
    if records.len() > 0 {
        lemma_remember_all_wf(v, records.drop_last());
        lemma_remembered_wf(remember_all(v, records.drop_last()), records.last());
    }
}

/// The serials a list of character records carries.
pub open spec fn character_serials(records: Seq<CharacterRecord>) -> Set<u32> {
    records.map_values(|r: CharacterRecord| r.serial).to_set()
}

/// The serials a list of item records carries.
pub open spec fn item_serials(records: Seq<ItemRecord>) -> Set<u32> {
    records.map_values(|r: ItemRecord| r.serial).to_set()
}

/// The records that have an owner, in order: what is filed for an owner.
pub open spec fn owned(records: Seq<ItemRecord>) -> Seq<ItemRecord>
    decreases records.len(),
{
    if records.len() == 0 {
        Seq::empty()
    } else if records.last().owner is Some {
        owned(records.drop_last()).push(records.last())
    } else {
        owned(records.drop_last())
    }
}

/// The owners of some records that are not among the restored characters.
pub open spec fn mobile_owners_of(records: Seq<ItemRecord>, characters: Set<u32>) -> Set<u32> {
    Set::new(
        |o: u32|
            exists|i: int|
                0 <= i < records.len() && #[trigger] records[i].owner == Some(o)
                    && !characters.contains(o),
    )
}

/// The facet a restored thing goes on: its own if this shard loads it,
/// otherwise the default.
pub open spec fn landing_facet(facets: Seq<u8>, default_facet: u8, facet: u8) -> u8 {
    if facets.contains(facet) {
        facet
    } else {
        default_facet
    }
}

/// A ground record as it is placed: on a facet the shard has, gold always a
/// stackable pile whatever an older save said, and its trap read back (see
/// [`crate::records::spec_restored_trap`]).
pub open spec fn placed_form(record: ItemRecord, facet: u8) -> ItemRecord {
    match record.location {
        ItemLocation::Ground { x, y, z, .. } => ItemRecord {
            stackable: record.stackable || record.graphic == GOLD_GRAPHIC,
            location: ItemLocation::Ground { facet, x, y, z },
            trap: crate::records::spec_restored_trap(record.trap),
            ..record
        },
        _ => record,
    }
}

/// Whether a record is placed on the ground at restore: it lies on the
/// ground, its amount is one the world can hold, and its serial is not
/// already standing in the world.
pub open spec fn places(bound: Seq<u32>, record: ItemRecord) -> bool {
    &&& record.location is Ground
    &&& spec_valid_saved_amount(record.graphic, record.amount)
    &&& !bound.contains(record.serial)
}

/// The ground and the bound serials after placing one record.
pub open spec fn place_one(
    state: (Seq<ItemRecord>, Seq<u32>),
    facets: Seq<u8>,
    default_facet: u8,
    record: ItemRecord,
) -> (Seq<ItemRecord>, Seq<u32>) {
    if places(state.1, record) {
        (
            state.0.push(
                placed_form(record, landing_facet(facets, default_facet, record.location->facet)),
            ),
            state.1.push(record.serial),
        )
    } else {
        state
    }
}

/// The ground and the bound serials after placing every ownerless record.
pub open spec fn place_all(
    state: (Seq<ItemRecord>, Seq<u32>),
    facets: Seq<u8>,
    default_facet: u8,
    records: Seq<ItemRecord>,
) -> (Seq<ItemRecord>, Seq<u32>)
    decreases records.len(),
{
    if records.len() == 0 {
        state
    } else {
        let before = place_all(state, facets, default_facet, records.drop_last());
        if records.last().owner is None {
            place_one(before, facets, default_facet, records.last())
        } else {
            before
        }
    }
}

// ---------------------------------------------------------------------------
// The world.

/// No two rows for one connection.
pub open spec fn connections_distinct(rows: Seq<ConnectionRow>) -> bool {
    forall|i: int, j: int|
        0 <= i < rows.len() && 0 <= j < rows.len() && i != j ==> #[trigger] rows[i].connection
            != #[trigger] rows[j].connection
}

/// No connection plays two characters, and no character is played twice.
pub open spec fn players_distinct(players: Seq<Player>) -> bool {
    forall|i: int, j: int|
        0 <= i < players.len() && 0 <= j < players.len() && i != j ==> {
            &&& (#[trigger] players[i]).connection != (#[trigger] players[j]).connection
            &&& players[i].serial != players[j].serial
        }
}

/// Players whose serials were bound stay bound when the bound serials only
/// grow.
pub(crate) proof fn lemma_players_stay_bound(players: Seq<Player>, before: Seq<u32>, after: Seq<u32>)
    requires
        forall|i: int| 0 <= i < players.len() ==> before.contains(#[trigger] players[i].serial),
        before.to_set().subset_of(after.to_set()),
    ensures
        forall|i: int| 0 <= i < players.len() ==> after.contains(#[trigger] players[i].serial),
{
    assert forall|i: int| 0 <= i < players.len() implies after.contains(#[trigger] players[i].serial) by {
        assert(before.to_set().contains(players[i].serial));
        assert(after.to_set().contains(players[i].serial));
    }
}

/// Add a serial to a list of distinct serials, if it is not there.
pub(crate) fn insert_serial(serials: &mut Vec<u32>, serial: u32)
    requires
        old(serials)@.no_duplicates(),
    ensures
        final(serials)@.no_duplicates(),
        final(serials)@.to_set() == old(serials)@.to_set().insert(serial),
        old(serials)@.contains(serial) ==> final(serials)@ == old(serials)@,
        !old(serials)@.contains(serial) ==> final(serials)@ == old(serials)@.push(serial),
{
    if contains_serial(serials, serial) {
        proof {
            assert(serials@.to_set() =~= serials@.to_set().insert(serial));
        }
        return;
    }
    let ghost before = serials@;
    serials.push(serial);
    proof {
        before.lemma_push_to_set_commute(serial);
        let now = serials@;
        assert forall|a: int, b: int|
            0 <= a < now.len() && 0 <= b < now.len() && a != b implies now[a] != now[b] by {
            if a < before.len() && b < before.len() {
            } else if a < before.len() {
                assert(before[a] != serial);
            } else {
                assert(before[b] != serial);
            }
        }
    }
}

/// Take a serial out of a list of distinct serials, if it is there.
pub(crate) fn remove_serial(serials: &mut Vec<u32>, serial: u32)
    requires
        old(serials)@.no_duplicates(),
    ensures
        final(serials)@.no_duplicates(),
        final(serials)@.to_set() == old(serials)@.to_set().remove(serial),
{
    let mut i: usize = 0;
    while i < serials.len()
        invariant
            i <= serials@.len(),
            serials@ == old(serials)@,
            serials@.no_duplicates(),
            forall|j: int| 0 <= j < i ==> serials@[j] != serial,
        decreases serials@.len() - i,
    {
        if serials[i] == serial {
            let ghost before = serials@;
            serials.remove(i);
            proof {
                let now = serials@;
                assert forall|a: int, b: int|
                    0 <= a < now.len() && 0 <= b < now.len() && a != b implies now[a] != now[b] by {
                    let oa = if a < i { a } else { a + 1 };
                    let ob = if b < i { b } else { b + 1 };
                    assert(now[a] == before[oa] && now[b] == before[ob]);
                }
                assert forall|x: u32| now.to_set().contains(x) == before.to_set().remove(serial).contains(x) by {
                    if now.contains(x) {
                        let k = choose|k: int| 0 <= k < now.len() && now[k] == x;
                        let ok = if k < i { k } else { k + 1 };
                        assert(before[ok] == x);
                        assert(ok != i);
                    }
                    if x != serial && before.contains(x) {
                        let k = choose|k: int| 0 <= k < before.len() && before[k] == x;
                        assert(k != i);
                        let nk = if k < i { k } else { k - 1 };
                        assert(now[nk] == x);
                    }
                }
                assert(now.to_set() =~= before.to_set().remove(serial));
            }
            return;
        }
        i = i + 1;
    }
    proof {
        assert(serials@.to_set() =~= serials@.to_set().remove(serial));
    }
}

/// Whether a list of serials holds one.
pub(crate) fn contains_serial(serials: &Vec<u32>, serial: u32) -> (found: bool)
    ensures
        found == serials@.contains(serial),
{
    let mut i: usize = 0;
    while i < serials.len()
        invariant
            i <= serials@.len(),
            forall|j: int| 0 <= j < i ==> serials@[j] != serial,
        decreases serials@.len() - i,
    {
        if serials[i] == serial {
            assert(serials@[i as int] == serial);
            return true;
        }
        i = i + 1;
    }
    false
}

proof fn lemma_character_serials_step(records: Seq<CharacterRecord>, i: int)
    requires
        0 <= i < records.len(),
    ensures
        character_serials(records.take(i + 1)) == character_serials(records.take(i)).insert(
            records[i].serial,
        ),
{
    let f = |r: CharacterRecord| r.serial;
    assert(records.take(i + 1).map_values(f) =~= records.take(i).map_values(f).push(records[i].serial));
    records.take(i).map_values(f).lemma_push_to_set_commute(records[i].serial);
}

proof fn lemma_item_serials_step(records: Seq<ItemRecord>, i: int)
    requires
        0 <= i < records.len(),
    ensures
        item_serials(records.take(i + 1)) == item_serials(records.take(i)).insert(records[i].serial),
{
    let f = |r: ItemRecord| r.serial;
    assert(records.take(i + 1).map_values(f) =~= records.take(i).map_values(f).push(records[i].serial));
    records.take(i).map_values(f).lemma_push_to_set_commute(records[i].serial);
}

proof fn lemma_mobile_owners_step(records: Seq<ItemRecord>, i: int, characters: Set<u32>)
    requires
        0 <= i < records.len(),
    ensures
        mobile_owners_of(records.take(i + 1), characters) == if records[i].owner is Some
            && !characters.contains(records[i].owner->0) {
            mobile_owners_of(records.take(i), characters).insert(records[i].owner->0)
        } else {
            mobile_owners_of(records.take(i), characters)
        },
{
    let before = records.take(i);
    let after = records.take(i + 1);
    let expected = if records[i].owner is Some && !characters.contains(records[i].owner->0) {
        mobile_owners_of(before, characters).insert(records[i].owner->0)
    } else {
        mobile_owners_of(before, characters)
    };
    assert forall|o: u32| mobile_owners_of(after, characters).contains(o) implies expected.contains(
        o,
    ) by {
        let k = choose|k: int|
            0 <= k < after.len() && #[trigger] after[k].owner == Some(o) && !characters.contains(o);
        if k < i {
            assert(before[k] == after[k]);
        }
    }
    assert forall|o: u32| expected.contains(o) implies mobile_owners_of(after, characters).contains(
        o,
    ) by {
        if mobile_owners_of(before, characters).contains(o) {
            let k = choose|k: int|
                0 <= k < before.len() && #[trigger] before[k].owner == Some(o) && !characters.contains(
                    o,
                );
            assert(after[k] == before[k]);
        } else {
            assert(after[i] == records[i]);
        }
    }
    assert(mobile_owners_of(after, characters) =~= expected);
}

proof fn lemma_place_all_step(
    state: (Seq<ItemRecord>, Seq<u32>),
    facets: Seq<u8>,
    default_facet: u8,
    records: Seq<ItemRecord>,
    i: int,
)
    requires
        0 <= i < records.len(),
    ensures
        place_all(state, facets, default_facet, records.take(i + 1)) == if records[i].owner is None {
            place_one(place_all(state, facets, default_facet, records.take(i)), facets, default_facet, records[i])
        } else {
            place_all(state, facets, default_facet, records.take(i))
        },
{
    assert(records.take(i + 1).drop_last() =~= records.take(i));
}

proof fn lemma_owned_step(records: Seq<ItemRecord>, i: int)
    requires
        0 <= i < records.len(),
    ensures
        owned(records.take(i + 1)) == if records[i].owner is Some {
            owned(records.take(i)).push(records[i])
        } else {
            owned(records.take(i))
        },
{
    assert(records.take(i + 1).drop_last() =~= records.take(i));
}

proof fn lemma_owned_all_owned(records: Seq<ItemRecord>)
    ensures
        forall|k: int| 0 <= k < owned(records).len() ==> (#[trigger] owned(records)[k]).owner is Some,
    decreases records.len(),
{
    if records.len() > 0 {
        lemma_owned_all_owned(records.drop_last());
    }
}

impl World {
    /// What every operation keeps.
    pub open spec fn wf(&self) -> bool {
        &&& self.roster.wf()
        &&& self.registry.reserved@.no_duplicates()
        &&& self.registry.bound@.no_duplicates()
        &&& self.journal.dirty@.no_duplicates()
        &&& self.journal.removed@.no_duplicates()
        &&& self.bus.marked <= self.bus.events@.len()
        &&& forall|i: int| 0 <= i < self.pending@.len() ==> (#[trigger] self.pending@[i]).owner is Some
        &&& connections_distinct(self.connections@)
        &&& players_distinct(self.players@)
        &&& forall|i: int|
            0 <= i < self.players@.len() ==> self.registry.bound@.contains(
                #[trigger] self.players@[i].serial,
            )
        &&& forall|i: int| 0 <= i < self.decorations@.len() ==> (#[trigger] self.decorations@[i]).keyed()
    }

    /// The configuration a tick never changes.
    pub open spec fn same_settings(&self, other: &World) -> bool {
        &&& self.ticks == other.ticks
        &&& self.save_every == other.save_every
        &&& self.start == other.start
        &&& self.default_facet == other.default_facet
        &&& self.facets == other.facets
        &&& self.screen == other.screen
        &&& self.row == other.row
        &&& self.tiles == other.tiles
        &&& self.multis == other.multis
        &&& self.mounts == other.mounts
    }

    /// The people: who is connected, who is playing, and what was sent them.
    pub open spec fn same_people(&self, other: &World) -> bool {
        &&& self.connections == other.connections
        &&& self.players == other.players
        &&& self.outbound == other.outbound
    }

    /// The persistence side: the journal, the bus it reads, the roster, and
    /// the items waiting.
    pub open spec fn same_records(&self, other: &World) -> bool {
        &&& self.roster == other.roster
        &&& self.pending == other.pending
        &&& self.ground == other.ground
        &&& self.decorations == other.decorations
        &&& self.houses == other.houses
        &&& self.carried == other.carried
        &&& self.bus == other.bus
        &&& self.journal == other.journal
    }

    /// Everything but the outbound queue.
    pub open spec fn only_sent(&self, other: &World) -> bool {
        &&& self.same_settings(other)
        &&& self.same_records(other)
        &&& self.registry == other.registry
        &&& self.connections == other.connections
        &&& self.players == other.players
    }

    /// A world with nobody in it and nothing restored, whose fresh characters
    /// start at `start` on facet zero, and which offers a save every four
    /// hundred ticks.
    pub fn new(start: Point) -> (world: World)
        ensures
            world.wf(),
            world.ticks == 0,
            world.save_every == 400,
            world.start == start,
            world.default_facet == 0,
            world.facets@ == seq![0u8],
            world.screen.starts@.len() == 0,
            world.screen.flags == 0,
            world.screen.features == 0,
            world.registry.next_serial == 1,
            world.registry.reserved@.len() == 0,
            world.registry.bound@.len() == 0,
            world.roster@.len() == 0,
            world.connections@.len() == 0,
            world.players@.len() == 0,
            world.pending@.len() == 0,
            world.ground@.len() == 0,
            world.carried@.len() == 0,
            world.decorations@.len() == 0,
            world.houses@.len() == 0,
            world.tiles@.len() == 0,
            world.multis@.len() == 0,
            world.mounts@.len() == 0,
            world.outbound@.len() == 0,
            world.bus.events@.len() == 0,
            world.bus.marked == 0,
            world.journal.dirty@.len() == 0,
            world.journal.kept@.len() == 0,
            world.journal.removed@.len() == 0,
            world.journal.saves@.len() == 0,
    {
        let mut facets: Vec<u8> = Vec::new();
        facets.push(0);
        proof {
            assert(facets@ =~= seq![0u8]);
        }
        World {
            ticks: 0,
            save_every: 400,
            start,
            default_facet: 0,
            facets,
            screen: CharacterScreen { starts: Vec::new(), flags: 0, features: 0 },
            row: WorldRow { clock_minutes: 0, rng_state: 0, guild_high_water: 0, alliance_high_water: 0 },
            tiles: Vec::new(),
            multis: Vec::new(),
            mounts: Vec::new(),
            registry: Registry { next_serial: 1, reserved: Vec::new(), bound: Vec::new() },
            roster: Roster::new(),
            connections: Vec::new(),
            players: Vec::new(),
            pending: Vec::new(),
            ground: Vec::new(),
            carried: Vec::new(),
            decorations: Vec::new(),
            houses: Vec::new(),
            outbound: Vec::new(),
            bus: Bus { events: Vec::new(), marked: 0 },
            journal: Journal {
                dirty: Vec::new(),
                kept: Vec::new(),
                removed: Vec::new(),
                saves: Vec::new(),
            },
        }
    }

    /// The same world, offering a save every `ticks` ticks instead; zero never
    /// offers one by itself.
    pub fn with_save_every(self, ticks: u64) -> (world: World)
        ensures
            world.save_every == ticks,
            world.ticks == self.ticks,
            world.start == self.start,
            world.default_facet == self.default_facet,
            world.facets == self.facets,
            world.screen == self.screen,
            world.registry == self.registry,
            world.roster == self.roster,
            world.connections == self.connections,
            world.players == self.players,
            world.pending == self.pending,
            world.ground == self.ground,
            world.decorations == self.decorations,
            world.houses == self.houses,
            world.carried == self.carried,
            world.outbound == self.outbound,
            world.bus == self.bus,
            world.journal == self.journal,
    {
        World { save_every: ticks, ..self }
    }

    /// The same world, reading the client's files as given: the tile data,
    /// the foundation layouts, and the item graphics that stand for a ridden
    /// creature.
    pub fn with_client_files(self, tiles: Vec<TileData>, multis: Vec<MultiLayout>, mounts: Vec<u16>) -> (world: World)
        requires
            self.wf(),
        ensures
            world.wf(),
            world.tiles == tiles,
            world.multis == multis,
            world.mounts == mounts,
            world.ticks == self.ticks,
            world.save_every == self.save_every,
            world.start == self.start,
            world.default_facet == self.default_facet,
            world.facets == self.facets,
            world.screen == self.screen,
            world.row == self.row,
            world.registry == self.registry,
            world.roster == self.roster,
            world.connections == self.connections,
            world.players == self.players,
            world.pending == self.pending,
            world.ground == self.ground,
            world.decorations == self.decorations,
            world.houses == self.houses,
            world.carried == self.carried,
            world.outbound == self.outbound,
            world.bus == self.bus,
            world.journal == self.journal,
    {
        World { tiles, multis, mounts, ..self }
    }

    /// Reserve a serial read from persistence so a fresh spawn never takes it.
    pub fn reserve_serial(&mut self, serial: u32)
        requires
            old(self).wf(),
        ensures
            final(self).wf(),
            final(self).registry.reserved@.to_set() == old(self).registry.reserved@.to_set().insert(
                serial,
            ),
            final(self).registry.next_serial == old(self).registry.next_serial,
            final(self).registry.bound == old(self).registry.bound,
            final(self).same_settings(&*old(self)),
            final(self).same_people(&*old(self)),
            final(self).same_records(&*old(self)),
    {
        insert_serial(&mut self.registry.reserved, serial);
    }

    pub(crate) fn has_facet(&self, facet: u8) -> (found: bool)
        ensures
            found == self.facets@.contains(facet),
    {
        let mut i: usize = 0;
        while i < self.facets.len()
            invariant
                i <= self.facets@.len(),
                forall|j: int| 0 <= j < i ==> self.facets@[j] != facet,
            decreases self.facets@.len() - i,
        {
            if self.facets[i] == facet {
                assert(self.facets@[i as int] == facet);
                return true;
            }
            i = i + 1;
        }
        false
    }

    /// Bring the saved characters back from the store at boot: reserve each
    /// serial so a character created later cannot take it, and file where each
    /// character was, so playing it puts it back there.
    ///
    /// The result is what [`restore_items`](World::restore_items) needs, and the
    /// only way to obtain one.
    pub fn restore_characters(&mut self, records: Vec<CharacterRecord>) -> (restored:
        RestoredCharacters)
        requires
            old(self).wf(),
        ensures
            final(self).wf(),
            restored.serials() == character_serials(records@),
            final(self).registry.reserved@.to_set() == old(self).registry.reserved@.to_set().union(
                character_serials(records@),
            ),
            final(self).roster@ == remember_all(old(self).roster@, records@),
            final(self).registry.next_serial == old(self).registry.next_serial,
            final(self).registry.bound == old(self).registry.bound,
            final(self).same_settings(&*old(self)),
            final(self).same_people(&*old(self)),
            final(self).pending == old(self).pending,
            final(self).ground == old(self).ground,
            final(self).decorations == old(self).decorations,
            final(self).houses == old(self).houses,
            final(self).carried == old(self).carried,
            final(self).bus == old(self).bus,
            final(self).journal == old(self).journal,
    {
        let ghost all = records@;
        let mut reserved: Vec<u32> = Vec::new();
        proof {
            assert(all.take(0).map_values(|r: CharacterRecord| r.serial) =~= Seq::<u32>::empty());
            assert(reserved@.to_set() =~= Set::<u32>::empty());
            assert(old(self).registry.reserved@.to_set().union(Set::<u32>::empty()) =~= old(
                self,
            ).registry.reserved@.to_set());
            assert(all.take(0) =~= Seq::<CharacterRecord>::empty());
        }
        for record in it: records
            invariant
                it.seq() == all,
                self.wf(),
                reserved@.no_duplicates(),
                reserved@.to_set() == character_serials(all.take(it.index() as int)),
                self.registry.reserved@.to_set() == old(self).registry.reserved@.to_set().union(
                    character_serials(all.take(it.index() as int)),
                ),
                self.roster@ == remember_all(old(self).roster@, all.take(it.index() as int)),
                self.registry.next_serial == old(self).registry.next_serial,
                self.registry.bound == old(self).registry.bound,
                self.same_settings(&*old(self)),
                self.same_people(&*old(self)),
                self.pending == old(self).pending,
                self.ground == old(self).ground,
                self.decorations == old(self).decorations,
                self.houses == old(self).houses,
                self.carried == old(self).carried,
                self.bus == old(self).bus,
                self.journal == old(self).journal,
        {
            let ghost i = it.index() as int;
            proof {
                lemma_character_serials_step(all, i);
                assert(all.take(i + 1).drop_last() =~= all.take(i));
            }
            self.reserve_serial(record.serial);
            insert_serial(&mut reserved, record.serial);
            self.roster.remember(record);
            proof {
                assert(self.registry.reserved@.to_set() =~= old(self).registry.reserved@.to_set().union(
                    character_serials(all.take(i + 1)),
                ));
            }
        }
        proof {
            assert(all.take(all.len() as int) =~= all);
        }
        RestoredCharacters { reserved }
    }

    /// Put one restored item on the ground, bound to its saved serial; see
    /// [`place_one`] for what is refused and how it lands.
    fn place_ground_item(&mut self, record: ItemRecord)
        requires
            old(self).wf(),
        ensures
            final(self).wf(),
            (final(self).ground@, final(self).registry.bound@) == place_one(
                (old(self).ground@, old(self).registry.bound@),
                old(self).facets@,
                old(self).default_facet,
                record,
            ),
            final(self).registry.reserved == old(self).registry.reserved,
            final(self).registry.next_serial == old(self).registry.next_serial,
            final(self).same_settings(&*old(self)),
            final(self).same_people(&*old(self)),
            final(self).roster == old(self).roster,
            final(self).pending == old(self).pending,
            final(self).carried == old(self).carried,
            final(self).decorations == old(self).decorations,
            final(self).houses == old(self).houses,
            final(self).bus == old(self).bus,
            final(self).journal == old(self).journal,
    {
        let (facet, x, y, z) = match record.location {
            ItemLocation::Ground { facet, x, y, z } => (facet, x, y, z),
            _ => return ,
        };
        if !valid_saved_amount(record.graphic, record.amount) {
            return;
        }
        if contains_serial(&self.registry.bound, record.serial) {
            return;
        }
        let facet = if self.has_facet(facet) {
            facet
        } else {
            self.default_facet
        };
        let ghost as_saved = record;
        let stackable = record.stackable || record.graphic == GOLD_GRAPHIC;
        let trap = crate::records::restored_trap(record.trap);
        let placed = ItemRecord {
            stackable,
            location: ItemLocation::Ground { facet, x, y, z },
            trap,
            ..record
        };
        let ghost bound_before = self.registry.bound@;
        insert_serial(&mut self.registry.bound, placed.serial);
        proof {
            lemma_players_stay_bound(self.players@, bound_before, self.registry.bound@);
        }
        self.ground.push(placed);
        proof {
            assert(placed == placed_form(
                as_saved,
                landing_facet(old(self).facets@, old(self).default_facet, as_saved.location->facet),
            ));
        }
    }

    /// Bring saved items back from the store at boot: reserve every item's
    /// serial, place the loose ground items now, and file each carried item
    /// under its owner for the owner's arrival.
    ///
    /// Takes the characters' restore's result, because the serials it
    /// reserved are the owners these records point at, and returns the owners
    /// that are not characters: the mobiles whose gear the mobiles' restore
    /// equips.
    pub fn restore_items(&mut self, records: Vec<ItemRecord>, characters: &RestoredCharacters) -> (restored: RestoredItems)
        requires
            old(self).wf(),
        ensures
            final(self).wf(),
            final(self).registry.reserved@.to_set() == old(self).registry.reserved@.to_set().union(
                item_serials(records@),
            ),
            final(self).pending@ == old(self).pending@ + owned(records@),
            (final(self).ground@, final(self).registry.bound@) == place_all(
                (old(self).ground@, old(self).registry.bound@),
                old(self).facets@,
                old(self).default_facet,
                records@,
            ),
            restored.owners() == mobile_owners_of(records@, characters.serials()),
            final(self).carried == old(self).carried,
            final(self).decorations == old(self).decorations,
            final(self).houses == old(self).houses,
            final(self).registry.next_serial == old(self).registry.next_serial,
            final(self).roster == old(self).roster,
            final(self).same_settings(&*old(self)),
            final(self).same_people(&*old(self)),
            final(self).bus == old(self).bus,
            final(self).journal == old(self).journal,
    {
        let ghost all = records@;
        let mut i: usize = 0;
        proof {
            assert(all.take(0).map_values(|r: ItemRecord| r.serial) =~= Seq::<u32>::empty());
            assert(old(self).registry.reserved@.to_set().union(item_serials(all.take(0)))
                =~= old(self).registry.reserved@.to_set());
        }
        while i < records.len()
            invariant
                records@ == all,
                i <= all.len(),
                self.wf(),
                self.registry.reserved@.to_set() == old(self).registry.reserved@.to_set().union(
                    item_serials(all.take(i as int)),
                ),
                self.registry.next_serial == old(self).registry.next_serial,
                self.registry.bound == old(self).registry.bound,
                self.roster == old(self).roster,
                self.pending == old(self).pending,
                self.ground == old(self).ground,
                self.decorations == old(self).decorations,
                self.houses == old(self).houses,
                self.carried == old(self).carried,
                self.same_settings(&*old(self)),
                self.same_people(&*old(self)),
                self.bus == old(self).bus,
                self.journal == old(self).journal,
            decreases all.len() - i,
        {
            proof {
                lemma_item_serials_step(all, i as int);
            }
            self.reserve_serial(records[i].serial);
            proof {
                assert(self.registry.reserved@.to_set() =~= old(self).registry.reserved@.to_set().union(
                    item_serials(all.take(i as int + 1)),
                ));
            }
            i = i + 1;
        }
        proof {
            assert(all.take(all.len() as int) =~= all);
        }
        let ghost reserved_now = self.registry.reserved;
        let mut mobile_owners: Vec<u32> = Vec::new();
        proof {
            assert(all.take(0) =~= Seq::<ItemRecord>::empty());
            assert(mobile_owners@.to_set() =~= mobile_owners_of(all.take(0), characters.serials()));
            assert(self.pending@ + owned(all.take(0)) =~= self.pending@);
        }
        for record in it: records
            invariant
                it.seq() == all,
                self.wf(),
                self.registry.reserved == reserved_now,
                self.carried == old(self).carried,
                self.decorations == old(self).decorations,
                self.houses == old(self).houses,
                mobile_owners@.no_duplicates(),
                mobile_owners@.to_set() == mobile_owners_of(
                    all.take(it.index() as int),
                    characters.serials(),
                ),
                self.pending@ == old(self).pending@ + owned(all.take(it.index() as int)),
                (self.ground@, self.registry.bound@) == place_all(
                    (old(self).ground@, old(self).registry.bound@),
                    old(self).facets@,
                    old(self).default_facet,
                    all.take(it.index() as int),
                ),
                self.registry.next_serial == old(self).registry.next_serial,
                self.roster == old(self).roster,
                self.same_settings(&*old(self)),
                self.same_people(&*old(self)),
                self.bus == old(self).bus,
                self.journal == old(self).journal,
        {
            let ghost k = it.index() as int;
            proof {
                lemma_mobile_owners_step(all, k, characters.serials());
                lemma_place_all_step(
                    (old(self).ground@, old(self).registry.bound@),
                    old(self).facets@,
                    old(self).default_facet,
                    all,
                    k,
                );
                lemma_owned_step(all, k);
            }
            match record.owner {
                None => {
                    self.place_ground_item(record);
                },
                Some(owner) => {
                    if !characters.holds(owner) {
                        insert_serial(&mut mobile_owners, owner);
                    }
                    let ghost filed = record;
                    self.pending.push(record);
                    proof {
                        assert(self.pending@ =~= old(self).pending@ + owned(all.take(k + 1)));
                        assert forall|j: int| 0 <= j < self.pending@.len() implies (
                        #[trigger] self.pending@[j]).owner is Some by {
                            if j == self.pending@.len() - 1 {
                                assert(self.pending@[j] == filed);
                            }
                        }
                    }
                },
            }
        }
        proof {
            assert(all.take(all.len() as int) =~= all);
        }
        RestoredItems { mobile_owners }
    }
}

} // verus!
