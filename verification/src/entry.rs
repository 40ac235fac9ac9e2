//! Entering the world and leaving it.
//!
//! A character enters either fresh (just created, or never recorded) or from
//! the roster's record of where it was last seen. Leaving files that record
//! at the same instant the journal keeps its copy, so a player who logs out
//! and straight back in finds the character where it stopped, whether or not
//! the store has been written yet.
use vstd::prelude::*;
use crate::inventory::{equip_all, filed_for, mounted_by, refusal_of, remounted, unrefused};
use crate::records::{CharacterRecord, Direction, ItemRecord, StatLockRecord};
use crate::session::without_owner;
use crate::names::{names_match, same_name, trim, trimmed_of};
use crate::roster::{
    CharacterEntry,
    enrolled, lookup, names_in, remembered, lemma_enrol_is_idempotent, lemma_remember_then_lookup,
    roster_wf,
};
use crate::session::{name_refusal, player_on, player_with, row_at};
use crate::types::{
    ConnectionId, Event, Facing, Outbound, Packet, Point, StartLocation, facing_code, facing_of,
};
use crate::world::{
    Player, Walker, World, contains_serial, insert_serial, players_distinct, remove_serial,
};

verus! {

/// The highest serial a mobile can have.
pub const LAST_MOBILE_SERIAL: u32 = 0x3FFF_FFFF;

/// The body a character is given when nothing says otherwise.
pub const DEFAULT_BODY: u16 = 0x0190;

/// The statistic a character is given when nothing says otherwise.
pub const DEFAULT_STAT: u16 = 100;

/// The grey body a dead character walks in, for the living body it died in.
pub open spec fn ghost_body(living: u16) -> u16 {
    if living == 0x0191 {
        0x0193
    } else {
        0x0192
    }
}

fn ghost_body_for(living: u16) -> (grey: u16)
    ensures
        grey == ghost_body(living),
{
    if living == 0x0191 {
        0x0193
    } else {
        0x0192
    }
}

/// A character entering with nothing on file.
pub struct FreshCharacter {
    pub facet: u8,
    /// Where it starts; `None` is the world's own start.
    pub start: Option<Point>,
    pub body: u16,
    pub hue: u16,
    pub strength: u16,
    pub dexterity: u16,
    pub intelligence: u16,
    pub dead: bool,
}

/// Which character enters.
pub enum Character {
    /// A character created this run: it has nothing on file yet.
    Fresh(FreshCharacter),
    /// A character off the account's list: where it was is the roster's to say.
    Saved,
}

/// What a client sends when the player finishes the creation screen, as far
/// as the world reads it.
pub struct CreateCharacter {
    /// The name as typed, padded by the client.
    pub name: String,
    /// An index into the cities this shard offers.
    pub start_location: u32,
    /// The body the chosen sex and race make.
    pub body: u16,
    pub hue: u16,
    pub strength: u8,
    pub dexterity: u8,
    pub intelligence: u8,
}

/// The city a pick names, if it names one on offer.
pub open spec fn chosen_start(starts: Seq<StartLocation>, pick: u32) -> Option<Point> {
    if (pick as int) < starts.len() {
        Some(starts[pick as int].position)
    } else {
        None
    }
}

/// The facet a pick puts a new character on.
pub open spec fn chosen_facet(starts: Seq<StartLocation>, default_facet: u8, pick: u32) -> u8 {
    if (pick as int) < starts.len() {
        starts[pick as int].map
    } else {
        default_facet
    }
}

/// A connection entering the world with a character.
pub struct Entering {
    pub connection: ConnectionId,
    pub account: String,
    pub name: String,
    pub character: Character,
}

/// The tick something happened `age` ticks before `now`; the start of the
/// run for an age older than the run.
pub open spec fn since(now: u64, age: u64) -> u64 {
    if age <= now {
        (now - age) as u64
    } else {
        0
    }
}

/// How many ticks before `now` a tick was; none for a tick not yet come.
pub open spec fn age_at(now: u64, then: u64) -> u64 {
    if then <= now {
        (now - then) as u64
    } else {
        0
    }
}

/// A character record as a player standing in the world at tick `now`:
/// where the record says, looking as it says, a ghost if it died, in the
/// guild it was in, with its stat arrows and each stat's last rise as long
/// ago as the record says.
pub open spec fn stands_as(p: Player, record: CharacterRecord, now: u64) -> bool {
    &&& p.serial == record.serial
    &&& p.facet == record.facet
    &&& p.position == Point { x: record.x, y: record.y, z: record.z }
    &&& p.heading == facing_of(record.facing)
    &&& p.hue == record.hue
    &&& p.strength == record.strength
    &&& p.dexterity == record.dexterity
    &&& p.intelligence == record.intelligence
    &&& p.fame == record.fame
    &&& p.karma == record.karma
    &&& p.murders == record.murders
    &&& p.guild == record.guild
    &&& p.guild_title == record.guild_title
    &&& p.guild_rank == record.guild_rank
    &&& p.guild_candidate == record.guild_candidate
    &&& p.stat_locks == (record.stat_locks.strength, record.stat_locks.dexterity, record.stat_locks.intelligence)
    &&& p.last_gain == (
        since(now, record.stat_locks.strength_age),
        since(now, record.stat_locks.dexterity_age),
        since(now, record.stat_locks.intelligence_age),
    )
    &&& if record.dead {
        p.living_body == Some(record.body) && p.body == ghost_body(record.body)
    } else {
        p.living_body is None && p.body == record.body
    }
}

/// What a player is saved as at tick `now`: the living body even for a
/// ghost, a flag that it is dead, and each stat's last rise as an age.
pub open spec fn spec_record_of(p: Player, now: u64) -> CharacterRecord {
    CharacterRecord {
        serial: p.serial,
        account: p.account,
        name: p.name,
        body: match p.living_body {
            Some(living) => living,
            None => p.body,
        },
        hue: p.hue,
        facet: p.facet,
        x: p.position.x,
        y: p.position.y,
        z: p.position.z,
        facing: facing_code(p.heading),
        strength: p.strength,
        dexterity: p.dexterity,
        intelligence: p.intelligence,
        dead: p.living_body is Some,
        fame: p.fame,
        karma: p.karma,
        murders: p.murders,
        guild: p.guild,
        guild_title: p.guild_title,
        guild_rank: p.guild_rank,
        guild_candidate: p.guild_candidate,
        stat_locks: StatLockRecord {
            strength: p.stat_locks.0,
            dexterity: p.stat_locks.1,
            intelligence: p.stat_locks.2,
            strength_age: age_at(now, p.last_gain.0),
            dexterity_age: age_at(now, p.last_gain.1),
            intelligence_age: age_at(now, p.last_gain.2),
        },
    }
}

/// Whether a serial is free for a new mobile.
pub open spec fn serial_free(world: &World, serial: u32) -> bool {
    &&& !world.registry.reserved@.contains(serial)
    &&& !world.registry.bound@.contains(serial)
}

/// A player saved and restored stands as it stood: the record a logout
/// writes, entered again, puts the character back where it was, facing the
/// way it faced, in the body it had, in its guild, with its stat arrows, and
/// with each stat's last rise where it was when that rise was not later than
/// the save.
pub proof fn lemma_saved_player_stands_as_it_stood(p: Player, q: Player, now: u64)
    requires
        stands_as(q, spec_record_of(p, now), now),
        p.living_body is Some ==> p.body == ghost_body(p.living_body->0),
    ensures
        q.serial == p.serial,
        q.position == p.position,
        q.facet == p.facet,
        q.heading == p.heading,
        q.body == p.body,
        q.living_body == p.living_body,
        q.hue == p.hue,
        q.strength == p.strength,
        q.dexterity == p.dexterity,
        q.intelligence == p.intelligence,
        q.fame == p.fame,
        q.karma == p.karma,
        q.murders == p.murders,
        q.guild == p.guild,
        q.guild_title == p.guild_title,
        q.guild_rank == p.guild_rank,
        q.guild_candidate == p.guild_candidate,
        q.stat_locks == p.stat_locks,
        p.last_gain.0 <= now ==> q.last_gain.0 == p.last_gain.0,
        p.last_gain.1 <= now ==> q.last_gain.1 == p.last_gain.1,
        p.last_gain.2 <= now ==> q.last_gain.2 == p.last_gain.2,
{
    crate::types::lemma_facing_round_trip(p.heading);
}

/// A player's record names it as it is: its serial, account and name,
/// where it stands and on which facet, the living body, its stats and
/// standing, whether it is dead, and how long ago each stat rose (none for
/// a rise not yet come).
pub proof fn lemma_record_names_the_player(p: Player, now: u64)
    ensures
        ({
            let r = spec_record_of(p, now);
            &&& r.serial == p.serial && r.account == p.account && r.name == p.name
            &&& r.facet == p.facet && r.x == p.position.x && r.y == p.position.y && r.z == p.position.z
            &&& r.hue == p.hue
            &&& r.strength == p.strength && r.dexterity == p.dexterity && r.intelligence == p.intelligence
            &&& r.fame == p.fame && r.karma == p.karma && r.murders == p.murders
            &&& r.dead == (p.living_body is Some)
            &&& (p.living_body is None ==> r.body == p.body)
            &&& (p.living_body is Some ==> r.body == p.living_body->0)
            &&& (p.last_gain.0 <= now ==> r.stat_locks.strength_age + p.last_gain.0 == now)
            &&& (p.last_gain.1 <= now ==> r.stat_locks.dexterity_age + p.last_gain.1 == now)
            &&& (p.last_gain.2 <= now ==> r.stat_locks.intelligence_age + p.last_gain.2 == now)
            &&& (p.last_gain.0 > now ==> r.stat_locks.strength_age == 0)
            &&& (p.last_gain.1 > now ==> r.stat_locks.dexterity_age == 0)
            &&& (p.last_gain.2 > now ==> r.stat_locks.intelligence_age == 0)
            &&& r.stat_locks.strength == p.stat_locks.0 && r.stat_locks.dexterity == p.stat_locks.1
                && r.stat_locks.intelligence == p.stat_locks.2
            &&& r.guild == p.guild && r.guild_title == p.guild_title && r.guild_rank == p.guild_rank
            &&& r.guild_candidate == p.guild_candidate
        }),
{
}

/// After a logout files a player's record, the roster answers the next
/// entry with exactly that record, under any spelling of the account and the
/// name.
pub proof fn lemma_logout_is_read_back(
    roster: Seq<crate::roster::AccountView>,
    p: Player,
    now: u64,
    account: Seq<char>,
    name: Seq<char>,
)
    requires
        roster_wf(roster),
        crate::names::lowercase_of(account) == crate::names::lowercase_of(p.account@),
        crate::names::same_name(name, p.name@),
    ensures
        lookup(remembered(roster, spec_record_of(p, now)), account, name) == Some(spec_record_of(p, now)),
{
    lemma_remember_then_lookup(roster, spec_record_of(p, now), account, name);
}

/// The waiting list, the carried items and the bound serials after a
/// character's saved inventory is equipped on its arrival; see
/// [`World::restore_inventory`].
pub open spec fn geared(
    pending: Seq<ItemRecord>,
    carried: Seq<ItemRecord>,
    bound: Seq<u32>,
    owner: u32,
) -> (Seq<ItemRecord>, Seq<ItemRecord>, Seq<u32>) {
    let filed = filed_for(pending, owner);
    let equipped = equip_all((carried, bound), unrefused(filed, refusal_of(filed)));
    (without_owner(pending, owner), equipped.0, equipped.1)
}

/// Whether a new mobile could be given a serial: some serial from the
/// allocator's mark up is free.
pub open spec fn serial_left(world: &World) -> bool {
    exists|s: u32|
        1 <= s && world.registry.next_serial <= s <= LAST_MOBILE_SERIAL && #[trigger] serial_free(
            world,
            s,
        )
}

/// What entering does to the world: see [`World::enter`]. Nothing but the
/// players, the roster, the bound serials, the events and (for a character
/// from its record) the waiting inventories and the carried items can change;
/// either nothing changes at all, or exactly one player joins, enrolled on
/// its account and announced, standing where its record (or its start)
/// says, and a character entering from its record is equipped with its
/// saved inventory, which puts back in the saddle whoever it is a ridden
/// creature's item for (see [`remounted`]). A player joins whenever the connection plays nobody yet
/// and the character can stand: a recorded one whose serial is not already
/// in the world, any other one while a serial is left to give it.
pub open spec fn entry_outcome(before: World, after: World, entering: Entering) -> bool {
    let from_record = entering.character is Saved && lookup(
        before.roster@,
        entering.account@,
        entering.name@,
    ) is Some;
    &&& after.same_settings(&before)
    &&& after.connections == before.connections
    &&& after.outbound == before.outbound
    &&& after.ground == before.ground
    &&& after.decorations == before.decorations
    &&& after.houses == before.houses
    &&& after.journal == before.journal
    &&& after.registry.reserved == before.registry.reserved
    &&& after.bus.marked == before.bus.marked
    &&& (after.players@.len() == before.players@.len() || after.players@.len()
        == before.players@.len() + 1)
    &&& (after.players@.len() == before.players@.len() ==> {
        &&& after.players == before.players
        &&& after.roster == before.roster
        &&& after.registry.bound == before.registry.bound
        &&& after.pending == before.pending
        &&& after.carried == before.carried
        &&& after.bus == before.bus
    })
    &&& (after.players@.len() == before.players@.len() + 1 ==> {
        let p = after.players@.last();
        let placed = after.carried@.skip(before.carried@.len() as int);
        &&& after.players@.drop_last() == if from_record {
            remounted(before.players@, placed, before.mounts@)
        } else {
            before.players@
        }
        &&& p.riding == (from_record && mounted_by(placed, before.mounts@, p.serial))
        &&& p.connection == entering.connection
        &&& p.account == entering.account
        &&& p.name == entering.name
        &&& after.roster@ == enrolled(before.roster@, entering.account@, entering.name@)
        &&& after.bus.events@ == before.bus.events@.push(
            Event::MobileEntered { serial: p.serial },
        )
        &&& if from_record {
            (after.pending@, after.carried@, after.registry.bound@) == geared(
                before.pending@,
                before.carried@,
                before.registry.bound@.push(p.serial),
                p.serial,
            )
        } else {
            &&& after.pending == before.pending
            &&& after.carried == before.carried
            &&& after.registry.bound@ == before.registry.bound@.push(p.serial)
        }
        &&& match entering.character {
            Character::Saved => match lookup(before.roster@, entering.account@, entering.name@) {
                Some(record) => stands_as(p, record, before.ticks),
                None => p.position == before.start && p.facet == before.default_facet
                    && serial_free(&before, p.serial),
            },
            Character::Fresh(f) => {
                &&& p.position == match f.start {
                    Some(at) => at,
                    None => before.start,
                }
                &&& p.facet == f.facet
                &&& serial_free(&before, p.serial)
                &&& p.hue == f.hue
                &&& p.strength == f.strength
                &&& p.dexterity == f.dexterity
                &&& p.intelligence == f.intelligence
                &&& if f.dead {
                    p.living_body == Some(f.body) && p.body == ghost_body(f.body)
                } else {
                    p.living_body is None && p.body == f.body
                }
            },
        }
    })
    &&& (player_on(before.players@, entering.connection) >= 0 ==> after.players
        == before.players)
    &&& (({
        &&& player_on(before.players@, entering.connection) < 0
        &&& if from_record {
            !before.registry.bound@.contains(
                lookup(before.roster@, entering.account@, entering.name@)->0.serial,
            )
        } else {
            serial_left(&before)
        }
    }) ==> after.players@.len() == before.players@.len() + 1)
}

impl World {
    /// What a player is saved as at tick `now`; see [`spec_record_of`].
    pub fn record_of(p: &Player, now: u64) -> (record: CharacterRecord)
        ensures
            record == spec_record_of(*p, now),
    {
        let body = match p.living_body {
            Some(living) => living,
            None => p.body,
        };
        CharacterRecord {
            serial: p.serial,
            account: p.account.clone(),
            name: p.name.clone(),
            body,
            hue: p.hue,
            facet: p.facet,
            x: p.position.x,
            y: p.position.y,
            z: p.position.z,
            facing: p.heading.to_bits(),
            strength: p.strength,
            dexterity: p.dexterity,
            intelligence: p.intelligence,
            dead: p.living_body.is_some(),
            fame: p.fame,
            karma: p.karma,
            murders: p.murders,
            guild: p.guild,
            guild_title: p.guild_title.clone(),
            guild_rank: p.guild_rank,
            guild_candidate: p.guild_candidate,
            stat_locks: StatLockRecord {
                strength: p.stat_locks.0,
                dexterity: p.stat_locks.1,
                intelligence: p.stat_locks.2,
                strength_age: now.saturating_sub(p.last_gain.0),
                dexterity_age: now.saturating_sub(p.last_gain.1),
                intelligence_age: now.saturating_sub(p.last_gain.2),
            },
        }
    }

    /// Find a serial for a new mobile: the first free one from the
    /// allocator's mark, which then moves past it.
    fn allocate_serial(&mut self) -> (serial: Option<u32>)
        requires
            old(self).wf(),
        ensures
            final(self).wf(),
            final(self).same_settings(&*old(self)),
            final(self).same_people(&*old(self)),
            final(self).same_records(&*old(self)),
            final(self).registry.reserved == old(self).registry.reserved,
            final(self).registry.bound == old(self).registry.bound,
            match serial {
                Some(s) => 1 <= s <= LAST_MOBILE_SERIAL && serial_free(&*old(self), s),
                None => forall|s: u32|
                    1 <= s && old(self).registry.next_serial <= s <= LAST_MOBILE_SERIAL ==> !serial_free(
                        &*old(self),
                        s,
                    ),
            },
    {
        let mut candidate = self.registry.next_serial;
        if candidate == 0 {
            candidate = 1;
        }
        while candidate <= LAST_MOBILE_SERIAL
            invariant
                1 <= candidate,
                old(self).registry.next_serial <= candidate || old(self).registry.next_serial == 0,
                self.wf(),
                self.same_settings(&*old(self)),
                self.same_people(&*old(self)),
                self.same_records(&*old(self)),
                self.registry == old(self).registry,
                forall|s: u32|
                    1 <= s && old(self).registry.next_serial <= s < candidate ==> !serial_free(
                        &*old(self),
                        s,
                    ),
            decreases LAST_MOBILE_SERIAL + 1 - candidate,
        {
            if !contains_serial(&self.registry.reserved, candidate) && !contains_serial(
                &self.registry.bound,
                candidate,
            ) {
                self.registry.next_serial = candidate + 1;
                return Some(candidate);
            }
            candidate = candidate + 1;
        }
        None
    }

    /// Put a connection's character into the world.
    ///
    /// A saved character stands where the roster last saw it; one with nothing
    /// on file, or a fresh one, stands at its start on a new serial. It is
    /// enrolled on its account's list either way, and its arrival is announced.
    /// Nothing happens when the connection already plays a character, when the
    /// character's serial already stands in the world, or when no serial is
    /// left to give a new one.
    pub fn enter(&mut self, entering: Entering)
        requires
            old(self).wf(),
        ensures
            final(self).wf(),
            entry_outcome(*old(self), *final(self), entering),
    {
        if self.player_of(entering.connection).is_some() {
            return;
        }
        let Entering { connection, account, name, character } = entering;
        let saved = match &character {
            Character::Saved => match self.roster.get(account.as_str(), name.as_str()) {
                Some(record) => Some(record.copy()),
                None => None,
            },
            Character::Fresh(_) => None,
        };
        let south = Facing::walking(Direction::South);
        let from_record = saved.is_some();
        let player = match saved {
            Some(record) => {
                if contains_serial(&self.registry.bound, record.serial) {
                    return;
                }
                let heading = Facing::from_bits(record.facing);
                let position = Point { x: record.x, y: record.y, z: record.z };
                let (body, living_body) = if record.dead {
                    (ghost_body_for(record.body), Some(record.body))
                } else {
                    (record.body, None)
                };
                Player {
                    connection,
                    serial: record.serial,
                    account,
                    name,
                    body,
                    living_body,
                    hue: record.hue,
                    facet: record.facet,
                    position,
                    heading,
                    walker: Walker { position, facing: heading },
                    seated: false,
                    frozen_until: 0,
                    casting: false,
                    riding: false,
                    in_region: None,
                    strength: record.strength,
                    dexterity: record.dexterity,
                    intelligence: record.intelligence,
                    fame: record.fame,
                    karma: record.karma,
                    murders: record.murders,
                    guild: record.guild,
                    guild_title: record.guild_title.clone(),
                    guild_rank: record.guild_rank,
                    guild_candidate: record.guild_candidate,
                    stat_locks: (
                        record.stat_locks.strength,
                        record.stat_locks.dexterity,
                        record.stat_locks.intelligence,
                    ),
                    last_gain: (
                        self.ticks.saturating_sub(record.stat_locks.strength_age),
                        self.ticks.saturating_sub(record.stat_locks.dexterity_age),
                        self.ticks.saturating_sub(record.stat_locks.intelligence_age),
                    ),
                    cursor: None,
                }
            },
            None => {
                let serial = match self.allocate_serial() {
                    Some(serial) => serial,
                    None => return ,
                };
                let (facet, position, body, hue, strength, dexterity, intelligence, dead) =
                    match character {
                    Character::Fresh(f) => (
                        f.facet,
                        match f.start {
                            Some(at) => at,
                            None => self.start,
                        },
                        f.body,
                        f.hue,
                        f.strength,
                        f.dexterity,
                        f.intelligence,
                        f.dead,
                    ),
                    Character::Saved => (
                        self.default_facet,
                        self.start,
                        DEFAULT_BODY,
                        0,
                        DEFAULT_STAT,
                        DEFAULT_STAT,
                        DEFAULT_STAT,
                        false,
                    ),
                };
                let (drawn, living_body) = if dead {
                    (ghost_body_for(body), Some(body))
                } else {
                    (body, None)
                };
                Player {
                    connection,
                    serial,
                    account,
                    name,
                    body: drawn,
                    living_body,
                    hue,
                    facet,
                    position,
                    heading: south,
                    walker: Walker { position, facing: south },
                    seated: false,
                    frozen_until: 0,
                    casting: false,
                    riding: false,
                    in_region: None,
                    strength,
                    dexterity,
                    intelligence,
                    fame: 0,
                    karma: 0,
                    murders: 0,
                    guild: None,
                    guild_title: String::new(),
                    guild_rank: 0,
                    guild_candidate: None,
                    stat_locks: (0, 0, 0),
                    last_gain: (0, 0, 0),
                    cursor: None,
                }
            },
        };
        let serial = player.serial;
        proof {
            assert forall|i: int| 0 <= i < self.players@.len() implies self.players@[i].serial
                != serial by {
                assert(self.registry.bound@.contains(self.players@[i].serial));
            }
        }
        self.roster.enrol(player.account.as_str(), player.name.as_str());
        let ghost bound_before = self.registry.bound@;
        insert_serial(&mut self.registry.bound, serial);
        let ghost before = self.players@;
        self.players.push(player);
        self.bus.events.push(Event::MobileEntered { serial });
        proof {
            let now = self.players@;
            assert(now.drop_last() =~= before);
            assert forall|i: int| 0 <= i < now.len() implies self.registry.bound@.contains(
                #[trigger] now[i].serial,
            ) by {
                if i < now.len() - 1 {
                    assert(now[i] == before[i]);
                    assert(bound_before.contains(before[i].serial));
                    assert(bound_before.to_set().contains(now[i].serial));
                    assert(self.registry.bound@.to_set().contains(now[i].serial));
                } else {
                    assert(self.registry.bound@.to_set().contains(serial));
                }
            }
            assert forall|i: int, j: int|
                0 <= i < now.len() && 0 <= j < now.len() && i != j implies {
                &&& (#[trigger] now[i]).connection != (#[trigger] now[j]).connection
                &&& now[i].serial != now[j].serial
            } by {
                let last = now.len() - 1;
                if i < last && j < last {
                    assert(now[i] == before[i] && now[j] == before[j]);
                } else if i < last {
                    assert(now[i] == before[i]);
                    assert(before[i].connection != connection);
                    assert(before[i].serial != serial);
                } else {
                    assert(now[j] == before[j]);
                    assert(before[j].connection != connection);
                    assert(before[j].serial != serial);
                }
            }
        }
        if from_record {
            let ghost joined = self.players@;
            let ghost carried_before = self.carried@;
            self.restore_inventory(serial);
            proof {
                let placed = self.carried@.skip(carried_before.len() as int);
                assert(self.players@.drop_last() =~= remounted(joined.drop_last(), placed, self.mounts@));
            }
        }
    }

    /// Take a connection's character out of the world: its record is filed
    /// in the roster and kept by the journal at the same instant, its serial
    /// stops standing in the world and stays spoken for.
    pub fn despawn(&mut self, connection: ConnectionId)
        requires
            old(self).wf(),
        ensures
            final(self).wf(),
            final(self).same_settings(&*old(self)),
            final(self).connections == old(self).connections,
            final(self).outbound == old(self).outbound,
            final(self).pending == old(self).pending,
            final(self).ground == old(self).ground,
            final(self).decorations == old(self).decorations,
            final(self).houses == old(self).houses,
            final(self).carried == old(self).carried,
            final(self).bus == old(self).bus,
            final(self).journal.dirty == old(self).journal.dirty,
            final(self).journal.removed == old(self).journal.removed,
            final(self).journal.saves == old(self).journal.saves,
            final(self).registry.next_serial == old(self).registry.next_serial,
            player_on(old(self).players@, connection) < 0 ==> {
                &&& final(self).players == old(self).players
                &&& final(self).roster == old(self).roster
                &&& final(self).journal == old(self).journal
                &&& final(self).registry == old(self).registry
            },
            player_on(old(self).players@, connection) >= 0 ==> {
                let p = old(self).players@[player_on(old(self).players@, connection)];
                &&& final(self).players@ == old(self).players@.remove(
                    player_on(old(self).players@, connection),
                )
                &&& final(self).roster@ == remembered(old(self).roster@, spec_record_of(p, old(self).ticks))
                &&& final(self).journal.kept@ == old(self).journal.kept@.push(spec_record_of(p, old(self).ticks))
                &&& final(self).registry.bound@.to_set() == old(
                    self,
                ).registry.bound@.to_set().remove(p.serial)
                &&& final(self).registry.reserved@.to_set() == old(
                    self,
                ).registry.reserved@.to_set().insert(p.serial)
            },
    {
        let i = match self.player_of(connection) {
            Some(i) => i,
            None => return ,
        };
        let ghost before = self.players@;
        let player = self.players.remove(i);
        proof {
            let now = self.players@;
            assert forall|a: int, b: int|
                0 <= a < now.len() && 0 <= b < now.len() && a != b implies {
                &&& (#[trigger] now[a]).connection != (#[trigger] now[b]).connection
                &&& now[a].serial != now[b].serial
            } by {
                let oa = if a < i { a } else { a + 1 };
                let ob = if b < i { b } else { b + 1 };
                assert(now[a] == before[oa] && now[b] == before[ob]);
            }
        }
        let record = Self::record_of(&player, self.ticks);
        let ghost bound_before = self.registry.bound@;
        remove_serial(&mut self.registry.bound, player.serial);
        proof {
            let now = self.players@;
            assert forall|a: int| 0 <= a < now.len() implies self.registry.bound@.contains(
                #[trigger] now[a].serial,
            ) by {
                let oa = if a < i { a } else { a + 1 };
                assert(now[a] == before[oa]);
                assert(before[oa].serial != before[i as int].serial);
                assert(bound_before.contains(before[oa].serial));
                assert(bound_before.to_set().contains(now[a].serial));
                assert(self.registry.bound@.to_set().contains(now[a].serial));
            }
        }
        insert_serial(&mut self.registry.reserved, player.serial);
        self.roster.remember(record.copy());
        self.journal.kept.push(record);
    }

    /// Create a character on this connection's account and enter the world
    /// with it: the name is validated (see
    /// [`validate_new_name`](World::validate_new_name)) and a refusal is the
    /// login error the client renders; otherwise the character is enrolled
    /// and enters fresh, in the city the player picked, or at the world's
    /// start on the default facet when the pick names no city on offer.
    pub fn create_character(&mut self, connection: ConnectionId, create: CreateCharacter)
        requires
            old(self).wf(),
        ensures
            final(self).wf(),
            final(self).same_settings(&*old(self)),
            final(self).connections == old(self).connections,
            final(self).pending == old(self).pending,
            final(self).ground == old(self).ground,
            final(self).decorations == old(self).decorations,
            final(self).houses == old(self).houses,
            final(self).carried == old(self).carried,
            final(self).journal == old(self).journal,
            row_at(old(self).connections@, connection) < 0 ==> {
                &&& final(self).outbound == old(self).outbound
                &&& final(self).players == old(self).players
                &&& final(self).roster == old(self).roster
            },
            row_at(old(self).connections@, connection) >= 0 ==> {
                let account = old(self).connections@[row_at(old(self).connections@, connection)].account;
                match name_refusal(names_in(old(self).roster@, account@), create.name@) {
                    Some(reason) => {
                        &&& final(self).outbound@ == old(self).outbound@.push(
                            Outbound { connection, packet: Packet::LoginDenied { reason } },
                        )
                        &&& final(self).players == old(self).players
                        &&& final(self).roster == old(self).roster
                    },
                    None => {
                        let name = trimmed_of(create.name@);
                        &&& final(self).outbound == old(self).outbound
                        &&& final(self).roster@ == enrolled(old(self).roster@, account@, name)
                        &&& final(self).players@.len() == old(self).players@.len() + 1
                            ==> {
                            let p = final(self).players@.last();
                            &&& final(self).players@.drop_last() == old(self).players@
                            &&& p.connection == connection
                            &&& p.account == account
                            &&& p.name@ == name
                            &&& p.body == create.body
                            &&& p.facet == chosen_facet(old(self).screen.starts@, old(self).default_facet, create.start_location)
                            &&& p.position == match chosen_start(old(self).screen.starts@, create.start_location) {
                                Some(at) => at,
                                None => old(self).start,
                            }
                        }
                        &&& (final(self).players@.len() == old(self).players@.len() ==> final(self).players == old(self).players)
                        &&& player_on(old(self).players@, connection) >= 0 ==> final(self).players == old(self).players
                        &&& player_on(old(self).players@, connection) < 0 && serial_left(&*old(self))
                            ==> final(self).players@.len() == old(self).players@.len() + 1
                    },
                }
            },
    {
        let r = match self.row_index(connection) {
            Some(r) => r,
            None => return ,
        };
        let account = self.connections[r].account.clone();
        let name = match self.validate_new_name(account.as_str(), create.name.as_str()) {
            Ok(name) => name,
            Err(reason) => {
                self.refuse_screen(connection, reason);
                return;
            },
        };
        let pick = create.start_location as usize;
        let (facet, start) = if pick < self.screen.starts.len() {
            (self.screen.starts[pick].map, Some(self.screen.starts[pick].position))
        } else {
            (self.default_facet, None)
        };
        let ghost before = self.roster@;
        self.roster.enrol(account.as_str(), name.as_str());
        proof {
            lemma_enrol_is_idempotent(before, account@, name@, account@, name@);
            if serial_left(&*old(self)) {
                let s = choose|s: u32|
                    1 <= s && old(self).registry.next_serial <= s <= LAST_MOBILE_SERIAL
                        && #[trigger] serial_free(&*old(self), s);
                assert(serial_free(&*self, s));
            }
        }
        self.enter(
            Entering {
                connection,
                account,
                name,
                character: Character::Fresh(
                    FreshCharacter {
                        facet,
                        start,
                        body: create.body,
                        hue: create.hue,
                        strength: create.strength as u16,
                        dexterity: create.dexterity as u16,
                        intelligence: create.intelligence as u16,
                        dead: false,
                    },
                ),
            },
        );
    }
}


/// The first name on a list that names the same character as `wanted`.
pub open spec fn named_in(names: Seq<Seq<char>>, wanted: Seq<char>) -> Option<Seq<char>>
    decreases names.len(),
{
    if names.len() == 0 {
        None
    } else if same_name(names[0], wanted) {
        Some(names[0])
    } else {
        named_in(names.drop_first(), wanted)
    }
}

impl World {
    /// The character on this account that a name echoed by the client means:
    /// the name trimmed, then folded the way every name in the shard is, and
    /// looked up on the account's list rather than trusted.
    pub fn named_character(&self, account: &str, raw: &str) -> (found: Option<String>)
        requires
            self.wf(),
        ensures
            match found {
                Some(name) => named_in(names_in(self.roster@, account@), trimmed_of(raw@))
                    == Some(name@),
                None => named_in(names_in(self.roster@, account@), trimmed_of(raw@)) is None,
            },
    {
        let wanted = trim(raw);
        let listed = self.roster.characters(account);
        let ghost names = names_in(self.roster@, account@);
        proof {
            assert(names.skip(0) =~= names);
        }
        let mut i: usize = 0;
        while i < listed.len()
            invariant
                listed@.map_values(|e: CharacterEntry| e.name@) == names,
                names == names_in(self.roster@, account@),
                wanted@ == trimmed_of(raw@),
                i <= listed@.len(),
                named_in(names, wanted@) == named_in(names.skip(i as int), wanted@),
            decreases listed@.len() - i,
        {
            proof {
                let rest = names.skip(i as int);
                assert(rest[0] == listed@[i as int].name@);
                assert(rest.drop_first() =~= names.skip(i + 1));
            }
            if names_match(listed[i].name.as_str(), wanted) {
                let name = listed[i].name.clone();
                proof {
                    let rest = names.skip(i as int);
                    assert(same_name(rest[0], wanted@));
                    assert(named_in(rest, wanted@) == Some(rest[0]));
                }
                return Some(name);
            }
            i = i + 1;
        }
        proof {
            assert(names.skip(i as int).len() == 0);
        }
        None
    }

    /// Enter the character a connection picked off its list.
    ///
    /// The name is the one the client echoed, and is looked up rather than
    /// trusted (see [`World::named_character`]): a name this account does not
    /// have turns the connection away and invents nothing. A connection the
    /// world never took over is ignored.
    pub fn play_character(&mut self, connection: ConnectionId, raw: String)
        requires
            old(self).wf(),
        ensures
            final(self).wf(),
            row_at(old(self).connections@, connection) < 0 ==> *final(self) == *old(self),
            row_at(old(self).connections@, connection) >= 0 ==> {
                let account = old(self).connections@[row_at(
                    old(self).connections@,
                    connection,
                )].account;
                match named_in(names_in(old(self).roster@, account@), trimmed_of(raw@)) {
                    None => {
                        &&& final(self).bus.events@ == old(self).bus.events@.push(
                            Event::EntryRefused { connection },
                        )
                        &&& final(self).bus.marked == old(self).bus.marked
                        &&& final(self).same_settings(&*old(self))
                        &&& final(self).same_people(&*old(self))
                        &&& final(self).registry == old(self).registry
                        &&& final(self).roster == old(self).roster
                        &&& final(self).pending == old(self).pending
                        &&& final(self).ground == old(self).ground
                        &&& final(self).decorations == old(self).decorations
                        &&& final(self).houses == old(self).houses
                        &&& final(self).carried == old(self).carried
                        &&& final(self).journal == old(self).journal
                    },
                    Some(name) => {
                        &&& exists|entering: Entering|
                            {
                                &&& entering.connection == connection
                                &&& entering.account == account
                                &&& entering.name@ == name
                                &&& entering.character is Saved
                                &&& #[trigger] entry_outcome(*old(self), *final(self), entering)
                            }
                        &&& (player_on(old(self).players@, connection) < 0 && match lookup(
                            old(self).roster@,
                            account@,
                            name,
                        ) {
                            Some(record) => !old(self).registry.bound@.contains(record.serial),
                            None => serial_left(&*old(self)),
                        }) ==> final(self).players@.len() == old(self).players@.len() + 1
                    },
                }
            },
    {
        let r = match self.row_index(connection) {
            Some(r) => r,
            None => return ,
        };
        let account = self.connections[r].account.clone();
        match self.named_character(account.as_str(), raw.as_str()) {
            None => {
                self.bus.events.push(Event::EntryRefused { connection });
            },
            Some(name) => {
                let entering = Entering { connection, account, name, character: Character::Saved };
                let ghost e = entering;
                self.enter(entering);
                proof {
                    assert(entry_outcome(*old(self), *self, e));
                }
            },
        }
    }
}

} // verus!
