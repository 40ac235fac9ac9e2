//! Saving: what changed, and the snapshot handed to whatever writes the store.
//!
//! The journal reads the tick's events rather than being called from every
//! mutation: a system that moves a mobile already has to announce it, and the
//! announcement is the mark. A save is a complete picture of who is here, what
//! each of them carries, and what lies loose, so nothing of value depends on
//! whether its owner happened to move this tick.
use vstd::prelude::*;
use crate::decor::{Decoration, decoration_record};
use crate::holdings::holds_exactly;
use crate::houses::{all_design_rows, houses_view, saved_as};
use crate::entry::spec_record_of;
use crate::records::{CharacterRecord, ItemRecord};
use crate::types::{Event, Outbound};
use crate::world::{Inventory, Snapshot, World, insert_serial};

verus! {

/// Whether an event says a character changed.
pub open spec fn touches(event: Event, serial: u32) -> bool {
    match event {
        Event::MobileEntered { serial: s } => s == serial,
        Event::MobileMoved { serial: s, .. } => s == serial,
        Event::MobileTurned { serial: s, .. } => s == serial,
        Event::StepRefused { .. } => false,
        Event::EntryRefused { .. } => false,
        Event::RegionChanged { .. } => false,
    }
}

/// Every serial some of these events say changed.
pub open spec fn touched(events: Seq<Event>) -> Set<u32> {
    Set::new(|s: u32| exists|i: int| 0 <= i < events.len() && touches(#[trigger] events[i], s))
}

/// The character rows a save carries: the records of those who logged out
/// since the last one, then every character in the world, whole.
pub open spec fn snapshot_rows(w: &World) -> Seq<CharacterRecord> {
    w.journal.kept@ + w.players@.map_values(|p: crate::world::Player| spec_record_of(p, w.ticks))
}

/// Whether a save would carry anything. An empty, quiet shard queues nothing.
pub open spec fn worth_saving(w: &World) -> bool {
    ||| snapshot_rows(w).len() > 0
    ||| w.journal.removed@.len() > 0
    ||| w.ground@.len() > 0
    ||| w.decorations@.len() > 0
}

/// Whether a tick count is one the cadence saves on.
pub open spec fn due(ticks: u64, save_every: u64) -> bool {
    save_every != 0 && ticks % save_every == 0
}

/// Whether a save's inventories are, row for row, everything each character
/// in the world carries.
pub open spec fn carries_all(rows: Seq<Inventory>, w: &World) -> bool {
    &&& rows.len() == w.players@.len()
    &&& forall|k: int|
        0 <= k < rows.len() ==> {
            &&& (#[trigger] rows[k]).owner == w.players@[k].serial
            &&& holds_exactly(rows[k].items@, w.carried@, w.players@[k].serial)
        }
}

/// What taking a save does to the journal, given the world before it.
pub open spec fn saved_from(before: &World, after: &World) -> bool {
    &&& after.journal.dirty@.len() == 0
    &&& after.journal.kept@.len() == 0
    &&& after.journal.removed@.len() == 0
    &&& if worth_saving(before) {
        &&& after.journal.saves@.len() == before.journal.saves@.len() + 1
        &&& after.journal.saves@.drop_last() == before.journal.saves@
        &&& after.journal.saves@.last().tick == before.ticks
        &&& after.journal.saves@.last().characters@ == snapshot_rows(before)
        &&& after.journal.saves@.last().removed@ == before.journal.removed@
        &&& after.journal.saves@.last().ground@ == before.ground@
        &&& after.journal.saves@.last().decorations@ == before.decorations@.map_values(
            |d: Decoration| decoration_record(d),
        )
        &&& carries_all(after.journal.saves@.last().inventories@, before)
        &&& after.journal.saves@.last().world == before.row
        &&& after.journal.saves@.last().houses@.len() == before.houses@.len()
        &&& forall|k: int|
            0 <= k < before.houses@.len() ==> saved_as(
                #[trigger] after.journal.saves@.last().houses@[k],
                before.houses@[k]@,
            )
        &&& after.journal.saves@.last().designs@ == all_design_rows(houses_view(before.houses@))
    } else {
        after.journal.saves == before.journal.saves
    }
}

proof fn lemma_touched_step(events: Seq<Event>, from: int, to: int)
    requires
        0 <= from <= to < events.len(),
    ensures
        touched(events.subrange(from, to + 1)) == touched(events.subrange(from, to)) + match events[to] {
            Event::MobileEntered { serial } => set![serial],
            Event::MobileMoved { serial, .. } => set![serial],
            Event::MobileTurned { serial, .. } => set![serial],
            Event::StepRefused { .. } => Set::<u32>::empty(),
            Event::EntryRefused { .. } => Set::<u32>::empty(),
            Event::RegionChanged { .. } => Set::<u32>::empty(),
        },
{
    let longer = events.subrange(from, to + 1);
    let shorter = events.subrange(from, to);
    let extra = match events[to] {
        Event::MobileEntered { serial } => set![serial],
        Event::MobileMoved { serial, .. } => set![serial],
        Event::MobileTurned { serial, .. } => set![serial],
        Event::StepRefused { .. } => Set::<u32>::empty(),
        Event::EntryRefused { .. } => Set::<u32>::empty(),
        Event::RegionChanged { .. } => Set::<u32>::empty(),
    };
    assert forall|s: u32| touched(longer).contains(s) implies (touched(shorter) + extra).contains(s) by {
        let k = choose|k: int| 0 <= k < longer.len() && touches(#[trigger] longer[k], s);
        if k < shorter.len() {
            assert(shorter[k] == longer[k]);
        } else {
            assert(longer[k] == events[to]);
        }
    }
    assert forall|s: u32| (touched(shorter) + extra).contains(s) implies touched(longer).contains(s) by {
        if touched(shorter).contains(s) {
            let k = choose|k: int| 0 <= k < shorter.len() && touches(#[trigger] shorter[k], s);
            assert(longer[k] == shorter[k]);
        } else {
            assert(longer[to - from] == events[to]);
            assert(touches(longer[to - from], s));
        }
    }
    assert(touched(longer) =~= touched(shorter) + extra);
}

impl World {
    /// Mark what changed, from what the tick said happened: every character
    /// an unread event says entered, moved or turned.
    pub fn mark_dirty(&mut self)
        requires
            old(self).wf(),
        ensures
            final(self).wf(),
            final(self).journal.dirty@.to_set() == old(self).journal.dirty@.to_set() + touched(
                old(self).bus.events@.subrange(old(self).bus.marked as int, old(self).bus.events@.len() as int),
            ),
            final(self).bus.marked == final(self).bus.events@.len(),
            final(self).bus.events == old(self).bus.events,
            final(self).journal.kept == old(self).journal.kept,
            final(self).journal.removed == old(self).journal.removed,
            final(self).journal.saves == old(self).journal.saves,
            final(self).same_settings(&*old(self)),
            final(self).same_people(&*old(self)),
            final(self).registry == old(self).registry,
            final(self).roster == old(self).roster,
            final(self).pending == old(self).pending,
            final(self).ground == old(self).ground,
            final(self).decorations == old(self).decorations,
            final(self).houses == old(self).houses,
            final(self).carried == old(self).carried,
    {
        let from = self.bus.marked;
        let mut i = from;
        proof {
            assert(touched(self.bus.events@.subrange(from as int, from as int)) =~= Set::<u32>::empty());
            assert(self.journal.dirty@.to_set() + Set::<u32>::empty() =~= self.journal.dirty@.to_set());
        }
        while i < self.bus.events.len()
            invariant
                from == old(self).bus.marked,
                from <= i <= self.bus.events@.len(),
                self.wf(),
                self.bus == old(self).bus,
                self.journal.dirty@.to_set() == old(self).journal.dirty@.to_set() + touched(
                    self.bus.events@.subrange(from as int, i as int),
                ),
                self.journal.kept == old(self).journal.kept,
                self.journal.removed == old(self).journal.removed,
                self.journal.saves == old(self).journal.saves,
                self.same_settings(&*old(self)),
                self.same_people(&*old(self)),
                self.registry == old(self).registry,
                self.roster == old(self).roster,
                self.pending == old(self).pending,
                self.ground == old(self).ground,
                self.decorations == old(self).decorations,
                self.houses == old(self).houses,
                self.carried == old(self).carried,
            decreases self.bus.events@.len() - i,
        {
            proof {
                lemma_touched_step(self.bus.events@, from as int, i as int);
            }
            let changed = match &self.bus.events[i] {
                Event::MobileEntered { serial } => Some(*serial),
                Event::MobileMoved { serial, .. } => Some(*serial),
                Event::MobileTurned { serial, .. } => Some(*serial),
                Event::StepRefused { .. } => None,
                Event::EntryRefused { .. } => None,
                Event::RegionChanged { .. } => None,
            };
            match changed {
                Some(serial) => {
                    insert_serial(&mut self.journal.dirty, serial);
                    proof {
                        assert(self.journal.dirty@.to_set() =~= old(self).journal.dirty@.to_set()
                            + touched(self.bus.events@.subrange(from as int, i as int + 1)));
                    }
                },
                None => {
                    proof {
                        assert(self.journal.dirty@.to_set() =~= old(self).journal.dirty@.to_set()
                            + touched(self.bus.events@.subrange(from as int, i as int + 1)));
                    }
                },
            }
            i = i + 1;
        }
        self.bus.marked = i;
    }

    /// Take a save now, whatever the cadence says: the journal's logged-out
    /// records and deletions, every character in the world whole with
    /// everything it carries, the loose items on the ground, and the placed
    /// decoration. A save that would carry nothing is skipped.
    pub fn take_snapshot(&mut self)
        requires
            old(self).wf(),
        ensures
            final(self).wf(),
            saved_from(&*old(self), &*final(self)),
            final(self).same_settings(&*old(self)),
            final(self).same_people(&*old(self)),
            final(self).registry == old(self).registry,
            final(self).roster == old(self).roster,
            final(self).pending == old(self).pending,
            final(self).ground == old(self).ground,
            final(self).decorations == old(self).decorations,
            final(self).houses == old(self).houses,
            final(self).carried == old(self).carried,
            final(self).bus == old(self).bus,
    {
        let ghost before = snapshot_rows(&*self);
        let mut characters: Vec<CharacterRecord> = Vec::new();
        std::mem::swap(&mut characters, &mut self.journal.kept);
        let mut removed: Vec<u32> = Vec::new();
        std::mem::swap(&mut removed, &mut self.journal.removed);
        self.journal.dirty = Vec::new();
        let kept_len = characters.len();
        let mut inventories: Vec<Inventory> = Vec::new();
        let mut i: usize = 0;
        while i < self.players.len()
            invariant
                i <= self.players@.len(),
                kept_len == old(self).journal.kept@.len(),
                characters@ == old(self).journal.kept@ + self.players@.take(i as int).map_values(
                    |p: crate::world::Player| spec_record_of(p, self.ticks),
                ),
                self.players == old(self).players,
                self.carried == old(self).carried,
                inventories@.len() == i,
                forall|k: int|
                    0 <= k < i ==> {
                        &&& (#[trigger] inventories@[k]).owner == self.players@[k].serial
                        &&& holds_exactly(
                            inventories@[k].items@,
                            self.carried@,
                            self.players@[k].serial,
                        )
                    },
            decreases self.players@.len() - i,
        {
            let record = Self::record_of(&self.players[i], self.ticks);
            characters.push(record);
            let owner = self.players[i].serial;
            let items = self.inventory_of(owner);
            inventories.push(Inventory { owner, items });
            i = i + 1;
            proof {
                assert(characters@ =~= old(self).journal.kept@ + self.players@.take(i as int).map_values(
                    |p: crate::world::Player| spec_record_of(p, self.ticks),
                ));
            }
        }
        proof {
            assert(self.players@.take(i as int) =~= self.players@);
        }
        let mut ground: Vec<ItemRecord> = Vec::new();
        let mut k: usize = 0;
        while k < self.ground.len()
            invariant
                k <= self.ground@.len(),
                ground@ == self.ground@.take(k as int),
            decreases self.ground@.len() - k,
        {
            ground.push(self.ground[k].copy());
            k = k + 1;
            proof {
                assert(ground@ =~= self.ground@.take(k as int));
            }
        }
        proof {
            assert(self.ground@.take(k as int) =~= self.ground@);
        }
        let decorations = self.decoration_records();
        let houses = self.house_records();
        let designs = self.house_design_records();
        if characters.len() == 0 && removed.len() == 0 && ground.len() == 0 && decorations.len()
            == 0 {
            return;
        }
        let ghost saves_before = self.journal.saves@;
        self.journal.saves.push(
            Snapshot {
                tick: self.ticks,
                characters,
                removed,
                ground,
                decorations,
                inventories,
                world: self.row,
                houses,
                designs,
            },
        );
        proof {
            assert(self.journal.saves@.drop_last() =~= saves_before);
        }
    }

    /// Every `save_every` ticks, take a save.
    pub fn offer_snapshot(&mut self)
        requires
            old(self).wf(),
        ensures
            final(self).wf(),
            due(old(self).ticks, old(self).save_every) ==> saved_from(&*old(self), &*final(self)),
            !due(old(self).ticks, old(self).save_every) ==> final(self).journal == old(self).journal,
            final(self).same_settings(&*old(self)),
            final(self).same_people(&*old(self)),
            final(self).registry == old(self).registry,
            final(self).roster == old(self).roster,
            final(self).pending == old(self).pending,
            final(self).ground == old(self).ground,
            final(self).decorations == old(self).decorations,
            final(self).houses == old(self).houses,
            final(self).carried == old(self).carried,
            final(self).bus == old(self).bus,
    {
        if self.save_every == 0 || self.ticks % self.save_every != 0 {
            return;
        }
        self.take_snapshot();
    }

    /// The bookkeeping end of a tick: the clock advances, what the tick
    /// announced is marked, and a save is offered on the cadence.
    pub fn tick(&mut self)
        requires
            old(self).wf(),
            old(self).ticks < u64::MAX,
        ensures
            final(self).wf(),
            final(self).ticks == old(self).ticks + 1,
            final(self).row == old(self).row,
            final(self).bus.events == old(self).bus.events,
            final(self).bus.marked == old(self).bus.events@.len(),
            final(self).players == old(self).players,
            final(self).connections == old(self).connections,
            final(self).outbound == old(self).outbound,
            final(self).registry == old(self).registry,
            final(self).roster == old(self).roster,
            final(self).pending == old(self).pending,
            final(self).ground == old(self).ground,
            final(self).decorations == old(self).decorations,
            final(self).houses == old(self).houses,
            final(self).carried == old(self).carried,
            due((old(self).ticks + 1) as u64, old(self).save_every) ==> saved_from(
                &World { ticks: (old(self).ticks + 1) as u64, ..*old(self) },
                &*final(self),
            ),
            !due((old(self).ticks + 1) as u64, old(self).save_every) ==> {
                &&& final(self).journal.dirty@.to_set() == old(self).journal.dirty@.to_set()
                    + touched(
                    old(self).bus.events@.subrange(
                        old(self).bus.marked as int,
                        old(self).bus.events@.len() as int,
                    ),
                )
                &&& final(self).journal.kept == old(self).journal.kept
                &&& final(self).journal.removed == old(self).journal.removed
                &&& final(self).journal.saves == old(self).journal.saves
            },
    {
        self.ticks = self.ticks + 1;
        self.mark_dirty();
        self.offer_snapshot();
    }

    /// Hand over every save taken and not yet collected.
    pub fn drain_saves(&mut self) -> (saves: Vec<Snapshot>)
        ensures
            saves@ == old(self).journal.saves@,
            final(self).journal.saves@.len() == 0,
            final(self).journal.dirty == old(self).journal.dirty,
            final(self).journal.kept == old(self).journal.kept,
            final(self).journal.removed == old(self).journal.removed,
            final(self).same_settings(&*old(self)),
            final(self).same_people(&*old(self)),
            final(self).registry == old(self).registry,
            final(self).roster == old(self).roster,
            final(self).pending == old(self).pending,
            final(self).ground == old(self).ground,
            final(self).decorations == old(self).decorations,
            final(self).houses == old(self).houses,
            final(self).carried == old(self).carried,
            final(self).bus == old(self).bus,
    {
        let mut saves: Vec<Snapshot> = Vec::new();
        std::mem::swap(&mut saves, &mut self.journal.saves);
        saves
    }

    /// Hand over every packet queued and not yet sent, in order.
    pub fn drain_outbound(&mut self) -> (sent: Vec<Outbound>)
        ensures
            sent@ == old(self).outbound@,
            final(self).outbound@.len() == 0,
            final(self).same_settings(&*old(self)),
            final(self).same_records(&*old(self)),
            final(self).registry == old(self).registry,
            final(self).connections == old(self).connections,
            final(self).players == old(self).players,
    {
        let mut sent: Vec<Outbound> = Vec::new();
        std::mem::swap(&mut sent, &mut self.outbound);
        sent
    }
}

} // verus!
