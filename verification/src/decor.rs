//! The shard's placed decoration, and how it goes to the store and back.
//!
//! Statics, doors (open or shut) and town containers are laid at boot from
//! their saved records and written back whole on every save. A record's lock
//! is two fields, a flag and a key; in the world it is one thing, a lock
//! that a key opens or one that nothing opens. A door locked at the save comes
//! back locked, or a shard's set-piece would unbar itself at every reboot.
use vstd::prelude::*;
use crate::types::Point;
use crate::world::{World, landing_facet, contains_serial, insert_serial};

verus! {

/// How a door hangs: its two graphics, where the open leaf swings to, the
/// door it opens with, and whether it stands open.
#[derive(Clone, Copy, Debug, PartialEq, Eq)]
pub struct DoorState {
    pub closed_graphic: u16,
    pub open_graphic: u16,
    pub offset_x: i16,
    pub offset_y: i16,
    pub link: Option<u32>,
    pub is_open: bool,
}

/// A placed decoration as the store holds it.
#[derive(Clone, Copy, Debug, PartialEq, Eq)]
pub struct DecorationRecord {
    pub serial: u32,
    pub graphic: u16,
    pub hue: u16,
    pub facet: u8,
    pub x: u16,
    pub y: u16,
    pub z: i8,
    pub door: Option<DoorState>,
    pub container_gump: Option<u16>,
    /// The key that opens it; zero for none.
    pub key_value: u32,
    pub locked: bool,
}

/// What holds a decoration shut.
#[derive(Clone, Copy, Debug, PartialEq, Eq)]
pub enum LockKind {
    /// A key with this (nonzero) value opens it.
    Key(u32),
    /// Nothing opens it.
    Unopenable,
}

/// A decoration standing in the world.
#[derive(Clone, Copy, Debug, PartialEq, Eq)]
pub struct Decoration {
    pub serial: u32,
    pub graphic: u16,
    pub hue: u16,
    pub facet: u8,
    pub position: Point,
    pub door: Option<DoorState>,
    pub container_gump: Option<u16>,
    pub lock: Option<LockKind>,
}

impl Decoration {
    /// A key lock has a key.
    pub open spec fn keyed(self) -> bool {
        self.lock matches Some(LockKind::Key(k)) ==> k != 0
    }
}

/// The lock a record's two fields describe: a key opens it if the record
/// names one, nothing opens it if it is locked with no key, and an unlocked
/// record with no key has no lock.
pub open spec fn lock_of(locked: bool, key_value: u32) -> Option<LockKind> {
    if key_value != 0 {
        Some(LockKind::Key(key_value))
    } else if locked {
        Some(LockKind::Unopenable)
    } else {
        None
    }
}

/// The two fields a lock is written as.
pub open spec fn lock_fields(lock: Option<LockKind>) -> (bool, u32) {
    match lock {
        None => (false, 0),
        Some(LockKind::Key(key)) => (true, key),
        Some(LockKind::Unopenable) => (true, 0),
    }
}

/// A record laid in the world on a facet.
pub open spec fn decoration_from(record: DecorationRecord, facet: u8) -> Decoration {
    Decoration {
        serial: record.serial,
        graphic: record.graphic,
        hue: record.hue,
        facet,
        position: Point { x: record.x, y: record.y, z: record.z },
        door: record.door,
        container_gump: record.container_gump,
        lock: lock_of(record.locked, record.key_value),
    }
}

/// A decoration as it is written to the store.
pub open spec fn decoration_record(d: Decoration) -> DecorationRecord {
    DecorationRecord {
        serial: d.serial,
        graphic: d.graphic,
        hue: d.hue,
        facet: d.facet,
        x: d.position.x,
        y: d.position.y,
        z: d.position.z,
        door: d.door,
        container_gump: d.container_gump,
        key_value: lock_fields(d.lock).1,
        locked: lock_fields(d.lock).0,
    }
}

/// The decorations and the bound serials after laying one record: one whose
/// serial already stands in the world is skipped.
pub open spec fn decorate_one(
    state: (Seq<Decoration>, Seq<u32>),
    facets: Seq<u8>,
    default_facet: u8,
    record: DecorationRecord,
) -> (Seq<Decoration>, Seq<u32>) {
    if state.1.contains(record.serial) {
        state
    } else {
        (
            state.0.push(
                decoration_from(record, landing_facet(facets, default_facet, record.facet)),
            ),
            state.1.push(record.serial),
        )
    }
}

/// The decorations and the bound serials after laying records in order.
pub open spec fn decorate_all(
    state: (Seq<Decoration>, Seq<u32>),
    facets: Seq<u8>,
    default_facet: u8,
    records: Seq<DecorationRecord>,
) -> (Seq<Decoration>, Seq<u32>)
    decreases records.len(),
{
    if records.len() == 0 {
        state
    } else {
        decorate_one(
            decorate_all(state, facets, default_facet, records.drop_last()),
            facets,
            default_facet,
            records.last(),
        )
    }
}

/// A lock written and read back is the same lock.
pub proof fn lemma_lock_read_back(lock: Option<LockKind>)
    requires
        lock matches Some(LockKind::Key(k)) ==> k != 0,
    ensures
        lock_of(lock_fields(lock).0, lock_fields(lock).1) == lock,
{
}

/// A record's lock read and written back is the same two fields, whenever
/// a record naming a key also says it is locked. (An unlocked record that
/// names a key comes back locked: the key is a lock.)
pub proof fn lemma_lock_round_trip(locked: bool, key_value: u32)
    requires
        key_value != 0 ==> locked,
    ensures
        lock_fields(lock_of(locked, key_value)) == (locked, key_value),
{
}

/// What is locked at the save is locked after the reboot.
pub proof fn lemma_locked_stays_locked(locked: bool, key_value: u32)
    requires
        locked,
    ensures
        lock_fields(lock_of(locked, key_value)).0,
        lock_of(locked, key_value) is Some,
{
}

/// A decoration laid from its record and written back is the record again,
/// on a facet the shard has, whenever the record's lock is consistent.
pub proof fn lemma_decoration_round_trip(record: DecorationRecord, facet: u8)
    requires
        record.key_value != 0 ==> record.locked,
    ensures
        decoration_record(decoration_from(record, facet)) == (DecorationRecord { facet, ..record }),
        decoration_from(record, facet).keyed(),
{
    lemma_lock_round_trip(record.locked, record.key_value);
}

/// A decoration written and laid again on its own facet is the same
/// decoration.
pub proof fn lemma_decoration_read_back(d: Decoration)
    requires
        d.keyed(),
    ensures
        decoration_from(decoration_record(d), d.facet) == d,
{
    lemma_lock_read_back(d.lock);
}

/// Records as they come back from the world: each on the facet it lands on.
pub open spec fn landed(records: Seq<DecorationRecord>, facets: Seq<u8>, default_facet: u8) -> Seq<
    DecorationRecord,
> {
    records.map_values(
        |r: DecorationRecord| DecorationRecord {
            facet: landing_facet(facets, default_facet, r.facet),
            ..r
        },
    )
}

/// The serials of some records, in order.
pub open spec fn decoration_serials(records: Seq<DecorationRecord>) -> Seq<u32> {
    records.map_values(|r: DecorationRecord| r.serial)
}

/// Decoration restored at boot is saved back as it was recorded: laying a
/// save's records (distinct serials, none already standing, every keyed
/// record locked) into a world with no decoration, then writing the
/// decoration out, gives the records again, each on the facet it landed on.
pub proof fn lemma_restored_decorations_save_as_recorded(
    records: Seq<DecorationRecord>,
    bound: Seq<u32>,
    facets: Seq<u8>,
    default_facet: u8,
)
    requires
        decoration_serials(records).no_duplicates(),
        forall|i: int| 0 <= i < records.len() ==> !bound.contains(#[trigger] records[i].serial),
        forall|i: int|
            0 <= i < records.len() ==> (#[trigger] records[i]).key_value != 0 ==> records[i].locked,
    ensures
        decorate_all((Seq::empty(), bound), facets, default_facet, records).0.map_values(
            |d: Decoration| decoration_record(d),
        ) == landed(records, facets, default_facet),
        decorate_all((Seq::empty(), bound), facets, default_facet, records).1 == bound
            + decoration_serials(records),
    decreases records.len(),
{
    if records.len() > 0 {
        let front = records.drop_last();
        let r = records.last();
        assert(decoration_serials(front) =~= decoration_serials(records).drop_last());
        assert forall|i: int, j: int|
            0 <= i < decoration_serials(front).len() && 0 <= j < decoration_serials(front).len()
                && i != j implies decoration_serials(front)[i] != decoration_serials(front)[j] by {
            assert(decoration_serials(front)[i] == decoration_serials(records)[i]);
            assert(decoration_serials(front)[j] == decoration_serials(records)[j]);
        }
        assert forall|i: int| 0 <= i < front.len() implies !bound.contains(#[trigger] front[i].serial) by {
            assert(front[i] == records[i]);
        }
        assert forall|i: int| 0 <= i < front.len() implies (#[trigger] front[i]).key_value != 0
            ==> front[i].locked by {
            assert(front[i] == records[i]);
        }
        lemma_restored_decorations_save_as_recorded(front, bound, facets, default_facet);
        let before = decorate_all((Seq::empty(), bound), facets, default_facet, front);
        let last = records.len() - 1;
        assert(!bound.contains(r.serial)) by {
            assert(records[last] == r);
        }
        assert(!decoration_serials(front).contains(r.serial)) by {
            if decoration_serials(front).contains(r.serial) {
                let i = choose|i: int| 0 <= i < decoration_serials(front).len()
                    && decoration_serials(front)[i] == r.serial;
                assert(decoration_serials(records)[i] == decoration_serials(records)[last]);
            }
        }
        assert(!before.1.contains(r.serial)) by {
            if before.1.contains(r.serial) {
                let i = choose|i: int| 0 <= i < before.1.len() && before.1[i] == r.serial;
                if i < bound.len() {
                    assert(bound[i] == r.serial);
                } else {
                    assert(decoration_serials(front)[i - bound.len()] == r.serial);
                }
            }
        }
        assert(r.key_value != 0 ==> r.locked) by {
            assert(records[last] == r);
        }
        lemma_decoration_round_trip(r, landing_facet(facets, default_facet, r.facet));
        let after = decorate_all((Seq::empty(), bound), facets, default_facet, records);
        assert(after.0 == before.0.push(
            decoration_from(r, landing_facet(facets, default_facet, r.facet)),
        ));
        assert(after.0.map_values(|d: Decoration| decoration_record(d)) =~= landed(
            records,
            facets,
            default_facet,
        )) by {
            let saved = after.0.map_values(|d: Decoration| decoration_record(d));
            let want = landed(records, facets, default_facet);
            assert(before.0.map_values(|d: Decoration| decoration_record(d)) == landed(
                front,
                facets,
                default_facet,
            ));
            assert(before.0.len() == front.len()) by {
                assert(before.0.map_values(|d: Decoration| decoration_record(d)).len()
                    == before.0.len());
                assert(landed(front, facets, default_facet).len() == front.len());
            }
            assert(saved.len() == want.len());
            assert forall|i: int| 0 <= i < saved.len() implies saved[i] == want[i] by {
                if i < last {
                    assert(after.0[i] == before.0[i]);
                    assert(saved[i] == before.0.map_values(|d: Decoration| decoration_record(d))[i]);
                    assert(landed(front, facets, default_facet)[i] == want[i]) by {
                        assert(front[i] == records[i]);
                    }
                } else {
                    assert(i == last);
                    assert(records[i] == r);
                }
            }
        }
        assert(after.1 =~= bound + decoration_serials(records));
    } else {
        assert(decorate_all((Seq::empty(), bound), facets, default_facet, records).0.map_values(
            |d: Decoration| decoration_record(d),
        ) =~= landed(records, facets, default_facet));
        assert(bound + decoration_serials(records) =~= bound);
    }
}

/// Whether a decoration is a shut door standing on a tile of a facet: a shut
/// door seals its doorway, an open one blocks nobody until it swings shut.
pub open spec fn seals(d: Decoration, facet: u8, x: u16, y: u16) -> bool {
    &&& d.door matches Some(door) && !door.is_open
    &&& d.facet == facet
    &&& d.position.x == x
    &&& d.position.y == y
}

/// A shut door laid from its record seals its tile on the facet it landed
/// on; an open one does not.
pub proof fn lemma_shut_door_seals(record: DecorationRecord, facet: u8)
    ensures
        seals(decoration_from(record, facet), facet, record.x, record.y) <==> (record.door matches Some(
            door,
        ) && !door.is_open),
{
}

/// The lock a record's fields describe; see [`lock_of`].
pub fn lock_from(locked: bool, key_value: u32) -> (lock: Option<LockKind>)
    ensures
        lock == lock_of(locked, key_value),
{
    if key_value != 0 {
        Some(LockKind::Key(key_value))
    } else if locked {
        Some(LockKind::Unopenable)
    } else {
        None
    }
}

/// The two fields a lock is written as; see [`lock_fields`].
pub fn lock_to_fields(lock: Option<LockKind>) -> (fields: (bool, u32))
    ensures
        fields == lock_fields(lock),
{
    match lock {
        None => (false, 0),
        Some(LockKind::Key(key)) => (true, key),
        Some(LockKind::Unopenable) => (true, 0),
    }
}

impl World {
    /// Re-lay the saved decoration at boot, in the order it was saved.
    ///
    /// Each record is laid on its own facet if this shard loads it, otherwise
    /// on the default one, with its lock as [`lock_of`] reads it. A record
    /// whose serial already stands in the world is skipped.
    pub fn restore_decorations(&mut self, records: Vec<DecorationRecord>)
        requires
            old(self).wf(),
        ensures
            final(self).wf(),
            (final(self).decorations@, final(self).registry.bound@) == decorate_all(
                (old(self).decorations@, old(self).registry.bound@),
                old(self).facets@,
                old(self).default_facet,
                records@,
            ),
            final(self).registry.reserved == old(self).registry.reserved,
            final(self).registry.next_serial == old(self).registry.next_serial,
            final(self).same_settings(&*old(self)),
            final(self).same_people(&*old(self)),
            final(self).roster == old(self).roster,
            final(self).pending == old(self).pending,
            final(self).ground == old(self).ground,
            final(self).carried == old(self).carried,
            final(self).houses == old(self).houses,
            final(self).bus == old(self).bus,
            final(self).journal == old(self).journal,
    {
        let ghost start = (self.decorations@, self.registry.bound@);
        proof {
            assert(records@.take(0) =~= Seq::<DecorationRecord>::empty());
        }
        for record in it: records
            invariant
                self.wf(),
                (self.decorations@, self.registry.bound@) == decorate_all(
                    start,
                    self.facets@,
                    self.default_facet,
                    it.seq().take(it.index() as int),
                ),
                self.registry.reserved == old(self).registry.reserved,
                self.registry.next_serial == old(self).registry.next_serial,
                self.same_settings(&*old(self)),
                self.same_people(&*old(self)),
                self.roster == old(self).roster,
                self.pending == old(self).pending,
                self.ground == old(self).ground,
                self.carried == old(self).carried,
                self.houses == old(self).houses,
                self.bus == old(self).bus,
                self.journal == old(self).journal,
        {
            let ghost k = it.index() as int;
            proof {
                assert(it.seq().take(k + 1).drop_last() =~= it.seq().take(k));
            }
            if !contains_serial(&self.registry.bound, record.serial) {
                let facet = if self.has_facet(record.facet) {
                    record.facet
                } else {
                    self.default_facet
                };
                let laid = Decoration {
                    serial: record.serial,
                    graphic: record.graphic,
                    hue: record.hue,
                    facet,
                    position: Point { x: record.x, y: record.y, z: record.z },
                    door: record.door,
                    container_gump: record.container_gump,
                    lock: lock_from(record.locked, record.key_value),
                };
                let ghost bound_before = self.registry.bound@;
                insert_serial(&mut self.registry.bound, record.serial);
                proof {
                    crate::world::lemma_players_stay_bound(self.players@, bound_before, self.registry.bound@);
                }
                let ghost before = self.decorations@;
                self.decorations.push(laid);
                proof {
                    assert forall|i: int| 0 <= i < self.decorations@.len() implies (
                    #[trigger] self.decorations@[i]).keyed() by {
                        if i < before.len() {
                            assert(self.decorations@[i] == before[i]);
                        }
                    }
                }
            }
        }
        proof {
            assert(records@.take(records@.len() as int) =~= records@);
        }
    }

    /// Whether a shut door seals a tile of a facet.
    pub fn sealed_at(&self, facet: u8, x: u16, y: u16) -> (sealed: bool)
        ensures
            sealed == exists|i: int|
                0 <= i < self.decorations@.len() && #[trigger] seals(self.decorations@[i], facet, x, y),
    {
        let mut i: usize = 0;
        while i < self.decorations.len()
            invariant
                i <= self.decorations@.len(),
                forall|k: int| 0 <= k < i ==> !#[trigger] seals(self.decorations@[k], facet, x, y),
            decreases self.decorations@.len() - i,
        {
            let d = self.decorations[i];
            let shut = match d.door {
                Some(door) => !door.is_open,
                None => false,
            };
            if shut && d.facet == facet && d.position.x == x && d.position.y == y {
                assert(seals(self.decorations@[i as int], facet, x, y));
                return true;
            }
            i = i + 1;
        }
        false
    }

    /// Every placed decoration as the store holds it, in the order it was
    /// laid: its spot, its look, the state of its door, and its lock.
    pub fn decoration_records(&self) -> (records: Vec<DecorationRecord>)
        ensures
            records@ == self.decorations@.map_values(|d: Decoration| decoration_record(d)),
    {
        let mut records: Vec<DecorationRecord> = Vec::new();
        let mut i: usize = 0;
        while i < self.decorations.len()
            invariant
                i <= self.decorations@.len(),
                records@ == self.decorations@.take(i as int).map_values(
                    |d: Decoration| decoration_record(d),
                ),
            decreases self.decorations@.len() - i,
        {
            let d = self.decorations[i];
            let (locked, key_value) = lock_to_fields(d.lock);
            records.push(
                DecorationRecord {
                    serial: d.serial,
                    graphic: d.graphic,
                    hue: d.hue,
                    facet: d.facet,
                    x: d.position.x,
                    y: d.position.y,
                    z: d.position.z,
                    door: d.door,
                    container_gump: d.container_gump,
                    key_value,
                    locked,
                },
            );
            i = i + 1;
            proof {
                assert(records@ =~= self.decorations@.take(i as int).map_values(
                    |d: Decoration| decoration_record(d),
                ));
            }
        }
        proof {
            assert(self.decorations@.take(i as int) =~= self.decorations@);
        }
        records
    }
}

} // verus!
