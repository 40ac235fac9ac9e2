//! Equipping a mobile's saved inventory when it arrives.
//!
//! The records were filed under their owner at boot. A record whose amount
//! the world cannot hold is corrupt, and so is everything packed inside it,
//! at any depth: restoring the contents of a refused container would leave
//! them inside nothing. What is left is bound to its saved serial and put
//! back where its record says, and a rider whose ridden creature's item is
//! put back on the mount layer is back in the saddle.
use vstd::prelude::*;
use crate::records::{
    ItemLocation, ItemRecord, MOUNT_LAYER, restored_trap, spec_restored_trap, spec_valid_saved_amount,
    valid_saved_amount,
};
use crate::session::without_owner;
use crate::world::{Player, World, contains_serial, insert_serial};

verus! {

/// What is filed for one owner, in the order it was filed.
pub open spec fn filed_for(records: Seq<ItemRecord>, owner: u32) -> Seq<ItemRecord>
    decreases records.len(),
{
    if records.len() == 0 {
        Seq::empty()
    } else if records.last().owner == Some(owner) {
        filed_for(records.drop_last(), owner).push(records.last())
    } else {
        filed_for(records.drop_last(), owner)
    }
}

/// Whether a set of serials is one a refusal could be: it holds every record
/// whose amount is corrupt, and everything packed inside anything it holds.
pub open spec fn refusal_closed(records: Seq<ItemRecord>, refused: Set<u32>) -> bool {
    &&& forall|i: int|
        0 <= i < records.len() && !spec_valid_saved_amount(
            (#[trigger] records[i]).graphic,
            records[i].amount,
        ) ==> refused.contains(records[i].serial)
    &&& forall|i: int|
        0 <= i < records.len() && (#[trigger] records[i]).location is Contained
            && refused.contains(records[i].location->container) ==> refused.contains(
            records[i].serial,
        )
}

/// The refusal: the smallest set that could be one. Every serial in it is a
/// corrupt record's, or a record's packed (at some depth) inside one.
pub open spec fn is_refusal(records: Seq<ItemRecord>, refused: Set<u32>) -> bool {
    &&& refusal_closed(records, refused)
    &&& forall|s: Set<u32>| #[trigger] refusal_closed(records, s) ==> refused.subset_of(s)
}

/// The refusal of a list of records.
pub open spec fn refusal_of(records: Seq<ItemRecord>) -> Set<u32> {
    choose|refused: Set<u32>| is_refusal(records, refused)
}

/// Whether some record carries a serial.
pub open spec fn filed_serial(records: Seq<ItemRecord>, x: u32) -> bool {
    exists|i: int| 0 <= i < records.len() && (#[trigger] records[i]).serial == x
}

/// There is only one refusal.
pub proof fn lemma_refusal_unique(records: Seq<ItemRecord>, a: Set<u32>, b: Set<u32>)
    requires
        is_refusal(records, a),
        is_refusal(records, b),
    ensures
        a == b,
{
    assert(a.subset_of(b));
    assert(b.subset_of(a));
    assert(a =~= b);
}

/// The records that are not refused, in order.
pub open spec fn unrefused(records: Seq<ItemRecord>, refused: Set<u32>) -> Seq<ItemRecord>
    decreases records.len(),
{
    if records.len() == 0 {
        Seq::empty()
    } else if refused.contains(records.last().serial) {
        unrefused(records.drop_last(), refused)
    } else {
        unrefused(records.drop_last(), refused).push(records.last())
    }
}

/// A carried record as it is put back on its wearer or in its container: its
/// trap read back (see [`spec_restored_trap`]).
pub open spec fn worn_form(record: ItemRecord) -> ItemRecord {
    ItemRecord { trap: spec_restored_trap(record.trap), ..record }
}

/// The carried items and bound serials after equipping records in order:
/// a serial already standing in the world is skipped (so a duplicate record
/// is harmless), an owned record that claims to lie on the ground is bound
/// but never placed, and anything else is put back in its worn form.
pub open spec fn equip_all(state: (Seq<ItemRecord>, Seq<u32>), records: Seq<ItemRecord>) -> (
    Seq<ItemRecord>,
    Seq<u32>,
)
    decreases records.len(),
{
    if records.len() == 0 {
        state
    } else {
        let before = equip_all(state, records.drop_last());
        let r = records.last();
        if before.1.contains(r.serial) {
            before
        } else if r.location is Ground {
            (before.0, before.1.push(r.serial))
        } else {
            (before.0.push(worn_form(r)), before.1.push(r.serial))
        }
    }
}

/// Whether a rider is in the saddle by these items: one of them is worn by
/// the rider on the mount layer and is drawn as a creature that can be
/// ridden.
pub open spec fn mounted_by(items: Seq<ItemRecord>, mounts: Seq<u16>, rider: u32) -> bool {
    exists|i: int|
        0 <= i < items.len() && (#[trigger] items[i]).location == (ItemLocation::Equipped {
            mobile: rider,
            layer: MOUNT_LAYER,
        }) && mounts.contains(items[i].graphic)
}

/// The players once the items just put back have put their riders back in
/// the saddle.
pub open spec fn remounted(players: Seq<Player>, placed: Seq<ItemRecord>, mounts: Seq<u16>) -> Seq<Player> {
    players.map_values(|p: Player| Player { riding: p.riding || mounted_by(placed, mounts, p.serial), ..p })
}

proof fn lemma_filed_step(records: Seq<ItemRecord>, owner: u32, i: int)
    requires
        0 <= i < records.len(),
    ensures
        filed_for(records.take(i + 1), owner) == if records[i].owner == Some(owner) {
            filed_for(records.take(i), owner).push(records[i])
        } else {
            filed_for(records.take(i), owner)
        },
        without_owner(records.take(i + 1), owner) == if records[i].owner == Some(owner) {
            without_owner(records.take(i), owner)
        } else {
            without_owner(records.take(i), owner).push(records[i])
        },
{
    assert(records.take(i + 1).drop_last() =~= records.take(i));
}

proof fn lemma_without_owner_owned(pending: Seq<ItemRecord>, owner: u32)
    requires
        forall|i: int| 0 <= i < pending.len() ==> (#[trigger] pending[i]).owner is Some,
    ensures
        forall|i: int|
            0 <= i < without_owner(pending, owner).len() ==> (#[trigger] without_owner(
                pending,
                owner,
            )[i]).owner is Some,
    decreases pending.len(),
{
    if pending.len() > 0 {
        lemma_without_owner_owned(pending.drop_last(), owner);
    }
}

proof fn lemma_refused_bounded(records: Seq<ItemRecord>, refused: Seq<u32>)
    requires
        refused.no_duplicates(),
        forall|k: int| 0 <= k < refused.len() ==> filed_serial(records, #[trigger] refused[k]),
    ensures
        refused.len() <= records.len(),
{
    let serials = records.map_values(|r: ItemRecord| r.serial);
    assert forall|x: u32| refused.to_set().contains(x) implies serials.to_set().contains(x) by {
        let k = choose|k: int| 0 <= k < refused.len() && refused[k] == x;
        assert(filed_serial(records, refused[k]));
        let i = choose|i: int| 0 <= i < records.len() && (#[trigger] records[i]).serial == refused[k];
        assert(serials[i] == x);
    }
    refused.unique_seq_to_set();
    serials.lemma_cardinality_of_set();
    vstd::seq_lib::seq_to_set_is_finite(serials);
    vstd::set_lib::lemma_len_subset(refused.to_set(), serials.to_set());
}

impl World {
    /// Whether an item drawn so stands for a creature that can be ridden.
    fn rideable(&self, graphic: u16) -> (known: bool)
        ensures
            known == self.mounts@.contains(graphic),
    {
        let mut k: usize = 0;
        while k < self.mounts.len()
            invariant
                k <= self.mounts@.len(),
                forall|m: int| 0 <= m < k ==> self.mounts@[m] != graphic,
            decreases self.mounts@.len() - k,
        {
            if self.mounts[k] == graphic {
                return true;
            }
            k = k + 1;
        }
        false
    }

    /// Whether the items carried from `from` on put `rider` in the saddle;
    /// see [`mounted_by`].
    fn mounted_since(&self, from: usize, rider: u32) -> (mounted: bool)
        requires
            from <= self.carried@.len(),
        ensures
            mounted == mounted_by(self.carried@.skip(from as int), self.mounts@, rider),
    {
        let ghost placed = self.carried@.skip(from as int);
        let mut j = from;
        while j < self.carried.len()
            invariant
                from <= j <= self.carried@.len(),
                placed == self.carried@.skip(from as int),
                forall|i: int|
                    0 <= i < j - from ==> !((#[trigger] placed[i]).location == (ItemLocation::Equipped {
                        mobile: rider,
                        layer: MOUNT_LAYER,
                    }) && self.mounts@.contains(placed[i].graphic)),
            decreases self.carried@.len() - j,
        {
            let item = &self.carried[j];
            proof {
                assert(placed[j - from] == *item);
            }
            let worn = match item.location {
                ItemLocation::Equipped { mobile, layer } => mobile == rider && layer == MOUNT_LAYER,
                _ => false,
            };
            if worn && self.rideable(item.graphic) {
                return true;
            }
            j = j + 1;
        }
        false
    }

    /// Put back in the saddle every player the items carried from `from` on
    /// are a mount for; see [`remounted`].
    fn remount(&mut self, from: usize)
        requires
            old(self).wf(),
            from <= old(self).carried@.len(),
        ensures
            final(self).wf(),
            final(self).players@ == remounted(
                old(self).players@,
                old(self).carried@.skip(from as int),
                old(self).mounts@,
            ),
            final(self).same_settings(&*old(self)),
            final(self).connections == old(self).connections,
            final(self).outbound == old(self).outbound,
            final(self).registry == old(self).registry,
            final(self).same_records(&*old(self)),
    {
        let ghost placed = old(self).carried@.skip(from as int);
        let mut k: usize = 0;
        while k < self.players.len()
            invariant
                k <= self.players@.len(),
                self.wf(),
                self.players@.len() == old(self).players@.len(),
                forall|i: int| 0 <= i < k ==> #[trigger] self.players@[i] == remounted(
                    old(self).players@,
                    placed,
                    old(self).mounts@,
                )[i],
                forall|i: int| k <= i < self.players@.len() ==> #[trigger] self.players@[i] == old(self).players@[i],
                from <= old(self).carried@.len(),
                placed == old(self).carried@.skip(from as int),
                self.carried == old(self).carried,
                self.mounts == old(self).mounts,
                self.same_settings(&*old(self)),
                self.connections == old(self).connections,
                self.outbound == old(self).outbound,
                self.registry == old(self).registry,
                self.same_records(&*old(self)),
            decreases self.players@.len() - k,
        {
            let rider = self.players[k].serial;
            let mounted = self.mounted_since(from, rider);
            let ghost want = remounted(old(self).players@, placed, old(self).mounts@)[k as int];
            proof {
                assert(want == Player {
                    riding: old(self).players@[k as int].riding || mounted,
                    ..old(self).players@[k as int]
                });
            }
            if mounted {
                let ghost before = self.players@;
                self.players[k].riding = true;
                proof {
                    assert forall|i: int| 0 <= i < self.players@.len() implies (#[trigger] self.players@[i]).serial
                        == before[i].serial && self.players@[i].connection == before[i].connection by {}
                    assert(crate::world::players_distinct(self.players@)) by {
                        assert forall|i: int, j: int|
                            0 <= i < self.players@.len() && 0 <= j < self.players@.len() && i != j implies {
                            &&& (#[trigger] self.players@[i]).connection != (#[trigger] self.players@[j]).connection
                            &&& self.players@[i].serial != self.players@[j].serial
                        } by {
                            assert(before[i].connection != before[j].connection);
                        }
                    }
                    assert forall|i: int| 0 <= i < self.players@.len() implies self.registry.bound@.contains(
                        #[trigger] self.players@[i].serial,
                    ) by {
                        assert(self.registry.bound@.contains(before[i].serial));
                    }
                }
            }
            k = k + 1;
        }
        proof {
            assert(self.players@ =~= remounted(old(self).players@, placed, old(self).mounts@));
        }
    }

    /// Take every record filed for an owner out of the waiting list, in the
    /// order they were filed.
    fn take_filed(&mut self, owner: u32) -> (taken: Vec<ItemRecord>)
        requires
            old(self).wf(),
        ensures
            final(self).wf(),
            taken@ == filed_for(old(self).pending@, owner),
            final(self).pending@ == without_owner(old(self).pending@, owner),
            final(self).same_settings(&*old(self)),
            final(self).same_people(&*old(self)),
            final(self).registry == old(self).registry,
            final(self).roster == old(self).roster,
            final(self).ground == old(self).ground,
            final(self).decorations == old(self).decorations,
            final(self).houses == old(self).houses,
            final(self).carried == old(self).carried,
            final(self).bus == old(self).bus,
            final(self).journal == old(self).journal,
    {
        let ghost all = self.pending@;
        proof {
            lemma_without_owner_owned(all, owner);
            assert(all.take(0) =~= Seq::<ItemRecord>::empty());
        }
        let mut waiting: Vec<ItemRecord> = Vec::new();
        std::mem::swap(&mut waiting, &mut self.pending);
        let mut taken: Vec<ItemRecord> = Vec::new();
        let mut left: Vec<ItemRecord> = Vec::new();
        for record in it: waiting
            invariant
                it.seq() == all,
                taken@ == filed_for(all.take(it.index() as int), owner),
                left@ == without_owner(all.take(it.index() as int), owner),
        {
            proof {
                lemma_filed_step(all, owner, it.index() as int);
            }
            let theirs = match record.owner {
                Some(o) => o == owner,
                None => false,
            };
            if theirs {
                taken.push(record);
            } else {
                left.push(record);
            }
        }
        proof {
            assert(all.take(all.len() as int) =~= all);
        }
        self.pending = left;
        taken
    }

    /// Equip an arriving mobile's saved inventory, if any is waiting, and say
    /// whether one was.
    ///
    /// The records filed for the owner leave the waiting list. The refusal
    /// (every corrupt record and everything packed inside one, see
    /// [`is_refusal`]) is dropped; the rest is bound to its saved serials and
    /// put back where each record says, in filing order.
    pub fn restore_inventory(&mut self, owner: u32) -> (restored: bool)
        requires
            old(self).wf(),
        ensures
            final(self).wf(),
            restored == (filed_for(old(self).pending@, owner).len() > 0),
            final(self).pending@ == without_owner(old(self).pending@, owner),
            (final(self).carried@, final(self).registry.bound@) == equip_all(
                (old(self).carried@, old(self).registry.bound@),
                unrefused(
                    filed_for(old(self).pending@, owner),
                    refusal_of(filed_for(old(self).pending@, owner)),
                ),
            ),
            final(self).players@ == remounted(
                old(self).players@,
                final(self).carried@.skip(old(self).carried@.len() as int),
                old(self).mounts@,
            ),
            final(self).registry.reserved == old(self).registry.reserved,
            final(self).registry.next_serial == old(self).registry.next_serial,
            final(self).same_settings(&*old(self)),
            final(self).connections == old(self).connections,
            final(self).outbound == old(self).outbound,
            final(self).roster == old(self).roster,
            final(self).ground == old(self).ground,
            final(self).decorations == old(self).decorations,
            final(self).houses == old(self).houses,
            final(self).bus == old(self).bus,
            final(self).journal == old(self).journal,
    {
        let first_new = self.carried.len();
        let records = self.take_filed(owner);
        let ghost filed = records@;
        let n = records.len();
        if n == 0 {
            proof {
                let r = Set::<u32>::empty();
                assert(is_refusal(filed, r));
                lemma_refusal_unique(filed, r, refusal_of(filed));
                assert(self.players@ =~= remounted(
                    old(self).players@,
                    self.carried@.skip(first_new as int),
                    old(self).mounts@,
                ));
            }
            return false;
        }
        // Every corrupt record is refused.
        let mut refused: Vec<u32> = Vec::new();
        let mut i: usize = 0;
        while i < n
            invariant
                n == records@.len(),
                records@ == filed,
                i <= n,
                refused@.no_duplicates(),
                forall|j: int|
                    0 <= j < i && !spec_valid_saved_amount(
                        (#[trigger] filed[j]).graphic,
                        filed[j].amount,
                    ) ==> refused@.contains(filed[j].serial),
                forall|s: Set<u32>| #[trigger]
                    refusal_closed(filed, s) ==> refused@.to_set().subset_of(s),
                forall|k: int|
                    0 <= k < refused@.len() ==> filed_serial(filed, #[trigger] refused@[k]),
            decreases n - i,
        {
            if !valid_saved_amount(records[i].graphic, records[i].amount) {
                let ghost before = refused@;
                insert_serial(&mut refused, records[i].serial);
                proof {
                    assert forall|s: Set<u32>| #[trigger]
                        refusal_closed(filed, s) implies refused@.to_set().subset_of(s) by {
                        assert(s.contains(filed[i as int].serial));
                        assert(before.to_set().subset_of(s));
                    }
                    assert forall|k: int| 0 <= k < refused@.len() implies filed_serial(filed, #[trigger] refused@[k]) by {
                        if k < before.len() {
                            assert(refused@[k] == before[k]);
                        } else {
                            assert(filed[i as int].serial == refused@[k]);
                        }
                    }
                    assert forall|j: int|
                        0 <= j < i + 1 && !spec_valid_saved_amount(
                            (#[trigger] filed[j]).graphic,
                            filed[j].amount,
                        ) implies refused@.contains(filed[j].serial) by {
                        if j < i {
                            assert(before.contains(filed[j].serial));
                            let k = choose|k: int| 0 <= k < before.len() && before[k] == filed[j].serial;
                            assert(refused@[k] == before[k]);
                        } else {
                            assert(refused@[refused@.len() - 1] == filed[j].serial || before.contains(filed[j].serial));
                            if before.contains(filed[j].serial) {
                                let k = choose|k: int| 0 <= k < before.len() && before[k] == filed[j].serial;
                                assert(refused@[k] == before[k]);
                            }
                        }
                    }
                }
            }
            i = i + 1;
        }
        // And everything packed inside something refused, until nothing more is.
        loop
            invariant
                n == records@.len(),
                records@ == filed,
                refused@.no_duplicates(),
                forall|j: int|
                    0 <= j < n && !spec_valid_saved_amount(
                        (#[trigger] filed[j]).graphic,
                        filed[j].amount,
                    ) ==> refused@.contains(filed[j].serial),
                forall|s: Set<u32>| #[trigger]
                    refusal_closed(filed, s) ==> refused@.to_set().subset_of(s),
                forall|k: int|
                    0 <= k < refused@.len() ==> filed_serial(filed, #[trigger] refused@[k]),
            ensures
                refusal_closed(filed, refused@.to_set()),
                forall|s: Set<u32>| #[trigger]
                    refusal_closed(filed, s) ==> refused@.to_set().subset_of(s),
                refused@.no_duplicates(),
            decreases n - refused@.len(),
        {
            proof {
                lemma_refused_bounded(filed, refused@);
            }
            let before = refused.len();
            let ghost at_start = refused@;
            let mut i: usize = 0;
            while i < n
                invariant
                    n == records@.len(),
                    records@ == filed,
                    i <= n,
                    before == at_start.len(),
                    at_start.len() <= refused@.len(),
                    refused@.take(at_start.len() as int) == at_start,
                    refused@.no_duplicates(),
                    forall|j: int|
                        0 <= j < n && !spec_valid_saved_amount(
                            (#[trigger] filed[j]).graphic,
                            filed[j].amount,
                        ) ==> refused@.contains(filed[j].serial),
                    forall|s: Set<u32>| #[trigger]
                        refusal_closed(filed, s) ==> refused@.to_set().subset_of(s),
                    forall|k: int|
                        0 <= k < refused@.len() ==> filed_serial(filed, #[trigger] refused@[k]),
                    refused@.len() == at_start.len() ==> forall|j: int|
                        0 <= j < i && (#[trigger] filed[j]).location is Contained
                            && refused@.contains(filed[j].location->container)
                            ==> refused@.contains(filed[j].serial),
                decreases n - i,
            {
                if let ItemLocation::Contained { container, .. } = records[i].location {
                    if contains_serial(&refused, container) {
                        let ghost prev = refused@;
                        let serial = records[i].serial;
                        insert_serial(&mut refused, serial);
                        proof {
                            assert forall|s: Set<u32>| #[trigger]
                                refusal_closed(filed, s) implies refused@.to_set().subset_of(s) by {
                                assert(prev.to_set().subset_of(s));
                                assert(prev.to_set().contains(container));
                                assert(s.contains(filed[i as int].serial));
                            }
                            assert forall|k: int| 0 <= k < refused@.len() implies filed_serial(filed, #[trigger] refused@[k]) by {
                                if k < prev.len() {
                                    assert(refused@[k] == prev[k]);
                                } else {
                                    assert(filed[i as int].serial == refused@[k]);
                                }
                            }
                            assert forall|x: u32| prev.contains(x) implies refused@.contains(x) by {
                                let k = choose|k: int| 0 <= k < prev.len() && prev[k] == x;
                                assert(refused@[k] == prev[k]);
                            }
                            assert(refused@.take(at_start.len() as int) =~= at_start);
                            if refused@.len() == at_start.len() {
                                assert(refused@ == prev);
                            }
                        }
                    }
                }
                i = i + 1;
            }
            if refused.len() == before {
                proof {
                    assert(refused@ =~= at_start);
                    let r = refused@.to_set();
                    assert forall|j: int|
                        0 <= j < filed.len() && (#[trigger] filed[j]).location is Contained
                            && r.contains(filed[j].location->container) implies r.contains(
                        filed[j].serial,
                    ) by {
                        assert(refused@.contains(filed[j].location->container));
                    }
                    assert forall|j: int|
                        0 <= j < filed.len() && !spec_valid_saved_amount(
                            (#[trigger] filed[j]).graphic,
                            filed[j].amount,
                        ) implies r.contains(filed[j].serial) by {
                        assert(refused@.contains(filed[j].serial));
                    }
                }
                break;
            }
            proof {
                lemma_refused_bounded(filed, refused@);
            }
        }
        proof {
            assert(is_refusal(filed, refused@.to_set()));
            lemma_refusal_unique(filed, refused@.to_set(), refusal_of(filed));
        }
        let ghost refusal = refused@.to_set();
        let ghost start = (self.carried@, self.registry.bound@);
        proof {
            assert(filed.take(0) =~= Seq::<ItemRecord>::empty());
        }
        for record in it: records
            invariant
                it.seq() == filed,
                refused@.to_set() == refusal,
                self.wf(),
                (self.carried@, self.registry.bound@) == equip_all(
                    start,
                    unrefused(filed.take(it.index() as int), refusal),
                ),
                self.registry.reserved == old(self).registry.reserved,
                self.registry.next_serial == old(self).registry.next_serial,
                self.pending@ == without_owner(old(self).pending@, owner),
                self.same_settings(&*old(self)),
                self.same_people(&*old(self)),
                self.roster == old(self).roster,
                self.ground == old(self).ground,
                self.decorations == old(self).decorations,
                self.houses == old(self).houses,
                self.bus == old(self).bus,
                self.journal == old(self).journal,
                first_new == old(self).carried@.len(),
                first_new <= self.carried@.len(),
        {
            let ghost k = it.index() as int;
            proof {
                assert(filed.take(k + 1).drop_last() =~= filed.take(k));
                assert(filed.take(k + 1).last() == filed[k]);
            }
            if contains_serial(&refused, record.serial) {
                proof {
                    assert(refused@.to_set().contains(record.serial));
                }
            } else {
                proof {
                    assert(!refused@.to_set().contains(record.serial));
                    let u = unrefused(filed.take(k + 1), refusal);
                    assert(u == unrefused(filed.take(k), refusal).push(record));
                    assert(u.drop_last() =~= unrefused(filed.take(k), refusal));
                }
                if !contains_serial(&self.registry.bound, record.serial) {
                    let ghost bound_before = self.registry.bound@;
                    insert_serial(&mut self.registry.bound, record.serial);
                    proof {
                        crate::world::lemma_players_stay_bound(self.players@, bound_before, self.registry.bound@);
                    }
                    match record.location {
                        ItemLocation::Ground { .. } => {},
                        _ => {
                            let trap = restored_trap(record.trap);
                            self.carried.push(ItemRecord { trap, ..record });
                        },
                    }
                }
            }
        }
        proof {
            assert(filed.take(filed.len() as int) =~= filed);
        }
        self.remount(first_new);
        true
    }
}

} // verus!
