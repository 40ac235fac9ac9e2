//! A targeting cursor's answer.
//!
//! A cursor is raised for a purpose and answered once: the answer takes the
//! cursor down whatever it says, a cancel does nothing more, and an answer to
//! a cursor that is not up is ignored. Setting a trap is decided here (only a
//! container can be trapped); every other purpose belongs to the system that
//! raised the cursor, and the answer is handed back for it.
use vstd::prelude::*;
use crate::records::{ItemRecord, TrapKind, TrapRecord, spec_trap_kind_code, trap_kind_code};
use crate::session::{player_on, says};
use crate::types::{ConnectionId, Outbound, Packet, Point};
use crate::world::{Player, World};

verus! {

/// What a cursor was raised for.
#[derive(Clone, Copy, Debug, PartialEq, Eq)]
pub enum TargetPurpose {
    /// Trap the container clicked with a trap of this kind and power.
    SetTrap { kind: TrapKind, power: u16 },
    /// A purpose of another system, by that system's own code.
    Elsewhere { purpose: u32 },
}

/// A client's answer to a cursor: whether it was cancelled, the object
/// clicked if any, and the point clicked.
#[derive(Clone, Copy, Debug, PartialEq, Eq)]
pub struct TargetResponse {
    pub cancelled: bool,
    pub object: Option<u32>,
    pub location: Point,
}

/// What is left to do with an answer once it is decided here.
#[derive(Clone, Copy, Debug, PartialEq, Eq)]
pub enum TargetAction {
    Done,
    /// Hand the answer to the system that raised the cursor.
    Forward { purpose: u32, object: Option<u32>, location: Point },
}

/// The position of the last item with this serial, or -1.
pub open spec fn last_with(items: Seq<ItemRecord>, serial: u32) -> int
    decreases items.len(),
{
    if items.len() == 0 {
        -1
    } else if items.last().serial == serial {
        items.len() - 1
    } else {
        last_with(items.drop_last(), serial)
    }
}

/// An item with a fresh trap of this kind and power on it.
pub open spec fn trapped(item: ItemRecord, kind: TrapKind, power: u16) -> ItemRecord {
    ItemRecord { trap: Some(TrapRecord { kind: spec_trap_kind_code(kind), power, level: 0 }), ..item }
}

/// The line the trapper is told when the trap is set.
pub open spec fn trap_set_line() -> Seq<char> {
    seq!['I', 't', ' ', 'i', 's', ' ', 't', 'r', 'a', 'p', 'p', 'e', 'd', ' ', 'n', 'o', 'w', '.']
}

/// The line the trapper is told when what was clicked cannot be trapped.
pub open spec fn not_a_container_line() -> Seq<char> {
    seq!['O', 'n', 'l', 'y', ' ', 'a', ' ', 'c', 'o', 'n', 't', 'a', 'i', 'n', 'e', 'r', ' ', 'c', 'a', 'n', ' ', 'b', 'e', ' ', 't', 'r', 'a', 'p', 'p', 'e', 'd', '.']
}

/// What setting a trap on the object clicked does: the item with that serial
/// (looked for on the ground first, then among what is carried) is trapped
/// if it is a container, and the trapper is told so; otherwise nothing is
/// trapped and the trapper is told only a container can be.
pub open spec fn trap_outcome(
    before: World,
    after: World,
    connection: ConnectionId,
    object: Option<u32>,
    kind: TrapKind,
    power: u16,
) -> bool {
    let g = match object {
        Some(s) => last_with(before.ground@, s),
        None => -1,
    };
    let c = match object {
        Some(s) => last_with(before.carried@, s),
        None => -1,
    };
    let told = after.outbound@.len() == before.outbound@.len() + 1 && after.outbound@.drop_last()
        == before.outbound@;
    if g >= 0 && before.ground@[g].container_gump is Some {
        &&& after.ground@ == before.ground@.update(g, trapped(before.ground@[g], kind, power))
        &&& after.carried == before.carried
        &&& told
        &&& says(after.outbound@.last(), connection, trap_set_line())
    } else if g < 0 && c >= 0 && before.carried@[c].container_gump is Some {
        &&& after.carried@ == before.carried@.update(c, trapped(before.carried@[c], kind, power))
        &&& after.ground == before.ground
        &&& told
        &&& says(after.outbound@.last(), connection, trap_set_line())
    } else {
        &&& after.ground == before.ground
        &&& after.carried == before.carried
        &&& told
        &&& says(after.outbound@.last(), connection, not_a_container_line())
    }
}

/// What answering a cursor does: see [`World::handle_target`].
pub open spec fn target_outcome(
    before: World,
    after: World,
    connection: ConnectionId,
    response: TargetResponse,
    action: TargetAction,
) -> bool {
    let i = player_on(before.players@, connection);
    &&& after.same_settings(&before)
    &&& after.roster == before.roster
    &&& after.bus == before.bus
    &&& after.journal == before.journal
    &&& after.registry == before.registry
    &&& after.connections == before.connections
    &&& after.pending == before.pending
    &&& after.decorations == before.decorations
    &&& after.houses == before.houses
    &&& if i < 0 || before.players@[i].cursor is None {
        &&& after.players == before.players
        &&& after.ground == before.ground
        &&& after.carried == before.carried
        &&& after.outbound == before.outbound
        &&& action == TargetAction::Done
    } else {
        &&& after.players@ == before.players@.update(i, Player { cursor: None, ..before.players@[i] })
        &&& if response.cancelled {
            &&& after.ground == before.ground
            &&& after.carried == before.carried
            &&& after.outbound == before.outbound
            &&& action == TargetAction::Done
        } else {
            match before.players@[i].cursor->0 {
                TargetPurpose::SetTrap { kind, power } => {
                    &&& action == TargetAction::Done
                    &&& trap_outcome(before, after, connection, response.object, kind, power)
                },
                TargetPurpose::Elsewhere { purpose } => {
                    &&& after.ground == before.ground
                    &&& after.carried == before.carried
                    &&& after.outbound == before.outbound
                    &&& action == (TargetAction::Forward {
                        purpose,
                        object: response.object,
                        location: response.location,
                    })
                },
            }
        }
    }
}

proof fn lemma_last_with(items: Seq<ItemRecord>, serial: u32)
    ensures
        -1 <= last_with(items, serial) < items.len(),
        last_with(items, serial) >= 0 ==> items[last_with(items, serial)].serial == serial,
        last_with(items, serial) == -1 ==> forall|j: int| 0 <= j < items.len() ==> #[trigger] items[j].serial != serial,
    decreases items.len(),
{
    if items.len() > 0 {
        lemma_last_with(items.drop_last(), serial);
        if items.last().serial != serial {
            assert forall|j: int| 0 <= j < items.len() && last_with(items, serial) == -1 implies #[trigger] items[j].serial
                != serial by {
                if j < items.len() - 1 {
                    assert(items[j] == items.drop_last()[j]);
                }
            }
            if last_with(items, serial) >= 0 {
                assert(items[last_with(items, serial)] == items.drop_last()[last_with(items, serial)]);
            }
        }
    }
}

/// A container is trapped wherever it lies: when the one item with the
/// clicked serial is a container, on the ground or carried in somebody's
/// pack, a fresh trap of the cursor's kind and power is set on it (level
/// none), nothing else changes, and the trapper is told the trap is set.
pub proof fn lemma_a_container_is_trapped_wherever_it_lies(
    before: World,
    after: World,
    connection: ConnectionId,
    serial: u32,
    kind: TrapKind,
    power: u16,
    k: int,
    on_ground: bool,
)
    requires
        trap_outcome(before, after, connection, Some(serial), kind, power),
        on_ground ==> 0 <= k < before.ground@.len() && before.ground@[k].serial == serial
            && before.ground@[k].container_gump is Some,
        !on_ground ==> 0 <= k < before.carried@.len() && before.carried@[k].serial == serial
            && before.carried@[k].container_gump is Some,
        forall|j: int| 0 <= j < before.ground@.len() && (#[trigger] before.ground@[j]).serial == serial ==> on_ground && j == k,
        forall|j: int| 0 <= j < before.carried@.len() && (#[trigger] before.carried@[j]).serial == serial ==> !on_ground && j == k,
    ensures
        on_ground ==> after.ground@ == before.ground@.update(k, trapped(before.ground@[k], kind, power))
            && after.carried == before.carried,
        !on_ground ==> after.carried@ == before.carried@.update(k, trapped(before.carried@[k], kind, power))
            && after.ground == before.ground,
        after.outbound@.drop_last() == before.outbound@,
        says(after.outbound@.last(), connection, trap_set_line()),
        (on_ground ==> after.ground@[k].trap == Some(TrapRecord { kind: spec_trap_kind_code(kind), power, level: 0 })),
        (!on_ground ==> after.carried@[k].trap == Some(TrapRecord { kind: spec_trap_kind_code(kind), power, level: 0 })),
{
    lemma_last_with(before.ground@, serial);
    lemma_last_with(before.carried@, serial);
    if on_ground {
        assert(before.ground@[k].serial == serial);
    } else {
        assert(before.carried@[k].serial == serial);
        let g = last_with(before.ground@, serial);
        if g >= 0 {
            assert(before.ground@[g].serial == serial);
        }
    }
}

/// Nothing is trapped when no item with the clicked serial is a container,
/// or nothing was clicked: the items stay as they were, and the trapper is
/// told only a container can be trapped.
pub proof fn lemma_only_a_container_is_trapped(
    before: World,
    after: World,
    connection: ConnectionId,
    object: Option<u32>,
    kind: TrapKind,
    power: u16,
)
    requires
        trap_outcome(before, after, connection, object, kind, power),
        forall|j: int|
            0 <= j < before.ground@.len() && object == Some((#[trigger] before.ground@[j]).serial)
                ==> before.ground@[j].container_gump is None,
        forall|j: int|
            0 <= j < before.carried@.len() && object == Some((#[trigger] before.carried@[j]).serial)
                ==> before.carried@[j].container_gump is None,
    ensures
        after.ground == before.ground,
        after.carried == before.carried,
        after.outbound@.drop_last() == before.outbound@,
        says(after.outbound@.last(), connection, not_a_container_line()),
{
    if let Some(s) = object {
        lemma_last_with(before.ground@, s);
        lemma_last_with(before.carried@, s);
    }
}

/// An answer changes nothing but the answering player's cursor unless it
/// sets a trap: a cancel, an answer with no cursor up and an answer for
/// another system leave every item and every line as they were; only an
/// answer for another system is handed on, with the object and the point
/// clicked as the client sent them.
pub proof fn lemma_an_answer_sets_nothing_else(
    before: World,
    after: World,
    connection: ConnectionId,
    response: TargetResponse,
    action: TargetAction,
)
    requires
        target_outcome(before, after, connection, response, action),
    ensures
        (action matches TargetAction::Forward { purpose, object, location } && object == response.object
            && location == response.location) || action == TargetAction::Done,
        action is Forward ==> !response.cancelled && after.ground == before.ground && after.carried
            == before.carried && after.outbound == before.outbound,
        response.cancelled ==> action == TargetAction::Done && after.ground == before.ground
            && after.carried == before.carried && after.outbound == before.outbound,
        after.players@.len() == before.players@.len(),
        forall|j: int|
            0 <= j < before.players@.len() && j != player_on(before.players@, connection) ==> #[trigger] after.players@[j]
                == before.players@[j],
        player_on(before.players@, connection) >= 0 && before.players@[player_on(before.players@, connection)].cursor is Some
            ==> after.players@[player_on(before.players@, connection)].cursor is None,
{
}

/// A cursor is answered once: whatever the first answer did, a second answer
/// from the same connection finds no cursor up, changes nothing and hands
/// nothing on.
pub proof fn lemma_a_cursor_is_answered_once(
    before: World,
    middle: World,
    after: World,
    connection: ConnectionId,
    first: TargetResponse,
    second: TargetResponse,
    first_action: TargetAction,
    second_action: TargetAction,
)
    requires
        before.wf(),
        middle.wf(),
        target_outcome(before, middle, connection, first, first_action),
        target_outcome(middle, after, connection, second, second_action),
    ensures
        second_action == TargetAction::Done,
        after.players == middle.players,
        after.ground == middle.ground,
        after.carried == middle.carried,
        after.outbound == middle.outbound,
{
    let i = player_on(before.players@, connection);
    if i >= 0 && before.players@[i].cursor is Some {
        let k = player_on(middle.players@, connection);
        assert(middle.players@[i].connection == connection);
        assert(k >= 0);
        if k != i {
            assert(middle.players@[k].connection == connection);
        }
    } else {
        assert(middle.players == before.players);
    }
}

/// Where the last item with this serial is; see [`last_with`].
fn find_last(items: &Vec<ItemRecord>, serial: u32) -> (found: Option<usize>)
    ensures
        match found {
            Some(i) => i < items@.len() && last_with(items@, serial) == i,
            None => last_with(items@, serial) == -1,
        },
{
    let mut found: Option<usize> = None;
    let mut i: usize = 0;
    while i < items.len()
        invariant
            i <= items@.len(),
            match found {
                Some(k) => k < i && last_with(items@.take(i as int), serial) == k,
                None => last_with(items@.take(i as int), serial) == -1,
            },
        decreases items@.len() - i,
    {
        proof {
            assert(items@.take(i + 1).drop_last() =~= items@.take(i as int));
            assert(items@.take(i + 1).last() == items@[i as int]);
        }
        if items[i].serial == serial {
            found = Some(i);
        }
        i = i + 1;
    }
    proof {
        assert(items@.take(i as int) =~= items@);
    }
    found
}

impl World {
    /// Raise a cursor for the player a connection plays, in place of any
    /// cursor still up; a connection that plays nobody raises nothing.
    pub fn raise_target(&mut self, connection: ConnectionId, purpose: TargetPurpose)
        requires
            old(self).wf(),
        ensures
            final(self).wf(),
            player_on(old(self).players@, connection) < 0 ==> final(self).players == old(self).players,
            player_on(old(self).players@, connection) >= 0 ==> final(self).players@ == old(self).players@.update(
                player_on(old(self).players@, connection),
                Player { cursor: Some(purpose), ..old(self).players@[player_on(old(self).players@, connection)] },
            ),
            final(self).same_settings(&*old(self)),
            final(self).same_records(&*old(self)),
            final(self).registry == old(self).registry,
            final(self).connections == old(self).connections,
            final(self).outbound == old(self).outbound,
    {
        if let Some(i) = self.player_of(connection) {
            let ghost before = self.players@;
            self.players[i].cursor = Some(purpose);
            proof {
                self.lemma_cursor_keeps_wf(before, i as int);
            }
        }
    }

    /// Changing only a player's cursor keeps the world well formed.
    proof fn lemma_cursor_keeps_wf(&self, before: Seq<Player>, i: int)
        requires
            0 <= i < before.len(),
            self.players@.len() == before.len(),
            forall|j: int| 0 <= j < before.len() && j != i ==> #[trigger] self.players@[j] == before[j],
            self.players@[i].serial == before[i].serial,
            self.players@[i].connection == before[i].connection,
            crate::world::players_distinct(before),
            forall|j: int| 0 <= j < before.len() ==> self.registry.bound@.contains(#[trigger] before[j].serial),
        ensures
            crate::world::players_distinct(self.players@),
            forall|j: int| 0 <= j < self.players@.len() ==> self.registry.bound@.contains(#[trigger] self.players@[j].serial),
    {
        assert forall|a: int, b: int|
            0 <= a < self.players@.len() && 0 <= b < self.players@.len() && a != b implies {
            &&& (#[trigger] self.players@[a]).connection != (#[trigger] self.players@[b]).connection
            &&& self.players@[a].serial != self.players@[b].serial
        } by {
            assert(before[a].connection != before[b].connection);
        }
        assert forall|j: int| 0 <= j < self.players@.len() implies self.registry.bound@.contains(
            #[trigger] self.players@[j].serial,
        ) by {
            assert(self.registry.bound@.contains(before[j].serial));
        }
    }

    /// Answer the cursor up for the player a connection plays.
    ///
    /// The answer takes the cursor down. A cancel does nothing more, and an
    /// answer when no cursor is up (or from a connection that plays nobody) is
    /// ignored. A trap is set only on a container, and the trapper is told
    /// either way (see [`trap_outcome`]); any other purpose is handed back to
    /// the system that raised the cursor, with the object and point clicked.
    pub fn handle_target(&mut self, connection: ConnectionId, response: TargetResponse) -> (action: TargetAction)
        requires
            old(self).wf(),
        ensures
            final(self).wf(),
            target_outcome(*old(self), *final(self), connection, response, action),
    {
        let i = match self.player_of(connection) {
            Some(i) => i,
            None => return TargetAction::Done,
        };
        let purpose = match self.players[i].cursor {
            Some(purpose) => purpose,
            None => return TargetAction::Done,
        };
        let ghost before = self.players@;
        self.players[i].cursor = None;
        proof {
            self.lemma_cursor_keeps_wf(before, i as int);
        }
        if response.cancelled {
            return TargetAction::Done;
        }
        match purpose {
            TargetPurpose::SetTrap { kind, power } => {
                self.set_trap(connection, response.object, kind, power);
                TargetAction::Done
            },
            TargetPurpose::Elsewhere { purpose } => TargetAction::Forward {
                purpose,
                object: response.object,
                location: response.location,
            },
        }
    }

    /// Set a trap on the object clicked; see [`trap_outcome`].
    fn set_trap(&mut self, connection: ConnectionId, object: Option<u32>, kind: TrapKind, power: u16)
        requires
            old(self).wf(),
        ensures
            final(self).wf(),
            trap_outcome(*old(self), *final(self), connection, object, kind, power),
            final(self).players == old(self).players,
            final(self).same_settings(&*old(self)),
            final(self).roster == old(self).roster,
            final(self).bus == old(self).bus,
            final(self).journal == old(self).journal,
            final(self).registry == old(self).registry,
            final(self).connections == old(self).connections,
            final(self).pending == old(self).pending,
            final(self).decorations == old(self).decorations,
            final(self).houses == old(self).houses,
    {
        let trap = TrapRecord { kind: trap_kind_code(kind), power, level: 0 };
        let (g, c) = match object {
            Some(serial) => (find_last(&self.ground, serial), find_last(&self.carried, serial)),
            None => (None, None),
        };
        let set = match g {
            Some(g) => {
                if self.ground[g].container_gump.is_some() {
                    let mut item = self.ground[g].copy();
                    item.trap = Some(trap);
                    self.ground.set(g, item);
                    true
                } else {
                    false
                }
            },
            None => match c {
                Some(c) => {
                    if self.carried[c].container_gump.is_some() {
                        let mut item = self.carried[c].copy();
                        item.trap = Some(trap);
                        self.carried.set(c, item);
                        true
                    } else {
                        false
                    }
                },
                None => false,
            },
        };
        let text = if set {
            "It is trapped now.".to_owned()
        } else {
            "Only a container can be trapped.".to_owned()
        };
        proof {
            reveal_strlit("It is trapped now.");
            reveal_strlit("Only a container can be trapped.");
            if set {
                assert(text@ =~= trap_set_line());
            } else {
                assert(text@ =~= not_a_container_line());
            }
        }
        let ghost sent = self.outbound@;
        self.outbound.push(Outbound { connection, packet: Packet::SystemMessage { text } });
        proof {
            assert(self.outbound@.drop_last() =~= sent);
        }
    }
}

} // verus!
