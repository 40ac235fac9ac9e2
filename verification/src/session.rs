//! Talking to the people in the world, and the character screen.
//!
//! The character screen is everything between the game login and the world:
//! the list of an account's characters, creating one, deleting one, and
//! picking one to play. Which characters an account has is world state (it is
//! the roster), so the screen is answered here, out of the same list a slot
//! number indexes and a picked name is checked against.
use vstd::prelude::*;
use crate::names::{
    ascii_case_equal, eq_ignore_ascii_case, names_match, same_name, trim, trimmed_of,
};
use crate::records::CharacterRecord;
use crate::roster::{
    CharacterEntry, forgotten, lemma_forgotten_wf, lookup, names_in, roster_wf,
};
use crate::types::{
    AccessLevel, CharacterScreen, ConnectionId, DeleteResult, DenyReason, Outbound, Packet,
    copy_starts,
};
use crate::world::{
    ConnectionRow, Player, World, connections_distinct, insert_serial, players_distinct,
};
use crate::records::ItemRecord;
use vstd::string::*;

verus! {

/// The longest character name the creation screen's field carries, in bytes.
pub const CHARACTER_NAME_LENGTH: usize = 30;

/// How many characters an account's list shows.
pub const MIN_CHARACTER_SLOTS: usize = 5;

/// The position of a connection's row, or -1.
pub open spec fn row_at(rows: Seq<ConnectionRow>, connection: ConnectionId) -> int {
    if exists|i: int| 0 <= i < rows.len() && #[trigger] rows[i].connection == connection {
        choose|i: int| 0 <= i < rows.len() && #[trigger] rows[i].connection == connection
    } else {
        -1
    }
}

/// The position of the player with this serial, or -1.
pub open spec fn player_with(players: Seq<Player>, serial: u32) -> int {
    if exists|i: int| 0 <= i < players.len() && #[trigger] players[i].serial == serial {
        choose|i: int| 0 <= i < players.len() && #[trigger] players[i].serial == serial
    } else {
        -1
    }
}

/// The position of the player a connection plays, or -1.
pub open spec fn player_on(players: Seq<Player>, connection: ConnectionId) -> int {
    if exists|i: int| 0 <= i < players.len() && #[trigger] players[i].connection == connection {
        choose|i: int| 0 <= i < players.len() && #[trigger] players[i].connection == connection
    } else {
        -1
    }
}

/// Whether somebody is playing this character right now: a player stands in
/// the world under that account and that name.
pub open spec fn playing(players: Seq<Player>, account: Seq<char>, name: Seq<char>) -> bool {
    exists|i: int|
        0 <= i < players.len() && same_name(#[trigger] players[i].account@, account) && same_name(
            players[i].name@,
            name,
        )
}

/// A line in the server's voice to a connection.
pub open spec fn says(o: Outbound, connection: ConnectionId, text: Seq<char>) -> bool {
    &&& o.connection == connection
    &&& o.packet matches Packet::SystemMessage { text: t } && t@ == text
}

/// The character list for a connection: these names, and the screen's cities
/// and capability mask.
pub open spec fn lists_characters(
    o: Outbound,
    connection: ConnectionId,
    names: Seq<Seq<char>>,
    screen: CharacterScreen,
) -> bool {
    &&& o.connection == connection
    &&& o.packet matches Packet::CharacterList { characters, starts, flags } && {
        &&& characters@.map_values(|e: CharacterEntry| e.name@) == names
        &&& starts@ == screen.starts@
        &&& flags == screen.flags
    }
}

/// The list again after a deletion, with these names.
pub open spec fn updates_characters(o: Outbound, connection: ConnectionId, names: Seq<Seq<char>>) -> bool {
    &&& o.connection == connection
    &&& o.packet matches Packet::CharacterListUpdate { characters } && characters@.map_values(
        |e: CharacterEntry| e.name@,
    ) == names
}

/// What offering a connection its characters appends to the queue: the
/// feature mask first when the shard advertises one, then the list.
pub open spec fn offered(
    before: Seq<Outbound>,
    after: Seq<Outbound>,
    connection: ConnectionId,
    names: Seq<Seq<char>>,
    screen: CharacterScreen,
    version: u32,
) -> bool {
    let n = before.len() as int;
    if screen.features != 0 {
        &&& after.len() == n + 2
        &&& after.take(n) == before
        &&& after[n] == Outbound {
            connection,
            packet: Packet::SupportedFeatures { features: screen.features, version },
        }
        &&& lists_characters(after[n + 1], connection, names, screen)
    } else {
        &&& after.len() == n + 1
        &&& after.take(n) == before
        &&& lists_characters(after[n], connection, names, screen)
    }
}

/// Why a name off the creation screen may not be used, if it may not: the
/// failure the client can render.
pub open spec fn name_refusal(names: Seq<Seq<char>>, raw: Seq<char>) -> Option<DenyReason> {
    let trimmed = trimmed_of(raw);
    if trimmed.len() == 0 || (vstd::utf8::encode_utf8(raw).len() as usize) > CHARACTER_NAME_LENGTH {
        Some(DenyReason::BadCharacter)
    } else if names.len() >= MIN_CHARACTER_SLOTS {
        Some(DenyReason::TooManyCharacters)
    } else if exists|i: int| 0 <= i < names.len() && ascii_case_equal(#[trigger] names[i], trimmed) {
        Some(DenyReason::BadCharacter)
    } else {
        None
    }
}

/// The records left waiting once an owner's are dropped.
pub open spec fn without_owner(pending: Seq<crate::records::ItemRecord>, owner: u32) -> Seq<
    crate::records::ItemRecord,
>
    decreases pending.len(),
{
    if pending.len() == 0 {
        Seq::empty()
    } else if pending.last().owner == Some(owner) {
        without_owner(pending.drop_last(), owner)
    } else {
        without_owner(pending.drop_last(), owner).push(pending.last())
    }
}

proof fn lemma_without_owner_keeps_owned(pending: Seq<crate::records::ItemRecord>, owner: u32)
    requires
        forall|i: int| 0 <= i < pending.len() ==> (#[trigger] pending[i]).owner is Some,
    ensures
        forall|i: int|
            0 <= i < without_owner(pending, owner).len() ==> (#[trigger] without_owner(
                pending,
                owner,
            )[i]).owner is Some,
    decreases pending.len(),
{
    if pending.len() > 0 {
        lemma_without_owner_keeps_owned(pending.drop_last(), owner);
    }
}

/// What deleting a character leaves behind, given what was recorded about it:
/// nothing to clean up without a record; with one, its serial is named removed
/// for the next save and the inventory waiting under it is dropped.
pub open spec fn cleaned_up(
    before: &World,
    after: &World,
    record: Option<CharacterRecord>,
) -> bool {
    match record {
        None => {
            &&& after.journal.removed == before.journal.removed
            &&& after.pending == before.pending
        },
        Some(r) => {
            &&& after.journal.removed@.to_set() == before.journal.removed@.to_set().insert(r.serial)
            &&& after.pending@ == without_owner(before.pending@, r.serial)
        },
    }
}

/// What answering a deletion request for a slot did, given the world before
/// and after it.
pub open spec fn deletion_answered(
    before: &World,
    after: &World,
    connection: ConnectionId,
    slot: u32,
) -> bool {
    let r = row_at(before.connections@, connection);
    if r < 0 {
        &&& after.outbound == before.outbound
        &&& after.roster == before.roster
        &&& after.journal == before.journal
        &&& after.pending == before.pending
    } else {
        let account = before.connections@[r].account@;
        let names = names_in(before.roster@, account);
        if slot as int >= names.len() {
            &&& after.roster == before.roster
            &&& after.journal == before.journal
            &&& after.pending == before.pending
            &&& after.outbound@ == before.outbound@.push(
                Outbound { connection, packet: Packet::DeleteReject { result: DeleteResult::CharNotExist } },
            )
        } else if playing(before.players@, account, names[slot as int]) {
            &&& after.roster == before.roster
            &&& after.journal == before.journal
            &&& after.pending == before.pending
            &&& after.outbound@ == before.outbound@.push(
                Outbound {
                    connection,
                    packet: Packet::DeleteReject { result: DeleteResult::CharBeingPlayed },
                },
            )
        } else {
            &&& after.roster@ == forgotten(before.roster@, account, names[slot as int])
            &&& cleaned_up(before, after, lookup(before.roster@, account, names[slot as int]))
            &&& after.journal.dirty == before.journal.dirty
            &&& after.journal.kept == before.journal.kept
            &&& after.journal.saves == before.journal.saves
            &&& after.outbound@.len() == before.outbound@.len() + 1
            &&& after.outbound@.drop_last() == before.outbound@
            &&& updates_characters(after.outbound@.last(), connection, names_in(after.roster@, account))
        }
    }
}

impl World {
    /// Drop every record waiting for this owner.
    fn drop_inventory(&mut self, owner: u32)
        requires
            old(self).wf(),
        ensures
            final(self).wf(),
            final(self).pending@ == without_owner(old(self).pending@, owner),
            final(self).same_settings(&*old(self)),
            final(self).same_people(&*old(self)),
            final(self).registry == old(self).registry,
            final(self).roster == old(self).roster,
            final(self).ground == old(self).ground,
            final(self).decorations == old(self).decorations,
            final(self).houses == old(self).houses,
            final(self).carried == old(self).carried,
            final(self).bus == old(self).bus,
            final(self).journal == old(self).journal,
    {
        let ghost all = self.pending@;
        proof {
            lemma_without_owner_keeps_owned(all, owner);
            assert(all.take(0) =~= Seq::<ItemRecord>::empty());
        }
        let mut waiting: Vec<ItemRecord> = Vec::new();
        std::mem::swap(&mut waiting, &mut self.pending);
        let mut kept: Vec<ItemRecord> = Vec::new();
        for record in it: waiting
            invariant
                it.seq() == all,
                kept@ == without_owner(all.take(it.index() as int), owner),
        {
            let ghost k = it.index() as int;
            proof {
                assert(all.take(k + 1).drop_last() =~= all.take(k));
            }
            let theirs = match record.owner {
                Some(o) => o == owner,
                None => false,
            };
            if !theirs {
                kept.push(record);
            }
        }
        proof {
            assert(all.take(all.len() as int) =~= all);
        }
        self.pending = kept;
    }

    /// Delete a character from its account: it leaves the list, and if
    /// anything was recorded about it, its serial is named removed for the
    /// next save and the inventory waiting under it is dropped.
    pub fn delete_character(&mut self, account: &str, name: &str)
        requires
            old(self).wf(),
        ensures
            final(self).wf(),
            final(self).roster@ == forgotten(old(self).roster@, account@, name@),
            cleaned_up(&*old(self), &*final(self), lookup(old(self).roster@, account@, name@)),
            final(self).journal.dirty == old(self).journal.dirty,
            final(self).journal.kept == old(self).journal.kept,
            final(self).journal.saves == old(self).journal.saves,
            final(self).same_settings(&*old(self)),
            final(self).same_people(&*old(self)),
            final(self).registry == old(self).registry,
            final(self).ground == old(self).ground,
            final(self).decorations == old(self).decorations,
            final(self).houses == old(self).houses,
            final(self).carried == old(self).carried,
            final(self).bus == old(self).bus,
    {
        let record = self.roster.forget(account, name);
        match record {
            None => {},
            Some(r) => {
                insert_serial(&mut self.journal.removed, r.serial);
                self.drop_inventory(r.serial);
            },
        }
    }

    /// Delete the character in a slot of the list this connection was last
    /// sent, or refuse: a slot that names no character, or a character that
    /// somebody is playing. A deletion is answered with the list that is left.
    pub fn delete_character_at(&mut self, connection: ConnectionId, slot: u32)
        requires
            old(self).wf(),
        ensures
            final(self).wf(),
            deletion_answered(&*old(self), &*final(self), connection, slot),
            final(self).same_settings(&*old(self)),
            final(self).connections == old(self).connections,
            final(self).players == old(self).players,
            final(self).registry == old(self).registry,
            final(self).ground == old(self).ground,
            final(self).decorations == old(self).decorations,
            final(self).houses == old(self).houses,
            final(self).carried == old(self).carried,
            final(self).bus == old(self).bus,
    {
        let r = match self.row_index(connection) {
            Some(r) => r,
            None => return ,
        };
        let account = self.connections[r].account.clone();
        let characters = self.roster.characters(account.as_str());
        let ghost names = names_in(self.roster@, account@);
        proof {
            assert(characters@.map_values(|e: CharacterEntry| e.name@).len() == characters@.len());
        }
        if slot as usize >= characters.len() {
            self.reject_delete(connection, DeleteResult::CharNotExist);
            return;
        }
        let name = &characters[slot as usize].name;
        proof {
            assert(name@ == names[slot as int]);
        }
        if self.is_playing(account.as_str(), name.as_str()) {
            self.reject_delete(connection, DeleteResult::CharBeingPlayed);
            return;
        }
        self.delete_character(account.as_str(), name.as_str());
        let left = self.roster.characters(account.as_str());
        self.outbound.push(Outbound { connection, packet: Packet::CharacterListUpdate { characters: left } });
        proof {
            assert(self.outbound@.drop_last() =~= old(self).outbound@);
        }
    }

    /// Where a connection's row is, if the world took it over.
    pub fn row_index(&self, connection: ConnectionId) -> (found: Option<usize>)
        requires
            connections_distinct(self.connections@),
        ensures
            match found {
                Some(i) => i < self.connections@.len() && row_at(self.connections@, connection)
                    == i,
                None => row_at(self.connections@, connection) == -1,
            },
    {
        let mut i: usize = 0;
        while i < self.connections.len()
            invariant
                i <= self.connections@.len(),
                connections_distinct(self.connections@),
                forall|j: int| 0 <= j < i ==> #[trigger] self.connections@[j].connection != connection,
            decreases self.connections@.len() - i,
        {
            if self.connections[i].connection == connection {
                proof {
                    let k = row_at(self.connections@, connection);
                    assert(self.connections@[i as int].connection == connection);
                    if k != i {
                        assert(self.connections@[k].connection == connection);
                    }
                }
                return Some(i);
            }
            i = i + 1;
        }
        None
    }

    /// Where the player with this serial is, if it is in the world.
    pub fn player_index(&self, serial: u32) -> (found: Option<usize>)
        requires
            players_distinct(self.players@),
        ensures
            match found {
                Some(i) => i < self.players@.len() && player_with(self.players@, serial) == i,
                None => player_with(self.players@, serial) == -1,
            },
    {
        let mut i: usize = 0;
        while i < self.players.len()
            invariant
                i <= self.players@.len(),
                players_distinct(self.players@),
                forall|j: int| 0 <= j < i ==> #[trigger] self.players@[j].serial != serial,
            decreases self.players@.len() - i,
        {
            if self.players[i].serial == serial {
                proof {
                    let k = player_with(self.players@, serial);
                    assert(self.players@[i as int].serial == serial);
                    if k != i {
                        assert(self.players@[k].serial == serial);
                    }
                }
                return Some(i);
            }
            i = i + 1;
        }
        None
    }

    /// Where the player a connection plays is, if it plays one.
    pub fn player_of(&self, connection: ConnectionId) -> (found: Option<usize>)
        requires
            players_distinct(self.players@),
        ensures
            match found {
                Some(i) => i < self.players@.len() && player_on(self.players@, connection) == i,
                None => player_on(self.players@, connection) == -1,
            },
    {
        let mut i: usize = 0;
        while i < self.players.len()
            invariant
                i <= self.players@.len(),
                players_distinct(self.players@),
                forall|j: int| 0 <= j < i ==> #[trigger] self.players@[j].connection != connection,
            decreases self.players@.len() - i,
        {
            if self.players[i].connection == connection {
                proof {
                    let k = player_on(self.players@, connection);
                    assert(self.players@[i as int].connection == connection);
                    if k != i {
                        assert(self.players@[k].connection == connection);
                    }
                }
                return Some(i);
            }
            i = i + 1;
        }
        None
    }

    /// Say one line to every player in the world, in the server's own voice.
    ///
    /// Every player, and only players: a connection still on the character
    /// screen has no body to speak to.
    pub fn announce(&mut self, text: &str)
        requires
            old(self).wf(),
        ensures
            final(self).wf(),
            final(self).only_sent(&*old(self)),
            final(self).outbound@.len() == old(self).outbound@.len() + old(self).players@.len(),
            final(self).outbound@.take(old(self).outbound@.len() as int) == old(self).outbound@,
            forall|k: int|
                0 <= k < old(self).players@.len() ==> says(
                    #[trigger] final(self).outbound@[old(self).outbound@.len() + k],
                    old(self).players@[k].connection,
                    text@,
                ),
    {
        let n = self.outbound.len();
        let mut i: usize = 0;
        while i < self.players.len()
            invariant
                i <= self.players@.len(),
                n == old(self).outbound@.len(),
                self.wf(),
                self.only_sent(&*old(self)),
                self.outbound@.len() == n + i,
                self.outbound@.take(n as int) == old(self).outbound@,
                forall|k: int|
                    0 <= k < i ==> says(
                        #[trigger] self.outbound@[n + k],
                        self.players@[k].connection,
                        text@,
                    ),
            decreases self.players@.len() - i,
        {
            let connection = self.players[i].connection;
            let ghost before = self.outbound@;
            self.outbound.push(Outbound { connection, packet: Packet::SystemMessage { text: text.to_owned() } });
            proof {
                assert(self.outbound@.take(n as int) =~= before.take(n as int));
                assert forall|k: int| 0 <= k < i + 1 implies says(
                    #[trigger] self.outbound@[n + k],
                    self.players@[k].connection,
                    text@,
                ) by {
                    if k < i {
                        assert(self.outbound@[n + k] == before[n + k]);
                    }
                }
            }
            i = i + 1;
        }
    }

    /// A private line in the server's voice to a player, if the serial is a
    /// player's. Anything else hears nothing.
    pub fn notify_self(&mut self, serial: u32, text: &str)
        requires
            old(self).wf(),
        ensures
            final(self).wf(),
            final(self).only_sent(&*old(self)),
            player_with(old(self).players@, serial) < 0 ==> final(self).outbound == old(
                self,
            ).outbound,
            player_with(old(self).players@, serial) >= 0 ==> {
                &&& final(self).outbound@.len() == old(self).outbound@.len() + 1
                &&& final(self).outbound@.drop_last() == old(self).outbound@
                &&& says(
                    final(self).outbound@.last(),
                    old(self).players@[player_with(old(self).players@, serial)].connection,
                    text@,
                )
            },
    {
        match self.player_index(serial) {
            None => {},
            Some(p) => {
                let connection = self.players[p].connection;
                self.outbound.push(Outbound { connection, packet: Packet::SystemMessage { text: text.to_owned() } });
                proof {
                    assert(self.outbound@.drop_last() =~= old(self).outbound@);
                }
            },
        }
    }

    /// Whether some connection is playing this character right now.
    pub fn is_playing(&self, account: &str, name: &str) -> (found: bool)
        ensures
            found == playing(self.players@, account@, name@),
    {
        let mut i: usize = 0;
        while i < self.players.len()
            invariant
                i <= self.players@.len(),
                forall|j: int|
                    0 <= j < i ==> !(same_name(#[trigger] self.players@[j].account@, account@)
                        && same_name(self.players@[j].name@, name@)),
            decreases self.players@.len() - i,
        {
            if names_match(self.players[i].account.as_str(), account) && names_match(
                self.players[i].name.as_str(),
                name,
            ) {
                assert(same_name(self.players@[i as int].account@, account@));
                return true;
            }
            i = i + 1;
        }
        false
    }

    /// Offer a connection its account's characters: the feature mask first
    /// when the shard advertises one, then the list.
    pub fn send_character_list(&mut self, connection: ConnectionId)
        requires
            old(self).wf(),
        ensures
            final(self).wf(),
            final(self).only_sent(&*old(self)),
            row_at(old(self).connections@, connection) < 0 ==> final(self).outbound == old(
                self,
            ).outbound,
            row_at(old(self).connections@, connection) >= 0 ==> offered(
                old(self).outbound@,
                final(self).outbound@,
                connection,
                names_in(
                    old(self).roster@,
                    old(self).connections@[row_at(old(self).connections@, connection)].account@,
                ),
                old(self).screen,
                old(self).connections@[row_at(old(self).connections@, connection)].version,
            ),
    {
        let r = match self.row_index(connection) {
            Some(r) => r,
            None => return ,
        };
        let version = self.connections[r].version;
        let characters = self.roster.characters(self.connections[r].account.as_str());
        let n = self.outbound.len();
        if self.screen.features != 0 {
            self.outbound.push(
                Outbound {
                    connection,
                    packet: Packet::SupportedFeatures { features: self.screen.features, version },
                },
            );
        }
        let starts = copy_starts(&self.screen.starts);
        self.outbound.push(
            Outbound {
                connection,
                packet: Packet::CharacterList { characters, starts, flags: self.screen.flags },
            },
        );
        proof {
            assert(self.outbound@.take(n as int) =~= old(self).outbound@);
        }
    }

    /// Take a connection over from the login conversation and show it its
    /// characters.
    pub fn authenticated(
        &mut self,
        connection: ConnectionId,
        version: u32,
        account: String,
        access: AccessLevel,
    )
        requires
            old(self).wf(),
        ensures
            final(self).wf(),
            final(self).same_settings(&*old(self)),
            final(self).same_records(&*old(self)),
            final(self).registry == old(self).registry,
            final(self).players == old(self).players,
            final(self).connections@[row_at(final(self).connections@, connection)] == (
            ConnectionRow { connection, version, account, access, last_music: None }),
            row_at(final(self).connections@, connection) >= 0,
            forall|c: ConnectionId|
                c != connection ==> (#[trigger] row_at(final(self).connections@, c) >= 0 <==> row_at(
                    old(self).connections@,
                    c,
                ) >= 0),
            forall|c: ConnectionId|
                c != connection && row_at(old(self).connections@, c) >= 0
                    ==> final(self).connections@[#[trigger] row_at(final(self).connections@, c)]
                    == old(self).connections@[row_at(old(self).connections@, c)],
            offered(
                old(self).outbound@,
                final(self).outbound@,
                connection,
                names_in(old(self).roster@, account@),
                old(self).screen,
                version,
            ),
    {
        let ghost row = ConnectionRow { connection, version, account, access, last_music: None };
        match self.row_index(connection) {
            Some(r) => {
                self.connections[r] = ConnectionRow { connection, version, account, access, last_music: None };
                proof {
                    assert forall|i: int, j: int|
                        0 <= i < self.connections@.len() && 0 <= j < self.connections@.len() && i
                            != j implies #[trigger] self.connections@[i].connection
                        != #[trigger] self.connections@[j].connection by {
                        assert(old(self).connections@[i].connection != old(
                            self,
                        ).connections@[j].connection);
                    }
                    assert(self.connections@[r as int].connection == connection);
                    let k = row_at(self.connections@, connection);
                    if k != r {
                        assert(self.connections@[k].connection == connection);
                    }
                    assert forall|c: ConnectionId| c != connection implies (#[trigger] row_at(
                        self.connections@,
                        c,
                    ) >= 0 <==> row_at(old(self).connections@, c) >= 0) by {
                        if row_at(old(self).connections@, c) >= 0 {
                            let m = row_at(old(self).connections@, c);
                            assert(self.connections@[m].connection == c);
                        }
                        if row_at(self.connections@, c) >= 0 {
                            let m = row_at(self.connections@, c);
                            assert(old(self).connections@[m].connection == c);
                        }
                    }
                }
            },
            None => {
                self.connections.push(ConnectionRow { connection, version, account, access, last_music: None });
                proof {
                    let last = self.connections@.len() - 1;
                    assert forall|i: int, j: int|
                        0 <= i < self.connections@.len() && 0 <= j < self.connections@.len() && i
                            != j implies #[trigger] self.connections@[i].connection
                        != #[trigger] self.connections@[j].connection by {
                        if i < last && j < last {
                            assert(old(self).connections@[i].connection != old(
                                self,
                            ).connections@[j].connection);
                        } else if i < last {
                            assert(old(self).connections@[i].connection != connection);
                        } else {
                            assert(old(self).connections@[j].connection != connection);
                        }
                    }
                    assert(self.connections@[last].connection == connection);
                    let k = row_at(self.connections@, connection);
                    if k != last {
                        assert(self.connections@[k].connection == connection);
                    }
                    assert forall|c: ConnectionId| c != connection implies (#[trigger] row_at(
                        self.connections@,
                        c,
                    ) >= 0 <==> row_at(old(self).connections@, c) >= 0) by {
                        if row_at(old(self).connections@, c) >= 0 {
                            let m = row_at(old(self).connections@, c);
                            assert(self.connections@[m].connection == c);
                        }
                        if row_at(self.connections@, c) >= 0 {
                            let m = row_at(self.connections@, c);
                            assert(m < last);
                            assert(old(self).connections@[m].connection == c);
                        }
                    }
                }
            },
        }
        self.send_character_list(connection);
    }

    /// Refuse something on the character screen with the login error the
    /// client renders, leaving the connection where it is.
    pub(crate) fn refuse_screen(&mut self, connection: ConnectionId, reason: DenyReason)
        ensures
            final(self).outbound@ == old(self).outbound@.push(
                Outbound { connection, packet: Packet::LoginDenied { reason } },
            ),
            final(self).only_sent(&*old(self)),
    {
        self.outbound.push(Outbound { connection, packet: Packet::LoginDenied { reason } });
    }

    /// Tell a client its deletion did not happen, and why.
    fn reject_delete(&mut self, connection: ConnectionId, result: DeleteResult)
        ensures
            final(self).outbound@ == old(self).outbound@.push(
                Outbound { connection, packet: Packet::DeleteReject { result } },
            ),
            final(self).only_sent(&*old(self)),
    {
        self.outbound.push(Outbound { connection, packet: Packet::DeleteReject { result } });
    }

    /// Turn a name off the creation screen into one this account may have, or
    /// say why not: trimmed of the padding the client sends, not empty, inside
    /// the field's width, not one past what the list shows, and not already on
    /// the account in any ASCII case.
    #[verifier::loop_isolation(false)]
    pub fn validate_new_name(&self, account: &str, raw: &str) -> (named: Result<String, DenyReason>)
        requires
            self.wf(),
        ensures
            match name_refusal(names_in(self.roster@, account@), raw@) {
                Some(reason) => named == Err::<String, DenyReason>(reason),
                None => named matches Ok(name) && name@ == trimmed_of(raw@),
            },
    {
        let trimmed = trim(raw);
        if trimmed.is_empty() || raw.len() > CHARACTER_NAME_LENGTH {
            return Err(DenyReason::BadCharacter);
        }
        let characters = self.roster.characters(account);
        let ghost names = names_in(self.roster@, account@);
        proof {
            assert(characters@.map_values(|e: CharacterEntry| e.name@).len() == characters@.len());
        }
        if characters.len() >= MIN_CHARACTER_SLOTS {
            return Err(DenyReason::TooManyCharacters);
        }
        let mut i: usize = 0;
        while i < characters.len()
            invariant
                i <= characters@.len(),
                names == characters@.map_values(|e: CharacterEntry| e.name@),
                forall|j: int| 0 <= j < i ==> !ascii_case_equal(#[trigger] names[j], trimmed@),
            decreases characters@.len() - i,
        {
            if eq_ignore_ascii_case(characters[i].name.as_str(), trimmed) {
                assert(ascii_case_equal(names[i as int], trimmed@));
                return Err(DenyReason::BadCharacter);
            }
            i = i + 1;
        }
        Ok(trimmed.to_owned())
    }
}

} // verus!
