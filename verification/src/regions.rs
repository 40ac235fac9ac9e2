//! Crossing a region boundary: who noticed, and what it changes.
//!
//! Nothing announces "entered a region"; a player moves by walking, by
//! teleport, by resurrection, by logging in, and a hook beside each of those
//! would be five places to forget. So the crossing is found by comparing the
//! region a player stands in now against the one it was last seen in. What a
//! crossing does here is thin: it is announced, and the region's music starts
//! unless that track is already playing.
//!
//! Which region a tile lies in is the region index's answer (priorities,
//! rectangles, heights); it is handed in as [`RegionHere`].
use vstd::prelude::*;
use crate::session::{player_with, row_at};
use crate::types::{ConnectionId, Event, Outbound, Packet};
use crate::world::{RegionSeen, World, connections_distinct, players_distinct};

verus! {

/// The named region a tile lies in, as the region index answers it.
pub struct RegionHere {
    pub id: u32,
    pub name: String,
    pub music: Option<u16>,
}

/// Whether a player last seen `seen` and standing now in region `to` of
/// `facet` has crossed a boundary. A player seen for the first time has
/// crossed only if it stands somewhere named, or every login into open
/// country would be one. The facet is half of a region's identity: the same
/// id on two facets is two places.
pub open spec fn crossed(seen: Option<RegionSeen>, facet: u8, to: Option<u32>) -> bool {
    match seen {
        None => to is Some,
        Some(s) => s.region != to || s.facet != facet,
    }
}

/// The region id of an answer from the region index.
pub open spec fn region_id(here: Option<RegionHere>) -> Option<u32> {
    match here {
        Some(r) => Some(r.id),
        None => None,
    }
}

/// Once a crossing is noted, standing still is not another one.
pub proof fn lemma_standing_still_is_no_crossing(facet: u8, to: Option<u32>)
    ensures
        !crossed(Some(RegionSeen { facet, region: to }), facet, to),
{
}

/// Entering the world into unnamed land is not a crossing.
pub proof fn lemma_arriving_in_open_country_is_no_crossing(facet: u8)
    ensures
        !crossed(None, facet, None),
{
}

impl World {
    /// Play a region's track for a connection, unless it is the one already
    /// playing: sending the same track again would restart it, so a player
    /// pacing a town line would hear its first bars over and over. No track
    /// (unnamed land, or a region without music) leaves the music as it is.
    fn start_music(&mut self, connection: ConnectionId, music: Option<u16>)
        requires
            old(self).wf(),
        ensures
            final(self).wf(),
            final(self).same_settings(&*old(self)),
            final(self).same_records(&*old(self)),
            final(self).registry == old(self).registry,
            final(self).players == old(self).players,
            final(self).connections@.len() == old(self).connections@.len(),
            ({
                let r = row_at(old(self).connections@, connection);
                if r >= 0 && music is Some && old(self).connections@[r].last_music != music {
                    &&& final(self).connections@ == old(self).connections@.update(
                        r,
                        crate::world::ConnectionRow {
                            last_music: music,
                            ..old(self).connections@[r]
                        },
                    )
                    &&& final(self).outbound@ == old(self).outbound@.push(
                        Outbound { connection, packet: Packet::PlayMusic { track: music->0 } },
                    )
                } else {
                    &&& final(self).connections == old(self).connections
                    &&& final(self).outbound == old(self).outbound
                }
            }),
    {
        let track = match music {
            Some(track) => track,
            None => return ,
        };
        let r = match self.row_index(connection) {
            Some(r) => r,
            None => return ,
        };
        let same = match self.connections[r].last_music {
            Some(playing) => playing == track,
            None => false,
        };
        if same {
            return;
        }
        self.connections[r].last_music = Some(track);
        proof {
            let now = self.connections@;
            let before = old(self).connections@;
            assert forall|i: int, j: int|
                0 <= i < now.len() && 0 <= j < now.len() && i != j implies #[trigger] now[i].connection
                != #[trigger] now[j].connection by {
                assert(before[i].connection != before[j].connection);
            }
            assert(connections_distinct(now));
        }
        self.outbound.push(Outbound { connection, packet: Packet::PlayMusic { track } });
    }

    /// Notice whether a player has crossed a region boundary, given the
    /// region the index says it stands in now (see [`crossed`]). A crossing
    /// is remembered, announced, and starts the entered region's music. Any
    /// serial that is not a player's is ignored.
    pub fn note_region(&mut self, serial: u32, here: Option<RegionHere>)
        requires
            old(self).wf(),
        ensures
            final(self).wf(),
            final(self).same_settings(&*old(self)),
            final(self).registry == old(self).registry,
            final(self).roster == old(self).roster,
            final(self).pending == old(self).pending,
            final(self).ground == old(self).ground,
            final(self).decorations == old(self).decorations,
            final(self).houses == old(self).houses,
            final(self).carried == old(self).carried,
            final(self).journal == old(self).journal,
            final(self).bus.marked == old(self).bus.marked,
            final(self).connections@.len() == old(self).connections@.len(),
            ({
                let k = player_with(old(self).players@, serial);
                let p = old(self).players@[k];
                let to = region_id(here);
                if k >= 0 && crossed(p.in_region, p.facet, to) {
                    let from = match p.in_region {
                        Some(s) => s.region,
                        None => None,
                    };
                    let name = match here {
                        Some(r) => r.name@,
                        None => Seq::<char>::empty(),
                    };
                    &&& final(self).players@ == old(self).players@.update(
                        k,
                        crate::world::Player {
                            in_region: Some(RegionSeen { facet: p.facet, region: to }),
                            ..p
                        },
                    )
                    &&& final(self).bus.events@.len() == old(self).bus.events@.len() + 1
                    &&& final(self).bus.events@.drop_last() == old(self).bus.events@
                    &&& final(self).bus.events@.last() matches Event::RegionChanged {
                        serial: s,
                        facet: f,
                        from: a,
                        to: b,
                        name: n,
                    } && s == serial && f == p.facet && a == from && b == to && n@ == name
                    &&& ({
                        let music = match here {
                            Some(r) => r.music,
                            None => None,
                        };
                        let r = row_at(old(self).connections@, p.connection);
                        if r >= 0 && music is Some && old(self).connections@[r].last_music
                            != music {
                            &&& final(self).connections@[r].last_music == music
                            &&& final(self).outbound@ == old(self).outbound@.push(
                                Outbound {
                                    connection: p.connection,
                                    packet: Packet::PlayMusic { track: music->0 },
                                },
                            )
                        } else {
                            &&& final(self).connections == old(self).connections
                            &&& final(self).outbound == old(self).outbound
                        }
                    })
                } else {
                    &&& final(self).players == old(self).players
                    &&& final(self).connections == old(self).connections
                    &&& final(self).outbound == old(self).outbound
                    &&& final(self).bus == old(self).bus
                }
            }),
    {
        let k = match self.player_index(serial) {
            Some(k) => k,
            None => return ,
        };
        let facet = self.players[k].facet;
        let seen = self.players[k].in_region;
        let to = match &here {
            Some(r) => Some(r.id),
            None => None,
        };
        let crossing = match seen {
            None => to.is_some(),
            Some(s) => s.region != to || s.facet != facet,
        };
        if !crossing {
            return;
        }
        let from = match seen {
            Some(s) => s.region,
            None => None,
        };
        let connection = self.players[k].connection;
        self.players[k].in_region = Some(RegionSeen { facet, region: to });
        proof {
            let now = self.players@;
            let before = old(self).players@;
            assert forall|i: int, j: int|
                0 <= i < now.len() && 0 <= j < now.len() && i != j implies {
                &&& (#[trigger] now[i]).connection != (#[trigger] now[j]).connection
                &&& now[i].serial != now[j].serial
            } by {
                assert(before[i].connection != before[j].connection);
                assert(before[i].serial != before[j].serial);
            }
            assert(players_distinct(now));
        }
        let (name, music) = match here {
            Some(r) => (r.name, r.music),
            None => (String::new(), None),
        };
        self.start_music(connection, music);
        self.bus.events.push(Event::RegionChanged { serial, facet, from, to, name });
        proof {
            assert(self.bus.events@.drop_last() =~= old(self).bus.events@);
        }
    }

    /// Forget where every player was last seen, so the next look reads the
    /// world fresh: after a facet's regions are replaced or cleared, a
    /// remembered region names a set that no longer exists, and everyone
    /// standing in a region has, in effect, just arrived in it.
    pub fn forget_remembered_regions(&mut self)
        requires
            old(self).wf(),
        ensures
            final(self).wf(),
            final(self).players@.len() == old(self).players@.len(),
            forall|i: int|
                0 <= i < final(self).players@.len() ==> #[trigger] final(self).players@[i] == (
                crate::world::Player { in_region: None, ..old(self).players@[i] }),
            final(self).same_settings(&*old(self)),
            final(self).same_records(&*old(self)),
            final(self).registry == old(self).registry,
            final(self).connections == old(self).connections,
            final(self).outbound == old(self).outbound,
    {
        let mut i: usize = 0;
        while i < self.players.len()
            invariant
                i <= self.players@.len(),
                self.players@.len() == old(self).players@.len(),
                forall|j: int|
                    0 <= j < i ==> #[trigger] self.players@[j] == (crate::world::Player {
                        in_region: None,
                        ..old(self).players@[j]
                    }),
                forall|j: int| i <= j < self.players@.len() ==> #[trigger] self.players@[j] == old(
                    self,
                ).players@[j],
                self.wf(),
                self.same_settings(&*old(self)),
                self.same_records(&*old(self)),
                self.registry == old(self).registry,
                self.connections == old(self).connections,
                self.outbound == old(self).outbound,
            decreases self.players@.len() - i,
        {
            let ghost before = self.players@;
            self.players[i].in_region = None;
            proof {
                let now = self.players@;
                assert forall|a: int, b: int|
                    0 <= a < now.len() && 0 <= b < now.len() && a != b implies {
                    &&& (#[trigger] now[a]).connection != (#[trigger] now[b]).connection
                    &&& now[a].serial != now[b].serial
                } by {
                    assert(before[a].connection != before[b].connection);
                    assert(before[a].serial != before[b].serial);
                }
            }
            i = i + 1;
        }
    }

    /// Drop a facet's named areas: if the shard loads the facet, everyone's
    /// remembered region goes with them (see
    /// [`World::forget_remembered_regions`]). Says whether it did.
    pub fn clear_regions(&mut self, facet: u8) -> (cleared: bool)
        requires
            old(self).wf(),
        ensures
            final(self).wf(),
            cleared == old(self).facets@.contains(facet),
            !cleared ==> final(self).players == old(self).players,
            cleared ==> final(self).players@.len() == old(self).players@.len() && forall|i: int|
                0 <= i < final(self).players@.len() ==> #[trigger] final(self).players@[i] == (
                crate::world::Player { in_region: None, ..old(self).players@[i] }),
            final(self).same_settings(&*old(self)),
            final(self).same_records(&*old(self)),
            final(self).registry == old(self).registry,
            final(self).connections == old(self).connections,
            final(self).outbound == old(self).outbound,
    {
        if !self.has_facet(facet) {
            return false;
        }
        self.forget_remembered_regions();
        true
    }
}

} // verus!
