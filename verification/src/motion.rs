//! A player's walk request, on either side of the walk state machine, and a
//! step the server decrees.
//!
//! Before: a request from a connection with no character is ignored, and a
//! paralysed or exhausted walker is refused where it stands. After: what the
//! client is told, what the world writes down, and what the tick announces,
//! for each of the three ways a request can come out. Deciding the outcome
//! itself (the terrain, the crowd, the pace) is the walk state machine's; a
//! decreed step is given the landing the terrain allows.
use vstd::prelude::*;
use crate::records::Direction;
use crate::session::{player_on, player_with, says};
use crate::types::{ConnectionId, Event, Facing, Notoriety, Outbound, Packet, Point, RefusedReason};
use crate::world::{Player, Walker, World, players_distinct};

verus! {

/// A step the client asked for.
#[derive(Clone, Copy, Debug, PartialEq, Eq)]
pub struct WalkRequest {
    /// The client's sequence number, echoed in the answer.
    pub sequence: u8,
    /// Which way, and whether running.
    pub facing: Facing,
}

/// Why the walk state machine refused a step.
#[derive(Clone, Copy, Debug, PartialEq, Eq)]
pub enum Refusal {
    OutOfSequence,
    TooFast,
    OffTheMap,
    Blocked,
}

/// How a walk request came out.
#[derive(Clone, Copy, Debug, PartialEq, Eq)]
pub enum Walk {
    /// The mobile stepped onto a new tile.
    Moved { position: Point, facing: Facing },
    /// The mobile turned where it stood.
    Turned { facing: Facing },
    /// The step was refused.
    Refused(Refusal),
}

/// One player's walk request, with what was known about the walker when it
/// arrived.
#[derive(Clone, Copy, Debug, PartialEq, Eq)]
pub struct PlayerWalk {
    pub connection: ConnectionId,
    pub serial: u32,
    pub facet: u8,
    pub from: Point,
    pub request: WalkRequest,
    pub mounted: bool,
    /// Whether the walker was sitting, and so is getting up.
    pub leaving_seat: bool,
}

/// What observers are told of a refusal: stepping off the map and walking
/// into something are the same to them.
pub open spec fn spec_refused_reason(refusal: Refusal) -> RefusedReason {
    match refusal {
        Refusal::OutOfSequence => RefusedReason::OutOfSequence,
        Refusal::TooFast => RefusedReason::TooFast,
        Refusal::OffTheMap => RefusedReason::Blocked,
        Refusal::Blocked => RefusedReason::Blocked,
    }
}

/// Observers are told why a step was refused as the walker was, except that
/// stepping off the map and walking into something are both "blocked": a
/// step out of sequence is reported out of sequence, a step too fast is
/// reported too fast, and two refusals are reported alike only when they are
/// the same or are both a block.
pub proof fn lemma_refusal_is_reported_faithfully(refusal: Refusal, other: Refusal)
    ensures
        (spec_refused_reason(refusal) == RefusedReason::OutOfSequence) == (refusal == Refusal::OutOfSequence),
        (spec_refused_reason(refusal) == RefusedReason::TooFast) == (refusal == Refusal::TooFast),
        (spec_refused_reason(refusal) == RefusedReason::Blocked) == (refusal == Refusal::OffTheMap
            || refusal == Refusal::Blocked),
        spec_refused_reason(refusal) == spec_refused_reason(other) ==> (refusal == other || ((refusal
            == Refusal::OffTheMap || refusal == Refusal::Blocked) && (other == Refusal::OffTheMap
            || other == Refusal::Blocked))),
{
}

/// What observers are told of a refusal; see [`spec_refused_reason`].
pub fn refused_reason(refusal: Refusal) -> (reason: RefusedReason)
    ensures
        reason == spec_refused_reason(refusal),
{
    match refusal {
        Refusal::OutOfSequence => RefusedReason::OutOfSequence,
        Refusal::TooFast => RefusedReason::TooFast,
        Refusal::OffTheMap | Refusal::Blocked => RefusedReason::Blocked,
    }
}

/// The acknowledgement of an accepted request.
pub open spec fn ack(connection: ConnectionId, request: WalkRequest) -> Outbound {
    Outbound {
        connection,
        packet: Packet::WalkAck { sequence: request.sequence, notoriety: Notoriety::Innocent },
    }
}

/// The refusal of a request, snapping the client back to the walker.
pub open spec fn reject(connection: ConnectionId, request: WalkRequest, walker: Walker) -> Outbound {
    Outbound {
        connection,
        packet: Packet::WalkReject {
            sequence: request.sequence,
            position: walker.position,
            facing: walker.facing,
        },
    }
}

/// The players after a walk's outcome is written to the walker's entry, if
/// the walker is a player: the walker as the request left it, and for a step
/// the new tile, the new heading and no longer sitting; for a turn the new
/// heading.
pub open spec fn walked_players(players: Seq<Player>, walked: PlayerWalk, walker: Walker, outcome: Walk) -> Seq<
    Player,
> {
    let p = player_with(players, walked.serial);
    if p < 0 {
        players
    } else {
        let before = players[p];
        let updated = match outcome {
            Walk::Moved { position, facing } => Player {
                walker,
                position,
                heading: facing,
                seated: before.seated && !walked.leaving_seat,
                ..before
            },
            Walk::Turned { facing } => Player { walker, heading: facing, ..before },
            Walk::Refused(_) => Player { walker, ..before },
        };
        players.update(p, updated)
    }
}

/// What the client is sent for a walk's outcome.
pub open spec fn walk_answer(walked: PlayerWalk, walker: Walker, outcome: Walk) -> Outbound {
    match outcome {
        Walk::Refused(_) => reject(walked.connection, walked.request, walker),
        _ => ack(walked.connection, walked.request),
    }
}

/// What the tick announces for a walk's outcome.
pub open spec fn walk_event(walked: PlayerWalk, outcome: Walk) -> Event {
    match outcome {
        Walk::Moved { position, facing } => Event::MobileMoved {
            serial: walked.serial,
            from: walked.from,
            to: position,
            facing,
        },
        Walk::Turned { facing } => Event::MobileTurned { serial: walked.serial, facing },
        Walk::Refused(refusal) => Event::StepRefused {
            serial: walked.serial,
            reason: spec_refused_reason(refusal),
        },
    }
}

/// The line a frozen walker is told.
pub open spec fn frozen_line() -> Seq<char> {
    "You are frozen and cannot move."@
}

/// The line a caster who steps is told.
pub open spec fn broken_line() -> Seq<char> {
    "Your concentration is broken."@
}

/// The walk a player's request hands to the walk state machine: from where
/// its walker stands, mounted if it rides, getting up if it sits.
pub open spec fn walk_of(p: Player, connection: ConnectionId, request: WalkRequest) -> PlayerWalk {
    PlayerWalk {
        connection,
        serial: p.serial,
        facet: p.facet,
        from: p.walker.position,
        request,
        mounted: p.riding,
        leaving_seat: p.seated,
    }
}

/// The walker a request starts from: a sitting walker has already turned
/// toward where it is getting up to, so the first request leaves the chair
/// rather than turning the seated body.
pub open spec fn walker_for(p: Player, request: WalkRequest) -> Walker {
    if p.seated {
        Walker { facing: Facing { direction: request.facing.direction, running: false }, ..p.walker }
    } else {
        p.walker
    }
}

/// A mobile after a step decreed toward `direction`: it faces that way (not
/// running), and if the terrain let it land somewhere it stands there, with
/// any cast it was making broken.
pub open spec fn stepped(p: Player, direction: Direction, landing: Option<Point>) -> Player {
    let facing = Facing { direction, running: false };
    match landing {
        Some(to) => Player {
            walker: Walker { position: to, facing },
            position: to,
            heading: facing,
            casting: false,
            ..p
        },
        None => if p.walker.facing.direction != direction {
            Player { walker: Walker { facing, ..p.walker }, heading: facing, ..p }
        } else {
            p
        },
    }
}

/// What a decreed step announces: the turn, if it turned, then the move or
/// the refusal.
pub open spec fn step_events(p: Player, direction: Direction, landing: Option<Point>) -> Seq<Event> {
    let facing = Facing { direction, running: false };
    let turn = if p.walker.facing.direction != direction {
        seq![Event::MobileTurned { serial: p.serial, facing }]
    } else {
        Seq::empty()
    };
    match landing {
        Some(to) => turn.push(
            Event::MobileMoved { serial: p.serial, from: p.walker.position, to, facing },
        ),
        None => turn.push(Event::StepRefused { serial: p.serial, reason: RefusedReason::Blocked }),
    }
}

/// Whether two directions are the same one.
fn same_direction(a: Direction, b: Direction) -> (same: bool)
    ensures
        same == (a == b),
{
    proof {
        crate::records::lemma_direction_round_trip(a);
        crate::records::lemma_direction_round_trip(b);
    }
    a.to_bits() == b.to_bits()
}

/// A player's own serial finds it among distinct players.
proof fn lemma_own_serial(players: Seq<Player>, p: int)
    requires
        players_distinct(players),
        0 <= p < players.len(),
    ensures
        player_with(players, players[p].serial) == p,
{
    assert(players[p].serial == players[p].serial);
}

impl World {
    /// What no walk touches.
    pub open spec fn walk_keeps(&self, other: &World) -> bool {
        &&& self.same_settings(other)
        &&& self.registry == other.registry
        &&& self.roster == other.roster
        &&& self.connections == other.connections
        &&& self.pending == other.pending
        &&& self.ground == other.ground
        &&& self.decorations == other.decorations
        &&& self.houses == other.houses
        &&& self.carried == other.carried
        &&& self.journal == other.journal
        &&& self.bus.marked == other.bus.marked
    }

    /// Accept a request.
    fn send_walk_ack(&mut self, connection: ConnectionId, request: WalkRequest)
        ensures
            final(self).outbound@ == old(self).outbound@.push(ack(connection, request)),
            final(self).only_sent(&*old(self)),
    {
        self.outbound.push(
            Outbound {
                connection,
                packet: Packet::WalkAck { sequence: request.sequence, notoriety: Notoriety::Innocent },
            },
        );
    }

    /// Refuse a request and put the client's mobile back where the walker is.
    fn send_walk_reject(&mut self, connection: ConnectionId, request: WalkRequest, walker: Walker)
        ensures
            final(self).outbound@ == old(self).outbound@.push(reject(connection, request, walker)),
            final(self).only_sent(&*old(self)),
    {
        self.outbound.push(
            Outbound {
                connection,
                packet: Packet::WalkReject {
                    sequence: request.sequence,
                    position: walker.position,
                    facing: walker.facing,
                },
            },
        );
    }

    /// Refuse a request, snapping the client back to where its walker stands
    /// now, if the mobile has one.
    pub fn reject_walk_at_current_position(
        &mut self,
        connection: ConnectionId,
        serial: u32,
        request: WalkRequest,
    )
        requires
            old(self).wf(),
        ensures
            final(self).wf(),
            final(self).only_sent(&*old(self)),
            player_with(old(self).players@, serial) < 0 ==> final(self).outbound == old(
                self,
            ).outbound,
            player_with(old(self).players@, serial) >= 0 ==> final(self).outbound@ == old(
                self,
            ).outbound@.push(
                reject(
                    connection,
                    request,
                    old(self).players@[player_with(old(self).players@, serial)].walker,
                ),
            ),
    {
        match self.player_index(serial) {
            None => {},
            Some(p) => {
                let walker = self.players[p].walker;
                self.send_walk_reject(connection, request, walker);
            },
        }
    }

    /// Refuse a step the walker has no stamina for, before the walk state
    /// machine is asked, so the refusal costs the sequence nothing. The
    /// refusal, if any, is the fatigue rule's answer for this step.
    pub fn stamina_refuses_walk(
        &mut self,
        connection: ConnectionId,
        serial: u32,
        request: WalkRequest,
        refusal: Option<&str>,
    ) -> (refused: bool)
        requires
            old(self).wf(),
        ensures
            final(self).wf(),
            final(self).only_sent(&*old(self)),
            refused == refusal is Some,
            refusal is None ==> final(self).outbound == old(self).outbound,
            refusal is Some && player_with(old(self).players@, serial) >= 0 ==> {
                let p = old(self).players@[player_with(old(self).players@, serial)];
                &&& final(self).outbound@.len() == old(self).outbound@.len() + 2
                &&& final(self).outbound@[old(self).outbound@.len() as int] == reject(
                    connection,
                    request,
                    p.walker,
                )
                &&& says(
                    final(self).outbound@[old(self).outbound@.len() as int + 1],
                    p.connection,
                    refusal->0@,
                )
                &&& final(self).outbound@.take(old(self).outbound@.len() as int) == old(
                    self,
                ).outbound@
            },
            refusal is Some && player_with(old(self).players@, serial) < 0 ==> final(self).outbound
                == old(self).outbound,
    {
        match refusal {
            None => false,
            Some(message) => {
                self.reject_walk_at_current_position(connection, serial, request);
                let ghost middle = self.outbound@;
                self.notify_self(serial, message);
                proof {
                    if player_with(old(self).players@, serial) >= 0 {
                        let n = old(self).outbound@.len() as int;
                        assert(self.outbound@.drop_last() == middle);
                        assert(self.outbound@[n] == middle[n]);
                        assert(self.outbound@.take(n) =~= old(self).outbound@);
                    }
                }
                true
            },
        }
    }

    /// Refuse a step while the walker is paralysed, before anything else, so
    /// that a cast it could not follow with a step is not broken either.
    pub fn frozen_refuses_walk(&mut self, connection: ConnectionId, serial: u32, request: WalkRequest) -> (refused: bool)
        requires
            old(self).wf(),
        ensures
            final(self).wf(),
            final(self).only_sent(&*old(self)),
            refused == (player_with(old(self).players@, serial) >= 0 && old(self).ticks < old(
                self,
            ).players@[player_with(old(self).players@, serial)].frozen_until),
            !refused ==> final(self).outbound == old(self).outbound,
            refused ==> {
                let p = old(self).players@[player_with(old(self).players@, serial)];
                &&& final(self).outbound@.len() == old(self).outbound@.len() + 2
                &&& final(self).outbound@[old(self).outbound@.len() as int] == reject(
                    connection,
                    request,
                    p.walker,
                )
                &&& says(
                    final(self).outbound@[old(self).outbound@.len() as int + 1],
                    p.connection,
                    frozen_line(),
                )
                &&& final(self).outbound@.take(old(self).outbound@.len() as int) == old(
                    self,
                ).outbound@
            },
    {
        let frozen = match self.player_index(serial) {
            Some(p) => self.ticks < self.players[p].frozen_until,
            None => false,
        };
        if !frozen {
            return false;
        }
        self.reject_walk_at_current_position(connection, serial, request);
        let ghost middle = self.outbound@;
        self.notify_self(serial, "You are frozen and cannot move.");
        proof {
            let n = old(self).outbound@.len() as int;
            assert(self.outbound@.drop_last() == middle);
            assert(self.outbound@[n] == middle[n]);
            assert(self.outbound@.take(n) =~= old(self).outbound@);
        }
        true
    }

    /// Take a walk request from a connection up to the point where the walk
    /// state machine decides it, and hand over what it needs: the walk and
    /// the walker it starts from. `fatigue` is the fatigue rule's answer for
    /// this step, if it refuses it.
    ///
    /// A connection with no character is ignored. A paralysed walker, or one
    /// the step would exhaust, is refused where it stands and told why. A
    /// caster who steps stops casting and is told so.
    pub fn begin_walk(&mut self, connection: ConnectionId, request: WalkRequest, fatigue: Option<&str>) -> (started: Option<(PlayerWalk, Walker)>)
        requires
            old(self).wf(),
        ensures
            final(self).wf(),
            final(self).walk_keeps(&*old(self)),
            final(self).bus == old(self).bus,
            player_on(old(self).players@, connection) < 0 ==> {
                &&& started is None
                &&& final(self).players == old(self).players
                &&& final(self).outbound == old(self).outbound
            },
            player_on(old(self).players@, connection) >= 0 ==> {
                let p = old(self).players@[player_on(old(self).players@, connection)];
                let n = old(self).outbound@.len() as int;
                if old(self).ticks < p.frozen_until {
                    &&& started is None
                    &&& final(self).players == old(self).players
                    &&& final(self).outbound@.len() == n + 2
                    &&& final(self).outbound@.take(n) == old(self).outbound@
                    &&& final(self).outbound@[n] == reject(connection, request, p.walker)
                    &&& says(final(self).outbound@[n + 1], connection, frozen_line())
                } else if fatigue is Some {
                    &&& started is None
                    &&& final(self).players == old(self).players
                    &&& final(self).outbound@.len() == n + 2
                    &&& final(self).outbound@.take(n) == old(self).outbound@
                    &&& final(self).outbound@[n] == reject(connection, request, p.walker)
                    &&& says(final(self).outbound@[n + 1], connection, fatigue->0@)
                } else {
                    &&& started == Some((walk_of(p, connection, request), walker_for(p, request)))
                    &&& if p.casting {
                        &&& final(self).players@ == old(self).players@.update(
                            player_on(old(self).players@, connection),
                            Player { casting: false, ..p },
                        )
                        &&& final(self).outbound@.len() == n + 1
                        &&& final(self).outbound@.take(n) == old(self).outbound@
                        &&& says(final(self).outbound@[n], connection, broken_line())
                    } else {
                        &&& final(self).players == old(self).players
                        &&& final(self).outbound == old(self).outbound
                    }
                }
            },
    {
        let p = match self.player_of(connection) {
            Some(p) => p,
            None => return None,
        };
        let serial = self.players[p].serial;
        proof {
            lemma_own_serial(self.players@, p as int);
        }
        if self.frozen_refuses_walk(connection, serial, request) {
            return None;
        }
        if self.stamina_refuses_walk(connection, serial, request, fatigue) {
            return None;
        }
        if self.players[p].casting {
            self.players[p].casting = false;
            proof {
                let now = self.players@;
                let before = old(self).players@;
                assert forall|a: int, b: int|
                    0 <= a < now.len() && 0 <= b < now.len() && a != b implies {
                    &&& (#[trigger] now[a]).connection != (#[trigger] now[b]).connection
                    &&& now[a].serial != now[b].serial
                } by {
                    assert(before[a].connection != before[b].connection);
                    assert(before[a].serial != before[b].serial);
                }
                lemma_own_serial(self.players@, p as int);
            }
            self.notify_self(serial, "Your concentration is broken.");
            proof {
                assert(self.outbound@.take(old(self).outbound@.len() as int) =~= old(self).outbound@);
            }
        }
        let player = &self.players[p];
        let mut walker = player.walker;
        let leaving_seat = player.seated;
        if leaving_seat {
            walker.facing = Facing::walking(request.facing.direction);
        }
        let walked = PlayerWalk {
            connection,
            serial,
            facet: player.facet,
            from: player.walker.position,
            request,
            mounted: player.riding,
            leaving_seat,
        };
        Some((walked, walker))
    }

    /// Take a turn request (one that may not become a step) from a connection
    /// up to the point where the walk state machine decides it, and hand over
    /// the walk and the walker. A connection with no character is ignored; a
    /// paralysed walker is refused where it stands and told why.
    pub fn begin_turn(&mut self, connection: ConnectionId, request: WalkRequest) -> (started: Option<(PlayerWalk, Walker)>)
        requires
            old(self).wf(),
        ensures
            final(self).wf(),
            final(self).only_sent(&*old(self)),
            player_on(old(self).players@, connection) < 0 ==> {
                &&& started is None
                &&& final(self).outbound == old(self).outbound
            },
            player_on(old(self).players@, connection) >= 0 ==> {
                let p = old(self).players@[player_on(old(self).players@, connection)];
                let n = old(self).outbound@.len() as int;
                if old(self).ticks < p.frozen_until {
                    &&& started is None
                    &&& final(self).outbound@.len() == n + 2
                    &&& final(self).outbound@.take(n) == old(self).outbound@
                    &&& final(self).outbound@[n] == reject(connection, request, p.walker)
                    &&& says(final(self).outbound@[n + 1], connection, frozen_line())
                } else {
                    &&& started == Some((
                        PlayerWalk { leaving_seat: false, ..walk_of(p, connection, request) },
                        p.walker,
                    ))
                    &&& final(self).outbound == old(self).outbound
                }
            },
    {
        let p = match self.player_of(connection) {
            Some(p) => p,
            None => return None,
        };
        let serial = self.players[p].serial;
        proof {
            lemma_own_serial(self.players@, p as int);
        }
        if self.frozen_refuses_walk(connection, serial, request) {
            return None;
        }
        let player = &self.players[p];
        let turned = PlayerWalk {
            connection,
            serial,
            facet: player.facet,
            from: player.walker.position,
            request,
            mounted: player.riding,
            leaving_seat: false,
        };
        Some((turned, player.walker))
    }

    /// Move a mobile one step toward `direction` by server decree: no
    /// request, no acknowledgement, no sequence. A paralysed mobile does not
    /// move. A decreed step turns and moves in the same beat; `landing` is
    /// where the terrain and the crowd let it land, if anywhere. A step that
    /// finds no landing is refused, though a turn it made still stands.
    pub fn step(&mut self, serial: u32, direction: Direction, landing: Option<Point>)
        requires
            old(self).wf(),
        ensures
            final(self).wf(),
            final(self).walk_keeps(&*old(self)),
            final(self).outbound == old(self).outbound,
            ({
                let k = player_with(old(self).players@, serial);
                if k < 0 || old(self).ticks < old(self).players@[k].frozen_until {
                    &&& final(self).players == old(self).players
                    &&& final(self).bus == old(self).bus
                } else {
                    let p = old(self).players@[k];
                    &&& final(self).players@ == old(self).players@.update(
                        k,
                        stepped(p, direction, landing),
                    )
                    &&& final(self).bus.events@ == old(self).bus.events@ + step_events(
                        p,
                        direction,
                        landing,
                    )
                }
            }),
    {
        let k = match self.player_index(serial) {
            Some(k) => k,
            None => return ,
        };
        if self.ticks < self.players[k].frozen_until {
            return;
        }
        let ghost p = self.players@[k as int];
        let ghost events_before = self.bus.events@;
        let facing = Facing::walking(direction);
        let was = self.players[k].walker.position;
        let turned = !same_direction(self.players[k].walker.facing.direction, direction);
        if turned {
            self.players[k].walker.facing = facing;
            self.players[k].heading = facing;
            self.bus.events.push(Event::MobileTurned { serial, facing });
        }
        match landing {
            Some(to) => {
                self.players[k].walker = Walker { position: to, facing };
                self.players[k].position = to;
                self.players[k].heading = facing;
                self.players[k].casting = false;
                self.bus.events.push(Event::MobileMoved { serial, from: was, to, facing });
            },
            None => {
                self.bus.events.push(Event::StepRefused { serial, reason: RefusedReason::Blocked });
            },
        }
        proof {
            let now = self.players@;
            let before = old(self).players@;
            assert(now =~= before.update(k as int, stepped(p, direction, landing)));
            assert forall|a: int, b: int|
                0 <= a < now.len() && 0 <= b < now.len() && a != b implies {
                &&& (#[trigger] now[a]).connection != (#[trigger] now[b]).connection
                &&& now[a].serial != now[b].serial
            } by {
                assert(before[a].connection != before[b].connection);
                assert(before[a].serial != before[b].serial);
            }
            assert(self.bus.events@ =~= events_before + step_events(p, direction, landing));
        }
    }

    /// Write a walk's outcome down, answer the client, and announce it: a step
    /// moves the walker and stands it up; a turn changes only its heading; a
    /// refusal snaps the client back to the walker and tells observers why.
    pub fn finish_player_walk(&mut self, walked: PlayerWalk, walker: Walker, outcome: Walk)
        requires
            old(self).wf(),
        ensures
            final(self).wf(),
            final(self).walk_keeps(&*old(self)),
            final(self).players@ == walked_players(old(self).players@, walked, walker, outcome),
            final(self).outbound@ == old(self).outbound@.push(walk_answer(walked, walker, outcome)),
            final(self).bus.events@ == old(self).bus.events@.push(walk_event(walked, outcome)),
    {
        match self.player_index(walked.serial) {
            None => {},
            Some(p) => {
                let ghost before = self.players@;
                self.players[p].walker = walker;
                match outcome {
                    Walk::Moved { position, facing } => {
                        if walked.leaving_seat {
                            self.players[p].seated = false;
                        }
                        self.players[p].position = position;
                        self.players[p].heading = facing;
                    },
                    Walk::Turned { facing } => {
                        self.players[p].heading = facing;
                    },
                    Walk::Refused(_) => {},
                }
                proof {
                    assert(self.players@ =~= walked_players(before, walked, walker, outcome));
                    let now = self.players@;
                    assert forall|a: int, b: int|
                        0 <= a < now.len() && 0 <= b < now.len() && a != b implies {
                        &&& (#[trigger] now[a]).connection != (#[trigger] now[b]).connection
                        &&& now[a].serial != now[b].serial
                    } by {
                        assert(before[a].connection != before[b].connection);
                        assert(before[a].serial != before[b].serial);
                    }
                }
            },
        }
        match outcome {
            Walk::Moved { position, facing } => {
                self.send_walk_ack(walked.connection, walked.request);
                self.bus.events.push(
                    Event::MobileMoved { serial: walked.serial, from: walked.from, to: position, facing },
                );
            },
            Walk::Turned { facing } => {
                self.send_walk_ack(walked.connection, walked.request);
                self.bus.events.push(Event::MobileTurned { serial: walked.serial, facing });
            },
            Walk::Refused(refusal) => {
                let reason = refused_reason(refusal);
                self.send_walk_reject(walked.connection, walked.request, walker);
                self.bus.events.push(Event::StepRefused { serial: walked.serial, reason });
            },
        }
    }
}

} // verus!
