//! The plain values the world hands out and takes in: points, facings,
//! packets addressed to connections, and the events a tick announces.
use vstd::prelude::*;
use crate::records::{Direction, direction_code};
use crate::roster::CharacterEntry;

verus! {

/// A connection, as the gateway numbers it.
pub type ConnectionId = u64;

/// A tile on a facet, with its height.
#[derive(Clone, Copy, Debug, PartialEq, Eq)]
pub struct Point {
    pub x: u16,
    pub y: u16,
    pub z: i8,
}

/// Which way a mobile faces, and whether it is running that way.
#[derive(Clone, Copy, Debug, PartialEq, Eq)]
pub struct Facing {
    pub direction: Direction,
    pub running: bool,
}

/// A facing as one wire byte: the direction in the low bits, running in the
/// high one.
pub open spec fn facing_code(f: Facing) -> u8 {
    (direction_code(f.direction) + if f.running {
        0x80u8
    } else {
        0u8
    }) as u8
}

/// The facing a wire byte names: the direction in its low bits, running if
/// the high bit is set.
pub open spec fn facing_of(bits: u8) -> Facing {
    Facing { direction: crate::records::direction_of(bits), running: bits >= 0x80 }
}

/// A facing survives the trip to its wire byte and back.
pub proof fn lemma_facing_round_trip(f: Facing)
    ensures
        facing_of(facing_code(f)) == f,
{
}

impl Facing {
    /// The facing a wire byte names; see [`facing_of`].
    pub fn from_bits(bits: u8) -> (f: Facing)
        ensures
            f == facing_of(bits),
    {
        Facing { direction: Direction::from_bits(bits), running: bits >= 0x80 }
    }

    /// Facing a direction at a walk.
    pub fn walking(direction: Direction) -> (f: Facing)
        ensures
            f.direction == direction,
            !f.running,
    {
        Facing { direction, running: false }
    }

    /// The wire byte of this facing; see [`facing_code`].
    pub fn to_bits(&self) -> (bits: u8)
        ensures
            bits == facing_code(*self),
    {
        let low = self.direction.to_bits();
        if self.running {
            low + 0x80
        } else {
            low
        }
    }
}

/// How much a connection's account may do.
#[derive(Clone, Copy, Debug, PartialEq, Eq)]
pub enum AccessLevel {
    Player,
    Counselor,
    GameMaster,
    Administrator,
}

/// Why the character screen refused something, as the client renders it.
#[derive(Clone, Copy, Debug, PartialEq, Eq)]
pub enum DenyReason {
    /// An empty, overlong or duplicate name.
    BadCharacter,
    /// The account already has as many characters as the list can show.
    TooManyCharacters,
}

/// Why a deletion did not happen, as the client renders it.
#[derive(Clone, Copy, Debug, PartialEq, Eq)]
pub enum DeleteResult {
    /// The slot names no character.
    CharNotExist,
    /// Somebody is playing the character.
    CharBeingPlayed,
}

/// Why a step was refused, as observers are told: stepping off the map and
/// walking into something are the same to them.
#[derive(Clone, Copy, Debug, PartialEq, Eq)]
pub enum RefusedReason {
    OutOfSequence,
    TooFast,
    Blocked,
}

/// A starting city offered at creation.
#[derive(Clone, Debug, PartialEq, Eq)]
pub struct StartLocation {
    pub city: String,
    pub map: u8,
    pub position: Point,
}

impl StartLocation {
    /// An equal copy.
    pub fn copy(&self) -> (c: StartLocation)
        ensures
            c == *self,
    {
        StartLocation { city: self.city.clone(), map: self.map, position: self.position }
    }
}

/// An equal copy of a list of cities.
pub fn copy_starts(starts: &Vec<StartLocation>) -> (c: Vec<StartLocation>)
    ensures
        c@ == starts@,
{
    let mut c: Vec<StartLocation> = Vec::new();
    let mut i: usize = 0;
    while i < starts.len()
        invariant
            i <= starts@.len(),
            c@ == starts@.take(i as int),
        decreases starts@.len() - i,
    {
        c.push(starts[i].copy());
        i = i + 1;
        proof {
            assert(c@ =~= starts@.take(i as int));
        }
    }
    proof {
        assert(starts@.take(i as int) =~= starts@);
    }
    c
}

/// What the character screen shows beside the characters themselves. The
/// operator's choices, handed to the world at boot.
#[derive(Clone, Debug, PartialEq, Eq)]
pub struct CharacterScreen {
    /// The cities offered, in the order the client indexes them.
    pub starts: Vec<StartLocation>,
    /// The character list's client-capability mask.
    pub flags: u32,
    /// The feature mask sent ahead of the list; zero means "do not send one".
    pub features: u32,
}

/// The mark an acknowledged step is drawn with.
#[derive(Clone, Copy, Debug, PartialEq, Eq)]
pub enum Notoriety {
    Innocent,
}

/// One packet, before it is encoded.
#[derive(Clone, Debug, PartialEq, Eq)]
pub enum Packet {
    /// A line in the server's own voice.
    SystemMessage { text: String },
    /// The supported-features mask, for a client of this version.
    SupportedFeatures { features: u32, version: u32 },
    /// The account's characters, the cities on offer and the capability mask.
    CharacterList { characters: Vec<CharacterEntry>, starts: Vec<StartLocation>, flags: u32 },
    /// The list again, after a deletion.
    CharacterListUpdate { characters: Vec<CharacterEntry> },
    /// A refusal on the character screen.
    LoginDenied { reason: DenyReason },
    /// A refused deletion.
    DeleteReject { result: DeleteResult },
    /// A step accepted.
    WalkAck { sequence: u8, notoriety: Notoriety },
    /// A step refused, and where the client must put its mobile back.
    WalkReject { sequence: u8, position: Point, facing: Facing },
    /// Start a music track.
    PlayMusic { track: u16 },
}

/// The packet id each kind goes out under.
pub open spec fn packet_id(p: Packet) -> u8 {
    match p {
        Packet::SystemMessage { .. } => 0x1C,
        Packet::SupportedFeatures { .. } => 0xB9,
        Packet::CharacterList { .. } => 0xA9,
        Packet::CharacterListUpdate { .. } => 0x86,
        Packet::LoginDenied { .. } => 0x82,
        Packet::DeleteReject { .. } => 0x85,
        Packet::WalkAck { .. } => 0x22,
        Packet::WalkReject { .. } => 0x21,
        Packet::PlayMusic { .. } => 0x6D,
    }
}

impl Packet {
    /// The packet id this goes out under; see [`packet_id`].
    pub fn id(&self) -> (id: u8)
        ensures
            id == packet_id(*self),
    {
        match self {
            Packet::SystemMessage { .. } => 0x1C,
            Packet::SupportedFeatures { .. } => 0xB9,
            Packet::CharacterList { .. } => 0xA9,
            Packet::CharacterListUpdate { .. } => 0x86,
            Packet::LoginDenied { .. } => 0x82,
            Packet::DeleteReject { .. } => 0x85,
            Packet::WalkAck { .. } => 0x22,
            Packet::WalkReject { .. } => 0x21,
            Packet::PlayMusic { .. } => 0x6D,
        }
    }
}

/// A packet addressed to a connection, waiting in the outbound queue.
#[derive(Clone, Debug, PartialEq, Eq)]
pub struct Outbound {
    pub connection: ConnectionId,
    pub packet: Packet,
}

/// Something a tick says happened. Mobiles are named by serial.
#[derive(Clone, Debug, PartialEq, Eq)]
pub enum Event {
    /// A character came into the world.
    MobileEntered { serial: u32 },
    /// A mobile stepped.
    MobileMoved { serial: u32, from: Point, to: Point, facing: Facing },
    /// A mobile turned where it stood.
    MobileTurned { serial: u32, facing: Facing },
    /// A mobile's step was refused.
    StepRefused { serial: u32, reason: RefusedReason },
    /// A connection asked to enter as a character its account does not have,
    /// and is turned away.
    EntryRefused { connection: ConnectionId },
    /// A player crossed from one region into another (either may be none:
    /// unnamed land), on a facet; `name` is the name of the one entered.
    RegionChanged { serial: u32, facet: u8, from: Option<u32>, to: Option<u32>, name: String },
}

} // verus!
