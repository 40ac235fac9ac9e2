use openshard_world::entry::{Character, Entering, FreshCharacter};
use openshard_world::motion::{Walk, WalkRequest};
use openshard_world::records::Direction;
use openshard_world::types::{AccessLevel, ConnectionId, Event, Facing, Packet, Point, RefusedReason};
use openshard_world::world::World;

const START: Point = Point { x: 1495, y: 1629, z: 10 };

fn playing() -> (World, ConnectionId) {
    let mut world = World::new(START);
    let connection = 7;
    world.authenticated(connection, 0, "admin".to_owned(), AccessLevel::Player);
    world.enter(Entering {
        connection,
        account: "admin".to_owned(),
        name: "Lord British".to_owned(),
        character: Character::Fresh(FreshCharacter {
            facet: 0,
            start: None,
            body: 0x0190,
            hue: 0,
            strength: 100,
            dexterity: 100,
            intelligence: 100,
            dead: false,
        }),
    });
    world.outbound.clear();
    (world, connection)
}

fn east(sequence: u8) -> WalkRequest {
    WalkRequest { sequence, facing: Facing::walking(Direction::East) }
}

fn said(world: &World) -> Vec<String> {
    world
        .outbound
        .iter()
        .filter_map(|out| match &out.packet {
            Packet::SystemMessage { text } => Some(text.clone()),
            _ => None,
        })
        .collect()
}

#[test]
fn a_paralysed_player_is_refused_where_it_stands_and_told_why() {
    let (mut world, connection) = playing();
    world.players[0].frozen_until = world.ticks + 10;

    assert!(world.begin_walk(connection, east(0), None).is_none());
    let ids: Vec<u8> = world.outbound.iter().map(|out| out.packet.id()).collect();
    assert_eq!(ids, [0x21, 0x1C], "snapped back, then told");
    assert_eq!(said(&world), ["You are frozen and cannot move."]);
    assert!(
        matches!(world.outbound[0].packet, Packet::WalkReject { sequence: 0, position, .. } if position == START),
        "to the tile it stands on"
    );
}

#[test]
fn a_paralysis_that_has_lifted_refuses_nothing() {
    let (mut world, connection) = playing();
    world.players[0].frozen_until = world.ticks;
    assert!(world.begin_walk(connection, east(0), None).is_some());
    assert!(world.outbound.is_empty());
}

#[test]
fn a_step_the_walker_has_no_stamina_for_is_refused_before_it_is_asked() {
    let (mut world, connection) = playing();
    assert!(world.begin_walk(connection, east(0), Some("You are too fatigued to move.")).is_none());
    let ids: Vec<u8> = world.outbound.iter().map(|out| out.packet.id()).collect();
    assert_eq!(ids, [0x21, 0x1C]);
    assert_eq!(said(&world), ["You are too fatigued to move."]);
}

#[test]
fn stepping_breaks_a_cast() {
    let (mut world, connection) = playing();
    world.players[0].casting = true;
    let started = world.begin_walk(connection, east(0), None);
    assert!(started.is_some(), "the walk goes on");
    assert!(!world.players[0].casting, "the spell does not");
    assert_eq!(said(&world), ["Your concentration is broken."]);
}

#[test]
fn a_sitting_player_gets_up_toward_the_step() {
    let (mut world, connection) = playing();
    world.players[0].seated = true;
    world.players[0].riding = true;
    let (walked, walker) = world.begin_walk(connection, east(3), None).expect("a walk");
    assert!(walked.leaving_seat && walked.mounted);
    assert_eq!(walker.facing, Facing::walking(Direction::East), "already facing where it gets up to");
    assert_eq!(walked.from, START);

    let to = Point { x: START.x + 1, ..START };
    let mut moved = walker;
    moved.position = to;
    world.finish_player_walk(walked, moved, Walk::Moved { position: to, facing: walker.facing });
    assert!(!world.players[0].seated, "and is standing once the step is taken");
    assert_eq!(world.players[0].position, to);
}

#[test]
fn a_walk_from_a_connection_with_no_character_is_ignored() {
    let (mut world, _) = playing();
    assert!(world.begin_walk(99, east(0), Some("tired")).is_none());
    assert!(world.begin_turn(99, east(0)).is_none());
    assert!(world.outbound.is_empty());
}

#[test]
fn a_turn_is_refused_to_a_paralysed_player_and_never_gets_up() {
    let (mut world, connection) = playing();
    world.players[0].seated = true;
    let (turned, walker) = world.begin_turn(connection, east(1)).expect("a turn");
    assert!(!turned.leaving_seat, "a turn is not a step");
    assert_eq!(walker, world.players[0].walker);

    world.players[0].frozen_until = world.ticks + 1;
    assert!(world.begin_turn(connection, east(2)).is_none());
    assert_eq!(said(&world), ["You are frozen and cannot move."]);
}

fn events_since(world: &World, from: usize) -> Vec<Event> {
    world.bus.events[from..].to_vec()
}

#[test]
fn a_decreed_step_turns_and_moves_in_one_beat() {
    let (mut world, _) = playing();
    let serial = world.players[0].serial;
    world.players[0].casting = true;
    let mark = world.bus.events.len();
    let to = Point { x: START.x + 1, ..START };

    world.step(serial, Direction::East, Some(to));

    let east = Facing::walking(Direction::East);
    assert_eq!(
        events_since(&world, mark),
        [
            Event::MobileTurned { serial, facing: east },
            Event::MobileMoved { serial, from: START, to, facing: east },
        ]
    );
    assert_eq!(world.players[0].position, to);
    assert_eq!(world.players[0].heading, east);
    assert!(!world.players[0].casting, "moving breaks concentration, whoever ordered it");
    assert!(world.outbound.is_empty(), "no acknowledgement: there may be no client");
}

#[test]
fn a_decreed_step_into_a_wall_still_turns() {
    let (mut world, _) = playing();
    let serial = world.players[0].serial;
    let mark = world.bus.events.len();

    world.step(serial, Direction::East, None);

    let east = Facing::walking(Direction::East);
    assert_eq!(
        events_since(&world, mark),
        [
            Event::MobileTurned { serial, facing: east },
            Event::StepRefused { serial, reason: RefusedReason::Blocked },
        ]
    );
    assert_eq!(world.players[0].position, START, "it went nowhere");
    assert_eq!(world.players[0].heading, east, "but it faces the wall");

    let mark = world.bus.events.len();
    world.step(serial, Direction::East, None);
    assert_eq!(
        events_since(&world, mark),
        [Event::StepRefused { serial, reason: RefusedReason::Blocked }],
        "already facing it, a blocked step says only that it was refused"
    );
}

#[test]
fn a_paralysed_mobile_is_not_moved_by_decree() {
    let (mut world, _) = playing();
    let serial = world.players[0].serial;
    world.players[0].frozen_until = world.ticks + 1;
    let mark = world.bus.events.len();
    world.step(serial, Direction::East, Some(Point { x: START.x + 1, ..START }));
    assert_eq!(world.bus.events.len(), mark);
    assert_eq!(world.players[0].position, START);
}
