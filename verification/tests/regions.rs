use openshard_world::entry::{Character, Entering, FreshCharacter};
use openshard_world::regions::RegionHere;
use openshard_world::types::{AccessLevel, ConnectionId, Event, Packet, Point};
use openshard_world::world::World;

const START: Point = Point { x: 1495, y: 1629, z: 10 };

/// Britain's music track, as the client numbers them.
const BRITAIN_MUSIC: u16 = 11;

fn playing() -> (World, ConnectionId, u32) {
    let mut world = World::new(START);
    let connection = 7;
    world.authenticated(connection, 0, "admin".to_owned(), AccessLevel::Player);
    world.enter(Entering {
        connection,
        account: "admin".to_owned(),
        name: "Lord British".to_owned(),
        character: Character::Fresh(FreshCharacter {
            facet: 0,
            start: None,
            body: 0x0190,
            hue: 0,
            strength: 100,
            dexterity: 100,
            intelligence: 100,
            dead: false,
        }),
    });
    world.outbound.clear();
    let serial = world.players[0].serial;
    (world, connection, serial)
}

fn britain(music: Option<u16>) -> Option<RegionHere> {
    Some(RegionHere { id: 0, name: "Britain".to_owned(), music })
}

/// The crossings announced since `from`, as (from, to, name).
fn crossings(world: &World, from: usize) -> Vec<(Option<u32>, Option<u32>, String)> {
    world.bus.events[from..]
        .iter()
        .filter_map(|event| match event {
            Event::RegionChanged { from, to, name, .. } => Some((*from, *to, name.clone())),
            _ => None,
        })
        .collect()
}

fn music(world: &World) -> Vec<u16> {
    world
        .outbound
        .iter()
        .filter_map(|out| match out.packet {
            Packet::PlayMusic { track } => Some(track),
            _ => None,
        })
        .collect()
}

#[test]
fn walking_into_a_town_is_one_crossing_and_standing_still_is_none() {
    let (mut world, _, serial) = playing();
    let mark = world.bus.events.len();

    // Outside: no crossing at all, however often it is looked at.
    world.note_region(serial, None);
    world.note_region(serial, None);
    assert!(crossings(&world, mark).is_empty());

    world.note_region(serial, britain(None));
    let entered = crossings(&world, mark);
    assert_eq!(entered.len(), 1, "one crossing for one boundary");
    assert_eq!(entered[0].2, "Britain");
    assert_eq!(entered[0].0, None, "it came out of unnamed land");
    assert_eq!(entered[0].1, Some(0));

    for _ in 0..5 {
        world.note_region(serial, britain(None));
    }
    assert_eq!(crossings(&world, mark).len(), 1, "standing still inside is not a crossing");
}

#[test]
fn leaving_a_town_reports_the_region_it_left() {
    let (mut world, _, serial) = playing();
    world.note_region(serial, britain(None));
    let mark = world.bus.events.len();

    world.note_region(serial, None);

    let left = crossings(&world, mark);
    assert_eq!(left.len(), 1);
    assert_eq!(left[0].0, Some(0), "it names the region left");
    assert_eq!(left[0].1, None, "and lands nowhere named");
    assert!(left[0].2.is_empty());
}

#[test]
fn a_region_plays_its_music_once() {
    let (mut world, _, serial) = playing();
    world.note_region(serial, britain(Some(BRITAIN_MUSIC)));
    assert_eq!(music(&world), [BRITAIN_MUSIC], "the town's track starts on the crossing");

    world.note_region(serial, britain(Some(BRITAIN_MUSIC)));
    assert_eq!(music(&world).len(), 1, "stepping about inside does not restart it");

    // Out into unnamed land and back: two crossings, but the track never
    // stopped, so it is not sent again.
    world.note_region(serial, None);
    world.note_region(serial, britain(Some(BRITAIN_MUSIC)));
    assert_eq!(music(&world).len(), 1, "the same track is not re-sent");
}

#[test]
fn the_same_id_on_another_facet_is_another_place() {
    let (mut world, _, serial) = playing();
    world.note_region(serial, britain(None));
    let mark = world.bus.events.len();
    world.players[0].facet = 1;
    world.note_region(serial, britain(None));
    assert_eq!(crossings(&world, mark).len(), 1, "a traveller has crossed though the number has not changed");
}

#[test]
fn clearing_a_facets_regions_makes_everyone_freshly_arrived() {
    let (mut world, _, serial) = playing();
    world.note_region(serial, britain(None));
    assert!(!world.clear_regions(5), "a facet this shard does not load");
    assert!(world.players[0].in_region.is_some());

    assert!(world.clear_regions(0));
    assert!(world.players[0].in_region.is_none());
    let mark = world.bus.events.len();
    world.note_region(serial, britain(None));
    assert_eq!(crossings(&world, mark).len(), 1, "seen afresh, standing somewhere named");
}

#[test]
fn a_serial_that_is_no_player_is_not_looked_at() {
    let (mut world, _, _) = playing();
    let before = world.bus.events.len();
    world.note_region(0x4000_0001, britain(Some(BRITAIN_MUSIC)));
    assert_eq!(world.bus.events.len(), before);
    assert!(music(&world).is_empty());
}
