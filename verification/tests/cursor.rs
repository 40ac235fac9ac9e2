use openshard_world::cursor::{TargetAction, TargetPurpose, TargetResponse};
use openshard_world::entry::{Character, Entering, FreshCharacter};
use openshard_world::records::{ItemLocation, ItemRecord, TrapKind, TrapRecord};
use openshard_world::types::{Packet, Point};
use openshard_world::world::World;

const START: Point = Point { x: 1495, y: 1629, z: 10 };

fn playing() -> World {
    let mut world = World::new(START);
    world.enter(Entering {
        connection: 7,
        account: "admin".to_owned(),
        name: "Iolo".to_owned(),
        character: Character::Fresh(FreshCharacter {
            facet: 0,
            start: None,
            body: 0x0190,
            hue: 0,
            strength: 50,
            dexterity: 50,
            intelligence: 50,
            dead: false,
        }),
    });
    world
}

fn lying(serial: u32, container_gump: Option<u16>) -> ItemRecord {
    ItemRecord {
        serial,
        owner: None,
        graphic: 0x0E40,
        hue: 0,
        amount: 1,
        stackable: false,
        container_gump,
        price: None,
        name: None,
        corpse: None,
        kind: None,
        material: None,
        spellbook: None,
        poison: None,
        trap: None,
        uses: None,
        crafted: None,
        rune: None,
        locked_down: None,
        addon: None,
        location: ItemLocation::Ground { facet: 0, x: 1, y: 2, z: 0 },
    }
}

fn click(object: Option<u32>) -> TargetResponse {
    TargetResponse { cancelled: false, object, location: Point { x: 1, y: 2, z: 0 } }
}

fn last_line(world: &World) -> String {
    match &world.outbound.last().expect("something was said").packet {
        Packet::SystemMessage { text } => text.clone(),
        other => panic!("not a line: {other:?}"),
    }
}

#[test]
fn a_trap_is_set_on_a_container_and_the_cursor_comes_down() {
    let mut world = playing();
    world.ground.push(lying(0x4000_0001, Some(0x003C)));
    world.raise_target(7, TargetPurpose::SetTrap { kind: TrapKind::Dart, power: 10 });
    assert_eq!(world.handle_target(7, click(Some(0x4000_0001))), TargetAction::Done);
    assert_eq!(world.ground[0].trap, Some(TrapRecord { kind: 2, power: 10, level: 0 }));
    assert_eq!(last_line(&world), "It is trapped now.");
    assert_eq!(world.players[0].cursor, None);

    let said = world.outbound.len();
    assert_eq!(world.handle_target(7, click(Some(0x4000_0001))), TargetAction::Done, "the cursor was answered once");
    assert_eq!(world.outbound.len(), said);
}

#[test]
fn only_a_container_can_be_trapped() {
    let mut world = playing();
    world.ground.push(lying(0x4000_0001, None));
    world.raise_target(7, TargetPurpose::SetTrap { kind: TrapKind::Poison, power: 0 });
    world.handle_target(7, click(Some(0x4000_0001)));
    assert_eq!(world.ground[0].trap, None);
    assert_eq!(last_line(&world), "Only a container can be trapped.");

    world.raise_target(7, TargetPurpose::SetTrap { kind: TrapKind::Poison, power: 0 });
    world.handle_target(7, click(None));
    assert_eq!(last_line(&world), "Only a container can be trapped.", "nor can the ground");
}

#[test]
fn a_cancelled_cursor_does_nothing_but_come_down() {
    let mut world = playing();
    world.ground.push(lying(0x4000_0001, Some(0x003C)));
    world.raise_target(7, TargetPurpose::SetTrap { kind: TrapKind::Dart, power: 10 });
    let said = world.outbound.len();
    let cancel = TargetResponse { cancelled: true, ..click(Some(0x4000_0001)) };
    assert_eq!(world.handle_target(7, cancel), TargetAction::Done);
    assert_eq!(world.ground[0].trap, None);
    assert_eq!(world.outbound.len(), said);
    assert_eq!(world.players[0].cursor, None);
}

#[test]
fn another_systems_cursor_is_handed_back_with_the_click() {
    let mut world = playing();
    world.raise_target(7, TargetPurpose::Elsewhere { purpose: 12 });
    assert_eq!(
        world.handle_target(7, click(Some(5))),
        TargetAction::Forward { purpose: 12, object: Some(5), location: Point { x: 1, y: 2, z: 0 } }
    );
    assert_eq!(world.handle_target(8, click(Some(5))), TargetAction::Done, "a connection playing nobody");
}
