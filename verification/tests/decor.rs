use openshard_world::decor::{DecorationRecord, DoorState, LockKind, lock_from, lock_to_fields};
use openshard_world::types::Point;
use openshard_world::world::World;

const START: Point = Point { x: 1495, y: 1629, z: 10 };

fn statue(serial: u32) -> DecorationRecord {
    DecorationRecord {
        serial,
        graphic: 0x1224,
        hue: 0,
        facet: 0,
        x: 1400,
        y: 1600,
        z: 0,
        door: None,
        container_gump: None,
        key_value: 0,
        locked: false,
    }
}

fn door(serial: u32, key_value: u32, locked: bool) -> DecorationRecord {
    DecorationRecord {
        graphic: 0x0675,
        door: Some(DoorState {
            closed_graphic: 0x0675,
            open_graphic: 0x0676,
            offset_x: -1,
            offset_y: 1,
            link: None,
            is_open: false,
        }),
        key_value,
        locked,
        ..statue(serial)
    }
}

#[test]
fn a_locked_door_comes_back_locked() {
    let mut world = World::new(START);
    let saved = vec![door(0x4000_0001, 0x1234, true), door(0x4000_0002, 0, true), statue(0x4000_0003)];
    world.restore_decorations(saved.clone());

    assert_eq!(world.decorations[0].lock, Some(LockKind::Key(0x1234)), "a key opens it");
    assert_eq!(world.decorations[1].lock, Some(LockKind::Unopenable), "nothing opens it");
    assert_eq!(world.decorations[2].lock, None);
    assert_eq!(world.decoration_records(), saved, "and the save writes it back as it was");
}

#[test]
fn a_decoration_on_a_facet_this_shard_does_not_load_lands_on_the_default() {
    let mut world = World::new(START);
    let mut far = statue(0x4000_0001);
    far.facet = 4;
    world.restore_decorations(vec![far]);
    assert_eq!(world.decorations[0].facet, 0);
    assert_eq!(world.decoration_records()[0].facet, 0);
}

#[test]
fn a_decoration_whose_serial_already_stands_is_skipped() {
    let mut world = World::new(START);
    world.restore_decorations(vec![statue(0x4000_0001), door(0x4000_0001, 0, false)]);
    assert_eq!(world.decorations.len(), 1);
    assert_eq!(world.decorations[0].graphic, 0x1224, "the first record wins");
    assert_eq!(world.registry.bound, [0x4000_0001]);
}

#[test]
fn an_unlocked_record_that_names_a_key_comes_back_locked() {
    let mut world = World::new(START);
    world.restore_decorations(vec![door(0x4000_0001, 7, false)]);
    let back = world.decoration_records();
    assert!(back[0].locked, "a key is a lock");
    assert_eq!(back[0].key_value, 7);
}

#[test]
fn a_lock_is_two_fields_on_disk() {
    assert_eq!(lock_from(false, 0), None);
    assert_eq!(lock_from(true, 0), Some(LockKind::Unopenable));
    assert_eq!(lock_from(true, 9), Some(LockKind::Key(9)));
    assert_eq!(lock_to_fields(None), (false, 0));
    assert_eq!(lock_to_fields(Some(LockKind::Unopenable)), (true, 0));
    assert_eq!(lock_to_fields(Some(LockKind::Key(9))), (true, 9));
}

#[test]
fn a_shard_with_only_decoration_still_saves_it() {
    let mut world = World::new(START).with_save_every(0);
    world.restore_decorations(vec![statue(0x4000_0001)]);
    world.take_snapshot();
    let saves = world.drain_saves();
    assert_eq!(saves.len(), 1, "decoration alone is worth a save");
    assert_eq!(saves[0].decorations, [statue(0x4000_0001)]);
}

#[test]
fn a_shut_door_seals_its_tile_and_an_open_one_blocks_nobody() {
    let mut world = World::new(START);
    let mut open = door(0x4000_0002, 0, false);
    open.x = 1410;
    if let Some(state) = open.door.as_mut() {
        state.is_open = true;
    }
    world.restore_decorations(vec![door(0x4000_0001, 0, false), open, statue(0x4000_0003)]);
    assert!(world.sealed_at(0, 1400, 1600), "the shut door seals its doorway");
    assert!(!world.sealed_at(0, 1410, 1600), "the open one blocks nobody");
    assert!(!world.sealed_at(1, 1400, 1600), "and only on its own facet");
}
