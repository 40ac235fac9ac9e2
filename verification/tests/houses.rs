use openshard_world::houses::{Blocker, DesignComponent, HouseDesignRecord, HouseRecord, MultiLayout, TileData};
use openshard_world::types::Point;
use openshard_world::world::World;

const START: Point = Point { x: 1495, y: 1629, z: 10 };

fn house(serial: u32) -> HouseRecord {
    HouseRecord {
        serial,
        multi: 0x0064,
        x: 1500,
        y: 1650,
        z: 0,
        facet: 0,
        owner: 1,
        co_owners: vec![2],
        friends: vec![3, 0, 4],
        bans: vec![],
        age: 1234,
        lockdowns: 5,
    }
}

fn row(house: u32, revision: u32, graphic: u16) -> HouseDesignRecord {
    HouseDesignRecord { house, revision, graphic, dx: 1, dy: -1, dz: 0, flags: 0 }
}

#[test]
fn a_house_survives_a_restart_with_its_lists_and_its_design() {
    let mut world = World::new(START);
    world.restore_houses(
        vec![house(0x4000_0001), house(0x4000_0002)],
        vec![row(0x4000_0002, 3, 0x0064), row(0x4000_0009, 1, 0x0001), row(0x4000_0002, 4, 0x0065)],
    );
    assert_eq!(world.houses.len(), 2);
    assert_eq!(world.houses[0].friends, [3, 4], "an unreadable zero is dropped, the rest kept");
    assert!(world.houses[0].design.is_none(), "a classic house has no design");
    let (revision, components) = world.houses[1].design.as_ref().expect("a designed house");
    assert_eq!(*revision, 4, "the last revision saved");
    let graphics: Vec<u16> = components.iter().map(|c| c.graphic).collect();
    assert_eq!(graphics, [0x0064, 0x0065], "its components in the order they were saved");
    assert_eq!(world.registry.bound, [0x4000_0001, 0x4000_0002]);
}

#[test]
fn a_house_whose_serial_is_taken_is_skipped() {
    let mut world = World::new(START);
    world.restore_houses(vec![house(0x4000_0001), house(0x4000_0001)], vec![]);
    assert_eq!(world.houses.len(), 1);
}

#[test]
fn a_save_writes_the_houses_and_their_designs_back() {
    let mut world = World::new(START);
    world.restore_houses(vec![house(0x4000_0002)], vec![row(0x4000_0002, 7, 0x0064), row(0x4000_0002, 7, 0x0065)]);
    let saved = world.house_records();
    assert_eq!(saved.len(), 1);
    assert_eq!(saved[0].serial, 0x4000_0002);
    assert_eq!((saved[0].x, saved[0].y, saved[0].age, saved[0].lockdowns), (1500, 1650, 1234, 5));
    assert_eq!(saved[0].friends, [3, 4]);
    assert_eq!(
        world.house_design_records(),
        [row(0x4000_0002, 7, 0x0064), row(0x4000_0002, 7, 0x0065)],
        "a design read back is the rows it came from"
    );
}

#[test]
fn a_snapshot_carries_the_houses() {
    let mut world = World::new(START).with_save_every(0);
    world.restore_houses(vec![house(0x4000_0001)], vec![row(0x4000_0001, 1, 0x0064)]);
    world.restore_decorations(vec![]);
    world.authenticated(7, 0, "admin".to_owned(), openshard_world::types::AccessLevel::Player);
    world.play_character(7, "nobody".to_owned());
    world.roster.enrol("admin", "Iolo");
    world.play_character(7, "Iolo".to_owned());
    world.take_snapshot();
    let saves = world.drain_saves();
    assert_eq!(saves.len(), 1);
    assert_eq!(saves[0].houses.len(), 1);
    assert_eq!(saves[0].designs, [row(0x4000_0001, 1, 0x0064)]);
}

const COTTAGE: u16 = 0x64;
const WALL: u16 = 0x0006;
const FLOOR: u16 = 0x0007;

/// One multi: two walls and a floor. The floor is here so the restore is
/// asserted to keep dropping it, not merely to add walls; it is the tile
/// data, not this list, that says which of the three is a wall.
fn cottage() -> Vec<MultiLayout> {
    let components = [(WALL, -1), (WALL, 1), (FLOOR, 0)]
        .into_iter()
        .map(|(graphic, dx)| DesignComponent { graphic, dx, dy: 0, dz: 0, flags: 1 })
        .collect();
    vec![MultiLayout { id: COTTAGE, components }]
}

fn walled() -> World {
    World::new(START).with_save_every(0).with_client_files(
        vec![TileData { graphic: WALL, impassable: true, height: 20 }],
        cottage(),
        vec![],
    )
}

#[test]
fn a_house_survives_a_restart_with_its_walls() {
    let at = Point { x: START.x + 5, y: START.y + 5, z: 0 };
    let mut world = walled();
    let mut standing = house(0x4000_0001);
    standing.multi = COTTAGE;
    standing.x = at.x;
    standing.y = at.y;
    standing.z = at.z;
    world.restore_houses(vec![standing], Vec::new());
    let houses = world.house_records();
    assert_eq!(houses.len(), 1);
    assert_eq!(houses[0].serial, 0x4000_0001);
    assert_eq!(houses[0].multi, COTTAGE);
    assert_eq!((houses[0].x, houses[0].y, houses[0].z), (at.x, at.y, at.z));
    assert_eq!(houses[0].owner, 1);

    // The shard comes back up on that save, with the same client files.
    let mut restored = walled();
    restored.restore_houses(houses, Vec::new());
    assert_eq!(restored.houses.len(), 1);
    assert_eq!(restored.houses[0].serial, 0x4000_0001, "the house came back under its own serial");
    assert_eq!(restored.houses[0].multi, COTTAGE);
    let (x, y) = (i32::from(at.x), i32::from(at.y));
    assert!(restored.blocked_at(0, x - 1, y, 0), "a restored house has no walls, so it is a picture and not a building");
    assert!(restored.blocked_at(0, x + 1, y, 0), "the second wall did not come back");
    assert!(!restored.blocked_at(0, x, y, 0), "the floor was folded in on the way back, sealing the house shut");
    assert!(!restored.blocked_at(0, x - 1, y, 20), "a wall is only as tall as its tile");
    assert!(!restored.blocked_at(1, x - 1, y, 0), "and only on its own facet");
}

#[test]
fn a_house_the_files_do_not_know_stands_without_walls() {
    let mut world = World::new(START);
    world.restore_houses(vec![house(0x4000_0001)], Vec::new());
    assert_eq!(world.houses.len(), 1);
    assert!(world.houses[0].walls.is_empty());
}

#[test]
fn a_designed_house_is_walled_by_its_design_not_its_foundation() {
    let mut world = walled();
    world.restore_houses(vec![house(0x4000_0002)], vec![row(0x4000_0002, 1, WALL), row(0x4000_0002, 1, FLOOR)]);
    assert_eq!(world.houses[0].walls, [Blocker { x: 1501, y: 1649, z: 0, height: 20 }]);
}

fn plain_house(serial: u32) -> HouseRecord {
    HouseRecord {
        serial,
        multi: 0x64,
        x: START.x + 5,
        y: START.y + 5,
        z: 0,
        facet: 0,
        owner: 1,
        co_owners: Vec::new(),
        friends: Vec::new(),
        bans: Vec::new(),
        lockdowns: 0,
        age: 0,
    }
}

#[test]
fn a_houses_access_lists_survive_a_restart() {
    let mut world = World::new(START);
    world.restore_houses(
        vec![HouseRecord {
            co_owners: vec![2],
            friends: vec![3],
            // A serial no pool can produce, to prove the filter is a filter and
            // not a silent zero.
            bans: vec![4, 0],
            lockdowns: 208,
            ..plain_house(0x4000_00AA)
        }],
        Vec::new(),
    );
    assert_eq!(world.houses.len(), 1);
    assert_eq!(world.houses[0].co_owners, [2]);
    assert_eq!(world.houses[0].friends, [3]);
    assert_eq!(world.houses[0].bans, [4], "the unreadable serial became a ban on nobody");

    let records = world.house_records();
    assert_eq!(records.len(), 1);
    assert_eq!(records[0].co_owners, vec![2]);
    assert_eq!(records[0].friends, vec![3]);
    assert_eq!(records[0].bans, vec![4]);
}

#[test]
fn a_house_restored_without_client_files_stands_but_stops_nobody() {
    let mut world = World::new(START);
    world.restore_houses(vec![plain_house(0x4000_0099)], Vec::new());
    assert_eq!(world.houses.len(), 1, "the house is still a house");
    assert_eq!(world.houses[0].owner, 1, "the owner was lost with the walls");
    let (x, y) = (i32::from(START.x) + 4, i32::from(START.y) + 5);
    for z in [-20, 0, 10] {
        assert!(!world.blocked_at(0, x, y, z), "a shard with no multi table invented a wall");
    }
}

#[test]
fn a_designed_house_restores_its_own_walls_with_no_client_files() {
    let mut world = World::new(START);
    let wall = HouseDesignRecord { house: 0x4000_00CC, revision: 7, graphic: 0x0006, dx: 1, dy: 0, dz: 0, flags: 1 };
    world.restore_houses(vec![plain_house(0x4000_00CC)], vec![wall]);
    assert_eq!(world.houses.len(), 1);
    let (revision, components) = world.houses[0].design.as_ref().expect("its design came back");
    assert_eq!(*revision, 7, "the cache key did not survive the restart");
    assert_eq!(components.len(), 1);
    assert_eq!(components[0].graphic, 0x0006);
    assert_eq!(components[0].dx, 1);
}

#[test]
fn a_classic_house_writes_no_design_rows() {
    let mut world = World::new(START);
    world.restore_houses(vec![plain_house(0x4000_00CD)], Vec::new());
    assert!(world.houses[0].design.is_none(), "a classic house was given a design");
    assert!(world.house_design_records().is_empty(), "a classic house wrote design rows");
}
